//! Batch-mode configuration and the workspace that answers a one-shot
//! "describe this position" request against a single analysis root.

use crate::codetree::find_unit_index;
use crate::codetree::spec_find_unit;
use crate::codetree::CodeTree;
use crate::symbols::SymbolTable;
use vstd::prelude::*;

verus! {

/// What batch runs start from: the analysis root and the worker count.
pub struct PHPLintConfig {
    pub root_folder: String,
    pub threads: usize,
}

/// One analysis root under a batch configuration.
pub struct Workspace {
    pub config: PHPLintConfig,
    pub codetree: CodeTree,
}

impl Workspace {
    pub open spec fn wf(&self) -> bool {
        self.codetree.wf()
    }

    pub fn new(config: PHPLintConfig) -> (r: Workspace)
        ensures
            r.codetree.root_folder@ == config.root_folder@,
            r.config.threads == config.threads,
            r.config.root_folder@ == config.root_folder@,
            r.codetree.files@.len() == 0,
            r.wf(),
    {
        let root = config.root_folder.clone();
        Workspace { codetree: CodeTree::new(root), config }
    }

    /// Describes a one-based coordinate of a registered file: the hover
    /// text of the smallest node enclosing it. A coordinate below one, a
    /// file the registry does not hold, and a file without a parsed form
    /// are rejected; a coordinate no node encloses is quietly empty.
    pub fn describe_position(&self, filename: &String, lineno: u32, charpos: u32) -> (r: Result<
        Option<String>,
        String,
    >)
        requires
            self.wf(),
        ensures
            r is Err <==> (lineno < 1 || charpos < 1 || spec_find_unit(
                self.codetree.files@,
                filename@,
            ) is None || (spec_find_unit(self.codetree.files@, filename@) matches Some(i)
                && self.codetree.files@[i].unit is None)),
            ({
                let found = spec_find_unit(self.codetree.files@, filename@);
                lineno >= 1 && charpos >= 1 && found is Some ==> match self.codetree.files@[
                    found->Some_0
                ].unit {
                    None => true,
                    Some(u) => match crate::source_unit::spec_probe(
                        u.tree.nodes@,
                        crate::symbols::Point {
                            line: (lineno - 1) as u32,
                            column: (charpos - 1) as u32,
                        },
                    ) {
                        None => r matches Ok(rr) && rr is None,
                        Some(hit) => match u.tree.nodes@[hit.0].description {
                            Some(d) => r matches Ok(rr) && rr matches Some(s) && s@
                                == "FANT VIA ANALYZE: "@ + d@,
                            None => r matches Ok(rr) && rr is None,
                        },
                    },
                }
            }),
    {
        if lineno < 1 {
            return Err("lineno can't be less than 1".to_owned());
        }
        if charpos < 1 {
            return Err("charpos can't be less than 1".to_owned());
        }
        let fi = match find_unit_index(&self.codetree.files, filename) {
            Some(fi) => fi,
            None => {
                return Err("the file is not registered".to_owned());
            },
        };
        let mut scratch: SymbolTable = match &self.codetree.symbol_data {
            Some(t) => t.duplicate(),
            None => SymbolTable::new(),
        };
        proof {
            assert(self.codetree.files@[fi as int].wf());
        }
        self.codetree.files[fi].describe_pos(lineno - 1, charpos - 1, &mut scratch)
    }
}

} // verus!
