//! Source positions, file locations, and the shared symbol table one
//! analysis run accumulates: pass 1 declares symbols, pass 2 resolves
//! them to declaration locations.

use crate::seq_views::lemma_views_index;
use crate::seq_views::lemma_views_len;
use crate::seq_views::lemma_views_push;
use crate::seq_views::lemma_views_update;
use crate::seq_views::views;
use vstd::prelude::*;

verus! {

broadcast use {vstd::seq::group_seq_axioms, vstd::std_specs::vec::group_vec_axioms};

/// A file position: a path and a one-based line number.
pub struct Position {
    pub file: String,
    pub lineno: u32,
}

impl Position {
    pub fn new(f: String, l: u32) -> (r: Position)
        ensures
            r.file@ == f@,
            r.lineno == l,
    {
        Position { file: f, lineno: l }
    }
}

/// A zero-based line/column coordinate inside a file.
#[derive(Clone, Copy, Debug, PartialEq, Eq, Structural)]
pub struct Point {
    pub line: u32,
    pub column: u32,
}

/// A source range inside one file.
#[derive(Debug, PartialEq, Eq)]
pub struct FileLocation {
    pub path: String,
    pub start: Point,
    pub end: Point,
}

/// Ghost counterpart of `FileLocation`.
pub struct FileLocationV {
    pub path: Seq<char>,
    pub start: Point,
    pub end: Point,
}

impl View for FileLocation {
    type V = FileLocationV;

    open spec fn view(&self) -> FileLocationV {
        FileLocationV { path: self.path@, start: self.start, end: self.end }
    }
}

impl FileLocation {
    /// A copy, equal to the original in view.
    pub fn duplicate(&self) -> (r: FileLocation)
        ensures
            r@ == self@,
    {
        FileLocation { path: self.path.clone(), start: self.start, end: self.end }
    }
}

/// A copy of a location list, equal to the original in view.
pub fn clone_locations(locs: &Vec<FileLocation>) -> (r: Vec<FileLocation>)
    ensures
        views(r@) == views(locs@),
{
    let mut out: Vec<FileLocation> = Vec::new();
    let mut i: usize = 0;
    while i < locs.len()
        invariant
            i <= locs.len(),
            views(out@) == views(locs@).take(i as int),
            out@.len() == i,
        decreases locs.len() - i,
    {
        let copied = locs[i].duplicate();
        proof {
            lemma_views_push(out@, copied);
            lemma_views_index(locs@, i as int);
            lemma_views_len(out@);
            assert(views(locs@).take(i as int).push(views(locs@)[i as int]) =~= views(
                locs@,
            ).take(i + 1));
        }
        out.push(copied);
        i = i + 1;
    }
    proof {
        lemma_views_len(locs@);
        assert(views(locs@).take(views(locs@).len() as int) =~= views(locs@));
    }
    out
}

/// One symbol of the table: a name and every location declaring it.
pub struct SymbolEntry {
    pub name: String,
    pub locations: Vec<FileLocation>,
}

impl View for SymbolEntry {
    type V = (Seq<char>, Seq<FileLocationV>);

    open spec fn view(&self) -> (Seq<char>, Seq<FileLocationV>) {
        (self.name@, views(self.locations@))
    }
}

/// The shared symbol table of one analysis run.
pub struct SymbolTable {
    pub entries: Vec<SymbolEntry>,
}

impl View for SymbolTable {
    type V = Seq<(Seq<char>, Seq<FileLocationV>)>;

    open spec fn view(&self) -> Seq<(Seq<char>, Seq<FileLocationV>)> {
        views(self.entries@)
    }
}

/// The table holds each name at most once.
pub open spec fn table_wf(t: Seq<(Seq<char>, Seq<FileLocationV>)>) -> bool {
    forall|i: int, j: int| 0 <= i < j < t.len() ==> t[i].0 != t[j].0
}

/// The name is declared.
pub open spec fn spec_has_symbol(t: Seq<(Seq<char>, Seq<FileLocationV>)>, name: Seq<char>) -> bool {
    exists|i: int| 0 <= i < t.len() && t[i].0 == name
}

/// The declaration locations of a name; empty when undeclared.
pub open spec fn spec_locations(
    t: Seq<(Seq<char>, Seq<FileLocationV>)>,
    name: Seq<char>,
) -> Seq<FileLocationV> {
    if spec_has_symbol(t, name) {
        let i = choose|i: int| 0 <= i < t.len() && t[i].0 == name;
        t[i].1
    } else {
        Seq::empty()
    }
}

/// The table after declaring `name` at `loc`: the location joins the
/// name's entry, a new name gains an entry at the end.
pub open spec fn spec_declare(
    t: Seq<(Seq<char>, Seq<FileLocationV>)>,
    name: Seq<char>,
    loc: FileLocationV,
) -> Seq<(Seq<char>, Seq<FileLocationV>)> {
    if spec_has_symbol(t, name) {
        let i = choose|i: int| 0 <= i < t.len() && t[i].0 == name;
        t.update(i, (name, t[i].1.push(loc)))
    } else {
        t.push((name, seq![loc]))
    }
}

/// The set of declared names.
pub open spec fn spec_declared_names(t: Seq<(Seq<char>, Seq<FileLocationV>)>) -> Set<Seq<char>> {
    Set::new(|n: Seq<char>| spec_has_symbol(t, n))
}

impl SymbolTable {
    pub fn new() -> (r: SymbolTable)
        ensures
            r@ =~= Seq::<(Seq<char>, Seq<FileLocationV>)>::empty(),
            table_wf(r@),
    {
        SymbolTable { entries: Vec::new() }
    }

    /// Declares `name` at `loc`.
    pub fn declare(&mut self, name: String, loc: FileLocation)
        requires
            table_wf(old(self)@),
        ensures
            final(self)@ == spec_declare(old(self)@, name@, loc@),
            table_wf(final(self)@),
            spec_has_symbol(final(self)@, name@),
    {
        let ghost tv = views(self.entries@);
        proof {
            lemma_views_len(self.entries@);
        }
        let mut i: usize = 0;
        while i < self.entries.len()
            invariant
                i <= self.entries.len(),
                self.entries@ == old(self).entries@,
                tv == views(self.entries@),
                tv.len() == self.entries@.len(),
                table_wf(tv),
                forall|p: int| 0 <= p < i ==> tv[p].0 != name@,
            decreases self.entries.len() - i,
        {
            proof {
                lemma_views_index(self.entries@, i as int);
            }
            if self.entries[i].name == name {
                proof {
                    assert(tv[i as int].0 == name@);
                    let chosen = choose|q: int| 0 <= q < tv.len() && tv[q].0 == name@;
                    if chosen != i as int {
                        assert(tv[chosen].0 != tv[i as int].0);
                    }
                    assert(chosen == i as int);
                }
                let mut locs = clone_locations(&self.entries[i].locations);
                proof {
                    lemma_views_push(locs@, loc);
                }
                locs.push(loc);
                let ghost pre = self.entries@;
                self.entries.set(i, SymbolEntry { name, locations: locs });
                proof {
                    lemma_views_update(pre, i as int, self.entries@[i as int]);
                    let updated = tv.update(i as int, (name@, tv[i as int].1.push(loc@)));
                    assert(views(self.entries@) =~~= updated);
                    assert(forall|p: int| 0 <= p < updated.len() ==> updated[p].0 == tv[p].0);
                    assert(updated[i as int].0 == name@);
                }
                return ;
            }
            i = i + 1;
        }
        proof {
            assert(forall|p: int| 0 <= p < tv.len() ==> tv[p].0 != name@);
            assert(!spec_has_symbol(tv, name@));
        }
        let mut locs: Vec<FileLocation> = Vec::new();
        proof {
            lemma_views_push(Seq::empty(), loc);
        }
        locs.push(loc);
        let entry = SymbolEntry { name, locations: locs };
        proof {
            lemma_views_push(self.entries@, entry);
            let pushed = tv.push(entry@);
            assert(views(locs@) =~= seq![loc@]);
            assert(pushed =~~= spec_declare(tv, name@, loc@));
            assert forall|a: int, b: int| 0 <= a < b < pushed.len() implies pushed[a].0
                != pushed[b].0 by {
                if b == pushed.len() - 1 {
                    assert(pushed[a] == tv[a]);
                }
            }
            assert(pushed[pushed.len() - 1].0 == name@);
        }
        self.entries.push(entry);
    }

    /// A copy of the whole table, equal to the original in view.
    pub fn duplicate(&self) -> (r: SymbolTable)
        ensures
            r@ == self@,
    {
        let mut entries: Vec<SymbolEntry> = Vec::new();
        let mut i: usize = 0;
        proof {
            lemma_views_len(self.entries@);
        }
        while i < self.entries.len()
            invariant
                i <= self.entries@.len(),
                views(self.entries@).len() == self.entries@.len(),
                views(entries@) == views(self.entries@).take(i as int),
                entries@.len() == i,
            decreases self.entries.len() - i,
        {
            let e = &self.entries[i];
            let copied = SymbolEntry {
                name: e.name.clone(),
                locations: clone_locations(&e.locations),
            };
            proof {
                lemma_views_push(entries@, copied);
                lemma_views_index(self.entries@, i as int);
                lemma_views_len(entries@);
                assert(views(self.entries@).take(i as int).push(views(self.entries@)[i as int])
                    =~= views(self.entries@).take(i + 1));
            }
            entries.push(copied);
            i = i + 1;
        }
        proof {
            assert(views(self.entries@).take(self.entries@.len() as int) =~= views(
                self.entries@,
            ));
        }
        SymbolTable { entries }
    }

    /// Whether `name` is declared.
    pub fn contains(&self, name: &String) -> (r: bool)
        ensures
            r == spec_has_symbol(self@, name@),
    {
        let ghost tv = views(self.entries@);
        proof {
            lemma_views_len(self.entries@);
        }
        let mut i: usize = 0;
        while i < self.entries.len()
            invariant
                i <= self.entries.len(),
                tv == views(self.entries@),
                tv.len() == self.entries@.len(),
                forall|p: int| 0 <= p < i ==> tv[p].0 != name@,
            decreases self.entries.len() - i,
        {
            proof {
                lemma_views_index(self.entries@, i as int);
            }
            if self.entries[i].name == *name {
                proof {
                    assert(tv[i as int].0 == name@);
                }
                return true;
            }
            i = i + 1;
        }
        proof {
            assert(forall|p: int| 0 <= p < tv.len() ==> tv[p].0 != name@);
        }
        false
    }

    /// Every location declaring `name`; empty when undeclared.
    pub fn resolve(&self, name: &String) -> (r: Vec<FileLocation>)
        requires
            table_wf(self@),
        ensures
            views(r@) == spec_locations(self@, name@),
    {
        let ghost tv = views(self.entries@);
        proof {
            lemma_views_len(self.entries@);
        }
        let mut i: usize = 0;
        while i < self.entries.len()
            invariant
                i <= self.entries.len(),
                tv == views(self.entries@),
                tv.len() == self.entries@.len(),
                table_wf(tv),
                forall|p: int| 0 <= p < i ==> tv[p].0 != name@,
            decreases self.entries.len() - i,
        {
            proof {
                lemma_views_index(self.entries@, i as int);
            }
            if self.entries[i].name == *name {
                proof {
                    assert(tv[i as int].0 == name@);
                    let chosen = choose|q: int| 0 <= q < tv.len() && tv[q].0 == name@;
                    if chosen != i as int {
                        assert(tv[chosen].0 != tv[i as int].0);
                    }
                    assert(chosen == i as int);
                }
                return clone_locations(&self.entries[i].locations);
            }
            i = i + 1;
        }
        proof {
            assert(forall|p: int| 0 <= p < tv.len() ==> tv[p].0 != name@);
            assert(!spec_has_symbol(tv, name@));
        }
        Vec::new()
    }
}

} // verus!
