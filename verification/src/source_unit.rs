//! One source file's cached, lazily installed parsed form, the position
//! probe over its syntax tree, and the feature walks (hover, symbols,
//! go-to-declaration, go-to-type-definition) that share the probe's
//! ancestor chain.
//!
//! The probe finds the smallest node whose range holds a coordinate by
//! descending from the root into the first child that holds it, and
//! hands every feature the chain of nodes from the root down to, but not
//! including, the hit node. Each feature walks that chain outward from
//! the hit, looking for a node kind it understands, some aborting early
//! at a boundary kind.

use crate::seq_views::lemma_views_index;
use crate::seq_views::lemma_views_len;
use crate::seq_views::lemma_views_push;
use crate::seq_views::views;
use crate::symbols::spec_locations;
use crate::symbols::table_wf;
use crate::symbols::FileLocation;
use crate::symbols::FileLocationV;
use crate::symbols::Point;
use crate::symbols::SymbolTable;
use crate::type_defs::clone_type_definition;
use crate::type_defs::cts_v;
use crate::type_defs::lemma_cts_v_index;
use crate::type_defs::lemma_cts_v_len;
use crate::type_defs::PTypeV;
use crate::type_defs::TypeDefV;
use crate::type_defs::TypeDefinition;
use crate::type_parser::lemma_strs_v_index;
use crate::type_parser::lemma_strs_v_len;
use crate::type_parser::strs_v;
use vstd::prelude::*;

verus! {

broadcast use {vstd::seq::group_seq_axioms, vstd::std_specs::vec::group_vec_axioms};

/// The syntax-node kinds the query features distinguish.
#[derive(Clone, Copy, Debug, PartialEq, Eq, Structural)]
pub enum NodeKind {
    ClassDeclaration,
    MethodDeclaration,
    MemberCallExpression,
    MemberAccessExpression,
    ScopedCallExpression,
    BaseClause,
    Name,
    Literal,
    ExpressionStatement,
    Other,
}

/// One node of a file's syntax tree. Children are indices into the
/// tree's node list, each greater than the node's own index.
pub struct SyntaxNode {
    pub kind: NodeKind,
    pub start: Point,
    pub end: Point,
    pub children: Vec<usize>,
    /// The symbols a member call or access resolves to.
    pub symbols: Vec<String>,
    /// The node's inferred or declared type, where one is known.
    pub node_type: Option<TypeDefinition>,
    /// The hover description of the node, where one is known.
    pub description: Option<String>,
}

/// A file's syntax tree; node 0 is the root of a non-empty tree.
pub struct SyntaxTree {
    pub nodes: Vec<SyntaxNode>,
}

pub open spec fn point_le(a: Point, b: Point) -> bool {
    a.line < b.line || (a.line == b.line && a.column <= b.column)
}

pub open spec fn point_lt(a: Point, b: Point) -> bool {
    a.line < b.line || (a.line == b.line && a.column < b.column)
}

/// A node's range holds the coordinate: at or after the start, strictly
/// before the end.
pub open spec fn node_contains(n: SyntaxNode, p: Point) -> bool {
    point_le(n.start, p) && point_lt(p, n.end)
}

/// Every child index points further right in the node list.
pub open spec fn tree_wf(nodes: Seq<SyntaxNode>) -> bool {
    forall|i: int, j: int|
        0 <= i < nodes.len() && 0 <= j < nodes[i].children@.len() ==> i < #[trigger] nodes[i].children@[j]
            < nodes.len()
}

/// The first child of node `i`, from child position `k` on, whose range
/// holds `p`.
pub open spec fn first_child_at(nodes: Seq<SyntaxNode>, i: int, k: int, p: Point) -> Option<int>
    decreases (if 0 <= i < nodes.len() {
        nodes[i].children@.len() as int
    } else {
        0
    }) - k,
{
    if !(0 <= i < nodes.len()) || k < 0 || k >= nodes[i].children@.len() {
        None
    } else {
        let c = nodes[i].children@[k] as int;
        if 0 <= c < nodes.len() && node_contains(nodes[c], p) {
            Some(c)
        } else {
            first_child_at(nodes, i, k + 1, p)
        }
    }
}

/// The chain of nodes visited descending from `i` to the smallest node
/// holding `p`: node `i` first, the hit node last.
pub open spec fn spec_descend(nodes: Seq<SyntaxNode>, i: int, p: Point) -> Seq<int>
    decreases nodes.len() - i,
{
    if !(0 <= i < nodes.len()) {
        Seq::empty()
    } else {
        match first_child_at(nodes, i, 0, p) {
            Some(c) => if i < c < nodes.len() {
                seq![i] + spec_descend(nodes, c, p)
            } else {
                seq![i]
            },
            None => seq![i],
        }
    }
}

/// What a probe at `p` finds: the smallest node holding `p` and the
/// chain from the root down to, but not including, that node; nothing
/// when no node holds `p`.
pub open spec fn spec_probe(nodes: Seq<SyntaxNode>, p: Point) -> Option<(int, Seq<int>)> {
    if nodes.len() == 0 || !node_contains(nodes[0], p) {
        None
    } else {
        let d = spec_descend(nodes, 0, p);
        Some((d.last(), d.drop_last()))
    }
}

/// The indices as mathematical integers.
pub open spec fn idxs(s: Seq<usize>) -> Seq<int> {
    s.map_values(|x: usize| x as int)
}

impl SyntaxTree {
    pub open spec fn wf(&self) -> bool {
        tree_wf(self.nodes@)
    }

    /// Finds the smallest node holding the coordinate, with the ancestor
    /// chain from the root down to (excluding) it; `None` when no node
    /// holds the coordinate.
    pub fn probe_at(&self, line: u32, column: u32) -> (r: Option<(usize, Vec<usize>)>)
        requires
            self.wf(),
        ensures
            probe_post(self.nodes@, Point { line, column }, r),
    {
        let p = Point { line, column };
        if self.nodes.len() == 0 {
            return None;
        }
        if !contains_exec(&self.nodes[0], p) {
            return None;
        }
        let mut path: Vec<usize> = Vec::new();
        let mut cur: usize = 0;
        loop
            invariant_except_break
                cur < self.nodes@.len(),
                self.wf(),
                spec_descend(self.nodes@, 0, p) == idxs(path@) + spec_descend(
                    self.nodes@,
                    cur as int,
                    p,
                ),
            ensures
                cur < self.nodes@.len(),
                spec_descend(self.nodes@, 0, p) == idxs(path@).push(cur as int),
            decreases self.nodes@.len() - cur,
        {
            let node = &self.nodes[cur];
            let mut k: usize = 0;
            let mut found: Option<usize> = None;
            while k < node.children.len()
                invariant_except_break
                    found is None,
                    first_child_at(self.nodes@, cur as int, 0, p) == first_child_at(
                        self.nodes@,
                        cur as int,
                        k as int,
                        p,
                    ),
                invariant
                    k <= node.children@.len(),
                    node == &self.nodes@[cur as int],
                    cur < self.nodes@.len(),
                    self.wf(),
                ensures
                    node == &self.nodes@[cur as int],
                    match found {
                        Some(c) => first_child_at(self.nodes@, cur as int, 0, p) == Some(
                            c as int,
                        ) && cur < c < self.nodes@.len(),
                        None => first_child_at(self.nodes@, cur as int, 0, p) is None,
                    },
                decreases node.children@.len() - k,
            {
                let c = node.children[k];
                proof {
                    assert(cur < self.nodes@[cur as int].children@[k as int] < self.nodes@.len());
                }
                if contains_exec(&self.nodes[c], p) {
                    found = Some(c);
                    break;
                }
                k = k + 1;
            }
            match found {
                Some(c) => {
                    proof {
                        assert(idxs(path@.push(cur)) =~= idxs(path@).push(cur as int));
                        assert((idxs(path@) + seq![cur as int]) + spec_descend(
                            self.nodes@,
                            c as int,
                            p,
                        ) =~= idxs(path@) + (seq![cur as int] + spec_descend(
                            self.nodes@,
                            c as int,
                            p,
                        )));
                    }
                    path.push(cur);
                    cur = c;
                },
                None => {
                    proof {
                        assert(spec_descend(self.nodes@, cur as int, p) =~= seq![cur as int]);
                        assert(idxs(path@) + seq![cur as int] =~= idxs(path@).push(cur as int));
                    }
                    break;
                },
            }
        }
        proof {
            let d = spec_descend(self.nodes@, 0, p);
            assert(d.last() == cur as int);
            assert(d.drop_last() =~= idxs(path@));
        }
        Some((cur, path))
    }
}

/// Whether the node's range holds the coordinate.
pub fn contains_exec(n: &SyntaxNode, p: Point) -> (r: bool)
    ensures
        r == node_contains(*n, p),
{
    let ge_start = n.start.line < p.line || (n.start.line == p.line && n.start.column <= p.column);
    let lt_end = p.line < n.end.line || (p.line == n.end.line && p.column < n.end.column);
    ge_start && lt_end
}

/// A member call or access: the kinds that carry resolvable symbols.
pub open spec fn symbol_kind(k: NodeKind) -> bool {
    k is MemberCallExpression || k is MemberAccessExpression
}

/// The kinds whose inferred type the type-definition walk accepts.
pub open spec fn type_kind(k: NodeKind) -> bool {
    k is Literal || k is Name || k is ExpressionStatement || k is MemberCallExpression
        || k is MemberAccessExpression || k is ScopedCallExpression
}

/// The symbols found walking outward from position `k` of the chain.
pub open spec fn spec_symbols_walk(nodes: Seq<SyntaxNode>, path: Seq<int>, k: int) -> Option<
    Seq<Seq<char>>,
>
    decreases k + 1,
{
    if k < 0 || k >= path.len() {
        None
    } else {
        let idx = path[k];
        if 0 <= idx < nodes.len() && symbol_kind(nodes[idx].kind) {
            Some(strs_v(nodes[idx].symbols@))
        } else {
            spec_symbols_walk(nodes, path, k - 1)
        }
    }
}

/// The symbols at a probe hit: the hit node's own, or the first
/// symbol-carrying ancestor's, walking outward.
pub open spec fn spec_symbols_at(nodes: Seq<SyntaxNode>, hit: int, path: Seq<int>) -> Option<
    Seq<Seq<char>>,
> {
    if 0 <= hit < nodes.len() && symbol_kind(nodes[hit].kind) {
        Some(strs_v(nodes[hit].symbols@))
    } else {
        spec_symbols_walk(nodes, path, path.len() - 1)
    }
}

/// The symbols a position refers to, hit node first, then ancestors.
pub fn symbols_at(tree: &SyntaxTree, hit: usize, path: &Vec<usize>) -> (r: Option<Vec<String>>)
    requires
        hit < tree.nodes@.len(),
        forall|k: int| 0 <= k < path@.len() ==> path@[k] < tree.nodes@.len(),
    ensures
        match r {
            Some(syms) => spec_symbols_at(tree.nodes@, hit as int, idxs(path@)) == Some(
                strs_v(syms@),
            ),
            None => spec_symbols_at(tree.nodes@, hit as int, idxs(path@)) is None,
        },
{
    let is_sym = matches!(tree.nodes[hit].kind, NodeKind::MemberCallExpression)
        || matches!(tree.nodes[hit].kind, NodeKind::MemberAccessExpression);
    if is_sym {
        return Some(clone_strings(&tree.nodes[hit].symbols));
    }
    let mut k: usize = path.len();
    while k > 0
        invariant
            k <= path@.len(),
            hit < tree.nodes@.len(),
            !symbol_kind(tree.nodes@[hit as int].kind),
            forall|q: int| 0 <= q < path@.len() ==> path@[q] < tree.nodes@.len(),
            spec_symbols_walk(tree.nodes@, idxs(path@), idxs(path@).len() - 1)
                == spec_symbols_walk(tree.nodes@, idxs(path@), k - 1),
        decreases k,
    {
        let idx = path[k - 1];
        proof {
            assert(idxs(path@)[k - 1] == idx as int);
        }
        let is_sym2 = matches!(tree.nodes[idx].kind, NodeKind::MemberCallExpression)
            || matches!(tree.nodes[idx].kind, NodeKind::MemberAccessExpression);
        if is_sym2 {
            return Some(clone_strings(&tree.nodes[idx].symbols));
        }
        k = k - 1;
    }
    None
}

/// A copy of a string list, equal to the original in view.
pub fn clone_strings(v: &Vec<String>) -> (r: Vec<String>)
    ensures
        strs_v(r@) == strs_v(v@),
{
    let mut out: Vec<String> = Vec::new();
    let mut i: usize = 0;
    while i < v.len()
        invariant
            i <= v.len(),
            strs_v(out@) == strs_v(v@).take(i as int),
            out@.len() == i,
        decreases v.len() - i,
    {
        let copied = v[i].clone();
        proof {
            crate::type_parser::lemma_strs_v_push(out@, copied);
            lemma_strs_v_index(v@, i as int);
            lemma_strs_v_len(out@);
            assert(strs_v(v@).take(i as int).push(strs_v(v@)[i as int]) =~= strs_v(v@).take(
                i + 1,
            ));
        }
        out.push(copied);
        i = i + 1;
    }
    proof {
        lemma_strs_v_len(v@);
        assert(strs_v(v@).take(strs_v(v@).len() as int) =~= strs_v(v@));
    }
    out
}

/// The declaration locations of each symbol, in symbol order.
pub open spec fn spec_locs_for_symbols(
    t: Seq<(Seq<char>, Seq<FileLocationV>)>,
    syms: Seq<Seq<char>>,
) -> Seq<FileLocationV>
    decreases syms.len(),
{
    if syms.len() == 0 {
        Seq::empty()
    } else {
        spec_locations(t, syms[0]) + spec_locs_for_symbols(t, syms.skip(1))
    }
}

/// What the go-to-declaration walk yields from position `k` outward: the
/// resolved locations of the first call node, nothing past an enclosing
/// method declaration.
pub open spec fn spec_decl_walk(
    nodes: Seq<SyntaxNode>,
    t: Seq<(Seq<char>, Seq<FileLocationV>)>,
    path: Seq<int>,
    k: int,
) -> Seq<FileLocationV>
    decreases k + 1,
{
    if k < 0 || k >= path.len() {
        Seq::empty()
    } else {
        let idx = path[k];
        if !(0 <= idx < nodes.len()) {
            Seq::empty()
        } else if nodes[idx].kind is ScopedCallExpression || nodes[idx].kind
            is MemberCallExpression {
            spec_locs_for_symbols(t, strs_v(nodes[idx].symbols@))
        } else if nodes[idx].kind is MethodDeclaration {
            Seq::empty()
        } else {
            spec_decl_walk(nodes, t, path, k - 1)
        }
    }
}

pub proof fn lemma_locs_for_symbols_snoc(
    t: Seq<(Seq<char>, Seq<FileLocationV>)>,
    syms: Seq<Seq<char>>,
    x: Seq<char>,
)
    ensures
        spec_locs_for_symbols(t, syms.push(x)) == spec_locs_for_symbols(t, syms)
            + spec_locations(t, x),
    decreases syms.len(),
{
    if syms.len() == 0 {
        assert(syms.push(x)[0] == x);
        assert(syms.push(x).skip(1) =~= Seq::<Seq<char>>::empty());
        assert(spec_locs_for_symbols(t, syms.push(x)) == spec_locations(t, x)
            + spec_locs_for_symbols(t, Seq::<Seq<char>>::empty()));
        assert(spec_locations(t, x) + Seq::<FileLocationV>::empty() =~= spec_locations(t, x));
        assert(Seq::<FileLocationV>::empty() + spec_locations(t, x) =~= spec_locations(t, x));
        assert(spec_locs_for_symbols(t, syms.push(x)) =~= spec_locs_for_symbols(t, syms)
            + spec_locations(t, x));
    } else {
        assert(syms.push(x)[0] == syms[0]);
        assert(syms.push(x).skip(1) =~= syms.skip(1).push(x));
        assert(spec_locs_for_symbols(t, syms.push(x)) == spec_locations(t, syms[0])
            + spec_locs_for_symbols(t, syms.skip(1).push(x)));
        lemma_locs_for_symbols_snoc(t, syms.skip(1), x);
        assert(spec_locations(t, syms[0]) + (spec_locs_for_symbols(t, syms.skip(1))
            + spec_locations(t, x)) =~= (spec_locations(t, syms[0]) + spec_locs_for_symbols(
            t,
            syms.skip(1),
        )) + spec_locations(t, x));
        assert(spec_locs_for_symbols(t, syms.push(x)) =~= spec_locs_for_symbols(t, syms)
            + spec_locations(t, x));
    }
}

/// Moves a copy of every location of `extra` to the end of `out`.
pub fn append_locations(out: &mut Vec<FileLocation>, extra: &Vec<FileLocation>)
    ensures
        views(final(out)@) == views(old(out)@) + views(extra@),
{
    let mut i: usize = 0;
    proof {
        lemma_views_len(extra@);
        assert(views(extra@).take(0) =~= Seq::<FileLocationV>::empty());
        assert(views(old(out)@) + Seq::<FileLocationV>::empty() =~= views(old(out)@));
    }
    while i < extra.len()
        invariant
            i <= extra.len(),
            views(extra@).len() == extra@.len(),
            views(out@) =~= views(old(out)@) + views(extra@).take(i as int),
        decreases extra.len() - i,
    {
        let copied = extra[i].duplicate();
        proof {
            lemma_views_push(out@, copied);
            lemma_views_index(extra@, i as int);
            assert((views(old(out)@) + views(extra@).take(i as int)).push(
                views(extra@)[i as int],
            ) =~= views(old(out)@) + views(extra@).take(i + 1));
        }
        out.push(copied);
        i = i + 1;
    }
    proof {
        assert(views(extra@).take(extra@.len() as int) =~= views(extra@));
    }
}

/// Resolves each symbol and concatenates the locations, in symbol order.
pub fn locations_for_symbols(table: &SymbolTable, syms: &Vec<String>) -> (r: Vec<FileLocation>)
    requires
        table_wf(table@),
    ensures
        views(r@) == spec_locs_for_symbols(table@, strs_v(syms@)),
{
    let mut out: Vec<FileLocation> = Vec::new();
    let mut i: usize = 0;
    proof {
        lemma_strs_v_len(syms@);
        assert(views(out@) =~= Seq::<FileLocationV>::empty());
        assert(strs_v(syms@).take(0) =~= Seq::<Seq<char>>::empty());
    }
    while i < syms.len()
        invariant
            i <= syms.len(),
            table_wf(table@),
            strs_v(syms@).len() == syms@.len(),
            views(out@) =~= spec_locs_for_symbols(table@, strs_v(syms@).take(i as int)),
        decreases syms.len() - i,
    {
        let locs = table.resolve(&syms[i]);
        proof {
            lemma_strs_v_index(syms@, i as int);
            lemma_locs_for_symbols_snoc(
                table@,
                strs_v(syms@).take(i as int),
                strs_v(syms@)[i as int],
            );
            assert(strs_v(syms@).take(i as int).push(strs_v(syms@)[i as int]) =~= strs_v(
                syms@,
            ).take(i + 1));
        }
        append_locations(&mut out, &locs);
        i = i + 1;
    }
    proof {
        assert(strs_v(syms@).take(syms@.len() as int) =~= strs_v(syms@));
    }
    out
}

/// The go-to-declaration walk over the ancestor chain: the hit node is
/// not consulted, a call node yields its symbols' declaration locations,
/// an enclosing method declaration ends the search empty.
pub fn declaration_locations(tree: &SyntaxTree, path: &Vec<usize>, table: &SymbolTable) -> (r: Vec<
    FileLocation,
>)
    requires
        table_wf(table@),
        forall|k: int| 0 <= k < path@.len() ==> path@[k] < tree.nodes@.len(),
    ensures
        views(r@) == spec_decl_walk(tree.nodes@, table@, idxs(path@), idxs(path@).len() - 1),
{
    let mut k: usize = path.len();
    while k > 0
        invariant
            k <= path@.len(),
            table_wf(table@),
            forall|q: int| 0 <= q < path@.len() ==> path@[q] < tree.nodes@.len(),
            spec_decl_walk(tree.nodes@, table@, idxs(path@), idxs(path@).len() - 1)
                == spec_decl_walk(tree.nodes@, table@, idxs(path@), k - 1),
        decreases k,
    {
        let idx = path[k - 1];
        proof {
            assert(idxs(path@)[k - 1] == idx as int);
        }
        let is_call = matches!(tree.nodes[idx].kind, NodeKind::ScopedCallExpression) || matches!(
            tree.nodes[idx].kind,
            NodeKind::MemberCallExpression,
        );
        if is_call {
            return locations_for_symbols(table, &tree.nodes[idx].symbols);
        }
        let is_boundary = matches!(tree.nodes[idx].kind, NodeKind::MethodDeclaration);
        if is_boundary {
            return Vec::new();
        }
        k = k - 1;
    }
    Vec::new()
}

/// What the go-to-type-definition walk yields from position `k` of the
/// chain outward: the first ancestor's known type among the kinds that
/// carry one; below an extends clause, the hit name's own type.
pub open spec fn spec_type_walk(
    nodes: Seq<SyntaxNode>,
    hit: int,
    path: Seq<int>,
    k: int,
) -> Option<TypeDefV>
    decreases k + 1,
{
    if k < 0 || k >= path.len() {
        None
    } else {
        let idx = path[k];
        if !(0 <= idx < nodes.len()) {
            None
        } else if nodes[idx].kind is BaseClause {
            if 0 <= hit < nodes.len() && nodes[hit].kind is Name && nodes[hit].node_type is Some {
                Some(nodes[hit].node_type->0@)
            } else {
                spec_type_walk(nodes, hit, path, k - 1)
            }
        } else if type_kind(nodes[idx].kind) && nodes[idx].node_type is Some {
            Some(nodes[idx].node_type->0@)
        } else {
            spec_type_walk(nodes, hit, path, k - 1)
        }
    }
}

/// The type at a probe hit, walking the ancestor chain outward.
pub fn type_definition_at(tree: &SyntaxTree, hit: usize, path: &Vec<usize>) -> (r: Option<
    TypeDefinition,
>)
    requires
        hit < tree.nodes@.len(),
        forall|k: int| 0 <= k < path@.len() ==> path@[k] < tree.nodes@.len(),
    ensures
        match r {
            Some(d) => spec_type_walk(tree.nodes@, hit as int, idxs(path@), idxs(path@).len() - 1)
                == Some(d@),
            None => spec_type_walk(tree.nodes@, hit as int, idxs(path@), idxs(path@).len() - 1)
                is None,
        },
{
    let mut k: usize = path.len();
    while k > 0
        invariant
            k <= path@.len(),
            hit < tree.nodes@.len(),
            forall|q: int| 0 <= q < path@.len() ==> path@[q] < tree.nodes@.len(),
            spec_type_walk(tree.nodes@, hit as int, idxs(path@), idxs(path@).len() - 1)
                == spec_type_walk(tree.nodes@, hit as int, idxs(path@), k - 1),
        decreases k,
    {
        let idx = path[k - 1];
        proof {
            assert(idxs(path@)[k - 1] == idx as int);
        }
        let is_base = matches!(tree.nodes[idx].kind, NodeKind::BaseClause);
        if is_base {
            let hit_is_name = matches!(tree.nodes[hit].kind, NodeKind::Name);
            if hit_is_name {
                match &tree.nodes[hit].node_type {
                    Some(d) => {
                        return Some(clone_type_definition(d));
                    },
                    None => {},
                }
            }
        } else {
            let yields = matches!(
                tree.nodes[idx].kind,
                NodeKind::Literal | NodeKind::Name | NodeKind::ExpressionStatement
                    | NodeKind::MemberCallExpression | NodeKind::MemberAccessExpression
                    | NodeKind::ScopedCallExpression,
            );
            if yields {
                match &tree.nodes[idx].node_type {
                    Some(d) => {
                        return Some(clone_type_definition(d));
                    },
                    None => {},
                }
            }
        }
        k = k - 1;
    }
    None
}

/// The declaration locations of each class member of a type, in member
/// order; non-class members contribute nothing.
pub open spec fn spec_locs_for_members(
    t: Seq<(Seq<char>, Seq<FileLocationV>)>,
    members: Seq<crate::type_defs::ConcreteTypeV>,
) -> Seq<FileLocationV>
    decreases members.len(),
{
    if members.len() == 0 {
        Seq::empty()
    } else {
        (match members[0].ptype {
            PTypeV::Class(name, ns) => spec_locations(t, name),
            _ => Seq::empty(),
        }) + spec_locs_for_members(t, members.skip(1))
    }
}

/// Resolves the class members of a type to their declaration locations.
pub fn locations_for_type(table: &SymbolTable, td: &TypeDefinition) -> (r: Vec<FileLocation>)
    requires
        table_wf(table@),
    ensures
        views(r@) == spec_locs_for_members(table@, td@.types),
{
    let mut out: Vec<FileLocation> = Vec::new();
    let mut i: usize = 0;
    proof {
        lemma_cts_v_len(td.types@);
        assert(cts_v(td.types@).skip(0) =~= cts_v(td.types@));
        assert(views(out@) =~= Seq::<FileLocationV>::empty());
        assert(Seq::<FileLocationV>::empty() + spec_locs_for_members(table@, cts_v(td.types@))
            =~= spec_locs_for_members(table@, cts_v(td.types@)));
    }
    while i < td.types.len()
        invariant
            i <= td.types.len(),
            table_wf(table@),
            cts_v(td.types@).len() == td.types@.len(),
            views(out@) + spec_locs_for_members(table@, cts_v(td.types@).skip(i as int))
                =~= spec_locs_for_members(table@, cts_v(td.types@)),
        decreases td.types.len() - i,
    {
        let ghost members = cts_v(td.types@);
        proof {
            lemma_cts_v_index(td.types@, i as int);
            assert(members.skip(i as int)[0] == members[i as int]);
            assert(members.skip(i as int).skip(1) =~= members.skip(i + 1));
        }
        match &td.types[i].ptype {
            crate::type_defs::PType::Class(name, _ns) => {
                let locs = table.resolve(name);
                let ghost pre = views(out@);
                append_locations(&mut out, &locs);
                proof {
                    assert((pre + views(locs@)) + spec_locs_for_members(
                        table@,
                        members.skip(i + 1),
                    ) =~= pre + (views(locs@) + spec_locs_for_members(table@, members.skip(i + 1))));
                }
            },
            _ => {
                proof {
                    assert(Seq::<FileLocationV>::empty() + spec_locs_for_members(
                        table@,
                        members.skip(i + 1),
                    ) =~= spec_locs_for_members(table@, members.skip(i + 1)));
                }
            },
        }
        i = i + 1;
    }
    proof {
        assert(cts_v(td.types@).skip(td.types@.len() as int) =~= Seq::<
            crate::type_defs::ConcreteTypeV,
        >::empty());
        assert(views(out@) + Seq::<FileLocationV>::empty() =~= views(out@));
    }
    out
}

/// The hover text at a probe hit: the hit node's description.
pub fn hover_text(tree: &SyntaxTree, hit: usize) -> (r: Option<String>)
    requires
        hit < tree.nodes@.len(),
    ensures
        match r {
            Some(s) => tree.nodes@[hit as int].description matches Some(d) && s@ == d@,
            None => tree.nodes@[hit as int].description is None,
        },
{
    match &tree.nodes[hit].description {
        Some(d) => Some(d.clone()),
        None => None,
    }
}

/// A named symbol occurrence: a declaration or a reference at a location.
pub struct SymbolOccurrence {
    pub name: String,
    pub location: FileLocation,
}

impl View for SymbolOccurrence {
    type V = (Seq<char>, FileLocationV);

    open spec fn view(&self) -> (Seq<char>, FileLocationV) {
        (self.name@, self.location@)
    }
}

/// What the per-file analyzer extracted from one file: its syntax tree,
/// the symbols it declares, and the symbols it references.
pub struct ParsedUnit {
    pub tree: SyntaxTree,
    pub declarations: Vec<SymbolOccurrence>,
    pub references: Vec<SymbolOccurrence>,
}

/// The table after declaring every occurrence, in order.
pub open spec fn spec_declare_all(
    t: Seq<(Seq<char>, Seq<FileLocationV>)>,
    ds: Seq<SymbolOccurrence>,
) -> Seq<(Seq<char>, Seq<FileLocationV>)>
    decreases ds.len(),
{
    if ds.len() == 0 {
        t
    } else {
        spec_declare_all(
            crate::symbols::spec_declare(t, ds[0].name@, ds[0].location@),
            ds.skip(1),
        )
    }
}

/// The diagnostic reported for a reference no declaration matches.
pub open spec fn spec_unresolved_diag(r: SymbolOccurrence) -> crate::diagnostics::DiagnosticV {
    crate::diagnostics::DiagnosticV {
        severity: crate::diagnostics::Severity::Error,
        location: r.location@,
        message: "unresolved symbol "@ + r.name@,
        kind: KIND_UNRESOLVED_SYMBOL,
    }
}

/// The diagnostics of the resolution pass: one per reference whose name
/// the table does not hold, in reference order.
pub open spec fn spec_unresolved(
    t: Seq<(Seq<char>, Seq<FileLocationV>)>,
    refs: Seq<SymbolOccurrence>,
) -> Seq<crate::diagnostics::DiagnosticV>
    decreases refs.len(),
{
    if refs.len() == 0 {
        Seq::empty()
    } else {
        (if !crate::symbols::spec_has_symbol(t, refs[0].name@) {
            seq![spec_unresolved_diag(refs[0])]
        } else {
            Seq::empty()
        }) + spec_unresolved(t, refs.skip(1))
    }
}

/// The identity discriminator of an unresolved-symbol diagnostic.
pub const KIND_UNRESOLVED_SYMBOL: u32 = 1;

impl ParsedUnit {
    pub open spec fn wf(&self) -> bool {
        tree_wf(self.tree.nodes@)
    }

    /// The declaration pass: enters every declared symbol into the
    /// shared table.
    pub fn run_declaration_pass(&self, table: &mut SymbolTable)
        requires
            table_wf(old(table)@),
        ensures
            final(table)@ == spec_declare_all(old(table)@, self.declarations@),
            table_wf(final(table)@),
    {
        let mut i: usize = 0;
        proof {
            assert(self.declarations@.skip(0) =~= self.declarations@);
        }
        while i < self.declarations.len()
            invariant
                i <= self.declarations@.len(),
                table_wf(table@),
                spec_declare_all(old(table)@, self.declarations@) == spec_declare_all(
                    table@,
                    self.declarations@.skip(i as int),
                ),
            decreases self.declarations.len() - i,
        {
            let d = &self.declarations[i];
            proof {
                assert(self.declarations@.skip(i as int)[0] == self.declarations@[i as int]);
                assert(self.declarations@.skip(i as int).skip(1) =~= self.declarations@.skip(
                    i + 1,
                ));
            }
            table.declare(d.name.clone(), d.location.duplicate());
            i = i + 1;
        }
        proof {
            assert(self.declarations@.skip(self.declarations@.len() as int) =~= Seq::<
                SymbolOccurrence,
            >::empty());
        }
    }

    /// The resolution pass: reports every reference the finished table
    /// does not resolve.
    pub fn run_resolution_pass(&self, table: &SymbolTable) -> (r: Vec<
        crate::diagnostics::Diagnostic,
    >)
        ensures
            views(r@) == spec_unresolved(table@, self.references@),
    {
        let mut out: Vec<crate::diagnostics::Diagnostic> = Vec::new();
        let mut i: usize = 0;
        proof {
            assert(self.references@.skip(0) =~= self.references@);
            assert(views(out@) =~= Seq::<crate::diagnostics::DiagnosticV>::empty());
            assert(Seq::<crate::diagnostics::DiagnosticV>::empty() + spec_unresolved(
                table@,
                self.references@,
            ) =~= spec_unresolved(table@, self.references@));
        }
        while i < self.references.len()
            invariant
                i <= self.references@.len(),
                views(out@) + spec_unresolved(table@, self.references@.skip(i as int))
                    =~= spec_unresolved(table@, self.references@),
            decreases self.references.len() - i,
        {
            let rf = &self.references[i];
            proof {
                assert(self.references@.skip(i as int)[0] == self.references@[i as int]);
                assert(self.references@.skip(i as int).skip(1) =~= self.references@.skip(i + 1));
            }
            if !table.contains(&rf.name) {
                let diag = crate::diagnostics::Diagnostic {
                    severity: crate::diagnostics::Severity::Error,
                    location: rf.location.duplicate(),
                    message: "unresolved symbol ".to_owned().concat(rf.name.as_str()),
                    kind: KIND_UNRESOLVED_SYMBOL,
                };
                proof {
                    lemma_views_push(out@, diag);
                    assert(diag@ == spec_unresolved_diag(*rf));
                    assert((views(out@) + seq![spec_unresolved_diag(*rf)]) + spec_unresolved(
                        table@,
                        self.references@.skip(i + 1),
                    ) =~= views(out@) + (seq![spec_unresolved_diag(*rf)] + spec_unresolved(
                        table@,
                        self.references@.skip(i + 1),
                    )));
                }
                out.push(diag);
            } else {
                proof {
                    assert(Seq::<crate::diagnostics::DiagnosticV>::empty() + spec_unresolved(
                        table@,
                        self.references@.skip(i + 1),
                    ) =~= spec_unresolved(table@, self.references@.skip(i + 1)));
                }
            }
            i = i + 1;
        }
        proof {
            assert(self.references@.skip(self.references@.len() as int) =~= Seq::<
                SymbolOccurrence,
            >::empty());
            assert(views(out@) + Seq::<crate::diagnostics::DiagnosticV>::empty() =~= views(out@));
        }
        out
    }
}

/// One source file's identity plus its at-most-once installed parsed
/// form: the first installed unit wins, later ones are dropped.
pub struct CachedSourceUnit {
    pub fq_file_name: String,
    pub unit: Option<ParsedUnit>,
}

impl CachedSourceUnit {
    pub open spec fn wf(&self) -> bool {
        match self.unit {
            Some(u) => u.wf(),
            None => true,
        }
    }

    pub fn new(fq_file_name: String) -> (r: CachedSourceUnit)
        ensures
            r.fq_file_name@ == fq_file_name@,
            r.unit is None,
            r.wf(),
    {
        CachedSourceUnit { fq_file_name, unit: None }
    }

    /// Installs a parsed form; the first installed one is kept.
    pub fn install_parsed(&mut self, parsed: ParsedUnit)
        requires
            parsed.wf(),
        ensures
            old(self).unit is Some ==> *final(self) == *old(self),
            old(self).unit is None ==> final(self).unit == Some(parsed) && final(self).fq_file_name
                == old(self).fq_file_name,
            old(self).wf() ==> final(self).wf(),
    {
        if self.unit.is_none() {
            self.unit = Some(parsed);
        }
    }

    pub fn is_parsed(&self) -> (r: bool)
        ensures
            r == self.unit is Some,
    {
        self.unit.is_some()
    }

    /// Runs the declaration and resolution passes on a scratch table,
    /// then probes the syntax tree at the coordinate, as an interactive
    /// query does; fails only when no parsed form is installed.
    pub fn analyze_with_probe_at_position(
        &self,
        line: u32,
        column: u32,
        table: &mut SymbolTable,
    ) -> (r: Result<Option<(usize, Vec<usize>)>, String>)
        requires
            self.wf(),
            table_wf(old(table)@),
        ensures
            table_wf(final(table)@),
            self.unit is None <==> r is Err,
            match r {
                Ok(found) => self.unit matches Some(u) && final(table)@ == spec_declare_all(
                    old(table)@,
                    u.declarations@,
                ) && probe_post(u.tree.nodes@, Point { line, column }, found),
                Err(_) => *final(table) == *old(table),
            },
    {
        match &self.unit {
            None => Err("the file has no parsed form to probe".to_owned()),
            Some(u) => {
                u.run_declaration_pass(table);
                let _issues = u.run_resolution_pass(table);
                Ok(u.tree.probe_at(line, column))
            },
        }
    }

    /// Describes the coordinate: the hover text of the node the probe
    /// finds, behind the fixed marker every description carries.
    pub fn describe_pos(&self, line: u32, charpos: u32, table: &mut SymbolTable) -> (r: Result<
        Option<String>,
        String,
    >)
        requires
            self.wf(),
            table_wf(old(table)@),
        ensures
            table_wf(final(table)@),
            self.unit is None <==> r is Err,
            self.unit matches Some(u) ==> match spec_probe(
                u.tree.nodes@,
                Point { line, column: charpos },
            ) {
                None => r matches Ok(rr) && rr is None,
                Some(hit) => match u.tree.nodes@[hit.0].description {
                    Some(d) => r matches Ok(rr) && rr matches Some(s) && s@ == "FANT VIA ANALYZE: "@
                        + d@,
                    None => r matches Ok(rr) && rr is None,
                },
            },
    {
        match self.analyze_with_probe_at_position(line, charpos, table) {
            Err(e) => Err(e),
            Ok(None) => Ok(None),
            Ok(Some((hit, _path))) => match &self.unit {
                Some(u) => match hover_text(&u.tree, hit) {
                    Some(d) => Ok(Some("FANT VIA ANALYZE: ".to_owned().concat(d.as_str()))),
                    None => Ok(None),
                },
                None => Ok(None),
            },
        }
    }
}

/// What `probe_at` promises of a result: this pins the outcome, so two
/// probes of one unchanged tree at one coordinate agree.
pub open spec fn probe_post(
    nodes: Seq<SyntaxNode>,
    p: Point,
    r: Option<(usize, Vec<usize>)>,
) -> bool {
    match r {
        Some((hit, path)) => spec_probe(nodes, p) == Some((hit as int, idxs(path@))) && hit
            < nodes.len(),
        None => spec_probe(nodes, p) is None,
    }
}

/// Every node the descent visits is a real node of the tree.
pub proof fn lemma_descend_bounds(nodes: Seq<SyntaxNode>, i: int, p: Point)
    ensures
        forall|k: int|
            0 <= k < spec_descend(nodes, i, p).len() ==> 0 <= #[trigger] spec_descend(
                nodes,
                i,
                p,
            )[k] < nodes.len(),
        0 <= i < nodes.len() ==> spec_descend(nodes, i, p).len() >= 1 && spec_descend(
            nodes,
            i,
            p,
        )[0] == i,
    decreases nodes.len() - i,
{
    if 0 <= i < nodes.len() {
        match first_child_at(nodes, i, 0, p) {
            Some(c) => {
                if i < c < nodes.len() {
                    lemma_descend_bounds(nodes, c, p);
                }
            },
            None => {},
        }
    }
}

/// A successful probe names a real node, and every chain entry is a
/// real node.
pub proof fn lemma_probe_bounds(nodes: Seq<SyntaxNode>, p: Point, node: int, pathv: Seq<int>)
    requires
        spec_probe(nodes, p) == Some((node, pathv)),
    ensures
        0 <= node < nodes.len(),
        forall|k: int| 0 <= k < pathv.len() ==> 0 <= #[trigger] pathv[k] < nodes.len(),
{
    lemma_descend_bounds(nodes, 0, p);
    let d = spec_descend(nodes, 0, p);
    assert(node == d.last());
    assert(d.len() >= 1);
    assert forall|k: int| 0 <= k < pathv.len() implies 0 <= #[trigger] pathv[k] < nodes.len() by {
        assert(pathv[k] == d[k]);
    }
}

/// The probe is idempotent: two results of probing one unchanged tree at
/// one coordinate name the same node and the same ancestor chain.
pub proof fn lemma_probe_idempotent(
    nodes: Seq<SyntaxNode>,
    p: Point,
    r1: Option<(usize, Vec<usize>)>,
    r2: Option<(usize, Vec<usize>)>,
)
    requires
        probe_post(nodes, p, r1),
        probe_post(nodes, p, r2),
    ensures
        r1 is Some <==> r2 is Some,
        r1 matches Some(a) ==> r2 matches Some(b) && a.0 == b.0 && idxs(a.1@) == idxs(b.1@),
{
}

} // verus!
