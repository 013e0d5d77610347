//! Declared-type values for the annotation language: scalar kinds, the
//! type constructors, concrete (possibly nullable) types, and type
//! definitions, which stand for a union of concrete types.
//!
//! Each executable type has a ghost counterpart (`PTypeV`,
//! `ConcreteTypeV`, `TypeDefV`) over `Seq` and plain values; contracts
//! speak of those through the view functions below.

use vstd::prelude::*;

verus! {

broadcast use {vstd::seq::group_seq_axioms, vstd::std_specs::vec::group_vec_axioms};

/// A scalar base type of the annotation language.
#[derive(Clone, Copy, Debug, PartialEq, Eq, Structural)]
pub enum ScalarType {
    Int,
    String,
    Float,
    Num,
    Bool,
    ArrayKey,
}

/// A type constructor applied to its arguments.
#[derive(Debug, PartialEq, Eq)]
pub enum PType {
    Scalar(ScalarType),
    /// A class type: local name and namespace.
    Class(String, String),
    Vector(TypeDefinition),
    /// A record of named fields; keys are unique, in first-written order.
    Shape(Vec<(String, TypeDefinition)>),
    HashMap(ScalarType, TypeDefinition),
    Callable,
    Null,
    Void,
    Any,
    Unknown,
}

/// One member of a type union: a constructor plus a nullability flag.
#[derive(Debug, PartialEq, Eq)]
pub struct ConcreteType {
    pub nullable: bool,
    pub ptype: PType,
}

/// A union of concrete types. The member list is kept as a set:
/// extension unions members, duplicate-free, in first-seen order.
#[derive(Debug, PartialEq, Eq)]
pub struct TypeDefinition {
    pub types: Vec<ConcreteType>,
}

/// Ghost counterpart of `PType`.
pub enum PTypeV {
    Scalar(ScalarType),
    Class(Seq<char>, Seq<char>),
    Vector(TypeDefV),
    Shape(Seq<(Seq<char>, TypeDefV)>),
    HashMap(ScalarType, TypeDefV),
    Callable,
    Null,
    Void,
    Any,
    Unknown,
}

/// Ghost counterpart of `ConcreteType`.
pub struct ConcreteTypeV {
    pub nullable: bool,
    pub ptype: PTypeV,
}

/// Ghost counterpart of `TypeDefinition`.
pub struct TypeDefV {
    pub types: Seq<ConcreteTypeV>,
}

pub open spec fn ptype_v(p: PType) -> PTypeV
    decreases p,
{
    match p {
        PType::Scalar(s) => PTypeV::Scalar(s),
        PType::Class(name, ns) => PTypeV::Class(name@, ns@),
        PType::Vector(td) => PTypeV::Vector(td_v(td)),
        PType::Shape(entries) => PTypeV::Shape(shape_v(entries@)),
        PType::HashMap(k, td) => PTypeV::HashMap(k, td_v(td)),
        PType::Callable => PTypeV::Callable,
        PType::Null => PTypeV::Null,
        PType::Void => PTypeV::Void,
        PType::Any => PTypeV::Any,
        PType::Unknown => PTypeV::Unknown,
    }
}

pub open spec fn ct_v(c: ConcreteType) -> ConcreteTypeV
    decreases c,
{
    ConcreteTypeV { nullable: c.nullable, ptype: ptype_v(c.ptype) }
}

pub open spec fn cts_v(s: Seq<ConcreteType>) -> Seq<ConcreteTypeV>
    decreases s,
{
    if s.len() == 0 {
        Seq::empty()
    } else {
        seq![ct_v(s[0])] + cts_v(s.skip(1))
    }
}

pub open spec fn td_v(t: TypeDefinition) -> TypeDefV
    decreases t,
{
    TypeDefV { types: cts_v(t.types@) }
}

pub open spec fn shape_v(s: Seq<(String, TypeDefinition)>) -> Seq<(Seq<char>, TypeDefV)>
    decreases s,
{
    if s.len() == 0 {
        Seq::empty()
    } else {
        seq![(s[0].0@, td_v(s[0].1))] + shape_v(s.skip(1))
    }
}

impl View for PType {
    type V = PTypeV;

    open spec fn view(&self) -> PTypeV {
        ptype_v(*self)
    }
}

impl View for ConcreteType {
    type V = ConcreteTypeV;

    open spec fn view(&self) -> ConcreteTypeV {
        ct_v(*self)
    }
}

impl View for TypeDefinition {
    type V = TypeDefV;

    open spec fn view(&self) -> TypeDefV {
        td_v(*self)
    }
}

pub proof fn lemma_cts_v_len(s: Seq<ConcreteType>)
    ensures
        cts_v(s).len() == s.len(),
    decreases s,
{
    if s.len() > 0 {
        lemma_cts_v_len(s.skip(1));
    }
}

pub proof fn lemma_cts_v_index(s: Seq<ConcreteType>, i: int)
    requires
        0 <= i < s.len(),
    ensures
        cts_v(s).len() == s.len(),
        cts_v(s)[i] == ct_v(s[i]),
    decreases s,
{
    lemma_cts_v_len(s);
    if i > 0 {
        lemma_cts_v_index(s.skip(1), i - 1);
    }
}

pub proof fn lemma_cts_v_push(s: Seq<ConcreteType>, c: ConcreteType)
    ensures
        cts_v(s.push(c)) == cts_v(s).push(ct_v(c)),
{
    lemma_cts_v_len(s.push(c));
    assert forall|i: int| 0 <= i < s.push(c).len() implies cts_v(s.push(c))[i] == cts_v(s).push(
        ct_v(c),
    )[i] by {
        lemma_cts_v_len(s);
        lemma_cts_v_index(s.push(c), i);
        if i < s.len() {
            lemma_cts_v_index(s, i);
        } else {
            assert(s.push(c)[i] == c);
        }
    }
    lemma_cts_v_len(s);
    assert(cts_v(s.push(c)) =~= cts_v(s).push(ct_v(c)));
}

pub proof fn lemma_shape_v_len(s: Seq<(String, TypeDefinition)>)
    ensures
        shape_v(s).len() == s.len(),
    decreases s,
{
    if s.len() > 0 {
        lemma_shape_v_len(s.skip(1));
    }
}

pub proof fn lemma_shape_v_index(s: Seq<(String, TypeDefinition)>, i: int)
    requires
        0 <= i < s.len(),
    ensures
        shape_v(s).len() == s.len(),
        shape_v(s)[i] == (s[i].0@, td_v(s[i].1)),
    decreases s,
{
    lemma_shape_v_len(s);
    if i > 0 {
        lemma_shape_v_index(s.skip(1), i - 1);
    }
}

pub proof fn lemma_has_scalar_push(s: Seq<ConcreteTypeV>, x: ConcreteTypeV, sc: ScalarType)
    ensures
        TypeDefinition::spec_has_scalar(s.push(x), sc) == (TypeDefinition::spec_has_scalar(s, sc)
            || x.ptype == PTypeV::Scalar(sc)),
{
    if TypeDefinition::spec_has_scalar(s, sc) {
        let j = choose|j: int| 0 <= j < s.len() && s[j].ptype == PTypeV::Scalar(sc);
        assert(s.push(x)[j].ptype == PTypeV::Scalar(sc));
    }
    if x.ptype == PTypeV::Scalar(sc) {
        assert(s.push(x)[s.len() as int].ptype == PTypeV::Scalar(sc));
    }
    if TypeDefinition::spec_has_scalar(s.push(x), sc) {
        let j = choose|j: int|
            0 <= j < s.push(x).len() && s.push(x)[j].ptype == PTypeV::Scalar(sc);
        if j < s.len() {
            assert(s[j].ptype == PTypeV::Scalar(sc));
        }
    }
}

pub proof fn lemma_shape_v_push(s: Seq<(String, TypeDefinition)>, e: (String, TypeDefinition))
    ensures
        shape_v(s.push(e)) == shape_v(s).push((e.0@, td_v(e.1))),
{
    lemma_shape_v_len(s.push(e));
    assert forall|i: int| 0 <= i < s.push(e).len() implies shape_v(s.push(e))[i] == shape_v(
        s,
    ).push((e.0@, td_v(e.1)))[i] by {
        lemma_shape_v_len(s);
        lemma_shape_v_index(s.push(e), i);
        if i < s.len() {
            lemma_shape_v_index(s, i);
        } else {
            assert(s.push(e)[i] == e);
        }
    }
    lemma_shape_v_len(s);
    assert(shape_v(s.push(e)) =~= shape_v(s).push((e.0@, td_v(e.1))));
}

/// A deep copy of a `PType`, equal to the original in view.
pub fn clone_ptype(p: &PType) -> (r: PType)
    ensures
        r@ == p@,
    decreases *p,
{
    match p {
        PType::Scalar(s) => PType::Scalar(*s),
        PType::Class(name, ns) => PType::Class(name.clone(), ns.clone()),
        PType::Vector(td) => PType::Vector(clone_type_definition(td)),
        PType::Shape(entries) => PType::Shape(clone_shape_entries(entries)),
        PType::HashMap(k, td) => PType::HashMap(*k, clone_type_definition(td)),
        PType::Callable => PType::Callable,
        PType::Null => PType::Null,
        PType::Void => PType::Void,
        PType::Any => PType::Any,
        PType::Unknown => PType::Unknown,
    }
}

/// A deep copy of a shape's entry list, equal to the original in view.
pub fn clone_shape_entries(entries: &Vec<(String, TypeDefinition)>) -> (r: Vec<
    (String, TypeDefinition),
>)
    ensures
        shape_v(r@) == shape_v(entries@),
    decreases *entries,
{
    let mut out: Vec<(String, TypeDefinition)> = Vec::new();
    let mut i: usize = 0;
    while i < entries.len()
        invariant
            i <= entries.len(),
            shape_v(out@) == shape_v(entries@.take(i as int)),
            out@.len() == i,
        decreases entries.len() - i,
    {
        let e = &entries[i];
        proof {
            assert(decreases_to!(*entries => entries[i as int]));
            assert(decreases_to!(entries[i as int] => entries[i as int].1));
        }
        let copied = (e.0.clone(), clone_type_definition(&e.1));
        proof {
            lemma_shape_v_push(out@, copied);
            lemma_shape_v_push(entries@.take(i as int), *e);
            assert(entries@.take(i as int).push(*e) =~= entries@.take(i + 1));
            lemma_shape_v_len(out@);
        }
        out.push(copied);
        i = i + 1;
    }
    proof {
        assert(entries@.take(entries@.len() as int) =~= entries@);
    }
    out
}

/// A deep copy of a `ConcreteType`, equal to the original in view.
pub fn clone_concrete_type(c: &ConcreteType) -> (r: ConcreteType)
    ensures
        r@ == c@,
    decreases *c,
{
    ConcreteType { nullable: c.nullable, ptype: clone_ptype(&c.ptype) }
}

/// A deep copy of a `TypeDefinition`, equal to the original in view.
pub fn clone_type_definition(t: &TypeDefinition) -> (r: TypeDefinition)
    ensures
        r@ == t@,
    decreases *t,
{
    let mut out: Vec<ConcreteType> = Vec::new();
    let mut i: usize = 0;
    while i < t.types.len()
        invariant
            i <= t.types.len(),
            cts_v(out@) == cts_v(t.types@.take(i as int)),
            out@.len() == i,
        decreases t.types.len() - i,
    {
        let copied = clone_concrete_type(&t.types[i]);
        proof {
            lemma_cts_v_push(out@, copied);
            lemma_cts_v_push(t.types@.take(i as int), t.types@[i as int]);
            assert(t.types@.take(i as int).push(t.types@[i as int]) =~= t.types@.take(i + 1));
            lemma_cts_v_len(out@);
        }
        out.push(copied);
        i = i + 1;
    }
    proof {
        assert(t.types@.take(t.types@.len() as int) =~= t.types@);
    }
    TypeDefinition { types: out }
}

/// Some member of the list is `x`.
pub open spec fn member_of(s: Seq<ConcreteTypeV>, x: ConcreteTypeV) -> bool {
    exists|i: int| 0 <= i < s.len() && s[i] == x
}

/// No member of the list repeats.
pub open spec fn td_unique(s: Seq<ConcreteTypeV>) -> bool {
    forall|i: int, j: int| 0 <= i < j < s.len() ==> s[i] != s[j]
}

/// The union of two member lists: members of `b` not already present
/// join the end of `a`, each once, in `b`'s order.
pub open spec fn spec_union_members(a: Seq<ConcreteTypeV>, b: Seq<ConcreteTypeV>) -> Seq<
    ConcreteTypeV,
>
    decreases b.len(),
{
    if b.len() == 0 {
        a
    } else {
        let a2 = if member_of(a, b[0]) {
            a
        } else {
            a.push(b[0])
        };
        spec_union_members(a2, b.skip(1))
    }
}

pub proof fn lemma_member_push(s: Seq<ConcreteTypeV>, y: ConcreteTypeV, x: ConcreteTypeV)
    ensures
        member_of(s.push(y), x) == (member_of(s, x) || x == y),
{
    if member_of(s, x) {
        let i = choose|i: int| 0 <= i < s.len() && s[i] == x;
        assert(s.push(y)[i] == x);
    }
    if x == y {
        assert(s.push(y)[s.len() as int] == x);
    }
    if member_of(s.push(y), x) {
        let i = choose|i: int| 0 <= i < s.push(y).len() && s.push(y)[i] == x;
        if i < s.len() {
            assert(s[i] == x);
        }
    }
}

pub proof fn lemma_member_uncons(b: Seq<ConcreteTypeV>, x: ConcreteTypeV)
    requires
        b.len() > 0,
    ensures
        member_of(b, x) == (b[0] == x || member_of(b.skip(1), x)),
{
    if member_of(b, x) {
        let i = choose|i: int| 0 <= i < b.len() && b[i] == x;
        if i > 0 {
            assert(b.skip(1)[i - 1] == x);
        }
    }
    if member_of(b.skip(1), x) {
        let i = choose|i: int| 0 <= i < b.skip(1).len() && b.skip(1)[i] == x;
        assert(b[i + 1] == x);
    }
}

/// The union holds exactly the members of either side.
pub proof fn lemma_union_members_membership(a: Seq<ConcreteTypeV>, b: Seq<ConcreteTypeV>)
    ensures
        forall|x: ConcreteTypeV|
            member_of(#[trigger] spec_union_members(a, b), x) == (member_of(a, x) || member_of(
                b,
                x,
            )),
    decreases b.len(),
{
    if b.len() > 0 {
        let a2 = if member_of(a, b[0]) {
            a
        } else {
            a.push(b[0])
        };
        lemma_union_members_membership(a2, b.skip(1));
        assert forall|x: ConcreteTypeV|
            member_of(spec_union_members(a, b), x) == (member_of(a, x) || member_of(b, x)) by {
            lemma_member_push(a, b[0], x);
            lemma_member_uncons(b, x);
            if member_of(a, b[0]) && b[0] == x {
                assert(member_of(a, x));
            }
        }
    }
}

/// The union of a duplicate-free list with anything stays duplicate-free.
pub proof fn lemma_union_members_unique(a: Seq<ConcreteTypeV>, b: Seq<ConcreteTypeV>)
    requires
        td_unique(a),
    ensures
        td_unique(spec_union_members(a, b)),
    decreases b.len(),
{
    if b.len() > 0 {
        if member_of(a, b[0]) {
            lemma_union_members_unique(a, b.skip(1));
        } else {
            let pushed = a.push(b[0]);
            assert forall|i: int, j: int| 0 <= i < j < pushed.len() implies pushed[i]
                != pushed[j] by {
                if j == pushed.len() - 1 {
                    if pushed[i] == b[0] {
                        assert(a[i] == b[0]);
                        assert(member_of(a, b[0]));
                    }
                }
            }
            lemma_union_members_unique(pushed, b.skip(1));
        }
    }
}

/// Unioning members already present changes nothing.
pub proof fn lemma_union_members_absorb(a: Seq<ConcreteTypeV>, b: Seq<ConcreteTypeV>)
    requires
        forall|x: ConcreteTypeV| member_of(b, x) ==> member_of(a, x),
    ensures
        spec_union_members(a, b) == a,
    decreases b.len(),
{
    if b.len() > 0 {
        assert(member_of(b, b[0]));
        assert forall|x: ConcreteTypeV| member_of(b.skip(1), x) implies member_of(a, x) by {
            lemma_member_uncons(b, x);
        }
        lemma_union_members_absorb(a, b.skip(1));
    }
}

/// Extension is idempotent: extending a union a second time with the
/// same members changes nothing.
pub proof fn lemma_extend_idempotent(a: Seq<ConcreteTypeV>, b: Seq<ConcreteTypeV>)
    ensures
        spec_union_members(spec_union_members(a, b), b) == spec_union_members(a, b),
{
    lemma_union_members_membership(a, b);
    assert forall|x: ConcreteTypeV|
        member_of(b, x) implies member_of(spec_union_members(a, b), x) by {}
    lemma_union_members_absorb(spec_union_members(a, b), b);
}

/// Structural equality of two type constructors, in view.
pub fn ptype_eq(a: &PType, b: &PType) -> (r: bool)
    ensures
        r == (a@ == b@),
    decreases *a,
{
    match (a, b) {
        (PType::Scalar(x), PType::Scalar(y)) => *x == *y,
        (PType::Class(n1, s1), PType::Class(n2, s2)) => *n1 == *n2 && *s1 == *s2,
        (PType::Vector(t1), PType::Vector(t2)) => type_definition_eq(t1, t2),
        (PType::Shape(e1), PType::Shape(e2)) => shape_entries_eq(e1, e2),
        (PType::HashMap(k1, t1), PType::HashMap(k2, t2)) => *k1 == *k2 && type_definition_eq(
            t1,
            t2,
        ),
        (PType::Callable, PType::Callable) => true,
        (PType::Null, PType::Null) => true,
        (PType::Void, PType::Void) => true,
        (PType::Any, PType::Any) => true,
        (PType::Unknown, PType::Unknown) => true,
        _ => false,
    }
}

/// Structural equality of two union members, in view.
pub fn concrete_type_eq(a: &ConcreteType, b: &ConcreteType) -> (r: bool)
    ensures
        r == (a@ == b@),
    decreases *a,
{
    a.nullable == b.nullable && ptype_eq(&a.ptype, &b.ptype)
}

/// Structural equality of two type definitions, in view.
pub fn type_definition_eq(a: &TypeDefinition, b: &TypeDefinition) -> (r: bool)
    ensures
        r == (a@ == b@),
    decreases *a,
{
    proof {
        lemma_cts_v_len(a.types@);
        lemma_cts_v_len(b.types@);
    }
    if a.types.len() != b.types.len() {
        return false;
    }
    let mut i: usize = 0;
    while i < a.types.len()
        invariant
            i <= a.types@.len(),
            a.types@.len() == b.types@.len(),
            cts_v(a.types@).len() == a.types@.len(),
            cts_v(b.types@).len() == b.types@.len(),
            forall|k: int| 0 <= k < i ==> cts_v(a.types@)[k] == cts_v(b.types@)[k],
        decreases a.types.len() - i,
    {
        proof {
            lemma_cts_v_index(a.types@, i as int);
            lemma_cts_v_index(b.types@, i as int);
            assert(decreases_to!(a.types => a.types[i as int]));
        }
        if !concrete_type_eq(&a.types[i], &b.types[i]) {
            proof {
                assert(cts_v(a.types@)[i as int] != cts_v(b.types@)[i as int]);
            }
            return false;
        }
        i = i + 1;
    }
    proof {
        assert(cts_v(a.types@) =~= cts_v(b.types@));
    }
    true
}

/// Structural equality of two shape entry lists, in view.
pub fn shape_entries_eq(
    a: &Vec<(String, TypeDefinition)>,
    b: &Vec<(String, TypeDefinition)>,
) -> (r: bool)
    ensures
        r == (shape_v(a@) == shape_v(b@)),
    decreases *a,
{
    proof {
        lemma_shape_v_len(a@);
        lemma_shape_v_len(b@);
    }
    if a.len() != b.len() {
        return false;
    }
    let mut i: usize = 0;
    while i < a.len()
        invariant
            i <= a@.len(),
            a@.len() == b@.len(),
            shape_v(a@).len() == a@.len(),
            shape_v(b@).len() == b@.len(),
            forall|k: int| 0 <= k < i ==> shape_v(a@)[k] == shape_v(b@)[k],
        decreases a.len() - i,
    {
        proof {
            lemma_shape_v_index(a@, i as int);
            lemma_shape_v_index(b@, i as int);
            assert(decreases_to!(*a => a[i as int]));
            assert(decreases_to!(a[i as int] => a[i as int].1));
        }
        let keys_equal = a[i].0 == b[i].0;
        if !keys_equal {
            proof {
                assert(shape_v(a@)[i as int] != shape_v(b@)[i as int]);
            }
            return false;
        }
        if !type_definition_eq(&a[i].1, &b[i].1) {
            proof {
                assert(shape_v(a@)[i as int] != shape_v(b@)[i as int]);
            }
            return false;
        }
        i = i + 1;
    }
    proof {
        assert(shape_v(a@) =~= shape_v(b@));
    }
    true
}

/// Whether the list holds a member equal to `x`, in view.
pub fn contains_member(v: &Vec<ConcreteType>, x: &ConcreteType) -> (r: bool)
    ensures
        r == member_of(cts_v(v@), x@),
{
    proof {
        lemma_cts_v_len(v@);
    }
    let mut i: usize = 0;
    while i < v.len()
        invariant
            i <= v@.len(),
            cts_v(v@).len() == v@.len(),
            forall|k: int| 0 <= k < i ==> cts_v(v@)[k] != x@,
        decreases v.len() - i,
    {
        proof {
            lemma_cts_v_index(v@, i as int);
        }
        if concrete_type_eq(&v[i], x) {
            proof {
                assert(cts_v(v@)[i as int] == x@);
            }
            return true;
        }
        i = i + 1;
    }
    proof {
        assert(forall|k: int| 0 <= k < cts_v(v@).len() ==> cts_v(v@)[k] != x@);
    }
    false
}

impl ScalarType {
    pub fn as_ptype(&self) -> (r: PType)
        ensures
            r@ == PTypeV::Scalar(*self),
    {
        PType::Scalar(*self)
    }

    pub fn as_def(&self) -> (r: TypeDefinition)
        ensures
            r@.types =~= seq![ConcreteTypeV { nullable: false, ptype: PTypeV::Scalar(*self) }],
    {
        self.as_ptype().as_def()
    }
}

impl PType {
    pub fn as_def(self) -> (r: TypeDefinition)
        ensures
            r@.types =~= seq![ConcreteTypeV { nullable: false, ptype: self@ }],
    {
        TypeDefinition::new_with_ptype(self)
    }
}

impl ConcreteType {
    pub fn new(t: PType) -> (r: ConcreteType)
        ensures
            r@ == (ConcreteTypeV { nullable: false, ptype: t@ }),
    {
        ConcreteType { nullable: false, ptype: t }
    }

    pub fn new_nullable(t: PType) -> (r: ConcreteType)
        ensures
            r@ == (ConcreteTypeV { nullable: true, ptype: t@ }),
    {
        ConcreteType { nullable: true, ptype: t }
    }
}

impl TypeDefinition {
    pub fn new() -> (r: TypeDefinition)
        ensures
            r@.types =~= Seq::<ConcreteTypeV>::empty(),
    {
        TypeDefinition { types: Vec::new() }
    }

    pub fn new_with_type(t: ConcreteType) -> (r: TypeDefinition)
        ensures
            r@.types =~= seq![t@],
    {
        let mut x = TypeDefinition::new();
        proof {
            lemma_cts_v_push(Seq::empty(), t);
        }
        x.types.push(t);
        x
    }

    pub fn new_with_ptype(t: PType) -> (r: TypeDefinition)
        ensures
            r@.types =~= seq![ConcreteTypeV { nullable: false, ptype: t@ }],
    {
        Self::new_with_type(ConcreteType::new(t))
    }

    /// The same union with every member marked nullable; members that
    /// collapse to one nullable form are kept once.
    pub fn as_nullable(&self) -> (r: TypeDefinition)
        ensures
            forall|x: ConcreteTypeV|
                member_of(#[trigger] r@.types, x) == exists|i: int|
                    0 <= i < self@.types.len() && x == (ConcreteTypeV {
                        nullable: true,
                        ptype: self@.types[i].ptype,
                    }),
            td_unique(r@.types),
    {
        let mut out: Vec<ConcreteType> = Vec::new();
        let mut i: usize = 0;
        proof {
            lemma_cts_v_len(self.types@);
            lemma_cts_v_len(out@);
        }
        while i < self.types.len()
            invariant
                i <= self.types.len(),
                cts_v(self.types@).len() == self.types@.len(),
                td_unique(cts_v(out@)),
                forall|x: ConcreteTypeV|
                    member_of(#[trigger] cts_v(out@), x) == exists|j: int|
                        0 <= j < i && x == (ConcreteTypeV {
                            nullable: true,
                            ptype: cts_v(self.types@)[j].ptype,
                        }),
            decreases self.types.len() - i,
        {
            let candidate = ConcreteType {
                nullable: true,
                ptype: clone_ptype(&self.types[i].ptype),
            };
            proof {
                lemma_cts_v_index(self.types@, i as int);
                assert(candidate@ == (ConcreteTypeV {
                    nullable: true,
                    ptype: cts_v(self.types@)[i as int].ptype,
                }));
            }
            let present = contains_member(&out, &candidate);
            let ghost before = cts_v(out@);
            if !present {
                proof {
                    lemma_cts_v_push(out@, candidate);
                    lemma_cts_v_len(out@);
                }
                out.push(candidate);
                proof {
                    assert forall|a: int, b: int|
                        0 <= a < b < cts_v(out@).len() implies cts_v(out@)[a] != cts_v(
                        out@,
                    )[b] by {
                        if b == cts_v(out@).len() - 1 {
                            if before[a] == candidate@ {
                                assert(member_of(before, candidate@));
                            }
                        }
                    }
                }
            }
            proof {
                assert forall|x: ConcreteTypeV|
                    member_of(cts_v(out@), x) == exists|j: int|
                        0 <= j < i + 1 && x == (ConcreteTypeV {
                            nullable: true,
                            ptype: cts_v(self.types@)[j].ptype,
                        }) by {
                    if !present {
                        lemma_member_push(before, candidate@, x);
                    }
                    if x == candidate@ {
                        assert(0 <= i < i + 1 && x == (ConcreteTypeV {
                            nullable: true,
                            ptype: cts_v(self.types@)[i as int].ptype,
                        }));
                    }
                }
            }
            i = i + 1;
        }
        TypeDefinition { types: out }
    }

    /// Unions `other`'s members into this union — each member once, new
    /// members at the end in `other`'s order — then returns a copy of
    /// the result.
    pub fn extend(&mut self, other: &TypeDefinition) -> (r: TypeDefinition)
        ensures
            final(self)@.types == spec_union_members(old(self)@.types, other@.types),
            r@ == final(self)@,
    {
        let mut i: usize = 0;
        proof {
            lemma_cts_v_len(other.types@);
            assert(cts_v(other.types@).skip(0) =~= cts_v(other.types@));
        }
        while i < other.types.len()
            invariant
                i <= other.types.len(),
                cts_v(other.types@).len() == other.types@.len(),
                spec_union_members(cts_v(old(self).types@), cts_v(other.types@))
                    == spec_union_members(
                    cts_v(self.types@),
                    cts_v(other.types@).skip(i as int),
                ),
            decreases other.types.len() - i,
        {
            proof {
                lemma_cts_v_index(other.types@, i as int);
                assert(cts_v(other.types@).skip(i as int)[0] == cts_v(other.types@)[i as int]);
                assert(cts_v(other.types@).skip(i as int).skip(1) =~= cts_v(
                    other.types@,
                ).skip(i + 1));
            }
            let present = contains_member(&self.types, &other.types[i]);
            if !present {
                let copied = clone_concrete_type(&other.types[i]);
                proof {
                    lemma_cts_v_push(self.types@, copied);
                }
                self.types.push(copied);
            }
            i = i + 1;
        }
        proof {
            assert(cts_v(other.types@).skip(other.types@.len() as int) =~= Seq::<
                ConcreteTypeV,
            >::empty());
        }
        clone_type_definition(self)
    }

    /// All members are scalar constructors; used by `as_scalar`.
    pub open spec fn spec_all_scalar(s: Seq<ConcreteTypeV>) -> bool {
        forall|i: int| 0 <= i < s.len() ==> s[i].ptype is Scalar
    }

    /// Some member carries exactly the scalar `sc`.
    pub open spec fn spec_has_scalar(s: Seq<ConcreteTypeV>, sc: ScalarType) -> bool {
        exists|i: int| 0 <= i < s.len() && s[i].ptype == PTypeV::Scalar(sc)
    }

    pub open spec fn spec_scalar_count(s: Seq<ConcreteTypeV>) -> int {
        (if Self::spec_has_scalar(s, ScalarType::Int) { 1int } else { 0 })
            + (if Self::spec_has_scalar(s, ScalarType::String) { 1int } else { 0 })
            + (if Self::spec_has_scalar(s, ScalarType::Float) { 1int } else { 0 })
            + (if Self::spec_has_scalar(s, ScalarType::Num) { 1int } else { 0 })
            + (if Self::spec_has_scalar(s, ScalarType::Bool) { 1int } else { 0 })
            + (if Self::spec_has_scalar(s, ScalarType::ArrayKey) { 1int } else { 0 })
    }

    /// The single scalar a union collapses to: the one distinct scalar if
    /// there is exactly one; `ArrayKey` for exactly `{Int, String}`; `Num`
    /// for exactly `{Int, Float}`; nothing otherwise, and nothing whenever
    /// a member is not scalar.
    pub open spec fn spec_as_scalar(s: Seq<ConcreteTypeV>) -> Option<ScalarType> {
        if !Self::spec_all_scalar(s) {
            None
        } else {
            let n = Self::spec_scalar_count(s);
            if n == 1 {
                if Self::spec_has_scalar(s, ScalarType::Int) {
                    Some(ScalarType::Int)
                } else if Self::spec_has_scalar(s, ScalarType::String) {
                    Some(ScalarType::String)
                } else if Self::spec_has_scalar(s, ScalarType::Float) {
                    Some(ScalarType::Float)
                } else if Self::spec_has_scalar(s, ScalarType::Num) {
                    Some(ScalarType::Num)
                } else if Self::spec_has_scalar(s, ScalarType::Bool) {
                    Some(ScalarType::Bool)
                } else {
                    Some(ScalarType::ArrayKey)
                }
            } else if n == 2 && Self::spec_has_scalar(s, ScalarType::Int) && Self::spec_has_scalar(
                s,
                ScalarType::String,
            ) {
                Some(ScalarType::ArrayKey)
            } else if n == 2 && Self::spec_has_scalar(s, ScalarType::Int) && Self::spec_has_scalar(
                s,
                ScalarType::Float,
            ) {
                Some(ScalarType::Num)
            } else {
                None
            }
        }
    }

    pub fn as_scalar(&self) -> (r: Option<ScalarType>)
        ensures
            r == Self::spec_as_scalar(self@.types),
    {
        let ghost sv: Seq<ConcreteTypeV> = cts_v(self.types@);
        let mut has_int: bool = false;
        let mut has_string: bool = false;
        let mut has_float: bool = false;
        let mut has_num: bool = false;
        let mut has_bool: bool = false;
        let mut has_array_key: bool = false;
        let mut i: usize = 0;
        proof {
            lemma_cts_v_len(self.types@);
        }
        while i < self.types.len()
            invariant
                i <= self.types.len(),
                sv == cts_v(self.types@),
                sv.len() == self.types@.len(),
                Self::spec_all_scalar(sv.take(i as int)),
                has_int == Self::spec_has_scalar(sv.take(i as int), ScalarType::Int),
                has_string == Self::spec_has_scalar(sv.take(i as int), ScalarType::String),
                has_float == Self::spec_has_scalar(sv.take(i as int), ScalarType::Float),
                has_num == Self::spec_has_scalar(sv.take(i as int), ScalarType::Num),
                has_bool == Self::spec_has_scalar(sv.take(i as int), ScalarType::Bool),
                has_array_key == Self::spec_has_scalar(sv.take(i as int), ScalarType::ArrayKey),
            decreases self.types.len() - i,
        {
            proof {
                lemma_cts_v_index(self.types@, i as int);
            }
            match &self.types[i].ptype {
                PType::Scalar(sc) => {
                    proof {
                        assert(sv.take(i + 1) =~= sv.take(i as int).push(sv[i as int]));
                        lemma_has_scalar_push(sv.take(i as int), sv[i as int], ScalarType::Int);
                        lemma_has_scalar_push(sv.take(i as int), sv[i as int], ScalarType::String);
                        lemma_has_scalar_push(sv.take(i as int), sv[i as int], ScalarType::Float);
                        lemma_has_scalar_push(sv.take(i as int), sv[i as int], ScalarType::Num);
                        lemma_has_scalar_push(sv.take(i as int), sv[i as int], ScalarType::Bool);
                        lemma_has_scalar_push(
                            sv.take(i as int),
                            sv[i as int],
                            ScalarType::ArrayKey,
                        );
                        assert(sv[i as int].ptype == PTypeV::Scalar(*sc));
                    }
                    match sc {
                        ScalarType::Int => has_int = true,
                        ScalarType::String => has_string = true,
                        ScalarType::Float => has_float = true,
                        ScalarType::Num => has_num = true,
                        ScalarType::Bool => has_bool = true,
                        ScalarType::ArrayKey => has_array_key = true,
                    }
                },
                _ => {
                    proof {
                        assert(!(sv[i as int].ptype is Scalar));
                        assert(!Self::spec_all_scalar(sv));
                    }
                    return None;
                },
            }
            i = i + 1;
        }
        proof {
            assert(sv.take(sv.len() as int) =~= sv);
        }
        let count: u32 = (if has_int {
            1u32
        } else {
            0u32
        }) + (if has_string {
            1u32
        } else {
            0u32
        }) + (if has_float {
            1u32
        } else {
            0u32
        }) + (if has_num {
            1u32
        } else {
            0u32
        }) + (if has_bool {
            1u32
        } else {
            0u32
        }) + (if has_array_key {
            1u32
        } else {
            0u32
        });
        if count == 1 {
            if has_int {
                Some(ScalarType::Int)
            } else if has_string {
                Some(ScalarType::String)
            } else if has_float {
                Some(ScalarType::Float)
            } else if has_num {
                Some(ScalarType::Num)
            } else if has_bool {
                Some(ScalarType::Bool)
            } else {
                Some(ScalarType::ArrayKey)
            }
        } else if count == 2 && has_int && has_string {
            Some(ScalarType::ArrayKey)
        } else if count == 2 && has_int && has_float {
            Some(ScalarType::Num)
        } else {
            None
        }
    }
}

} // verus!
