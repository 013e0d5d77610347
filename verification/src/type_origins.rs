//! The provenance of a type: implicitly assumed, declared in an
//! annotation, or inferred from use. Combining two origins keeps the
//! strongest provenance claim (inferred beats declared beats implicit)
//! and unions the underlying type definitions.

use crate::type_defs::clone_type_definition;
use crate::type_defs::ConcreteTypeV;
use crate::type_defs::PTypeV;
use crate::type_defs::TypeDefV;
use crate::type_defs::TypeDefinition;
use vstd::prelude::*;

verus! {

broadcast use {vstd::seq::group_seq_axioms, vstd::std_specs::vec::group_vec_axioms};

/// How a type definition came to be known.
#[derive(Debug, PartialEq, Eq)]
pub enum TypeOrigin {
    Implicit(TypeDefinition),
    Declared(TypeDefinition),
    Inferred(TypeDefinition),
}

/// Ghost counterpart of `TypeOrigin`.
pub enum TypeOriginV {
    Implicit(TypeDefV),
    Declared(TypeDefV),
    Inferred(TypeDefV),
}

pub open spec fn origin_v(o: TypeOrigin) -> TypeOriginV {
    match o {
        TypeOrigin::Implicit(d) => TypeOriginV::Implicit(d@),
        TypeOrigin::Declared(d) => TypeOriginV::Declared(d@),
        TypeOrigin::Inferred(d) => TypeOriginV::Inferred(d@),
    }
}

impl View for TypeOrigin {
    type V = TypeOriginV;

    open spec fn view(&self) -> TypeOriginV {
        origin_v(*self)
    }
}

pub open spec fn origins_v(s: Seq<TypeOrigin>) -> Seq<TypeOriginV>
    decreases s,
{
    if s.len() == 0 {
        Seq::empty()
    } else {
        seq![origin_v(s[0])] + origins_v(s.skip(1))
    }
}

pub proof fn lemma_origins_v_len(s: Seq<TypeOrigin>)
    ensures
        origins_v(s).len() == s.len(),
    decreases s,
{
    if s.len() > 0 {
        lemma_origins_v_len(s.skip(1));
    }
}

pub proof fn lemma_origins_v_index(s: Seq<TypeOrigin>, i: int)
    requires
        0 <= i < s.len(),
    ensures
        origins_v(s).len() == s.len(),
        origins_v(s)[i] == origin_v(s[i]),
    decreases s,
{
    lemma_origins_v_len(s);
    if i > 0 {
        lemma_origins_v_index(s.skip(1), i - 1);
    }
}

impl TypeOriginV {
    /// The type definition an origin carries.
    pub open spec fn def(self) -> TypeDefV {
        match self {
            TypeOriginV::Implicit(d) => d,
            TypeOriginV::Declared(d) => d,
            TypeOriginV::Inferred(d) => d,
        }
    }

    /// The combination of two origins: the union of the definitions'
    /// members, under the strongest provenance of the two.
    pub open spec fn merged_with(self, other: TypeOriginV) -> TypeOriginV {
        let combined = TypeDefV {
            types: crate::type_defs::spec_union_members(self.def().types, other.def().types),
        };
        if self is Inferred || other is Inferred {
            TypeOriginV::Inferred(combined)
        } else if self is Declared || other is Declared {
            TypeOriginV::Declared(combined)
        } else {
            TypeOriginV::Implicit(combined)
        }
    }

    /// Folds `merged_with` over a sequence, left to right.
    pub open spec fn fold_merge(self, s: Seq<TypeOriginV>) -> TypeOriginV
        decreases s.len(),
    {
        if s.len() == 0 {
            self
        } else {
            self.merged_with(s[0]).fold_merge(s.skip(1))
        }
    }

    /// The origin `reduce` yields for an empty list: an inferred unknown.
    pub open spec fn unknown() -> TypeOriginV {
        TypeOriginV::Inferred(
            TypeDefV {
                types: seq![ConcreteTypeV { nullable: false, ptype: PTypeV::Unknown }],
            },
        )
    }
}

pub proof fn lemma_fold_merge_snoc(acc: TypeOriginV, s: Seq<TypeOriginV>, x: TypeOriginV)
    ensures
        acc.fold_merge(s.push(x)) == acc.fold_merge(s).merged_with(x),
    decreases s.len(),
{
    if s.len() == 0 {
        assert(s.push(x)[0] == x);
        assert(s.push(x).skip(1) =~= Seq::<TypeOriginV>::empty());
        assert(acc.fold_merge(s.push(x)) == acc.merged_with(x).fold_merge(
            Seq::<TypeOriginV>::empty(),
        ));
        assert(acc.merged_with(x).fold_merge(Seq::<TypeOriginV>::empty()) == acc.merged_with(x));
        assert(acc.fold_merge(s) == acc);
    } else {
        assert(s.push(x)[0] == s[0]);
        assert(s.push(x).skip(1) =~= s.skip(1).push(x));
        assert(acc.fold_merge(s.push(x)) == acc.merged_with(s[0]).fold_merge(s.skip(1).push(x)));
        lemma_fold_merge_snoc(acc.merged_with(s[0]), s.skip(1), x);
        assert(acc.fold_merge(s) == acc.merged_with(s[0]).fold_merge(s.skip(1)));
    }
}

impl TypeDefinition {
    /// This definition as a declared type.
    pub fn as_declared(&self) -> (r: TypeOrigin)
        ensures
            r@ == TypeOriginV::Declared(self@),
    {
        TypeOrigin::Declared(clone_type_definition(self))
    }

    /// This definition as an inferred type.
    pub fn as_inferred(&self) -> (r: TypeOrigin)
        ensures
            r@ == TypeOriginV::Inferred(self@),
    {
        TypeOrigin::Inferred(clone_type_definition(self))
    }

    /// This definition as an implicitly assumed type.
    pub fn as_implicit(&self) -> (r: TypeOrigin)
        ensures
            r@ == TypeOriginV::Implicit(self@),
    {
        TypeOrigin::Implicit(clone_type_definition(self))
    }
}

impl TypeOrigin {
    /// A reference to the carried definition.
    pub fn def_ref(&self) -> (r: &TypeDefinition)
        ensures
            r@ == self@.def(),
    {
        match self {
            TypeOrigin::Implicit(d) => d,
            TypeOrigin::Declared(d) => d,
            TypeOrigin::Inferred(d) => d,
        }
    }

    /// A deep copy, equal to the original in view.
    pub fn duplicate(&self) -> (r: TypeOrigin)
        ensures
            r@ == self@,
    {
        match self {
            TypeOrigin::Implicit(d) => TypeOrigin::Implicit(clone_type_definition(d)),
            TypeOrigin::Declared(d) => TypeOrigin::Declared(clone_type_definition(d)),
            TypeOrigin::Inferred(d) => TypeOrigin::Inferred(clone_type_definition(d)),
        }
    }

    /// Combines `other` into this origin and returns a copy of the result.
    pub fn extend(&mut self, other: &TypeOrigin) -> (r: TypeOrigin)
        ensures
            final(self)@ == old(self)@.merged_with(other@),
            r@ == final(self)@,
    {
        let self_inferred = matches!(*self, TypeOrigin::Inferred(_));
        let self_declared = matches!(*self, TypeOrigin::Declared(_));
        let other_inferred = matches!(*other, TypeOrigin::Inferred(_));
        let other_declared = matches!(*other, TypeOrigin::Declared(_));
        let mut combined = clone_type_definition(self.def_ref());
        combined.extend(other.def_ref());
        *self = if self_inferred || other_inferred {
            TypeOrigin::Inferred(combined)
        } else if self_declared || other_declared {
            TypeOrigin::Declared(combined)
        } else {
            TypeOrigin::Implicit(combined)
        };
        self.duplicate()
    }

    /// Folds a whole list of origins into one; an empty list reduces to
    /// an inferred unknown type.
    pub fn reduce(types: Vec<TypeOrigin>) -> (r: TypeOrigin)
        ensures
            types@.len() == 0 ==> r@ == TypeOriginV::unknown(),
            types@.len() > 0 ==> r@ == origins_v(types@)[0].fold_merge(origins_v(types@).skip(1)),
    {
        if types.len() == 0 {
            return TypeOrigin::Unknown();
        }
        proof {
            lemma_origins_v_len(types@);
            lemma_origins_v_index(types@, 0);
        }
        let mut acc = types[0].duplicate();
        let mut i: usize = 1;
        while i < types.len()
            invariant
                1 <= i <= types.len(),
                origins_v(types@).len() == types@.len(),
                acc@ == origins_v(types@)[0].fold_merge(
                    origins_v(types@).subrange(1, i as int),
                ),
            decreases types.len() - i,
        {
            proof {
                lemma_origins_v_index(types@, i as int);
                lemma_fold_merge_snoc(
                    origins_v(types@)[0],
                    origins_v(types@).subrange(1, i as int),
                    origins_v(types@)[i as int],
                );
                assert(origins_v(types@).subrange(1, i as int).push(origins_v(types@)[i as int])
                    =~= origins_v(types@).subrange(1, i + 1));
            }
            acc.extend(&types[i]);
            i = i + 1;
        }
        proof {
            assert(origins_v(types@).subrange(1, types@.len() as int) =~= origins_v(
                types@,
            ).skip(1));
        }
        acc
    }

    /// The combination of two origins, neither changed.
    pub fn merge(a: &TypeOrigin, b: &TypeOrigin) -> (r: TypeOrigin)
        ensures
            r@ == a@.merged_with(b@),
    {
        let mut t = a.duplicate();
        t.extend(b);
        t
    }

    /// The carried type definition, copied.
    pub fn as_def(&self) -> (r: TypeDefinition)
        ensures
            r@ == self@.def(),
    {
        clone_type_definition(self.def_ref())
    }

    /// The origin of a type nothing is known about.
    #[allow(non_snake_case)]
    pub fn Unknown() -> (r: TypeOrigin)
        ensures
            r@ == TypeOriginV::unknown(),
    {
        TypeOrigin::Inferred(crate::type_defs::PType::Unknown.as_def())
    }
}

} // verus!
