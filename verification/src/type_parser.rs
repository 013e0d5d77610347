//! The parser for declared type annotations. The ghost functions
//! `spec_parse_type`, `spec_class_tail` and `spec_shape_entries` are the
//! grammar; `TypeParser::parse_string` is proved to accept exactly what
//! they accept and to build the same value.
//!
//! The grammar, as the language defines it: an optional `?`, then either
//! a scalar keyword (`int`, `string`, `float`, `bool`), or `array` `{`
//! key `:` type, ... `}` (a trailing comma is allowed and the `?` does
//! not apply), or a class path `Name(\Name)*`, which must reach the end
//! of the token stream. Tokens left over after a scalar or a shape are
//! ignored.

use crate::type_defs::lemma_shape_v_len;
use crate::type_defs::shape_v;
use crate::type_defs::ConcreteType;
use crate::type_defs::ConcreteTypeV;
use crate::type_defs::PType;
use crate::type_defs::PTypeV;
use crate::type_defs::ScalarType;
use crate::type_defs::TypeDefV;
use crate::type_defs::TypeDefinition;
use crate::type_lexer::items_v;
use crate::type_lexer::lemma_items_v_index;
use crate::type_lexer::lemma_items_v_len;
use crate::type_lexer::spec_lex_at;
use crate::type_lexer::LexItemV;
use crate::type_lexer::TypeLexItem;
use vstd::prelude::*;

verus! {

broadcast use {vstd::seq::group_seq_axioms, vstd::std_specs::vec::group_vec_axioms};

/// A one-member type definition holding a scalar.
pub open spec fn scalar_def(sc: ScalarType, nullable: bool) -> TypeDefV {
    TypeDefV { types: seq![ConcreteTypeV { nullable, ptype: PTypeV::Scalar(sc) }] }
}

/// Namespace parts joined with a backslash.
pub open spec fn join_ns(parts: Seq<Seq<char>>) -> Seq<char>
    decreases parts.len(),
{
    if parts.len() == 0 {
        Seq::empty()
    } else if parts.len() == 1 {
        parts[0]
    } else {
        parts[0] + seq!['\\'] + join_ns(parts.skip(1))
    }
}

/// A one-member type definition holding a class: the last part is the
/// local name, the joined rest is the namespace.
pub open spec fn class_def(parts: Seq<Seq<char>>, nullable: bool) -> TypeDefV
    recommends
        parts.len() > 0,
{
    TypeDefV {
        types: seq![
            ConcreteTypeV {
                nullable,
                ptype: PTypeV::Class(parts.last(), join_ns(parts.drop_last())),
            },
        ],
    }
}

/// A one-member type definition holding a shape.
pub open spec fn shape_def(entries: Seq<(Seq<char>, TypeDefV)>) -> TypeDefV {
    TypeDefV { types: seq![ConcreteTypeV { nullable: false, ptype: PTypeV::Shape(entries) }] }
}

/// No two entries share a key.
pub open spec fn unique_keys(s: Seq<(Seq<char>, TypeDefV)>) -> bool {
    forall|i: int, j: int| 0 <= i < j < s.len() ==> s[i].0 != s[j].0
}

/// Inserting a shape entry: an existing key keeps its place and takes the
/// new value, a new key goes to the end.
pub open spec fn shape_insert_v(
    acc: Seq<(Seq<char>, TypeDefV)>,
    k: Seq<char>,
    v: TypeDefV,
) -> Seq<(Seq<char>, TypeDefV)> {
    if exists|idx: int| 0 <= idx < acc.len() && acc[idx].0 == k {
        let idx = choose|idx: int| 0 <= idx < acc.len() && acc[idx].0 == k;
        acc.update(idx, (k, v))
    } else {
        acc.push((k, v))
    }
}

/// The tail of a class path after its first symbol: backslash-symbol
/// pairs that must reach the end of the tokens.
pub open spec fn spec_class_tail(t: Seq<LexItemV>, i: int) -> Option<Seq<Seq<char>>>
    decreases t.len() - i,
{
    if i < 0 {
        None
    } else if i >= t.len() {
        Some(Seq::empty())
    } else if t[i] is NamespaceSeparator && i + 1 < t.len() && t[i + 1] is Symbol {
        match spec_class_tail(t, i + 2) {
            Some(ps) => Some(seq![t[i + 1]->Symbol_0] + ps),
            None => None,
        }
    } else {
        None
    }
}

/// One type starting at `i`: the value and the position after it.
pub open spec fn spec_parse_type(t: Seq<LexItemV>, i: int) -> Option<(TypeDefV, int)>
    decreases t.len() - i, 2int,
{
    if i < 0 || i >= t.len() {
        None
    } else if t[i] is Nullable {
        if i + 1 < t.len() && t[i + 1] is Symbol {
            spec_parse_symbol(t, i + 1, true)
        } else {
            None
        }
    } else if t[i] is Symbol {
        spec_parse_symbol(t, i, false)
    } else {
        None
    }
}

/// A type whose first token is the symbol at `i`.
pub open spec fn spec_parse_symbol(t: Seq<LexItemV>, i: int, nullable: bool) -> Option<
    (TypeDefV, int),
>
    recommends
        0 <= i < t.len(),
        t[i] is Symbol,
    decreases t.len() - i, 1int,
{
    if i < 0 || i >= t.len() || !(t[i] is Symbol) {
        None
    } else {
        let s = t[i]->Symbol_0;
        if s == "int"@ {
            Some((scalar_def(ScalarType::Int, nullable), i + 1))
        } else if s == "string"@ {
            Some((scalar_def(ScalarType::String, nullable), i + 1))
        } else if s == "float"@ {
            Some((scalar_def(ScalarType::Float, nullable), i + 1))
        } else if s == "bool"@ {
            Some((scalar_def(ScalarType::Bool, nullable), i + 1))
        } else if s == "array"@ {
            if i + 1 < t.len() && t[i + 1] is LeftCurlyBracket {
                match spec_shape_entries(t, i + 2, Seq::empty()) {
                    Some((entries, j)) => Some((shape_def(entries), j)),
                    None => None,
                }
            } else {
                None
            }
        } else {
            match spec_class_tail(t, i + 1) {
                Some(ps) => Some((class_def(seq![s] + ps, nullable), t.len() as int)),
                None => None,
            }
        }
    }
}

/// The entries of a shape from position `i` (just after `{` or a comma),
/// given the entries read so far; yields the entries and the position
/// after the closing brace.
pub open spec fn spec_shape_entries(
    t: Seq<LexItemV>,
    i: int,
    acc: Seq<(Seq<char>, TypeDefV)>,
) -> Option<(Seq<(Seq<char>, TypeDefV)>, int)>
    decreases t.len() - i, 0int,
{
    if i < 0 || i >= t.len() {
        None
    } else if t[i] is RightCurlyBracket {
        Some((acc, i + 1))
    } else if t[i] is Symbol && i + 1 < t.len() && t[i + 1] is Colon {
        match spec_parse_type(t, i + 2) {
            Some((v, j)) => {
                // a parsed type always ends past where it began; the
                // bound keeps the recursion visibly well-founded
                if i + 2 < j <= t.len() {
                    let acc2 = shape_insert_v(acc, t[i]->Symbol_0, v);
                    if j < t.len() && t[j] is Comma {
                        spec_shape_entries(t, j + 1, acc2)
                    } else if j < t.len() && t[j] is RightCurlyBracket {
                        Some((acc2, j + 1))
                    } else {
                        None
                    }
                } else {
                    None
                }
            },
            None => None,
        }
    } else {
        None
    }
}

/// What a whole annotation string means, if anything.
pub open spec fn spec_parse_string(s: Seq<char>) -> Option<TypeDefV> {
    match spec_lex_at(s, 0) {
        Err(_) => None,
        Ok(items) => match spec_parse_type(items, 0) {
            Some((d, _)) => Some(d),
            None => None,
        },
    }
}

pub proof fn lemma_join_ns_snoc(parts: Seq<Seq<char>>, x: Seq<char>)
    ensures
        parts.len() == 0 ==> join_ns(parts.push(x)) == x,
        parts.len() > 0 ==> join_ns(parts.push(x)) == join_ns(parts) + seq!['\\'] + x,
    decreases parts.len(),
{
    if parts.len() == 0 {
        assert(parts.push(x)[0] == x);
    } else if parts.len() == 1 {
        assert(parts.push(x)[0] == parts[0]);
        assert(parts.push(x).skip(1) =~= seq![x]);
        assert(join_ns(seq![x]) == x);
        assert(join_ns(parts) == parts[0]);
    } else {
        assert(parts.push(x)[0] == parts[0]);
        assert(parts.push(x).skip(1) =~= parts.skip(1).push(x));
        lemma_join_ns_snoc(parts.skip(1), x);
        assert(join_ns(parts.skip(1).push(x)) == join_ns(parts.skip(1)) + seq!['\\'] + x);
        assert((parts[0] + seq!['\\'] + join_ns(parts.skip(1))) + seq!['\\'] + x =~= parts[0]
            + seq!['\\'] + (join_ns(parts.skip(1)) + seq!['\\'] + x));
    }
}

/// Views of a list of symbol strings.
pub open spec fn strs_v(s: Seq<String>) -> Seq<Seq<char>>
    decreases s,
{
    if s.len() == 0 {
        Seq::empty()
    } else {
        seq![s[0]@] + strs_v(s.skip(1))
    }
}

pub proof fn lemma_strs_v_len(s: Seq<String>)
    ensures
        strs_v(s).len() == s.len(),
    decreases s,
{
    if s.len() > 0 {
        lemma_strs_v_len(s.skip(1));
    }
}

pub proof fn lemma_strs_v_index(s: Seq<String>, i: int)
    requires
        0 <= i < s.len(),
    ensures
        strs_v(s).len() == s.len(),
        strs_v(s)[i] == s[i]@,
    decreases s,
{
    lemma_strs_v_len(s);
    if i > 0 {
        lemma_strs_v_index(s.skip(1), i - 1);
    }
}

pub proof fn lemma_strs_v_push(s: Seq<String>, x: String)
    ensures
        strs_v(s.push(x)) == strs_v(s).push(x@),
{
    lemma_strs_v_len(s.push(x));
    assert forall|i: int| 0 <= i < s.push(x).len() implies strs_v(s.push(x))[i] == strs_v(s).push(
        x@,
    )[i] by {
        lemma_strs_v_len(s);
        lemma_strs_v_index(s.push(x), i);
        if i < s.len() {
            lemma_strs_v_index(s, i);
        } else {
            assert(s.push(x)[i] == x);
        }
    }
    lemma_strs_v_len(s);
    assert(strs_v(s.push(x)) =~= strs_v(s).push(x@));
}

pub proof fn lemma_shape_v_update(
    s: Seq<(String, TypeDefinition)>,
    i: int,
    e: (String, TypeDefinition),
)
    requires
        0 <= i < s.len(),
    ensures
        shape_v(s.update(i, e)) == shape_v(s).update(i, (e.0@, e.1@)),
{
    lemma_shape_v_len(s.update(i, e));
    lemma_shape_v_len(s);
    assert forall|k: int| 0 <= k < s.update(i, e).len() implies shape_v(s.update(i, e))[k]
        == shape_v(s).update(i, (e.0@, e.1@))[k] by {
        crate::type_defs::lemma_shape_v_index(s.update(i, e), k);
        crate::type_defs::lemma_shape_v_index(s, k);
    }
    assert(shape_v(s.update(i, e)) =~= shape_v(s).update(i, (e.0@, e.1@)));
}

/// Puts one entry into a shape's entry list: replaces the value of an
/// existing key in place, appends a new key.
fn shape_insert(
    entries: &mut Vec<(String, TypeDefinition)>,
    k: String,
    v: TypeDefinition,
)
    requires
        unique_keys(shape_v(old(entries)@)),
    ensures
        shape_v(final(entries)@) == shape_insert_v(shape_v(old(entries)@), k@, v@),
        unique_keys(shape_v(final(entries)@)),
{
    let ghost sv = shape_v(entries@);
    proof {
        lemma_shape_v_len(entries@);
    }
    let mut idx: usize = 0;
    while idx < entries.len()
        invariant
            idx <= entries.len(),
            entries@ == old(entries)@,
            sv == shape_v(entries@),
            sv.len() == entries@.len(),
            unique_keys(sv),
            forall|p: int| 0 <= p < idx ==> sv[p].0 != k@,
        decreases entries.len() - idx,
    {
        proof {
            crate::type_defs::lemma_shape_v_index(entries@, idx as int);
        }
        if entries[idx].0 == k {
            proof {
                assert(sv[idx as int].0 == k@);
                let chosen = choose|q: int| 0 <= q < sv.len() && sv[q].0 == k@;
                if chosen != idx as int {
                    assert(sv[chosen].0 != sv[idx as int].0);
                }
                assert(chosen == idx as int);
            }
            let ghost pre = entries@;
            entries.set(idx, (k, v));
            proof {
                lemma_shape_v_update(pre, idx as int, (k, v));
                let updated = sv.update(idx as int, (k@, v@));
                // the key at idx was already k, so the key list is unchanged
                assert(forall|p: int| 0 <= p < updated.len() ==> updated[p].0 == sv[p].0);
            }
            return ;
        }
        idx = idx + 1;
    }
    proof {
        assert(forall|p: int| 0 <= p < sv.len() ==> sv[p].0 != k@);
        crate::type_defs::lemma_shape_v_push(entries@, (k, v));
        let pushed = sv.push((k@, v@));
        assert forall|a: int, b: int| 0 <= a < b < pushed.len() implies pushed[a].0 != pushed[b].0
        by {
            if b < sv.len() {
            } else {
                assert(pushed[b] == (k@, v@));
            }
        }
    }
    entries.push((k, v));
}

/// Reads the tail of a class path (backslash-symbol pairs to the end of
/// the tokens) into `parts`.
fn parse_class_tail(toks: &Vec<TypeLexItem>, i: usize, parts: &mut Vec<String>) -> (r: Result<
    (),
    String,
>)
    ensures
        match r {
            Ok(()) => spec_class_tail(items_v(toks@), i as int) is Some && strs_v(final(parts)@)
                == strs_v(old(parts)@) + spec_class_tail(items_v(toks@), i as int)->Some_0,
            Err(_) => spec_class_tail(items_v(toks@), i as int) is None,
        },
    decreases toks@.len() - i,
{
    let ghost tv = items_v(toks@);
    proof {
        lemma_items_v_len(toks@);
    }
    if i >= toks.len() {
        proof {
            assert(strs_v(parts@) + Seq::<Seq<char>>::empty() =~= strs_v(parts@));
        }
        return Ok(());
    }
    proof {
        lemma_items_v_index(toks@, i as int);
    }
    let is_sep = matches!(&toks[i], TypeLexItem::NamespaceSeparator);
    if !is_sep {
        return Err("a class type may only continue with a namespace separator".to_owned());
    }
    if i + 1 >= toks.len() {
        return Err("a namespace separator must be followed by a name".to_owned());
    }
    proof {
        lemma_items_v_index(toks@, i as int + 1);
    }
    match &toks[i + 1] {
        TypeLexItem::Symbol(s) => {
            let part = s.clone();
            let ghost before = strs_v(parts@);
            proof {
                lemma_strs_v_push(parts@, part);
            }
            parts.push(part);
            let res = parse_class_tail(toks, i + 2, parts);
            match res {
                Ok(()) => {
                    proof {
                        let tail = spec_class_tail(tv, i as int + 2)->Some_0;
                        assert(strs_v(parts@) == before.push(s@) + tail);
                        assert(before.push(s@) + tail =~= before + (seq![s@] + tail));
                        assert(spec_class_tail(tv, i as int) == Some(
                            seq![tv[i as int + 1]->Symbol_0] + tail,
                        ));
                    }
                    Ok(())
                },
                Err(e) => Err(e),
            }
        },
        _ => Err("a namespace separator must be followed by a name".to_owned()),
    }
}

/// One type starting at token `i`; yields the type and the position of
/// the first token after it.
pub fn parse_type_at(toks: &Vec<TypeLexItem>, i: usize) -> (r: Result<
    (TypeDefinition, usize),
    String,
>)
    ensures
        match r {
            Ok((d, j)) => spec_parse_type(items_v(toks@), i as int) == Some((d@, j as int)) && i
                < j <= toks@.len(),
            Err(_) => spec_parse_type(items_v(toks@), i as int) is None,
        },
    decreases toks@.len() - i, 2int,
{
    let ghost tv = items_v(toks@);
    proof {
        lemma_items_v_len(toks@);
    }
    if i >= toks.len() {
        return Err("expected a type".to_owned());
    }
    proof {
        lemma_items_v_index(toks@, i as int);
    }
    match &toks[i] {
        TypeLexItem::Nullable => {
            if i + 1 < toks.len() {
                proof {
                    lemma_items_v_index(toks@, i as int + 1);
                }
                let next_is_symbol = matches!(&toks[i + 1], TypeLexItem::Symbol(_));
                if next_is_symbol {
                    parse_symbol_at(toks, i + 1, true)
                } else {
                    Err("a question mark must be followed by a type name".to_owned())
                }
            } else {
                Err("a question mark must be followed by a type name".to_owned())
            }
        },
        TypeLexItem::Symbol(_) => parse_symbol_at(toks, i, false),
        _ => Err("expected a type name".to_owned()),
    }
}

/// A type whose first token is the symbol at `i`.
fn parse_symbol_at(toks: &Vec<TypeLexItem>, i: usize, nullable: bool) -> (r: Result<
    (TypeDefinition, usize),
    String,
>)
    requires
        i < toks@.len(),
        items_v(toks@)[i as int] is Symbol,
    ensures
        match r {
            Ok((d, j)) => spec_parse_symbol(items_v(toks@), i as int, nullable) == Some(
                (d@, j as int),
            ) && i < j <= toks@.len(),
            Err(_) => spec_parse_symbol(items_v(toks@), i as int, nullable) is None,
        },
    decreases toks@.len() - i, 1int,
{
    let ghost tv = items_v(toks@);
    let n = toks.len();
    proof {
        lemma_items_v_len(toks@);
        lemma_items_v_index(toks@, i as int);
        assert(i < n);
    }
    let sym: String = match &toks[i] {
        TypeLexItem::Symbol(s) => s.clone(),
        _ => {
            return Err("expected a type name".to_owned());
        },
    };
    proof {
        assert(tv[i as int]->Symbol_0 == sym@);
    }
    let scalar: Option<ScalarType> = if sym == "int".to_owned() {
        Some(ScalarType::Int)
    } else if sym == "string".to_owned() {
        Some(ScalarType::String)
    } else if sym == "float".to_owned() {
        Some(ScalarType::Float)
    } else if sym == "bool".to_owned() {
        Some(ScalarType::Bool)
    } else {
        None
    };
    match scalar {
        Some(sc) => {
            let ct = if nullable {
                ConcreteType::new_nullable(PType::Scalar(sc))
            } else {
                ConcreteType::new(PType::Scalar(sc))
            };
            let d = TypeDefinition::new_with_type(ct);
            proof {
                assert(d@ =~~= scalar_def(sc, nullable));
            }
            Ok((d, i + 1))
        },
        None => {
            if sym == "array".to_owned() {
                if i + 1 < toks.len() {
                    proof {
                        lemma_items_v_index(toks@, i as int + 1);
                    }
                    let open_brace = matches!(&toks[i + 1], TypeLexItem::LeftCurlyBracket);
                    if open_brace {
                        parse_shape_at(toks, i + 2)
                    } else {
                        Err("an array type must open a shape here".to_owned())
                    }
                } else {
                    Err("an array type must open a shape here".to_owned())
                }
            } else {
                let mut parts: Vec<String> = Vec::new();
                parts.push(sym);
                proof {
                    lemma_strs_v_push(Seq::empty(), parts@[0]);
                    assert(strs_v(parts@) =~= seq![tv[i as int]->Symbol_0]);
                }
                match parse_class_tail(toks, i + 1, &mut parts) {
                    Ok(()) => {
                        proof {
                            let tail = spec_class_tail(tv, i as int + 1)->Some_0;
                            assert(strs_v(parts@) =~= seq![tv[i as int]->Symbol_0] + tail);
                        }
                        let d = build_class_def(&parts, nullable);
                        Ok((d, toks.len()))
                    },
                    Err(e) => Err(e),
                }
            }
        },
    }
}

/// Builds the class type for a non-empty part list: last part is the
/// name, the joined rest the namespace.
fn build_class_def(parts: &Vec<String>, nullable: bool) -> (r: TypeDefinition)
    requires
        parts@.len() > 0,
    ensures
        r@ == class_def(strs_v(parts@), nullable),
{
    proof {
        lemma_strs_v_len(parts@);
        lemma_strs_v_index(parts@, parts@.len() - 1);
    }
    let name = parts[parts.len() - 1].clone();
    let mut ns = String::new();
    let mut k: usize = 0;
    while k < parts.len() - 1
        invariant
            parts@.len() > 0,
            k <= parts@.len() - 1,
            strs_v(parts@).len() == parts@.len(),
            ns@ == join_ns(strs_v(parts@).take(k as int)),
        decreases parts.len() - 1 - k,
    {
        proof {
            reveal_strlit("\\");
            lemma_strs_v_index(parts@, k as int);
            lemma_join_ns_snoc(strs_v(parts@).take(k as int), strs_v(parts@)[k as int]);
            assert(strs_v(parts@).take(k as int).push(strs_v(parts@)[k as int]) =~= strs_v(
                parts@,
            ).take(k + 1));
            assert("\\"@ =~= seq!['\\']);
        }
        if k > 0 {
            ns = ns.concat("\\");
        }
        ns = ns.concat(parts[k].as_str());
        k = k + 1;
    }
    proof {
        assert(strs_v(parts@).take(parts@.len() - 1) =~= strs_v(parts@).drop_last());
        assert(strs_v(parts@).last() == name@);
    }
    let ct = if nullable {
        ConcreteType::new_nullable(PType::Class(name, ns))
    } else {
        ConcreteType::new(PType::Class(name, ns))
    };
    let d = TypeDefinition::new_with_type(ct);
    proof {
        assert(d@ =~~= class_def(strs_v(parts@), nullable));
    }
    d
}

/// The entries of a shape from `i` (just after the opening brace) to its
/// closing brace; yields the shape type and the position after it.
fn parse_shape_at(toks: &Vec<TypeLexItem>, i: usize) -> (r: Result<(TypeDefinition, usize), String>)
    ensures
        match r {
            Ok((d, j)) => spec_shape_entries(items_v(toks@), i as int, Seq::empty()) is Some && ({
                let (entries, end) = spec_shape_entries(items_v(toks@), i as int, Seq::empty())->Some_0;
                d@ == shape_def(entries) && j == end && i < j <= toks@.len()
            }),
            Err(_) => spec_shape_entries(items_v(toks@), i as int, Seq::empty()) is None,
        },
    decreases toks@.len() - i, 0int,
{
    let ghost tv = items_v(toks@);
    proof {
        lemma_items_v_len(toks@);
    }
    let mut entries: Vec<(String, TypeDefinition)> = Vec::new();
    let mut pos: usize = i;
    loop
        invariant_except_break
            spec_shape_entries(tv, i as int, Seq::empty()) == spec_shape_entries(
                tv,
                pos as int,
                shape_v(entries@),
            ),
        invariant
            i <= pos,
            tv == items_v(toks@),
            tv.len() == toks@.len(),
            unique_keys(shape_v(entries@)),
        ensures
            spec_shape_entries(tv, i as int, Seq::empty()) is Some && ({
                let (es, end) = spec_shape_entries(tv, i as int, Seq::empty())->Some_0;
                es == shape_v(entries@) && i < pos <= toks@.len() && end == pos as int
            }),
        decreases toks@.len() - pos,
    {
        if pos >= toks.len() {
            return Err("a shape must be closed with a brace".to_owned());
        }
        proof {
            lemma_items_v_index(toks@, pos as int);
        }
        let is_close = matches!(&toks[pos], TypeLexItem::RightCurlyBracket);
        if is_close {
            pos = pos + 1;
            break;
        }
        let key: String = match &toks[pos] {
            TypeLexItem::Symbol(s) => s.clone(),
            _ => {
                return Err("a shape entry must start with a key".to_owned());
            },
        };
        if pos + 1 >= toks.len() {
            return Err("a shape key must be followed by a colon".to_owned());
        }
        proof {
            lemma_items_v_index(toks@, pos as int + 1);
        }
        let is_colon = matches!(&toks[pos + 1], TypeLexItem::Colon);
        if !is_colon {
            return Err("a shape key must be followed by a colon".to_owned());
        }
        let (value, j) = match parse_type_at(toks, pos + 2) {
            Ok(p) => p,
            Err(e) => {
                return Err(e);
            },
        };
        proof {
            assert(tv[pos as int]->Symbol_0 == key@);
        }
        shape_insert(&mut entries, key, value);
        if j >= toks.len() {
            return Err("a shape must be closed with a brace".to_owned());
        }
        proof {
            lemma_items_v_index(toks@, j as int);
        }
        let is_comma = matches!(&toks[j], TypeLexItem::Comma);
        let is_close2 = matches!(&toks[j], TypeLexItem::RightCurlyBracket);
        if is_comma {
            pos = j + 1;
        } else if is_close2 {
            pos = j + 1;
            break;
        } else {
            return Err("a shape entry must be followed by a comma or a closing brace".to_owned());
        }
    }
    let mut members: Vec<ConcreteType> = Vec::new();
    let ct = ConcreteType { nullable: false, ptype: PType::Shape(entries) };
    proof {
        crate::type_defs::lemma_cts_v_push(Seq::empty(), ct);
    }
    members.push(ct);
    let d = TypeDefinition { types: members };
    proof {
        assert(d@ =~~= shape_def(spec_shape_entries(tv, i as int, Seq::empty())->Some_0.0));
    }
    Ok((d, pos))
}

/// The parser for whole annotation strings.
pub struct TypeParser {}

impl TypeParser {
    pub fn new() -> (r: TypeParser) {
        TypeParser {  }
    }

    /// Parses an annotation. Succeeds with the type the ghost grammar
    /// gives the string; fails exactly when lexing or the grammar fails,
    /// and a lexer failure's message is passed on verbatim.
    pub fn parse_string(&mut self, input: String) -> (r: Result<Option<TypeDefinition>, String>)
        ensures
            match spec_parse_string(input@) {
                Some(d) => r is Ok && r->Ok_0 is Some && r->Ok_0->Some_0@ == d,
                None => r is Err,
            },
            spec_lex_at(input@, 0) matches Err(c) ==> (r matches Err(e) && e@
                == "unexpected character "@ + seq![c]),
    {
        match TypeLexItem::lex(&input) {
            Ok(tokens) => self.parse_vector(tokens),
            Err(e) => Err(e),
        }
    }

    /// Parses an already-lexed annotation; tokens after the first type
    /// are ignored.
    pub fn parse_vector(&mut self, tokens: Vec<TypeLexItem>) -> (r: Result<
        Option<TypeDefinition>,
        String,
    >)
        ensures
            match spec_parse_type(items_v(tokens@), 0) {
                Some(p) => r is Ok && r->Ok_0 is Some && r->Ok_0->Some_0@ == p.0,
                None => r is Err,
            },
    {
        match parse_type_at(&tokens, 0) {
            Ok((d, _)) => Ok(Some(d)),
            Err(e) => Err(e),
        }
    }
}

} // verus!
