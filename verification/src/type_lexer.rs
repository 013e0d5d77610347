//! Tokens of the type-annotation language and the lexer that produces
//! them. The ghost lexer `spec_lex_at` is the reference: it consumes one
//! token per step and names the offending character when no token fits.

use vstd::prelude::*;

verus! {

broadcast use {vstd::seq::group_seq_axioms, vstd::std_specs::vec::group_vec_axioms};

/// One token of a type annotation.
#[derive(Debug, PartialEq, Eq)]
pub enum TypeLexItem {
    Nullable,
    Symbol(String),
    StartGeneric,
    EndGeneric,
    LeftParen,
    RightParen,
    LeftCurlyBracket,
    RightCurlyBracket,
    Colon,
    Comma,
    NamespaceSeparator,
}

/// Ghost counterpart of `TypeLexItem`.
pub enum LexItemV {
    Nullable,
    Symbol(Seq<char>),
    StartGeneric,
    EndGeneric,
    LeftParen,
    RightParen,
    LeftCurlyBracket,
    RightCurlyBracket,
    Colon,
    Comma,
    NamespaceSeparator,
}

pub open spec fn lex_item_v(t: TypeLexItem) -> LexItemV {
    match t {
        TypeLexItem::Nullable => LexItemV::Nullable,
        TypeLexItem::Symbol(s) => LexItemV::Symbol(s@),
        TypeLexItem::StartGeneric => LexItemV::StartGeneric,
        TypeLexItem::EndGeneric => LexItemV::EndGeneric,
        TypeLexItem::LeftParen => LexItemV::LeftParen,
        TypeLexItem::RightParen => LexItemV::RightParen,
        TypeLexItem::LeftCurlyBracket => LexItemV::LeftCurlyBracket,
        TypeLexItem::RightCurlyBracket => LexItemV::RightCurlyBracket,
        TypeLexItem::Colon => LexItemV::Colon,
        TypeLexItem::Comma => LexItemV::Comma,
        TypeLexItem::NamespaceSeparator => LexItemV::NamespaceSeparator,
    }
}

impl View for TypeLexItem {
    type V = LexItemV;

    open spec fn view(&self) -> LexItemV {
        lex_item_v(*self)
    }
}

pub open spec fn items_v(s: Seq<TypeLexItem>) -> Seq<LexItemV>
    decreases s,
{
    if s.len() == 0 {
        Seq::empty()
    } else {
        seq![lex_item_v(s[0])] + items_v(s.skip(1))
    }
}

pub proof fn lemma_items_v_len(s: Seq<TypeLexItem>)
    ensures
        items_v(s).len() == s.len(),
    decreases s,
{
    if s.len() > 0 {
        lemma_items_v_len(s.skip(1));
    }
}

pub proof fn lemma_items_v_index(s: Seq<TypeLexItem>, i: int)
    requires
        0 <= i < s.len(),
    ensures
        items_v(s).len() == s.len(),
        items_v(s)[i] == lex_item_v(s[i]),
    decreases s,
{
    lemma_items_v_len(s);
    if i > 0 {
        lemma_items_v_index(s.skip(1), i - 1);
    }
}

pub proof fn lemma_items_v_push(s: Seq<TypeLexItem>, t: TypeLexItem)
    ensures
        items_v(s.push(t)) == items_v(s).push(lex_item_v(t)),
{
    lemma_items_v_len(s.push(t));
    assert forall|i: int| 0 <= i < s.push(t).len() implies items_v(s.push(t))[i] == items_v(
        s,
    ).push(lex_item_v(t))[i] by {
        lemma_items_v_len(s);
        lemma_items_v_index(s.push(t), i);
        if i < s.len() {
            lemma_items_v_index(s, i);
        } else {
            assert(s.push(t)[i] == t);
        }
    }
    lemma_items_v_len(s);
    assert(items_v(s.push(t)) =~= items_v(s).push(lex_item_v(t)));
}

/// A letter or underscore: what a symbol token may start with.
pub open spec fn is_symbol_start(c: char) -> bool {
    (97 <= c as u32 && c as u32 <= 122) || (65 <= c as u32 && c as u32 <= 90) || c == '_'
}

/// A letter, underscore or digit: what a symbol token may continue with.
pub open spec fn is_symbol_char(c: char) -> bool {
    is_symbol_start(c) || (48 <= c as u32 && c as u32 <= 57)
}

/// The token a single punctuation character lexes to, if any.
pub open spec fn punct_item(c: char) -> Option<LexItemV> {
    if c == '<' {
        Some(LexItemV::StartGeneric)
    } else if c == '>' {
        Some(LexItemV::EndGeneric)
    } else if c == '?' {
        Some(LexItemV::Nullable)
    } else if c == ':' {
        Some(LexItemV::Colon)
    } else if c == '{' {
        Some(LexItemV::LeftCurlyBracket)
    } else if c == '}' {
        Some(LexItemV::RightCurlyBracket)
    } else if c == '(' {
        Some(LexItemV::LeftParen)
    } else if c == ')' {
        Some(LexItemV::RightParen)
    } else if c == '\\' {
        Some(LexItemV::NamespaceSeparator)
    } else if c == ',' {
        Some(LexItemV::Comma)
    } else {
        None
    }
}

/// The end of the symbol token that starts at `i`: the first position at
/// or after `i` holding no symbol character, or the end of the input.
pub open spec fn symbol_end(s: Seq<char>, i: int) -> int
    decreases s.len() - i,
{
    if i < 0 || i >= s.len() || !is_symbol_char(s[i]) {
        i
    } else {
        symbol_end(s, i + 1)
    }
}

pub proof fn lemma_symbol_end_bounds(s: Seq<char>, i: int)
    requires
        0 <= i <= s.len(),
    ensures
        i <= symbol_end(s, i) <= s.len(),
        i < s.len() && is_symbol_char(s[i]) ==> i + 1 <= symbol_end(s, i),
    decreases s.len() - i,
{
    if i < s.len() && is_symbol_char(s[i]) {
        lemma_symbol_end_bounds(s, i + 1);
    }
}

/// `symbol_end` is the unique boundary: symbol characters up to `j`, then
/// a non-symbol character or the end.
pub proof fn lemma_symbol_end_is(s: Seq<char>, i: int, j: int)
    requires
        0 <= i <= j <= s.len(),
        forall|k: int| i <= k < j ==> is_symbol_char(s[k]),
        j == s.len() || !is_symbol_char(s[j]),
    ensures
        symbol_end(s, i) == j,
    decreases j - i,
{
    if i < j {
        lemma_symbol_end_is(s, i + 1, j);
    }
}

/// What the lexer yields from position `i` on: the token list, or the
/// character no token starts with.
pub open spec fn spec_lex_at(s: Seq<char>, i: int) -> Result<Seq<LexItemV>, char>
    decreases s.len() - i,
    via spec_lex_at_decreases
{
    if i < 0 || i >= s.len() {
        Ok(Seq::empty())
    } else if is_symbol_start(s[i]) {
        let e = symbol_end(s, i);
        match spec_lex_at(s, e) {
            Ok(rest) => Ok(seq![LexItemV::Symbol(s.subrange(i, e))] + rest),
            Err(c) => Err(c),
        }
    } else {
        match punct_item(s[i]) {
            Some(item) => match spec_lex_at(s, i + 1) {
                Ok(rest) => Ok(seq![item] + rest),
                Err(c) => Err(c),
            },
            None => Err(s[i]),
        }
    }
}

#[via_fn]
proof fn spec_lex_at_decreases(s: Seq<char>, i: int) {
    if 0 <= i < s.len() && is_symbol_start(s[i]) {
        lemma_symbol_end_bounds(s, i);
    }
}

/// Joins an already-lexed prefix with the outcome for the rest.
pub open spec fn lex_combine(pre: Seq<LexItemV>, rest: Result<Seq<LexItemV>, char>) -> Result<
    Seq<LexItemV>,
    char,
> {
    match rest {
        Ok(r) => Ok(pre + r),
        Err(c) => Err(c),
    }
}

impl TypeLexItem {
    /// Lexes a whole annotation. Fails exactly where the ghost lexer
    /// fails, naming the character that no token starts with.
    pub fn lex(input: &String) -> (r: Result<Vec<TypeLexItem>, String>)
        ensures
            match spec_lex_at(input@, 0) {
                Ok(items) => r is Ok && items_v(r->Ok_0@) == items,
                Err(c) => r is Err && r->Err_0@ == "unexpected character "@ + seq![c],
            },
    {
        let mut result: Vec<TypeLexItem> = Vec::new();
        let n = input.as_str().unicode_len();
        let mut i: usize = 0;
        while i < n
            invariant
                n == input@.len(),
                i <= n,
                spec_lex_at(input@, 0) == lex_combine(
                    items_v(result@),
                    spec_lex_at(input@, i as int),
                ),
            decreases n - i,
        {
            let ghost s: Seq<char> = input@;
            let ghost pre: Seq<LexItemV> = items_v(result@);
            let c = input.as_str().get_char(i);
            let cu = c as u32;
            if (97 <= cu && cu <= 122) || (65 <= cu && cu <= 90) || c == '_' {
                // a symbol token: take every following symbol character
                let mut j: usize = i + 1;
                while j < n
                    invariant
                        n == input@.len(),
                        i < j <= n,
                        forall|k: int| i <= k < j ==> is_symbol_char(input@[k]),
                    ensures
                        i < j <= n,
                        forall|k: int| i <= k < j ==> is_symbol_char(input@[k]),
                        j == n || !is_symbol_char(input@[j as int]),
                    decreases n - j,
                {
                    let c2 = input.as_str().get_char(j);
                    let cu2 = c2 as u32;
                    if (97 <= cu2 && cu2 <= 122) || (65 <= cu2 && cu2 <= 90) || c2 == '_' || (48
                        <= cu2 && cu2 <= 57) {
                        j = j + 1;
                    } else {
                        break;
                    }
                }
                proof {
                    lemma_symbol_end_is(s, i as int, j as int);
                }
                let text = input.as_str().substring_char(i, j).to_owned();
                let item = TypeLexItem::Symbol(text);
                proof {
                    lemma_items_v_push(result@, item);
                    assert(lex_item_v(item) == LexItemV::Symbol(s.subrange(i as int, j as int)));
                    assert(items_v(result@.push(item)) =~= pre + seq![lex_item_v(item)]);
                    lemma_lex_combine_assoc(
                        pre,
                        seq![lex_item_v(item)],
                        spec_lex_at(s, j as int),
                    );
                }
                result.push(item);
                i = j;
            } else {
                let item_opt: Option<TypeLexItem> = if c == '<' {
                    Some(TypeLexItem::StartGeneric)
                } else if c == '>' {
                    Some(TypeLexItem::EndGeneric)
                } else if c == '?' {
                    Some(TypeLexItem::Nullable)
                } else if c == ':' {
                    Some(TypeLexItem::Colon)
                } else if c == '{' {
                    Some(TypeLexItem::LeftCurlyBracket)
                } else if c == '}' {
                    Some(TypeLexItem::RightCurlyBracket)
                } else if c == '(' {
                    Some(TypeLexItem::LeftParen)
                } else if c == ')' {
                    Some(TypeLexItem::RightParen)
                } else if c == '\\' {
                    Some(TypeLexItem::NamespaceSeparator)
                } else if c == ',' {
                    Some(TypeLexItem::Comma)
                } else {
                    None
                };
                match item_opt {
                    Some(item) => {
                        proof {
                            lemma_items_v_push(result@, item);
                            assert(punct_item(s[i as int]) == Some(lex_item_v(item)));
                            assert(items_v(result@.push(item)) =~= pre + seq![lex_item_v(item)]);
                            lemma_lex_combine_assoc(
                                pre,
                                seq![lex_item_v(item)],
                                spec_lex_at(s, i + 1),
                            );
                        }
                        result.push(item);
                        i = i + 1;
                    },
                    None => {
                        proof {
                            assert(punct_item(s[i as int]) is None);
                            assert(spec_lex_at(s, i as int) == Err::<Seq<LexItemV>, char>(
                                s[i as int],
                            ));
                        }
                        let bad = input.as_str().substring_char(i, i + 1);
                        let msg = "unexpected character ".to_owned().concat(bad);
                        proof {
                            assert(bad@ =~= seq![s[i as int]]);
                        }
                        return Err(msg);
                    },
                }
            }
        }
        proof {
            assert(spec_lex_at(input@, i as int) == Ok::<Seq<LexItemV>, char>(Seq::empty()));
            if spec_lex_at(input@, 0) is Ok {
                assert(items_v(result@) + Seq::<LexItemV>::empty() =~= items_v(result@));
            }
        }
        Ok(result)
    }
}

pub proof fn lemma_lex_combine_assoc(
    a: Seq<LexItemV>,
    b: Seq<LexItemV>,
    r: Result<Seq<LexItemV>, char>,
)
    ensures
        lex_combine(a, lex_combine(b, r)) == lex_combine(a + b, r),
{
    match r {
        Ok(rest) => {
            assert(a + (b + rest) =~= (a + b) + rest);
        },
        Err(_) => {
        },
    }
}

} // verus!
