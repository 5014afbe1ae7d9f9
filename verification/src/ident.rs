//! Identifier policy: how a schema name becomes a type name or a field
//! name, and when the original name has to be kept in a rename attribute.

use crate::error::ExpandError;
use crate::text::{chars_of, push_char, str_eq};
use crate::tokens::{
    append_string_literal, append_token, append_tokens, joined, new_tokens, string_literal,
    token_text,
};
use vstd::prelude::*;

verus! {

/// The longest name, in characters, that is converted to another case.
pub const MAX_NAME_LEN: usize = 0x0fff_ffff;

/// `s` in pascal case, as the `inflector` crate writes it.
pub uninterp spec fn pascal_case(s: Seq<char>) -> Seq<char>;

/// `s` in snake case, as the `inflector` crate writes it.
pub uninterp spec fn snake_case(s: Seq<char>) -> Seq<char>;

/// `inflector::cases::pascalcase::to_pascal_case`. The result depends on
/// `s` alone. The function reserves twice the length of `s` in bytes, so
/// `s` is kept short enough for that to fit.
#[verifier::external_body]
pub(crate) fn to_pascal_case(s: &str) -> (r: String)
    requires
        s@.len() <= MAX_NAME_LEN,
    ensures
        r@ == pascal_case(s@),
{
    inflector::cases::pascalcase::to_pascal_case(s)
}

/// `inflector::cases::snakecase::to_snake_case`. The result depends on `s`
/// alone. The function reserves twice the length of `s` in bytes, so `s` is
/// kept short enough for that to fit.
#[verifier::external_body]
pub(crate) fn to_snake_case(s: &str) -> (r: String)
    requires
        s@.len() <= MAX_NAME_LEN,
    ensures
        r@ == snake_case(s@),
{
    inflector::cases::snakecase::to_snake_case(s)
}

/// The type name for `raw`: `raw` in pascal case, if `raw` is not too long.
pub open spec fn pascal_name(raw: Seq<char>) -> Result<Seq<char>, ExpandError> {
    if raw.len() > MAX_NAME_LEN {
        Err(ExpandError::NameTooLong)
    } else {
        Ok(pascal_case(raw))
    }
}

/// What a `Result` that holds a string is seen as.
pub open spec fn text_result(r: Result<String, ExpandError>) -> Result<Seq<char>, ExpandError> {
    match r {
        Ok(s) => Ok(s@),
        Err(e) => Err(e),
    }
}

/// What a `Result` that holds tokens is seen as.
pub open spec fn tokens_result(r: Result<quote::Tokens, ExpandError>) -> Result<
    Seq<char>,
    ExpandError,
> {
    match r {
        Ok(t) => Ok(token_text(t)),
        Err(e) => Err(e),
    }
}

/// Converts a schema key, or the tail of a reference, to a type name.
pub fn to_type_name(raw: &str) -> (r: Result<String, ExpandError>)
    ensures
        text_result(r) == pascal_name(raw@),
{
    if raw.unicode_len() > MAX_NAME_LEN {
        Err(ExpandError::NameTooLong)
    } else {
        Ok(to_pascal_case(raw))
    }
}

/// Whether `s` is one of the words that cannot stand as an identifier.
pub open spec fn is_reserved(s: Seq<char>) -> bool {
    s == "type"@ || s == "struct"@ || s == "enum"@
}

/// The attribute that keeps `original` as the name on the wire.
pub open spec fn rename_attr(original: Seq<char>) -> Seq<char> {
    joined(joined("# [ serde ( rename ="@, string_literal(original)), ") ]"@)
}

/// A reserved word `s` as an identifier: the rename attribute, `prefix`,
/// and `s` with an underscore after it.
pub open spec fn reserved_text(prefix: Seq<char>, s: Seq<char>) -> Seq<char> {
    joined(joined(rename_attr(s), prefix), s + "_"@)
}

/// Writes the attribute that keeps `original` as the name on the wire.
pub fn append_rename_attr(tokens: &mut quote::Tokens, original: &str)
    ensures
        token_text(*final(tokens)) == joined(token_text(*old(tokens)), rename_attr(original@)),
{
    let mut attr = new_tokens();
    append_token(&mut attr, "# [ serde ( rename =");
    append_string_literal(&mut attr, original);
    append_token(&mut attr, ") ]");
    assert(joined(Seq::empty(), "# [ serde ( rename ="@) =~= "# [ serde ( rename ="@);
    append_tokens(tokens, &attr);
}

/// Where `s` is a reserved word, the identifier that stands for it: `s`
/// with an underscore, after `prefix` and a rename attribute that holds
/// `s`. Otherwise nothing: the caller uses `s` as it is.
pub fn rename_keyword(prefix: &str, s: &str) -> (r: Option<quote::Tokens>)
    ensures
        r is Some <==> is_reserved(s@),
        r matches Some(t) ==> token_text(t) == reserved_text(prefix@, s@),
{
    if str_eq(s, "type") || str_eq(s, "struct") || str_eq(s, "enum") {
        let mut name = String::from_str(s);
        name.append("_");
        let mut tokens = new_tokens();
        append_rename_attr(&mut tokens, s);
        assert(joined(Seq::empty(), rename_attr(s@)) =~= rename_attr(s@));
        append_token(&mut tokens, prefix);
        append_token(&mut tokens, name.as_str());
        Some(tokens)
    } else {
        None
    }
}

/// Whether `c` may not stand in an identifier though snake case keeps it.
pub open spec fn is_sigil(c: char) -> bool {
    c == '$' || c == '#'
}

/// `s` without the characters `$` and `#`.
pub open spec fn strip_sigils(s: Seq<char>) -> Seq<char> {
    s.filter(|c: char| !is_sigil(c))
}

/// Whether `$` or `#` occurs in `s`.
pub open spec fn has_sigil(s: Seq<char>) -> bool {
    exists|i: int| 0 <= i < s.len() && is_sigil(#[trigger] s[i])
}

/// The identifier for a field whose key is `s` and `snake` in snake case:
/// `ref_` for the key `$ref`, and else `snake` without `$` and `#`.
pub open spec fn field_ident(s: Seq<char>, snake: Seq<char>) -> Seq<char> {
    if s == "$ref"@ || snake == "$ref"@ {
        "ref_"@
    } else {
        strip_sigils(snake)
    }
}

/// The public field for the key `s`, whose snake case is `snake`.
///
/// A reserved word gets an underscore and a rename attribute. A key that
/// snake case changes, or that holds `$` or `#`, gets the identifier made
/// from its snake case and a rename attribute. Any other key stands as it
/// is.
pub open spec fn field_text(s: Seq<char>, snake: Seq<char>) -> Seq<char> {
    if is_reserved(s) {
        reserved_text("pub"@, s)
    } else if snake != s || has_sigil(snake) {
        joined(joined(rename_attr(s), "pub"@), field_ident(s, snake))
    } else {
        joined("pub"@, s)
    }
}

/// Whether `$` or `#` occurs in `chars`.
pub fn contains_sigil(chars: &Vec<char>) -> (r: bool)
    ensures
        r == has_sigil(chars@),
{
    let mut i: usize = 0;
    while i < chars.len()
        invariant
            i <= chars@.len(),
            forall|k: int| 0 <= k < i ==> !is_sigil(#[trigger] chars@[k]),
        decreases chars.len() - i,
    {
        if chars[i] == '$' || chars[i] == '#' {
            return true;
        }
        i += 1;
    }
    false
}

/// `chars` without the characters `$` and `#`.
pub fn without_sigils(chars: &Vec<char>) -> (r: String)
    ensures
        r@ == strip_sigils(chars@),
{
    let mut out = String::new();
    let mut i: usize = 0;
    let ghost keep = |c: char| !is_sigil(c);
    proof {
        reveal(Seq::filter);
        assert(chars@.take(0) =~= Seq::empty());
    }
    while i < chars.len()
        invariant
            i <= chars@.len(),
            keep == |c: char| !is_sigil(c),
            out@ == chars@.take(i as int).filter(keep),
        decreases chars.len() - i,
    {
        let c = chars[i];
        proof {
            reveal(Seq::filter);
            assert(chars@.take(i + 1).drop_last() =~= chars@.take(i as int));
            assert(chars@.take(i + 1).last() == c);
        }
        if c != '$' && c != '#' {
            push_char(&mut out, c);
        }
        i += 1;
    }
    assert(chars@.take(i as int) =~= chars@);
    out
}

/// The public field for the key `s`, given `snake`, the key in snake case.
pub fn field_from_snake(s: &str, snake: &str) -> (r: quote::Tokens)
    ensures
        token_text(r) == field_text(s@, snake@),
{
    if let Some(t) = rename_keyword("pub", s) {
        t
    } else {
        let snake_chars = chars_of(snake);
        let mut tokens = new_tokens();
        if !str_eq(snake, s) || contains_sigil(&snake_chars) {
            let ident = if str_eq(s, "$ref") || str_eq(snake, "$ref") {
                String::from_str("ref_")
            } else {
                without_sigils(&snake_chars)
            };
            append_rename_attr(&mut tokens, s);
            assert(joined(Seq::empty(), rename_attr(s@)) =~= rename_attr(s@));
            append_token(&mut tokens, "pub");
            append_token(&mut tokens, ident.as_str());
        } else {
            append_token(&mut tokens, "pub");
            assert(joined(Seq::empty(), "pub"@) =~= "pub"@);
            append_token(&mut tokens, s);
        }
        tokens
    }
}

/// The public field for the key `s`, if `s` is not too long to convert.
pub open spec fn field_for(s: Seq<char>) -> Result<Seq<char>, ExpandError> {
    if s.len() > MAX_NAME_LEN {
        Err(ExpandError::NameTooLong)
    } else {
        Ok(field_text(s, snake_case(s)))
    }
}

/// The public field for the schema key `s`.
pub fn field(s: &str) -> (r: Result<quote::Tokens, ExpandError>)
    ensures
        tokens_result(r) == field_for(s@),
{
    if s.unicode_len() > MAX_NAME_LEN {
        Err(ExpandError::NameTooLong)
    } else {
        let snake = to_snake_case(s);
        Ok(field_from_snake(s, snake.as_str()))
    }
}

} // verus!
