//! Output text, held in `quote::Tokens`.
//!
//! A `Tokens` value is a run of tokens written one after another with a
//! single space between them. Its text is what the rest of the crate states
//! its results over.

use vstd::prelude::*;

verus! {

/// `quote::Tokens`, carried through as it is: of its inside the library
/// sees only what `token_text` names.
#[verifier::external_type_specification]
#[verifier::external_body]
pub struct ExTokens(quote::Tokens);

/// The text that a `Tokens` value holds: what `quote::Tokens::as_str`
/// returns.
pub uninterp spec fn token_text(tokens: quote::Tokens) -> Seq<char>;

/// How `quote` writes the string `s` as a Rust string literal: between
/// double quotes, with escapes where the literal needs them.
pub uninterp spec fn string_literal(s: Seq<char>) -> Seq<char>;

/// `text` with `token` written after it: a space goes between the two where
/// neither is empty.
pub open spec fn joined(text: Seq<char>, token: Seq<char>) -> Seq<char> {
    if text.len() > 0 && token.len() > 0 {
        text + seq![' '] + token
    } else {
        text + token
    }
}

/// The tokens of `tokens` written one after another.
pub open spec fn join_all(tokens: Seq<Seq<char>>) -> Seq<char>
    decreases tokens.len(),
{
    if tokens.len() == 0 {
        Seq::empty()
    } else {
        joined(join_all(tokens.drop_last()), tokens.last())
    }
}

/// The tokens of `tokens` with `separator` written between each two.
pub open spec fn join_separated(tokens: Seq<Seq<char>>, separator: Seq<char>) -> Seq<char>
    decreases tokens.len(),
{
    if tokens.len() == 0 {
        Seq::empty()
    } else {
        let before = join_separated(tokens.drop_last(), separator);
        joined(
            if tokens.len() > 1 {
                joined(before, separator)
            } else {
                before
            },
            tokens.last(),
        )
    }
}

/// The texts of a list of `Tokens` values.
pub open spec fn token_texts(list: Vec<quote::Tokens>) -> Seq<Seq<char>> {
    Seq::new(list@.len(), |i: int| token_text(list@[i]))
}

/// Writing a token after no text gives the token.
pub proof fn lemma_joined_empty(token: Seq<char>)
    ensures
        joined(Seq::empty(), token) == token,
        joined(token, Seq::empty()) == token,
{
    assert(joined(Seq::empty(), token) =~= token);
    assert(joined(token, Seq::empty()) =~= token);
}

/// The text does not depend on how the tokens were grouped when they were
/// written.
pub proof fn lemma_joined_associative(a: Seq<char>, b: Seq<char>, c: Seq<char>)
    ensures
        joined(joined(a, b), c) == joined(a, joined(b, c)),
{
    assert(joined(joined(a, b), c) =~= joined(a, joined(b, c)));
}

/// `quote::Tokens::new`: a value that holds no text.
#[verifier::external_body]
pub(crate) fn new_tokens() -> (tokens: quote::Tokens)
    ensures
        token_text(tokens) == Seq::<char>::empty(),
{
    quote::Tokens::new()
}

/// `quote::Tokens::append`: writes `token` after what is there, with a space
/// before it unless one of the two is empty.
#[verifier::external_body]
pub(crate) fn append_token(tokens: &mut quote::Tokens, token: &str)
    ensures
        token_text(*final(tokens)) == joined(token_text(*old(tokens)), token@),
{
    tokens.append(token)
}

/// `quote::ToTokens::to_tokens` of a `Tokens` value: appends the whole text
/// of `inner` as one token.
#[verifier::external_body]
pub(crate) fn append_tokens(tokens: &mut quote::Tokens, inner: &quote::Tokens)
    ensures
        token_text(*final(tokens)) == joined(token_text(*old(tokens)), token_text(*inner)),
{
    quote::ToTokens::to_tokens(inner, tokens)
}

/// `quote::ToTokens::to_tokens` of a `str`: appends `s`, written as a string
/// literal, as one token.
#[verifier::external_body]
pub(crate) fn append_string_literal(tokens: &mut quote::Tokens, s: &str)
    ensures
        token_text(*final(tokens)) == joined(token_text(*old(tokens)), string_literal(s@)),
{
    quote::ToTokens::to_tokens(s, tokens)
}

/// All of `list` written one after another into a value of its own.
pub fn concat_tokens(list: &Vec<quote::Tokens>) -> (all: quote::Tokens)
    ensures
        token_text(all) == join_all(token_texts(*list)),
{
    let mut all = new_tokens();
    let mut i: usize = 0;
    assert(token_texts(*list).take(0) =~= Seq::empty());
    while i < list.len()
        invariant
            i <= list@.len(),
            token_text(all) == join_all(token_texts(*list).take(i as int)),
        decreases list.len() - i,
    {
        append_tokens(&mut all, &list[i]);
        assert(token_texts(*list).take(i + 1).drop_last() =~= token_texts(*list).take(i as int));
        i += 1;
    }
    assert(token_texts(*list).take(i as int) =~= token_texts(*list));
    all
}

/// All of `list` written one after another, with `separator` between each
/// two, into a value of its own.
pub fn separate_tokens(list: &Vec<quote::Tokens>, separator: &str) -> (all: quote::Tokens)
    ensures
        token_text(all) == join_separated(token_texts(*list), separator@),
{
    let mut all = new_tokens();
    let mut i: usize = 0;
    assert(token_texts(*list).take(0) =~= Seq::empty());
    while i < list.len()
        invariant
            i <= list@.len(),
            token_text(all) == join_separated(token_texts(*list).take(i as int), separator@),
        decreases list.len() - i,
    {
        if i > 0 {
            append_token(&mut all, separator);
        }
        append_tokens(&mut all, &list[i]);
        assert(token_texts(*list).take(i + 1).drop_last() =~= token_texts(*list).take(i as int));
        i += 1;
    }
    assert(token_texts(*list).take(i as int) =~= token_texts(*list));
    all
}

} // verus!
