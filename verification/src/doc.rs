//! Doc comments: a description laid out as `///` lines of bounded width.

use crate::text::{char_width, chars_of, string_of, utf8_width};
use vstd::prelude::*;

verus! {

/// Whether `c` has the Unicode property White_Space.
pub uninterp spec fn is_whitespace(c: char) -> bool;

/// `char::is_whitespace`: whether `c` has the Unicode property
/// White_Space. The space and the line feed have it.
#[verifier::external_body]
pub(crate) fn char_is_whitespace(c: char) -> (b: bool)
    ensures
        b == is_whitespace(c),
        c == ' ' || c == '\n' ==> b,
{
    c.is_whitespace()
}

/// For each character of `s`, whether it is white space.
pub open spec fn whitespace_mask(s: Seq<char>) -> Seq<bool> {
    Seq::new(s.len(), |i: int| is_whitespace(s[i]))
}

/// What every line of a doc comment starts with.
pub open spec fn line_start() -> Seq<char> {
    seq!['/', '/', '/', ' ']
}

/// The end of one line and the start of the next.
pub open spec fn line_break() -> Seq<char> {
    seq!['\n', '/', '/', '/', ' ']
}

/// The width in bytes of the word that starts at `i`: of the characters
/// from `i` up to the next separator, or to the end.
pub open spec fn word_width(chars: Seq<char>, space: Seq<bool>, i: int) -> nat
    decreases chars.len() - i,
{
    if i < 0 || i >= chars.len() || i >= space.len() || space[i] {
        0
    } else {
        utf8_width(chars[i]) + word_width(chars, space, i + 1)
    }
}

/// The text written for `chars` from position `i` on.
///
/// `column` is the width of the line so far. `fresh` says that a word
/// starts at `i`: the word moves to a new line if, with it, the line would
/// reach `limit`. A separator that is a line feed starts a new line; any
/// other separator is written as one space.
pub open spec fn laid_out(
    chars: Seq<char>,
    space: Seq<bool>,
    i: int,
    column: nat,
    fresh: bool,
    limit: nat,
) -> Seq<char>
    decreases chars.len() - i,
{
    if i < 0 || i >= chars.len() || i >= space.len() {
        Seq::empty()
    } else {
        let wraps = fresh && column + word_width(chars, space, i) >= limit;
        let lead = if wraps {
            line_break()
        } else {
            Seq::empty()
        };
        let at = if wraps {
            4
        } else {
            column
        };
        if !space[i] {
            lead + seq![chars[i]] + laid_out(
                chars,
                space,
                i + 1,
                at + utf8_width(chars[i]),
                false,
                limit,
            )
        } else if chars[i] == '\n' {
            lead + line_break() + laid_out(chars, space, i + 1, 4, true, limit)
        } else {
            lead + seq![' '] + laid_out(chars, space, i + 1, at + 1, true, limit)
        }
    }
}

/// `body` closed as a comment: without a space at its end, and with a line
/// feed after it.
pub open spec fn closed(body: Seq<char>) -> Seq<char> {
    if body.len() > 0 && body.last() == ' ' {
        body.drop_last().push('\n')
    } else {
        body.push('\n')
    }
}

/// The doc comment for the text `chars`, of which `space` marks the
/// separators, on lines that stay under `limit` bytes where a break
/// between words allows it.
pub open spec fn doc_comment(chars: Seq<char>, space: Seq<bool>, limit: nat) -> Seq<char> {
    closed(line_start() + laid_out(chars, space, 0, 4, true, limit))
}

/// A doc comment starts with three slashes and ends with a line feed.
pub proof fn lemma_doc_comment_shape(chars: Seq<char>, space: Seq<bool>, limit: nat)
    ensures
        doc_comment(chars, space, limit).len() >= 4,
        doc_comment(chars, space, limit).take(3) == seq!['/', '/', '/'],
        doc_comment(chars, space, limit).last() == '\n',
{
    let body = line_start() + laid_out(chars, space, 0, 4, true, limit);
    assert(body.len() >= 4);
    assert(body[0] == '/' && body[1] == '/' && body[2] == '/');
    assert(doc_comment(chars, space, limit).take(3) =~= seq!['/', '/', '/']);
}

proof fn lemma_word_width_bound(chars: Seq<char>, space: Seq<bool>, i: int)
    requires
        0 <= i <= chars.len(),
    ensures
        word_width(chars, space, i) <= 4 * (chars.len() - i),
    decreases chars.len() - i,
{
    if i < chars.len() && i < space.len() && !space[i] {
        lemma_word_width_bound(chars, space, i + 1);
    }
}

/// The width in bytes of the word that starts at `i`.
fn measure_word(chars: &Vec<char>, space: &Vec<bool>, i: usize) -> (w: u128)
    requires
        space@.len() == chars@.len(),
        i <= chars@.len(),
    ensures
        w == word_width(chars@, space@, i as int),
{
    let mut j: usize = i;
    let mut w: u128 = 0;
    while j < chars.len() && !space[j]
        invariant
            i <= j <= chars@.len(),
            space@.len() == chars@.len(),
            w + word_width(chars@, space@, j as int) == word_width(chars@, space@, i as int),
            w <= 4 * (j - i),
        decreases chars.len() - j,
    {
        w = w + char_width(chars[j]) as u128;
        j += 1;
    }
    w
}

/// Lays `chars` out as a doc comment; `space` says of each character
/// whether it separates words.
pub fn wrap_doc_comment(chars: &Vec<char>, space: &Vec<bool>, remaining_line: usize) -> (r: String)
    requires
        space@.len() == chars@.len(),
    ensures
        r@ == doc_comment(chars@, space@, remaining_line as nat),
{
    let mut out: Vec<char> = Vec::new();
    out.push('/');
    out.push('/');
    out.push('/');
    out.push(' ');
    assert(out@ =~= line_start());
    let limit: u128 = remaining_line as u128;
    let mut column: u128 = 4;
    let mut fresh = true;
    let mut i: usize = 0;
    let ghost whole = line_start() + laid_out(chars@, space@, 0, 4, true, limit as nat);
    while i < chars.len()
        invariant
            i <= chars@.len(),
            space@.len() == chars@.len(),
            limit == remaining_line,
            column <= 4 + 5 * i,
            whole == out@ + laid_out(chars@, space@, i as int, column as nat, fresh, limit as nat),
        decreases chars.len() - i,
    {
        let ghost rest_before = laid_out(chars@, space@, i as int, column as nat, fresh, limit as nat);
        let ghost out_before = out@;
        if fresh {
            proof {
                lemma_word_width_bound(chars@, space@, i as int);
            }
            let width = measure_word(chars, space, i);
            if column + width >= limit {
                out.push('\n');
                out.push('/');
                out.push('/');
                out.push('/');
                out.push(' ');
                column = 4;
            }
        }
        let ghost lead = out@.skip(out_before.len() as int);
        assert(out@ =~= out_before + lead);
        let c = chars[i];
        if !space[i] {
            out.push(c);
            column = column + char_width(c) as u128;
            fresh = false;
            assert(out@ =~= out_before + (lead + seq![c]));
        } else if c == '\n' {
            out.push('\n');
            out.push('/');
            out.push('/');
            out.push('/');
            out.push(' ');
            column = 4;
            fresh = true;
            assert(out@ =~= out_before + (lead + line_break()));
        } else {
            out.push(' ');
            column = column + 1;
            fresh = true;
            assert(out@ =~= out_before + (lead + seq![' ']));
        }
        i += 1;
        proof {
            let rest_after = laid_out(chars@, space@, i as int, column as nat, fresh, limit as nat);
            assert(rest_before == (out@.skip(out_before.len() as int)) + rest_after);
            assert(out_before + rest_before =~= out@ + rest_after);
        }
    }
    assert(whole =~= out@);
    let n = out.len();
    if out[n - 1] == ' ' {
        out.pop();
        assert(out@ =~= whole.drop_last());
    }
    out.push('\n');
    let end = out.len();
    let r = string_of(&out, 0, end);
    assert(out@.subrange(0, end as int) =~= out@);
    r
}

/// Lays `comment` out as a doc comment.
///
/// Each line starts with `/// `. A word moves to a new line if, with it,
/// the line would reach `remaining_line` bytes. A line feed in `comment`
/// starts a new line; any other white space between words becomes one
/// space. The comment ends with a line feed, with no space before it.
pub fn make_doc_comment(comment: &str, remaining_line: usize) -> (r: String)
    ensures
        r@ == doc_comment(comment@, whitespace_mask(comment@), remaining_line as nat),
        forall|i: int|
            0 <= i < comment@.len() && (comment@[i] == ' ' || comment@[i] == '\n')
                ==> #[trigger] whitespace_mask(comment@)[i],
{
    let chars = chars_of(comment);
    let mut space: Vec<bool> = Vec::new();
    let mut i: usize = 0;
    while i < chars.len()
        invariant
            i <= chars@.len(),
            space@.len() == i,
            forall|k: int| 0 <= k < i ==> space@[k] == is_whitespace(chars@[k]),
            forall|k: int|
                0 <= k < i && (chars@[k] == ' ' || chars@[k] == '\n') ==> #[trigger] space@[k],
        decreases chars.len() - i,
    {
        space.push(char_is_whitespace(chars[i]));
        i += 1;
    }
    assert(space@ =~= whitespace_mask(comment@));
    wrap_doc_comment(&chars, &space, remaining_line)
}

} // verus!
