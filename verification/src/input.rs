//! Telling whether piped input names a file to read rather than being the
//! data itself.

use vstd::prelude::*;
use vstd::utf8::{valid_utf8, decode_utf8};

verus! {

/// Longest piped input that is still taken for a path.
pub const MAX_PATH_INPUT: usize = 4096;

/// Whether `c` is white space in Unicode, as `char::is_whitespace` says.
pub open spec fn is_space(c: char) -> bool {
    ||| '\u{9}' <= c <= '\u{d}'
    ||| c == ' '
    ||| c == '\u{85}'
    ||| c == '\u{a0}'
    ||| c == '\u{1680}'
    ||| '\u{2000}' <= c <= '\u{200a}'
    ||| c == '\u{2028}'
    ||| c == '\u{2029}'
    ||| c == '\u{202f}'
    ||| c == '\u{205f}'
    ||| c == '\u{3000}'
}

fn space(c: char) -> (s: bool)
    ensures
        s == is_space(c),
{
    ('\u{9}' <= c && c <= '\u{d}') || c == ' ' || c == '\u{85}' || c == '\u{a0}' || c
        == '\u{1680}' || ('\u{2000}' <= c && c <= '\u{200a}') || c == '\u{2028}' || c == '\u{2029}'
        || c == '\u{202f}' || c == '\u{205f}' || c == '\u{3000}'
}

/// Position of the first character of `text` at or after `from` that is not
/// white space, or the length of `text`.
pub open spec fn first_solid(text: Seq<char>, from: int) -> int
    decreases text.len() - from,
{
    if from >= text.len() || !is_space(text[from]) {
        from
    } else {
        first_solid(text, from + 1)
    }
}

/// Position just past the last character of `text` before `to` that is not
/// white space, or 0.
pub open spec fn last_solid(text: Seq<char>, to: int) -> int
    decreases to,
{
    if to <= 0 || !is_space(text[to - 1]) {
        to
    } else {
        last_solid(text, to - 1)
    }
}

/// `text` without white space at either end.
pub open spec fn trimmed(text: Seq<char>) -> Seq<char> {
    let start = first_solid(text, 0);
    if start >= text.len() {
        Seq::empty()
    } else {
        text.subrange(start, last_solid(text, text.len() as int))
    }
}

/// The text that piped input names a file with, if it can: input of at most
/// `MAX_PATH_INPUT` bytes that is UTF-8 and, without white space at either
/// end, is one line that is not empty.
pub open spec fn path_text_of(buffer: Seq<u8>) -> Option<Seq<char>> {
    if buffer.len() > MAX_PATH_INPUT || !valid_utf8(buffer) {
        None
    } else {
        let text = trimmed(decode_utf8(buffer));
        if text.len() == 0 || text.contains('\n') {
            None
        } else {
            Some(text)
        }
    }
}

/// The text of `bytes`, when they are UTF-8.
///
/// Trusted: `std::str::from_utf8` succeeds exactly on valid UTF-8, and the
/// text it gives is what the bytes encode.
#[verifier::external_body]
fn utf8_text(bytes: &[u8]) -> (text: Option<&str>)
    ensures
        text is Some <==> valid_utf8(bytes@),
        text matches Some(t) ==> t@ == decode_utf8(bytes@),
{
    std::str::from_utf8(bytes).ok()
}

proof fn lemma_first_solid_bounds(text: Seq<char>, from: int)
    requires
        0 <= from <= text.len(),
    ensures
        from <= first_solid(text, from) <= text.len(),
        first_solid(text, from) < text.len() ==> !is_space(text[first_solid(text, from)]),
    decreases text.len() - from,
{
    if from < text.len() && is_space(text[from]) {
        lemma_first_solid_bounds(text, from + 1);
    }
}

proof fn lemma_last_solid_bounds(text: Seq<char>, to: int, start: int)
    requires
        0 <= start < to <= text.len(),
        !is_space(text[start]),
    ensures
        start < last_solid(text, to) <= to,
    decreases to,
{
    if to > 0 && is_space(text[to - 1]) {
        lemma_last_solid_bounds(text, to - 1, start);
    }
}

/// `text` without white space at either end.
fn trim(text: &str) -> (t: &str)
    ensures
        t@ == trimmed(text@),
{
    let n = text.unicode_len();
    let mut start: usize = 0;
    while start < n && space(text.get_char(start))
        invariant
            start <= n,
            n == text@.len(),
            first_solid(text@, start as int) == first_solid(text@, 0),
        decreases n - start,
    {
        start += 1;
    }
    proof {
        lemma_first_solid_bounds(text@, 0);
    }
    if start >= n {
        return text.substring_char(0, 0);
    }
    let mut end: usize = n;
    while end > 0 && space(text.get_char(end - 1))
        invariant
            end <= n,
            n == text@.len(),
            last_solid(text@, end as int) == last_solid(text@, n as int),
        decreases end,
    {
        end -= 1;
    }
    proof {
        lemma_last_solid_bounds(text@, n as int, start as int);
    }
    text.substring_char(start, end)
}

/// Whether `text` holds a newline.
fn has_newline(text: &str) -> (found: bool)
    ensures
        found == text@.contains('\n'),
{
    let n = text.unicode_len();
    let mut i: usize = 0;
    while i < n
        invariant
            i <= n,
            n == text@.len(),
            forall|k: int| 0 <= k < i ==> text@[k] != '\n',
        decreases n - i,
    {
        if text.get_char(i) == '\n' {
            assert(text@[i as int] == '\n');
            return true;
        }
        i += 1;
    }
    false
}

/// The text that piped input names a file with, if it can; see
/// `path_text_of`. Whether such a file exists is for the caller to ask.
pub fn path_text(buffer: &[u8]) -> (text: Option<String>)
    ensures
        match text {
            Some(t) => path_text_of(buffer@) == Some(t@),
            None => path_text_of(buffer@) is None,
        },
{
    if buffer.len() > MAX_PATH_INPUT {
        return None;
    }
    let text = match utf8_text(buffer) {
        Some(text) => trim(text),
        None => return None,
    };
    if text.unicode_len() == 0 || has_newline(text) {
        return None;
    }
    Some(String::from_str(text))
}

} // verus!
