//! Line classification and header heuristics for the transcript export
//! format.
//!
//! A line is a header line unless it begins with the body indentation the
//! exporting tool writes: a tab, or four spaces (both variants occur, so both
//! are tolerated). A header line carries the speaker and the timestamp:
//!
//! * The speaker name is recovered by scanning the header character by
//!   character. Accumulation into a name buffer starts right after the first
//!   `'m'` in the line (the end of the word "From" in the header shape
//!   `<timestamp> From <Name> ...:`). After each accumulated character, if the
//!   buffer ends with the moderator's name, the buffer is cleaned up — every
//!   occurrence of the moderator name and of the literal `"to"` is removed and
//!   the rest is trimmed — and that is the speaker name. If the buffer never
//!   ends with the moderator name the extracted name is empty, which marks a
//!   header whose following body lines must not be attributed to anyone.
//! * The timestamp is the token at index 1 when the header is split on single
//!   space characters, taken verbatim; a header without a second token leaves
//!   the current timestamp unchanged.

use crate::text::copy_range;
use crate::text::ends_with_chars;
use crate::text::find_char;
use crate::text::find_char_from;
use crate::text::remove_all;
use crate::text::remove_all_chars;
use crate::text::seq_ends_with;
use crate::text::trim;
use crate::text::trim_chars;
use vstd::prelude::*;

verus! {

/// The literal removed from a matched name buffer together with the
/// moderator name.
pub open spec fn word_to() -> Seq<char> {
    seq!['t', 'o']
}

/// A continuation (message body) line: indented by a tab or by four spaces.
pub open spec fn is_continuation(line: Seq<char>) -> bool {
    (line.len() >= 1 && line[0] == '\t') || (line.len() >= 4 && line[0] == ' ' && line[1] == ' '
        && line[2] == ' ' && line[3] == ' ')
}

/// The cleanup applied to a name buffer that ends with the moderator name:
/// drop every occurrence of the moderator name and of `"to"`, then trim.
pub open spec fn cleanup_name(buf: Seq<char>, moderator: Seq<char>) -> Seq<char> {
    trim(remove_all(remove_all(buf, moderator), word_to()))
}

/// The scan over a header line, from position `i` on, with `acc` telling
/// whether an `'m'` has been seen and `buf` holding what was accumulated.
pub open spec fn extract_name_from(
    line: Seq<char>,
    i: int,
    acc: bool,
    buf: Seq<char>,
    moderator: Seq<char>,
) -> Seq<char>
    decreases line.len() - i,
{
    if i < 0 || i >= line.len() {
        Seq::empty()
    } else if !acc {
        extract_name_from(line, i + 1, line[i] == 'm', buf, moderator)
    } else {
        let buf2 = buf.push(line[i]);
        if seq_ends_with(buf2, moderator) {
            cleanup_name(buf2, moderator)
        } else {
            extract_name_from(line, i + 1, true, buf2, moderator)
        }
    }
}

/// The speaker name a header line yields against the given moderator name;
/// empty when the line is the moderator's own or carries no recognizable
/// speaker.
pub open spec fn extract_name(line: Seq<char>, moderator: Seq<char>) -> Seq<char> {
    extract_name_from(line, 0, false, Seq::empty(), moderator)
}

/// The timestamp of a header line: the token at index 1 when the line is
/// split on single space characters, or nothing when the line has no space.
pub open spec fn header_timestamp(line: Seq<char>) -> Option<Seq<char>> {
    let i = find_char_from(line, ' ', 0);
    if i == line.len() {
        Option::None
    } else {
        let j = find_char_from(line, ' ', i + 1);
        Option::Some(line.subrange(i + 1, j))
    }
}

/// Whether `line` is a continuation (message body) line.
pub fn is_continuation_line(line: &Vec<char>) -> (r: bool)
    ensures
        r == is_continuation(line@),
{
    (line.len() >= 1 && line[0] == '\t') || (line.len() >= 4 && line[0] == ' ' && line[1] == ' '
        && line[2] == ' ' && line[3] == ' ')
}

/// Extracts the speaker name from a header line.
pub fn extract_name_chars(line: &Vec<char>, moderator: &Vec<char>) -> (r: Vec<char>)
    ensures
        r@ == extract_name(line@, moderator@),
{
    let n: usize = line.len();
    let mut buf: Vec<char> = Vec::new();
    let mut acc: bool = false;
    let mut i: usize = 0;
    while i < n
        invariant
            i <= n,
            n == line@.len(),
            extract_name(line@, moderator@) == extract_name_from(
                line@,
                i as int,
                acc,
                buf@,
                moderator@,
            ),
        decreases n - i,
    {
        let c = line[i];
        if !acc {
            acc = c == 'm';
            i = i + 1;
        } else {
            buf.push(c);
            if ends_with_chars(&buf, moderator) {
                let stripped = remove_all_chars(&buf, moderator);
                let to_word: Vec<char> = vec!['t', 'o'];
                proof {
                    assert(to_word@ =~= word_to());
                }
                let cleaned = remove_all_chars(&stripped, &to_word);
                let r = trim_chars(&cleaned);
                return r;
            }
            i = i + 1;
        }
    }
    Vec::new()
}

/// Extracts the timestamp from a header line, when the line has one.
pub fn header_timestamp_chars(line: &Vec<char>) -> (r: Option<Vec<char>>)
    ensures
        match r {
            Option::Some(t) => header_timestamp(line@) == Option::Some(t@),
            Option::None => header_timestamp(line@) == Option::<Seq<char>>::None,
        },
{
    let n: usize = line.len();
    let i = find_char(line, ' ', 0);
    if i == n {
        return Option::None;
    }
    let j = find_char(line, ' ', i + 1);
    Option::Some(copy_range(line, i + 1, j))
}

} // verus!
