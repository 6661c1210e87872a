//! The transcript locator's string rules: extracting the moderator's display
//! name from a room subdirectory's name, and recognizing the transcript file
//! inside it. Walking the directory itself is left to the caller, who feeds
//! entry names to these functions.

use crate::text::chars_of;
use crate::text::copy_range;
use crate::text::ends_with_chars;
use crate::text::find_char;
use crate::text::find_char_from;
use crate::text::seq_ends_with;
use crate::text::string_of;
use vstd::prelude::*;

verus! {

/// The suffix the exporting tool appends to the moderator's name in a room
/// subdirectory's name.
pub open spec fn room_suffix() -> Seq<char> {
    "'s Personal Meeting Room"@
}

/// The fixed name of the transcript file inside a room subdirectory.
pub open spec fn transcript_file_name() -> Seq<char> {
    "meeting_saved_chat.txt"@
}

/// What stands strictly after the second space of `s`; empty when `s` has
/// fewer than two spaces.
pub open spec fn after_second_space(s: Seq<char>) -> Seq<char> {
    let i = find_char_from(s, ' ', 0);
    if i == s.len() {
        Seq::empty()
    } else {
        let j = find_char_from(s, ' ', i + 1);
        if j == s.len() {
            Seq::empty()
        } else {
            s.subrange(j + 1, s.len() as int)
        }
    }
}

/// The moderator name a room subdirectory's name yields: everything up to
/// and including the second space is discarded, and the trailing room
/// suffix, when present, is stripped.
pub open spec fn moderator_of_dir(s: Seq<char>) -> Seq<char> {
    let t = after_second_space(s);
    if seq_ends_with(t, room_suffix()) {
        t.subrange(0, t.len() - room_suffix().len())
    } else {
        t
    }
}

/// Extracts the moderator's display name from a room subdirectory's name.
pub fn moderator_from_dir_name(name: &str) -> (r: String)
    ensures
        r@ == moderator_of_dir(name@),
{
    let v = chars_of(name);
    let n: usize = v.len();
    let i = find_char(&v, ' ', 0);
    if i == n {
        return String::new();
    }
    let j = find_char(&v, ' ', i + 1);
    if j == n {
        return String::new();
    }
    let t = copy_range(&v, j + 1, n);
    let suffix = chars_of("'s Personal Meeting Room");
    if ends_with_chars(&t, &suffix) {
        let stripped = copy_range(&t, 0, t.len() - suffix.len());
        proof {
            assert(t@.subrange(0, t@.len() - room_suffix().len()) == stripped@);
        }
        string_of(&stripped)
    } else {
        string_of(&t)
    }
}

/// Whether a directory entry's name is the transcript file's fixed name.
pub fn is_transcript_file_name(name: &str) -> (r: bool)
    ensures
        r == (name@ == transcript_file_name()),
{
    let a: String = name.to_owned();
    let b: String = "meeting_saved_chat.txt".to_owned();
    a == b
}

} // verus!
