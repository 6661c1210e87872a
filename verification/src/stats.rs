//! Read-only statistics over a parsed session: the participation frequency
//! percentage and the case-insensitive substring filter over message text.

use crate::session::MessageView;
use crate::session::Participant;
use crate::text::chars_of;
use crate::text::contains_chars;
use crate::text::contains_seq;
use vstd::prelude::*;

verus! {

/// The lowercase equivalent of a character sequence.
pub uninterp spec fn lower_of(s: Seq<char>) -> Seq<char>;

/// Relies on `str::to_lowercase`: the lowercase equivalent of a string,
/// which depends on its characters alone.
#[verifier::external_body]
fn lowercase(s: &str) -> (r: String)
    ensures
        r@ == lower_of(s@),
{
    s.to_lowercase()
}

/// Whether `text` passes the filter `query`: the query occurs in the text
/// when both are lowercased.
pub open spec fn matches_filter(text: Seq<char>, query: Seq<char>) -> bool {
    contains_seq(lower_of(text), lower_of(query))
}

/// Whether one message's text passes the filter, case-insensitively and by
/// substring.
pub fn message_matches(text: &str, query: &str) -> (r: bool)
    ensures
        r == matches_filter(text@, query@),
{
    let lt = lowercase(text);
    let lq = lowercase(query);
    let tv = chars_of(lt.as_str());
    let qv = chars_of(lq.as_str());
    contains_chars(&tv, &qv)
}

/// The indices of the messages that pass the filter, scanning from index
/// `i`, in order.
pub open spec fn matching_indices(msgs: Seq<MessageView>, query: Seq<char>, i: int) -> Seq<int>
    decreases msgs.len() - i,
{
    if i < 0 || i >= msgs.len() {
        Seq::empty()
    } else if matches_filter(msgs[i].text, query) {
        seq![i] + matching_indices(msgs, query, i + 1)
    } else {
        matching_indices(msgs, query, i + 1)
    }
}

/// The indices, in order, of this participant's messages whose text passes
/// the filter `query`.
pub fn filter_message_indices(p: &Participant, query: &str) -> (r: Vec<usize>)
    ensures
        r@.map_values(|u: usize| u as int) == matching_indices(p@.messages, query@, 0),
{
    let lq = lowercase(query);
    let qv = chars_of(lq.as_str());
    let n: usize = p.messages.len();
    let mut r: Vec<usize> = Vec::new();
    let mut i: usize = 0;
    proof {
        assert(r@.map_values(|u: usize| u as int) =~= Seq::<int>::empty());
    }
    while i < n
        invariant
            i <= n,
            n == p.messages@.len(),
            qv@ == lower_of(query@),
            matching_indices(p@.messages, query@, 0) == r@.map_values(|u: usize| u as int)
                + matching_indices(p@.messages, query@, i as int),
        decreases n - i,
    {
        let ghost r0 = r@;
        let lt = lowercase(p.messages[i].text.as_str());
        let tv = chars_of(lt.as_str());
        if contains_chars(&tv, &qv) {
            r.push(i);
            proof {
                assert(r@.map_values(|u: usize| u as int) =~= r0.map_values(|u: usize| u as int)
                    + seq![i as int]);
                assert(matches_filter(p@.messages[i as int].text, query@));
                assert((r0.map_values(|u: usize| u as int) + seq![i as int]) + matching_indices(
                    p@.messages,
                    query@,
                    i + 1,
                ) =~= r0.map_values(|u: usize| u as int) + (seq![i as int] + matching_indices(
                    p@.messages,
                    query@,
                    i + 1,
                )));
            }
        } else {
            proof {
                assert(!matches_filter(p@.messages[i as int].text, query@));
            }
        }
        i = i + 1;
    }
    proof {
        assert(matching_indices(p@.messages, query@, n as int) =~= Seq::<int>::empty());
        assert(r@.map_values(|u: usize| u as int) + Seq::<int>::empty() =~= r@.map_values(
            |u: usize| u as int,
        ));
    }
    r
}

/// The participation frequency percentage: the participant's message count
/// times one hundred, divided (integer division) by the session's total.
/// The total must be positive — nothing may ask for a ratio before a parse
/// has counted messages — and no participant holds more messages than the
/// total counts.
pub fn frequency_percent(count: usize, total: usize) -> (r: usize)
    requires
        0 < total,
        count <= total,
    ensures
        r == count * 100 / total as int,
{
    let big: u128 = (count as u128) * 100 / (total as u128);
    proof {
        assert(count * 100 <= total * 100) by (nonlinear_arith)
            requires count <= total;
        assert(count * 100 / total as int <= total * 100 / total as int) by (nonlinear_arith)
            requires 0 < total, count * 100 <= total * 100;
        assert(total * 100 / total as int == 100) by (nonlinear_arith)
            requires 0 < total;
    }
    big as usize
}

} // verus!
