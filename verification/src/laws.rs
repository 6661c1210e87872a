//! Session-wide laws of the transcript scanner, stated over the spec-level
//! scanning model and proved once and for all.

use crate::parse::cleanup_name;
use crate::parse::extract_name;
use crate::parse::extract_name_from;
use crate::parse::is_continuation;
use crate::parse::word_to;
use crate::session::append_message;
use crate::session::initial_state;
use crate::session::process_line;
use crate::session::process_lines;
use crate::session::MessageView;
use crate::session::ParseState;
use crate::session::ParticipantView;
use crate::text::remove_all;
use crate::text::seq_ends_with;
use crate::text::trim;
use crate::text::trim_end;
use crate::text::trim_start;
use vstd::prelude::*;

verus! {

/// The number of messages across all participants.
pub open spec fn sum_message_counts(parts: Seq<ParticipantView>) -> int
    decreases parts.len(),
{
    if parts.len() == 0 {
        0
    } else {
        parts[0].messages.len() + sum_message_counts(parts.drop_first())
    }
}

proof fn lemma_sum_cons(p: ParticipantView, rest: Seq<ParticipantView>)
    ensures
        sum_message_counts(seq![p] + rest) == p.messages.len() + sum_message_counts(rest),
{
    let s = seq![p] + rest;
    assert(s[0] == p);
    assert(s.drop_first() =~= rest);
}

proof fn lemma_append_message_sum(parts: Seq<ParticipantView>, name: Seq<char>, msg: MessageView)
    ensures
        sum_message_counts(append_message(parts, name, msg)) == sum_message_counts(parts) + 1,
    decreases parts.len(),
{
    if parts.len() == 0 {
        let s = seq![ParticipantView { name, messages: seq![msg] }];
        assert(append_message(parts, name, msg) == s);
        assert(s.drop_first() =~= Seq::<ParticipantView>::empty());
        assert(sum_message_counts(s.drop_first()) == 0);
        assert(sum_message_counts(s) == 1);
    } else if parts[0].name == name {
        let pv = ParticipantView { name: parts[0].name, messages: parts[0].messages.push(msg) };
        assert(append_message(parts, name, msg) == seq![pv] + parts.drop_first());
        lemma_sum_cons(pv, parts.drop_first());
        assert(sum_message_counts(parts) == parts[0].messages.len() + sum_message_counts(
            parts.drop_first(),
        ));
    } else {
        assert(append_message(parts, name, msg) == seq![parts[0]] + append_message(
            parts.drop_first(),
            name,
            msg,
        ));
        lemma_append_message_sum(parts.drop_first(), name, msg);
        lemma_sum_cons(parts[0], append_message(parts.drop_first(), name, msg));
        assert(sum_message_counts(parts) == parts[0].messages.len() + sum_message_counts(
            parts.drop_first(),
        ));
    }
}

/// Law: the running counter and the message total move in step — processing
/// any lines from any scanning state changes the counter by exactly the
/// number of messages added across participants.
pub proof fn lemma_counter_tracks_messages(
    st: ParseState,
    lines: Seq<Seq<char>>,
    moderator: Seq<char>,
)
    ensures
        ({
            let fin = process_lines(st, lines, moderator);
            fin.total - sum_message_counts(fin.participants) == st.total - sum_message_counts(
                st.participants,
            )
        }),
    decreases lines.len(),
{
    if lines.len() > 0 {
        let st2 = process_line(st, lines[0], moderator);
        if is_continuation(lines[0]) && st.name.len() > 0 {
            lemma_append_message_sum(
                st.participants,
                st.name,
                MessageView { text: trim(lines[0]), timestamp: st.time },
            );
        }
        lemma_counter_tracks_messages(st2, lines.drop_first(), moderator);
    }
}

/// Law: after a single parse call, the counter equals the number of messages
/// that call attributed: the message total across participants afterwards,
/// less the total the mapping already held.
pub proof fn lemma_single_parse_total(
    parts0: Seq<ParticipantView>,
    lines: Seq<Seq<char>>,
    moderator: Seq<char>,
)
    ensures
        ({
            let fin = process_lines(initial_state(parts0), lines, moderator);
            fin.total == sum_message_counts(fin.participants) - sum_message_counts(parts0)
        }),
{
    lemma_counter_tracks_messages(initial_state(parts0), lines, moderator);
}

/// Law: for a parse that starts from an empty mapping, the counter equals
/// the sum over participants of their message counts.
pub proof fn lemma_parse_from_empty_total(lines: Seq<Seq<char>>, moderator: Seq<char>)
    ensures
        ({
            let fin = process_lines(initial_state(Seq::empty()), lines, moderator);
            fin.total == sum_message_counts(fin.participants)
        }),
{
    lemma_single_parse_total(Seq::empty(), lines, moderator);
}

/// Law: continuation lines seen while no speaker is current — in particular
/// any continuation lines before the first header line — are attributed to
/// nobody: the scanning state is exactly what it would be had the lines
/// after them been processed alone.
pub proof fn lemma_leading_continuations_dropped(
    st: ParseState,
    lines: Seq<Seq<char>>,
    moderator: Seq<char>,
    k: int,
)
    requires
        st.name.len() == 0,
        0 <= k <= lines.len(),
        forall|j: int| 0 <= j < k ==> is_continuation(#[trigger] lines[j]),
    ensures
        process_lines(st, lines, moderator) == process_lines(st, lines.skip(k), moderator),
    decreases k,
{
    if k == 0 {
        assert(lines.skip(0) =~= lines);
    } else {
        assert(process_line(st, lines[0], moderator) == st);
        lemma_leading_continuations_dropped(st, lines.drop_first(), moderator, k - 1);
        assert(lines.drop_first().skip(k - 1) =~= lines.skip(k));
    }
}

/// Law: a transcript of continuation lines only, scanned while no speaker is
/// current, leaves the scanning state untouched.
pub proof fn lemma_all_continuations_no_attribution(
    st: ParseState,
    lines: Seq<Seq<char>>,
    moderator: Seq<char>,
)
    requires
        st.name.len() == 0,
        forall|j: int| 0 <= j < lines.len() ==> is_continuation(#[trigger] lines[j]),
    ensures
        process_lines(st, lines, moderator) == st,
{
    lemma_leading_continuations_dropped(st, lines, moderator, lines.len() as int);
    assert(lines.skip(lines.len() as int) =~= Seq::<Seq<char>>::empty());
}

proof fn lemma_skip_non_m(line: Seq<char>, i: int, p: int, buf: Seq<char>, moderator: Seq<char>)
    requires
        0 <= i <= p <= line.len(),
        forall|j: int| i <= j < p ==> line[j] != 'm',
    ensures
        extract_name_from(line, i, false, buf, moderator) == extract_name_from(
            line,
            p,
            false,
            buf,
            moderator,
        ),
    decreases p - i,
{
    if i < p {
        lemma_skip_non_m(line, i + 1, p, buf, moderator);
    }
}

proof fn lemma_scan_moderator(line: Seq<char>, base: int, j: int, moderator: Seq<char>)
    requires
        moderator.len() > 0,
        0 <= j < moderator.len(),
        0 <= base,
        base + moderator.len() <= line.len(),
        forall|k: int| 0 <= k < moderator.len() ==> line[base + k] == moderator[k],
        forall|k: int|
            0 <= k < moderator.len() ==> !seq_ends_with(seq![' '] + moderator.take(k), moderator),
    ensures
        extract_name_from(line, base + j, true, seq![' '] + moderator.take(j), moderator)
            == cleanup_name(seq![' '] + moderator, moderator),
    decreases moderator.len() - j,
{
    let buf = seq![' '] + moderator.take(j);
    let buf2 = buf.push(line[base + j]);
    assert(line[base + j] == moderator[j]);
    assert(buf2 =~= seq![' '] + moderator.take(j + 1));
    if j + 1 == moderator.len() {
        assert(moderator.take(j + 1) =~= moderator);
        assert((seq![' '] + moderator).subrange(1, (seq![' '] + moderator).len() as int)
            =~= moderator);
        assert(seq_ends_with(buf2, moderator));
    } else {
        assert(!seq_ends_with(buf2, moderator));
        lemma_scan_moderator(line, base, j + 1, moderator);
    }
}

/// Law: a header line whose speaker is the moderator — the scan reaches the
/// end of the word "From" and then reads a space followed by the moderator's
/// own name — extracts the empty name. The side conditions rule out a
/// moderator name that opens with a space or that the scan could match
/// early, and a preamble that contains an `'m'` of its own.
pub proof fn lemma_moderator_header_empty_name(
    pre: Seq<char>,
    moderator: Seq<char>,
    rest: Seq<char>,
)
    requires
        moderator.len() > 0,
        moderator[0] != ' ',
        forall|j: int| 0 <= j < pre.len() ==> pre[j] != 'm',
    ensures
        extract_name(pre + seq!['m', ' '] + moderator + rest, moderator) == Seq::<char>::empty(),
{
    // The scan cannot match before the moderator name is complete: a shorter
    // buffer is too short to end with it, and a buffer of full length would
    // have to open with the space, which the moderator name does not.
    assert forall|j: int| 0 <= j < moderator.len() implies !seq_ends_with(
        seq![' '] + moderator.take(j),
        moderator,
    ) by {
        let buf = seq![' '] + moderator.take(j);
        assert(buf.len() == j + 1);
        if buf.len() >= moderator.len() && seq_ends_with(buf, moderator) {
            assert(buf.subrange(buf.len() - moderator.len(), buf.len() as int) =~= buf);
            assert(buf[0] == moderator[0]);
            assert(false);
        }
    }
    let line = pre + seq!['m', ' '] + moderator + rest;
    let p = pre.len() as int;
    assert(forall|j: int| 0 <= j < p ==> line[j] == pre[j]);
    assert(line[p] == 'm');
    assert(line[p + 1] == ' ');
    assert(forall|k: int| 0 <= k < moderator.len() ==> line[p + 2 + k] == moderator[k]);
    lemma_skip_non_m(line, 0, p, Seq::empty(), moderator);
    assert(extract_name_from(line, p, false, Seq::empty(), moderator) == extract_name_from(
        line,
        p + 1,
        true,
        Seq::empty(),
        moderator,
    ));
    let buf1 = Seq::<char>::empty().push(line[p + 1]);
    assert(buf1 =~= seq![' '] + moderator.take(0));
    assert(!seq_ends_with(buf1, moderator));
    lemma_scan_moderator(line, p + 2, 0, moderator);
    assert(extract_name_from(line, p + 1, true, Seq::empty(), moderator) == cleanup_name(
        seq![' '] + moderator,
        moderator,
    ));
    let sm = seq![' '] + moderator;
    assert(sm[0] == ' ');
    assert(sm.subrange(0, moderator.len() as int) != moderator) by {
        assert(sm.subrange(0, moderator.len() as int)[0] == ' ');
    }
    assert(sm.subrange(1, sm.len() as int) =~= moderator);
    assert(moderator.subrange(0, moderator.len() as int) =~= moderator);
    assert(moderator.subrange(moderator.len() as int, moderator.len() as int) =~= Seq::<
        char,
    >::empty());
    assert(remove_all(Seq::<char>::empty(), moderator) == Seq::<char>::empty());
    assert(remove_all(moderator, moderator) == Seq::<char>::empty());
    assert(remove_all(sm, moderator) =~= seq![' ']);
    assert(word_to().len() == 2);
    assert(remove_all(seq![' '], word_to()) == seq![' ']);
    assert(seq![' '].subrange(1, 1) =~= Seq::<char>::empty());
    assert(trim_start(Seq::<char>::empty()) == Seq::<char>::empty());
    assert(trim_start(seq![' ']) == Seq::<char>::empty());
    assert(trim_end(Seq::<char>::empty()) == Seq::<char>::empty());
    assert(cleanup_name(sm, moderator) == Seq::<char>::empty());
}

/// Law: a header that extracts the empty speaker name — the moderator's own
/// header among them — drops every continuation line that follows it until
/// the next header: the participant mapping and the counter are unchanged.
pub proof fn lemma_empty_name_header_drops_block(
    st: ParseState,
    header: Seq<char>,
    conts: Seq<Seq<char>>,
    moderator: Seq<char>,
)
    requires
        !is_continuation(header),
        extract_name(header, moderator) == Seq::<char>::empty(),
        forall|j: int| 0 <= j < conts.len() ==> is_continuation(#[trigger] conts[j]),
    ensures
        process_lines(st, seq![header] + conts, moderator).participants == st.participants,
        process_lines(st, seq![header] + conts, moderator).total == st.total,
{
    let lines = seq![header] + conts;
    assert(lines[0] == header);
    let st2 = process_line(st, header, moderator);
    assert(lines.drop_first() =~= conts);
    lemma_all_continuations_no_attribution(st2, conts, moderator);
}

/// Law: parsing is deterministic — a function of the lines, the moderator
/// name and the starting mapping alone. Re-parsing the same file from the
/// same starting mapping yields the identical participant mapping and
/// counter.
pub proof fn lemma_reparse_identical(
    parts1: Seq<ParticipantView>,
    parts2: Seq<ParticipantView>,
    lines1: Seq<Seq<char>>,
    lines2: Seq<Seq<char>>,
    moderator1: Seq<char>,
    moderator2: Seq<char>,
)
    requires
        parts1 == parts2,
        lines1 == lines2,
        moderator1 == moderator2,
    ensures
        process_lines(initial_state(parts1), lines1, moderator1) == process_lines(
            initial_state(parts2),
            lines2,
            moderator2,
        ),
{
}

} // verus!
