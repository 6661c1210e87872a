//! The transcript session: the participant mapping and the running message
//! counter, built up line by line from transcript files.
//!
//! Per parsed file the session keeps, while scanning, the most recently
//! extracted speaker name and timestamp. A continuation line is attributed to
//! the current speaker — appended, trimmed, to that participant's message
//! list and counted — unless the current name is empty, in which case the
//! line is discarded. A header line replaces the current name, and the
//! current timestamp when it has one. The message counter restarts at zero
//! with each file parse, while participants accumulate across parses.

use crate::parse::extract_name;
use crate::parse::header_timestamp;
use crate::parse::is_continuation;
use crate::parse::extract_name_chars;
use crate::parse::header_timestamp_chars;
use crate::parse::is_continuation_line;
use crate::text::chars_of;
use crate::text::string_of;
use crate::text::trim;
use crate::text::trim_chars;
use vstd::prelude::*;

verus! {

/// One utterance: trimmed body text and the timestamp of its header line.
pub struct Message {
    pub text: String,
    pub timestamp: String,
}

#[verifier::ext_equal]
pub ghost struct MessageView {
    pub text: Seq<char>,
    pub timestamp: Seq<char>,
}

impl View for Message {
    type V = MessageView;

    open spec fn view(&self) -> MessageView {
        MessageView { text: self.text@, timestamp: self.timestamp@ }
    }
}

/// One non-moderator speaker and their messages, in order of appearance.
pub struct Participant {
    pub name: String,
    pub messages: Vec<Message>,
}

#[verifier::ext_equal]
pub ghost struct ParticipantView {
    pub name: Seq<char>,
    pub messages: Seq<MessageView>,
}

impl View for Participant {
    type V = ParticipantView;

    open spec fn view(&self) -> ParticipantView {
        ParticipantView { name: self.name@, messages: self.messages@.map_values(|m: Message| m@) }
    }
}

/// Where the session stands: no folder chosen yet, a folder scanned and a
/// participant awaiting selection, one selected, or none found.
#[derive(PartialEq, Eq, Clone, Copy, Structural)]
pub enum State {
    NonSelected,
    ToSelect,
    Selected,
    NoOneFound,
}

/// The scanning state of one file parse: the current speaker name and
/// timestamp, the participants so far, and the running counter.
#[verifier::ext_equal]
pub ghost struct ParseState {
    pub name: Seq<char>,
    pub time: Seq<char>,
    pub participants: Seq<ParticipantView>,
    pub total: int,
}

/// No two participants share a name.
pub open spec fn names_unique(parts: Seq<ParticipantView>) -> bool {
    forall|i: int, j: int|
        0 <= i < j < parts.len() ==> (#[trigger] parts[i]).name != (#[trigger] parts[j]).name
}

/// `msg` appended to the messages of the participant named `name`, who is
/// created at the end when absent.
pub open spec fn append_message(
    parts: Seq<ParticipantView>,
    name: Seq<char>,
    msg: MessageView,
) -> Seq<ParticipantView>
    decreases parts.len(),
{
    if parts.len() == 0 {
        seq![ParticipantView { name, messages: seq![msg] }]
    } else if parts[0].name == name {
        seq![
            ParticipantView { name: parts[0].name, messages: parts[0].messages.push(msg) },
        ] + parts.drop_first()
    } else {
        seq![parts[0]] + append_message(parts.drop_first(), name, msg)
    }
}

/// One line of a transcript applied to the scanning state.
pub open spec fn process_line(st: ParseState, line: Seq<char>, moderator: Seq<char>) -> ParseState {
    if is_continuation(line) {
        if st.name.len() > 0 {
            ParseState {
                participants: append_message(
                    st.participants,
                    st.name,
                    MessageView { text: trim(line), timestamp: st.time },
                ),
                total: st.total + 1,
                ..st
            }
        } else {
            st
        }
    } else {
        ParseState {
            name: extract_name(line, moderator),
            time: match header_timestamp(line) {
                Option::Some(t) => t,
                Option::None => st.time,
            },
            ..st
        }
    }
}

/// A whole transcript, line by line, applied to the scanning state.
pub open spec fn process_lines(
    st: ParseState,
    lines: Seq<Seq<char>>,
    moderator: Seq<char>,
) -> ParseState
    decreases lines.len(),
{
    if lines.len() == 0 {
        st
    } else {
        process_lines(process_line(st, lines[0], moderator), lines.drop_first(), moderator)
    }
}

/// The scanning state at the start of a file parse: no current speaker, no
/// current timestamp, the counter at zero.
pub open spec fn initial_state(parts: Seq<ParticipantView>) -> ParseState {
    ParseState { name: Seq::empty(), time: Seq::empty(), participants: parts, total: 0 }
}

/// The participant mapping and counts of the current scan.
pub struct TranscriptSession {
    pub participants: Vec<Participant>,
    pub total_message_count: usize,
    pub state: State,
}

proof fn lemma_append_message_at(
    parts: Seq<ParticipantView>,
    name: Seq<char>,
    msg: MessageView,
    i: int,
)
    requires
        0 <= i < parts.len(),
        parts[i].name == name,
        forall|j: int| 0 <= j < i ==> (#[trigger] parts[j]).name != name,
    ensures
        append_message(parts, name, msg) == parts.update(
            i,
            ParticipantView { name: parts[i].name, messages: parts[i].messages.push(msg) },
        ),
    decreases i,
{
    if i == 0 {
        assert(seq![
            ParticipantView { name: parts[0].name, messages: parts[0].messages.push(msg) },
        ] + parts.drop_first() =~= parts.update(
            0,
            ParticipantView { name: parts[0].name, messages: parts[0].messages.push(msg) },
        ));
    } else {
        let rest = parts.drop_first();
        lemma_append_message_at(rest, name, msg, i - 1);
        assert(seq![parts[0]] + rest.update(
            i - 1,
            ParticipantView { name: rest[i - 1].name, messages: rest[i - 1].messages.push(msg) },
        ) =~= parts.update(
            i,
            ParticipantView { name: parts[i].name, messages: parts[i].messages.push(msg) },
        ));
    }
}

proof fn lemma_append_message_absent(parts: Seq<ParticipantView>, name: Seq<char>, msg: MessageView)
    requires
        forall|j: int| 0 <= j < parts.len() ==> (#[trigger] parts[j]).name != name,
    ensures
        append_message(parts, name, msg) == parts.push(
            ParticipantView { name, messages: seq![msg] },
        ),
    decreases parts.len(),
{
    if parts.len() == 0 {
        assert(seq![ParticipantView { name, messages: seq![msg] }] =~= parts.push(
            ParticipantView { name, messages: seq![msg] },
        ));
    } else {
        let rest = parts.drop_first();
        lemma_append_message_absent(rest, name, msg);
        assert(seq![parts[0]] + rest.push(ParticipantView { name, messages: seq![msg] })
            =~= parts.push(ParticipantView { name, messages: seq![msg] }));
    }
}

impl TranscriptSession {
    /// The participants as their mathematical views, in order.
    pub open spec fn parts(&self) -> Seq<ParticipantView> {
        self.participants@.map_values(|p: Participant| p@)
    }

    /// The session's invariant: participant names are unique keys.
    pub open spec fn wf(&self) -> bool {
        names_unique(self.parts())
    }

    /// A fresh session: no folder chosen, nothing parsed.
    pub fn new() -> (s: Self)
        ensures
            s.parts() == Seq::<ParticipantView>::empty(),
            s.total_message_count == 0,
            s.state == State::NonSelected,
            s.wf(),
    {
        let s = TranscriptSession {
            participants: Vec::new(),
            total_message_count: 0,
            state: State::NonSelected,
        };
        proof {
            assert(s.parts() =~= Seq::<ParticipantView>::empty());
        }
        s
    }

    pub fn set_state(&mut self, state: State)
        ensures
            final(self).state == state,
            final(self).participants == old(self).participants,
            final(self).total_message_count == old(self).total_message_count,
    {
        self.state = state;
    }

    pub fn get_state(&self) -> (r: State)
        ensures
            r == self.state,
    {
        self.state
    }

    /// The number of participants the mapping holds.
    pub fn participant_count(&self) -> (r: usize)
        ensures
            r == self.parts().len(),
    {
        self.participants.len()
    }

    /// The position of the participant with the given name, when present.
    pub fn find_participant(&self, name: &str) -> (r: Option<usize>)
        ensures
            match r {
                Option::Some(i) => i < self.parts().len() && self.parts()[i as int].name == name@
                    && forall|j: int|
                    0 <= j < i ==> (#[trigger] self.parts()[j]).name != name@,
                Option::None => forall|j: int|
                    0 <= j < self.parts().len() ==> (#[trigger] self.parts()[j]).name != name@,
            },
    {
        let q: String = name.to_owned();
        let n: usize = self.participants.len();
        let mut i: usize = 0;
        while i < n
            invariant
                i <= n,
                n == self.participants@.len(),
                q@ == name@,
                forall|j: int| 0 <= j < i ==> (#[trigger] self.parts()[j]).name != name@,
            decreases n - i,
        {
            if self.participants[i].name == q {
                return Option::Some(i);
            }
            i = i + 1;
        }
        Option::None
    }

    /// Appends `msg` to the participant named `name`, creating the
    /// participant at the end of the mapping on first appearance.
    fn append_to(&mut self, name: &String, msg: Message)
        requires
            old(self).wf(),
        ensures
            final(self).wf(),
            final(self).parts() == append_message(old(self).parts(), name@, msg@),
            final(self).total_message_count == old(self).total_message_count,
            final(self).state == old(self).state,
    {
        let n: usize = self.participants.len();
        let mut i: usize = 0;
        while i < n
            invariant
                i <= n,
                old(self).wf(),
                *self == *old(self),
                n == self.participants@.len(),
                forall|j: int| 0 <= j < i ==> (#[trigger] self.parts()[j]).name != name@,
            decreases n - i,
        {
            if self.participants[i].name == *name {
                proof {
                    assert(self.parts()[i as int].name == name@);
                }
                let ghost parts0 = self.parts();
                let mut p = self.participants.remove(i);
                p.messages.push(msg);
                self.participants.insert(i, p);
                proof {
                    lemma_append_message_at(parts0, name@, msg@, i as int);
                    let pv = ParticipantView {
                        name: parts0[i as int].name,
                        messages: parts0[i as int].messages.push(msg@),
                    };
                    assert(self.participants@ =~= old(self).participants@.update(
                        i as int,
                        self.participants@[i as int],
                    ));
                    assert(self.participants@[i as int]@ =~= pv);
                    assert(self.parts() =~= parts0.update(i as int, pv));
                    assert(names_unique(parts0));
                    let cur = self.parts();
                    assert forall|a: int, b: int| 0 <= a < b < cur.len() implies (#[trigger] cur[a]).name
                        != (#[trigger] cur[b]).name by {
                        assert(parts0[a].name != parts0[b].name);
                        assert(cur[a].name == parts0[a].name);
                        assert(cur[b].name == parts0[b].name);
                    }
                    assert(names_unique(self.parts()));
                }
                return;
            }
            i = i + 1;
        }
        let ghost parts0 = self.parts();
        self.participants.push(Participant { name: name.clone(), messages: vec![msg] });
        proof {
            lemma_append_message_absent(parts0, name@, msg@);
            let pv = ParticipantView { name: name@, messages: seq![msg@] };
            assert(self.participants@[parts0.len() as int]@ =~= pv);
            assert(self.parts() =~= parts0.push(pv));
            assert(names_unique(self.parts()));
        }
    }

    /// Parses one transcript, given as its decoded lines, against the given
    /// moderator name. The message counter restarts at zero; participants
    /// accumulate on top of what earlier parses produced. The resulting
    /// mapping and counter are exactly what the line-by-line scanning model
    /// yields on the same lines.
    pub fn parse_transcript(&mut self, lines: &Vec<String>, moderator: &str)
        requires
            old(self).wf(),
        ensures
            final(self).wf(),
            final(self).state == old(self).state,
            ({
                let fin = process_lines(
                    initial_state(old(self).parts()),
                    lines.deep_view(),
                    moderator@,
                );
                final(self).parts() == fin.participants && final(self).total_message_count
                    == fin.total
            }),
    {
        let mod_chars = chars_of(moderator);
        self.total_message_count = 0;
        let mut cur_name: String = String::new();
        let mut cur_time: String = String::new();
        let n: usize = lines.len();
        let mut k: usize = 0;
        proof {
            assert(lines.deep_view().skip(0) =~= lines.deep_view());
        }
        while k < n
            invariant
                k <= n,
                n == lines@.len(),
                self.wf(),
                mod_chars@ == moderator@,
                self.state == old(self).state,
                self.total_message_count <= k,
                process_lines(initial_state(old(self).parts()), lines.deep_view(), moderator@)
                    == process_lines(
                    (ParseState {
                        name: cur_name@,
                        time: cur_time@,
                        participants: self.parts(),
                        total: self.total_message_count as int,
                    }),
                    lines.deep_view().skip(k as int),
                    moderator@,
                ),
            decreases n - k,
        {
            let ghost pre = ParseState {
                name: cur_name@,
                time: cur_time@,
                participants: self.parts(),
                total: self.total_message_count as int,
            };
            let ghost rem = lines.deep_view().skip(k as int);
            let lc = chars_of(lines[k].as_str());
            proof {
                assert(rem[0] == lines.deep_view()[k as int]);
                assert(lc@ == rem[0]);
                assert(rem.drop_first() =~= lines.deep_view().skip(k as int + 1));
            }
            if is_continuation_line(&lc) {
                if !cur_name.as_str().is_empty() {
                    let text_chars = trim_chars(&lc);
                    let msg = Message { text: string_of(&text_chars), timestamp: cur_time.clone() };
                    proof {
                        assert(msg@ =~= MessageView { text: trim(lc@), timestamp: cur_time@ });
                    }
                    self.append_to(&cur_name, msg);
                    self.total_message_count = self.total_message_count + 1;
                }
            } else {
                let name_chars = extract_name_chars(&lc, &mod_chars);
                cur_name = string_of(&name_chars);
                match header_timestamp_chars(&lc) {
                    Option::Some(t) => {
                        cur_time = string_of(&t);
                    },
                    Option::None => {},
                }
            }
            k = k + 1;
            proof {
                let post = ParseState {
                    name: cur_name@,
                    time: cur_time@,
                    participants: self.parts(),
                    total: self.total_message_count as int,
                };
                assert(post =~= process_line(pre, rem[0], moderator@));
            }
        }
        proof {
            assert(lines.deep_view().skip(n as int) =~= Seq::<Seq<char>>::empty());
        }
    }
}

} // verus!
