use zoom_chat::session::{State, TranscriptSession};

fn lines(ls: &[&str]) -> Vec<String> {
    ls.iter().map(|s| s.to_string()).collect()
}

#[test]
fn empty_transcript_yields_empty_mapping() {
    let mut s = TranscriptSession::new();
    s.parse_transcript(&lines(&[]), "John Smith");
    assert_eq!(s.participant_count(), 0);
    assert_eq!(s.total_message_count, 0);
}

#[test]
fn headers_only_yield_no_messages() {
    let mut s = TranscriptSession::new();
    s.parse_transcript(
        &lines(&["10:01:00 From Alice to John Smith:", "10:02:00 From Bob to John Smith:"]),
        "John Smith",
    );
    assert_eq!(s.participant_count(), 0);
    assert_eq!(s.total_message_count, 0);
}

#[test]
fn messages_attributed_to_their_speakers() {
    let mut s = TranscriptSession::new();
    s.parse_transcript(
        &lines(&[
            "10:01:00 From Alice to John Smith:",
            "\tHello!",
            "10:02:00 From John Smith to Everyone:",
            "\tHi all",
            "10:03:00 From Alice to John Smith:",
            "\tHow are you?",
        ]),
        "John Smith",
    );
    assert_eq!(s.participant_count(), 1);
    assert_eq!(s.participants[0].name, "Alice");
    assert_eq!(s.participants[0].messages.len(), 2);
    assert_eq!(s.participants[0].messages[0].text, "Hello!");
    assert_eq!(s.participants[0].messages[1].text, "How are you?");
    assert_eq!(s.total_message_count, 2);
}

#[test]
fn timestamp_is_second_space_token_of_header() {
    let mut s = TranscriptSession::new();
    s.parse_transcript(
        &lines(&["10:01:00 From Alice to John Smith:", "\tHello!"]),
        "John Smith",
    );
    // Split on single spaces the header's token at index 1 is the word that
    // follows the timestamp.
    assert_eq!(s.participants[0].messages[0].timestamp, "From");
}

#[test]
fn counter_equals_sum_over_participants() {
    let mut s = TranscriptSession::new();
    s.parse_transcript(
        &lines(&[
            "10:01:00 From Alice to John Smith:",
            "\tone",
            "\ttwo",
            "10:02:00 From Bob to John Smith:",
            "\tthree",
            "10:03:00 From Alice to John Smith:",
            "\tfour",
        ]),
        "John Smith",
    );
    let sum: usize = s.participants.iter().map(|p| p.messages.len()).sum();
    assert_eq!(sum, s.total_message_count);
    assert_eq!(s.total_message_count, 4);
    assert_eq!(s.participant_count(), 2);
}

#[test]
fn continuations_before_any_header_are_dropped() {
    let mut s = TranscriptSession::new();
    s.parse_transcript(
        &lines(&["\tfloating text", "    more floating text", "10:01:00 From Alice to John Smith:", "\treal"]),
        "John Smith",
    );
    assert_eq!(s.participant_count(), 1);
    assert_eq!(s.participants[0].name, "Alice");
    assert_eq!(s.participants[0].messages.len(), 1);
    assert_eq!(s.participants[0].messages[0].text, "real");
    assert_eq!(s.total_message_count, 1);
}

#[test]
fn moderator_block_is_dropped() {
    let mut s = TranscriptSession::new();
    s.parse_transcript(
        &lines(&[
            "10:01:00 From John Smith to Everyone:",
            "\tplease ignore",
            "\tstill the moderator",
            "10:02:00 From Alice to John Smith:",
            "\tkept",
        ]),
        "John Smith",
    );
    assert_eq!(s.participant_count(), 1);
    assert_eq!(s.participants[0].name, "Alice");
    assert_eq!(s.total_message_count, 1);
}

#[test]
fn header_without_moderator_match_drops_following_lines() {
    let mut s = TranscriptSession::new();
    s.parse_transcript(
        &lines(&["10:01:00 From Alice to Everyone:", "\tnever matched"]),
        "John Smith",
    );
    assert_eq!(s.participant_count(), 0);
    assert_eq!(s.total_message_count, 0);
}

#[test]
fn four_space_indent_counts_as_continuation() {
    let mut s = TranscriptSession::new();
    s.parse_transcript(
        &lines(&["10:01:00 From Alice to John Smith:", "    indented with spaces"]),
        "John Smith",
    );
    assert_eq!(s.participants[0].messages[0].text, "indented with spaces");
    assert_eq!(s.total_message_count, 1);
}

#[test]
fn message_text_is_trimmed() {
    let mut s = TranscriptSession::new();
    s.parse_transcript(
        &lines(&["10:01:00 From Alice to John Smith:", "\t  padded text  "]),
        "John Smith",
    );
    assert_eq!(s.participants[0].messages[0].text, "padded text");
}

#[test]
fn three_spaces_do_not_mark_a_continuation() {
    let mut s = TranscriptSession::new();
    s.parse_transcript(
        &lines(&["10:01:00 From Alice to John Smith:", "   three spaces", "\tafter"]),
        "John Smith",
    );
    // A line indented by only three spaces is a header line; it carries no
    // moderator match, so the current speaker is cleared and the following
    // continuation line is dropped.
    assert_eq!(s.participant_count(), 0);
    assert_eq!(s.total_message_count, 0);
}

#[test]
fn empty_moderator_name_attributes_nothing() {
    let mut s = TranscriptSession::new();
    s.parse_transcript(&lines(&["10:01:00 From Alice to Everyone:", "\thi"]), "");
    assert_eq!(s.participant_count(), 0);
    assert_eq!(s.total_message_count, 0);
}

#[test]
fn moderator_substring_strips_part_of_student_name() {
    let mut s = TranscriptSession::new();
    s.parse_transcript(
        &lines(&["10:01:00 From John Smithson to Smith:", "\thello"]),
        "Smith",
    );
    // The known heuristic limitation: a moderator name that occurs inside a
    // student's name strips part of that name.
    assert_eq!(s.participant_count(), 1);
    assert_eq!(s.participants[0].name, "John");
    assert_eq!(s.total_message_count, 1);
}

#[test]
fn reparse_from_scratch_is_identical() {
    let transcript = lines(&[
        "10:01:00 From Alice to John Smith:",
        "\tHello!",
        "10:02:00 From Bob to John Smith:",
        "\tHi!",
    ]);
    let mut a = TranscriptSession::new();
    let mut b = TranscriptSession::new();
    a.parse_transcript(&transcript, "John Smith");
    b.parse_transcript(&transcript, "John Smith");
    assert_eq!(a.total_message_count, b.total_message_count);
    assert_eq!(a.participant_count(), b.participant_count());
    for i in 0..a.participants.len() {
        assert_eq!(a.participants[i].name, b.participants[i].name);
        assert_eq!(a.participants[i].messages.len(), b.participants[i].messages.len());
        for j in 0..a.participants[i].messages.len() {
            assert_eq!(a.participants[i].messages[j].text, b.participants[i].messages[j].text);
            assert_eq!(
                a.participants[i].messages[j].timestamp,
                b.participants[i].messages[j].timestamp
            );
        }
    }
}

#[test]
fn participants_accumulate_but_counter_resets_per_parse() {
    let mut s = TranscriptSession::new();
    s.parse_transcript(
        &lines(&["10:01:00 From Alice to John Smith:", "\tfirst file"]),
        "John Smith",
    );
    assert_eq!(s.total_message_count, 1);
    s.parse_transcript(
        &lines(&["10:01:00 From Bob to Jane Doe:", "\tsecond file"]),
        "Jane Doe",
    );
    assert_eq!(s.participant_count(), 2);
    assert_eq!(s.total_message_count, 1);
}

#[test]
fn find_participant_and_state_transitions() {
    let mut s = TranscriptSession::new();
    assert!(matches!(s.get_state(), State::NonSelected));
    s.set_state(State::ToSelect);
    assert!(matches!(s.get_state(), State::ToSelect));
    s.parse_transcript(
        &lines(&["10:01:00 From Alice to John Smith:", "\thi"]),
        "John Smith",
    );
    assert_eq!(s.find_participant("Alice"), Some(0));
    assert_eq!(s.find_participant("Bob"), None);
    s.set_state(State::Selected);
    assert!(matches!(s.get_state(), State::Selected));
}
