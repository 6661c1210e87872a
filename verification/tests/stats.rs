use zoom_chat::session::TranscriptSession;
use zoom_chat::stats::{filter_message_indices, frequency_percent, message_matches};

#[test]
fn filter_is_case_insensitive_and_substring_based() {
    assert!(message_matches("Hi there", "hi"));
    assert!(message_matches("say HI", "hi"));
    assert!(message_matches("nothing", ""));
    assert!(!message_matches("goodbye", "hi"));
}

#[test]
fn filter_indices_keep_order() {
    let mut s = TranscriptSession::new();
    let lines: Vec<String> = [
        "10:01:00 From Alice to John Smith:",
        "\tHello!",
        "\tsay hi",
        "\tHI THERE",
        "\tdog and cat",
    ]
    .iter()
    .map(|l| l.to_string())
    .collect();
    s.parse_transcript(&lines, "John Smith");
    let alice = &s.participants[0];
    assert_eq!(filter_message_indices(alice, "hi"), vec![1usize, 2]);
    assert_eq!(filter_message_indices(alice, "zebra"), Vec::<usize>::new());
}

#[test]
fn frequency_is_count_times_hundred_over_total() {
    assert_eq!(frequency_percent(5, 20), 25);
    assert_eq!(frequency_percent(1, 3), 33);
    assert_eq!(frequency_percent(20, 20), 100);
    assert_eq!(frequency_percent(0, 7), 0);
}
