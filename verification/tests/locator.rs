use zoom_chat::locate::{is_transcript_file_name, moderator_from_dir_name};

#[test]
fn moderator_name_from_room_subdirectory() {
    assert_eq!(
        moderator_from_dir_name("2021-05-01 10.00.00 John Smith's Personal Meeting Room"),
        "John Smith"
    );
}

#[test]
fn fewer_than_two_spaces_yields_empty_moderator() {
    assert_eq!(moderator_from_dir_name("NoSpacesAtAll"), "");
    assert_eq!(moderator_from_dir_name("One SpaceOnly"), "");
}

#[test]
fn missing_room_suffix_is_kept_verbatim() {
    assert_eq!(moderator_from_dir_name("2021-05-01 10.00.00 Jane Doe"), "Jane Doe");
}

#[test]
fn text_after_second_space_survives_more_spaces() {
    assert_eq!(
        moderator_from_dir_name("a b Mary Jane Watson's Personal Meeting Room"),
        "Mary Jane Watson"
    );
}

#[test]
fn transcript_file_name_is_recognized_exactly() {
    assert!(is_transcript_file_name("meeting_saved_chat.txt"));
    assert!(!is_transcript_file_name("meeting_saved_chat.TXT"));
    assert!(!is_transcript_file_name("notes.txt"));
    assert!(!is_transcript_file_name(""));
}
