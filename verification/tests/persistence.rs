use notes::models::{Category, Data, NotesState, Post, Timestamp};
use notes::storage::{JsonStorage, StorageError};

fn ts(year: u16, month: u8, day: u8, hour: u8, minute: u8, second: u8) -> Timestamp {
    Timestamp { year, month, day, hour, minute, second }
}

fn post(id: u128, title: &str, content: &str, created: Timestamp) -> Post {
    Post {
        id,
        title: String::from(title),
        content: String::from(content),
        created_at: created,
        updated_at: created,
    }
}

#[test]
fn empty_document_round_trips() {
    let data = Data::default();
    let text = JsonStorage::to_json(&data);
    assert_eq!(text, "{\"categories\":{},\"posts\":{}}");
    let back = JsonStorage::from_json(&text).expect("parses");
    assert_eq!(back, data);
}

#[test]
fn one_note_exact_text() {
    let mut data = Data::default();
    data.posts.push(post(1, "A", "B", ts(2024, 1, 2, 3, 4, 5)));
    let text = JsonStorage::to_json(&data);
    assert_eq!(
        text,
        "{\"categories\":{},\"posts\":{\"00000000000000000000000000000001\":\
         {\"id\":\"00000000000000000000000000000001\",\"title\":\"A\",\"content\":\"B\",\
         \"created_at\":\"2024-01-02T03:04:05Z\",\"updated_at\":\"2024-01-02T03:04:05Z\"}}}"
    );
}

#[test]
fn document_round_trips_with_notes_and_categories() {
    let mut data = Data::default();
    data.categories.push(Category {
        id: 0xabcdef,
        title: String::from("ideas"),
        created_at: ts(2020, 5, 6, 7, 8, 9),
        updated_at: ts(2020, 5, 6, 7, 8, 9),
    });
    data.posts.push(post(0x1234, "first", "alpha", ts(2023, 11, 30, 23, 59, 59)));
    data.posts.push(post(0x5678, "second", "beta", ts(2024, 2, 29, 0, 0, 0)));
    let text = JsonStorage::to_json(&data);
    let back = JsonStorage::from_json(&text).expect("parses");
    assert_eq!(back, data);
}

#[test]
fn escaped_characters_round_trip() {
    let mut data = Data::default();
    data.posts.push(post(
        7,
        "quote \" backslash \\",
        "line1\nline2\ttabbed\rcr\u{1}ctl unicode \u{203d} emoji \u{1F600}",
        ts(2021, 6, 7, 8, 9, 10),
    ));
    let text = JsonStorage::to_json(&data);
    let back = JsonStorage::from_json(&text).expect("parses");
    assert_eq!(back, data);
}

#[test]
fn escaping_changes_the_text() {
    let mut data = Data::default();
    data.posts.push(post(7, "t", "a\"b", ts(2021, 6, 7, 8, 9, 10)));
    let text = JsonStorage::to_json(&data);
    assert!(text.contains("a\\\"b"));
    let mut data2 = Data::default();
    data2.posts.push(post(7, "t", "a\nb", ts(2021, 6, 7, 8, 9, 10)));
    let text2 = JsonStorage::to_json(&data2);
    assert!(text2.contains("a\\u000ab"));
}

#[test]
fn malformed_text_is_refused_not_crashed() {
    for bad in [
        "",
        "garbage",
        "{",
        "{\"categories\":{}}",
        "{\"categories\":{},\"posts\":{}",
        "{\"categories\":{},\"posts\":{}}}",
        "{\"posts\":{},\"categories\":{}}",
        "  {\"categories\":{},\"posts\":{}}",
        "{\"categories\":{},\"posts\":{\"00\":{}}}",
    ] {
        assert_eq!(
            JsonStorage::from_json(bad),
            Err(StorageError::LoadFileFormatError),
            "input: {:?}",
            bad
        );
    }
}

#[test]
fn out_of_range_timestamp_is_refused() {
    let mut data = Data::default();
    data.posts.push(post(1, "t", "c", ts(2024, 1, 2, 3, 4, 5)));
    let text = JsonStorage::to_json(&data);
    let bad = text.replace("2024-01-02", "2024-13-02");
    assert_eq!(JsonStorage::from_json(&bad), Err(StorageError::LoadFileFormatError));
}

#[test]
fn duplicate_identifiers_are_refused() {
    let mut data = Data::default();
    data.posts.push(post(1, "a", "", ts(2024, 1, 2, 3, 4, 5)));
    let text = JsonStorage::to_json(&data);
    // Duplicate the single entry inside the posts map.
    let entry_start = text.find("\"00000000000000000000000000000001\":{").unwrap();
    let entry = &text[entry_start..text.len() - 2];
    let doubled = format!(
        "{}{},{}{}",
        &text[..entry_start],
        entry,
        entry,
        "}}"
    );
    assert_eq!(JsonStorage::from_json(&doubled), Err(StorageError::LoadFileFormatError));
}

#[test]
fn end_to_end_scenario() {
    // A missing file yields an empty document (the caller's policy); start there.
    let mut st = NotesState::default();
    assert_eq!(st.data.posts.len(), 0);

    // Create a note and persist.
    let created = st.add_post("Shopping", "milk");
    assert_eq!(st.data.posts.len(), 1);
    let saved = JsonStorage::to_json(&st.data);
    let loaded = JsonStorage::from_json(&saved).expect("parses");
    assert_eq!(loaded.posts.len(), 1);
    assert_eq!(loaded.posts[0].title, "Shopping");
    assert_eq!(loaded.posts[0].content, "milk");

    // Edit the content and reload after the save completes.
    assert_eq!(st.set_selected_post(Some(created.id)), Ok(()));
    assert_eq!(st.update_selected_post_content(String::from("milk, eggs")), Ok(()));
    let saved = JsonStorage::to_json(&st.data);
    let loaded = JsonStorage::from_json(&saved).expect("parses");
    assert_eq!(loaded.posts[0].content, "milk, eggs");

    // Delete the note; the persisted posts map is empty again.
    assert!(st.remove_post(created.id).is_some());
    assert_eq!(st.data.posts.len(), 0);
    let saved = JsonStorage::to_json(&st.data);
    let loaded = JsonStorage::from_json(&saved).expect("parses");
    assert_eq!(loaded.posts.len(), 0);
    assert!(saved.contains("\"posts\":{}"));
}

#[test]
fn storage_path_is_fixed() {
    let gateway = JsonStorage::new();
    assert_eq!(gateway.path, "../../notes_data.json");
    assert_eq!(notes::get_storage_file(), "../../notes_data.json");
}

#[test]
fn largest_identifier_round_trips() {
    let mut data = Data::default();
    data.posts.push(post(u128::MAX, "max", "", ts(9999, 12, 31, 23, 59, 59)));
    let text = JsonStorage::to_json(&data);
    assert!(text.contains("ffffffffffffffffffffffffffffffff"));
    let back = JsonStorage::from_json(&text).expect("parses");
    assert_eq!(back, data);
}
