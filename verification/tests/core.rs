use notes::models::{Data, NotesState, Post, SessionError, Timestamp};

fn ts(year: u16, month: u8, day: u8, hour: u8, minute: u8, second: u8) -> Timestamp {
    Timestamp { year, month, day, hour, minute, second }
}

fn seed(st: &mut NotesState, p: Post) {
    st.data.posts.push(p);
}

fn fixed_post(id: u128, title: &str, content: &str, created: Timestamp) -> Post {
    Post {
        id,
        title: String::from(title),
        content: String::from(content),
        created_at: created,
        updated_at: created,
    }
}

#[test]
fn create_sets_fields_and_stamps_once() {
    let mut st = NotesState::default();
    let p = st.add_post("Shopping", "milk");
    assert_eq!(p.title, "Shopping");
    assert_eq!(p.content, "milk");
    assert_eq!(p.created_at, p.updated_at);
    assert_eq!(st.data.posts.len(), 1);
    assert_eq!(st.data.posts[0], p);
}

#[test]
fn create_two_notes_distinct_identifiers() {
    let mut st = NotesState::default();
    let a = st.add_post("a", "");
    let b = st.add_post("b", "");
    assert_ne!(a.id, b.id);
    assert_eq!(st.data.posts.len(), 2);
}

#[test]
fn ordered_list_sorts_created_at_descending() {
    let mut st = NotesState::default();
    // Insert out of order: oldest first, newest in the middle.
    seed(&mut st, fixed_post(1, "old", "", ts(2020, 1, 1, 0, 0, 0)));
    seed(&mut st, fixed_post(2, "new", "", ts(2024, 6, 1, 12, 0, 0)));
    seed(&mut st, fixed_post(3, "mid", "", ts(2022, 3, 5, 8, 30, 0)));
    let ordered = st.get_ordered_posts_list();
    let titles: Vec<&str> = ordered.iter().map(|p| p.title.as_str()).collect();
    assert_eq!(titles, vec!["new", "mid", "old"]);
}

#[test]
fn ordered_list_breaks_ties_by_identifier() {
    let mut st = NotesState::default();
    let same = ts(2023, 7, 7, 7, 7, 7);
    seed(&mut st, fixed_post(9, "nine", "", same));
    seed(&mut st, fixed_post(2, "two", "", same));
    seed(&mut st, fixed_post(5, "five", "", same));
    let ordered = st.get_ordered_posts_list();
    let ids: Vec<u128> = ordered.iter().map(|p| p.id).collect();
    assert_eq!(ids, vec![2, 5, 9]);
}

#[test]
fn ordered_list_is_permutation() {
    let mut st = NotesState::default();
    seed(&mut st, fixed_post(1, "a", "x", ts(2021, 1, 1, 0, 0, 0)));
    seed(&mut st, fixed_post(2, "b", "y", ts(2022, 1, 1, 0, 0, 0)));
    let ordered = st.get_ordered_posts_list();
    assert_eq!(ordered.len(), 2);
    assert!(ordered.iter().any(|p| p.id == 1 && p.content == "x"));
    assert!(ordered.iter().any(|p| p.id == 2 && p.content == "y"));
}

#[test]
fn select_reloads_buffer_from_content() {
    let mut st = NotesState::default();
    seed(&mut st, fixed_post(7, "t", "hello buffer", ts(2021, 2, 3, 4, 5, 6)));
    assert_eq!(st.set_selected_post(Some(7)), Ok(()));
    let selected = st.get_selected_post().expect("selected note");
    assert_eq!(selected.content, st.text_editor_state);
    assert_eq!(st.text_editor_state, "hello buffer");
}

#[test]
fn select_missing_identifier_clears_and_reports() {
    let mut st = NotesState::default();
    seed(&mut st, fixed_post(7, "t", "c", ts(2021, 2, 3, 4, 5, 6)));
    assert_eq!(st.set_selected_post(Some(7)), Ok(()));
    assert_eq!(st.set_selected_post(Some(99)), Err(SessionError::NoSuchNote));
    assert!(st.get_selected_post().is_none());
    assert_eq!(st.text_editor_state, "");
}

#[test]
fn select_none_clears_selection() {
    let mut st = NotesState::default();
    seed(&mut st, fixed_post(7, "t", "c", ts(2021, 2, 3, 4, 5, 6)));
    assert_eq!(st.set_selected_post(Some(7)), Ok(()));
    assert_eq!(st.set_selected_post(None), Ok(()));
    assert!(st.get_selected_post().is_none());
}

#[test]
fn delete_selected_clears_selection() {
    let mut st = NotesState::default();
    seed(&mut st, fixed_post(1, "keep", "", ts(2021, 1, 1, 0, 0, 0)));
    seed(&mut st, fixed_post(2, "gone", "", ts(2022, 1, 1, 0, 0, 0)));
    assert_eq!(st.set_selected_post(Some(2)), Ok(()));
    let removed = st.remove_post(2).expect("was stored");
    assert_eq!(removed.title, "gone");
    assert!(st.get_selected_post().is_none());
    assert!(st.selected_post_id.is_none());
    assert_eq!(st.data.posts.len(), 1);
}

#[test]
fn delete_other_keeps_selection() {
    let mut st = NotesState::default();
    seed(&mut st, fixed_post(1, "keep", "k", ts(2021, 1, 1, 0, 0, 0)));
    seed(&mut st, fixed_post(2, "gone", "", ts(2022, 1, 1, 0, 0, 0)));
    assert_eq!(st.set_selected_post(Some(1)), Ok(()));
    assert!(st.remove_post(2).is_some());
    assert_eq!(st.get_selected_post().expect("still selected").id, 1);
}

#[test]
fn delete_missing_returns_none() {
    let mut st = NotesState::default();
    assert!(st.remove_post(42).is_none());
}

#[test]
fn sequential_edits_keep_only_last() {
    let mut st = NotesState::default();
    seed(&mut st, fixed_post(3, "t", "v0", ts(2021, 1, 1, 0, 0, 0)));
    assert_eq!(st.set_selected_post(Some(3)), Ok(()));
    for i in 1..=5 {
        let text = format!("draft {}", i);
        assert_eq!(st.update_selected_post_content(text), Ok(()));
    }
    let selected = st.get_selected_post().expect("selected note");
    assert_eq!(selected.content, "draft 5");
    assert_eq!(st.text_editor_state, "draft 5");
}

#[test]
fn title_update_without_selection_reports() {
    let mut st = NotesState::default();
    assert_eq!(
        st.update_selected_post_title(String::from("x")),
        Err(SessionError::NoActiveSelection)
    );
}

#[test]
fn content_update_without_selection_reports() {
    let mut st = NotesState::default();
    assert_eq!(
        st.update_selected_post_content(String::from("x")),
        Err(SessionError::NoActiveSelection)
    );
}

#[test]
fn title_update_replaces_title_only() {
    let mut st = NotesState::default();
    seed(&mut st, fixed_post(3, "before", "body", ts(2021, 1, 1, 0, 0, 0)));
    assert_eq!(st.set_selected_post(Some(3)), Ok(()));
    assert_eq!(st.update_selected_post_title(String::from("after")), Ok(()));
    let selected = st.get_selected_post().expect("selected note");
    assert_eq!(selected.title, "after");
    assert_eq!(selected.content, "body");
}

#[test]
fn update_post_returns_previous_record() {
    let mut st = NotesState::default();
    let first = fixed_post(8, "one", "1", ts(2021, 1, 1, 0, 0, 0));
    seed(&mut st, first.clone());
    let prev = st
        .update_post(fixed_post(8, "two", "2", ts(2021, 1, 1, 0, 0, 0)))
        .expect("previous record");
    assert_eq!(prev, first);
    assert_eq!(st.data.posts.len(), 1);
    assert_eq!(st.data.posts[0].title, "two");
}

#[test]
fn update_post_absent_identifier_is_refused() {
    let mut st = NotesState::default();
    seed(&mut st, fixed_post(8, "one", "1", ts(2021, 1, 1, 0, 0, 0)));
    assert!(st.update_post(fixed_post(9, "other", "2", ts(2022, 1, 1, 0, 0, 0))).is_none());
    assert_eq!(st.data.posts.len(), 1);
    assert_eq!(st.data.posts[0].title, "one");
}

#[test]
fn is_selected_matches_identifier() {
    let p = fixed_post(5, "t", "c", ts(2021, 1, 1, 0, 0, 0));
    assert!(p.is_selected(&Some(5)));
    assert!(!p.is_selected(&Some(6)));
    assert!(!p.is_selected(&None));
}

#[test]
fn check_wf_rejects_duplicate_identifiers() {
    let mut data = Data::default();
    data.posts.push(fixed_post(1, "a", "", ts(2021, 1, 1, 0, 0, 0)));
    data.posts.push(fixed_post(1, "b", "", ts(2022, 1, 1, 0, 0, 0)));
    assert!(!data.check_wf());
}

#[test]
fn check_wf_rejects_out_of_range_timestamp() {
    let mut data = Data::default();
    data.posts.push(fixed_post(1, "a", "", ts(2021, 13, 1, 0, 0, 0)));
    assert!(!data.check_wf());
}

#[test]
fn timestamp_key_orders_chronologically() {
    let early = ts(2021, 12, 31, 23, 59, 59);
    let late = ts(2022, 1, 1, 0, 0, 0);
    assert!(early.key_exec() < late.key_exec());
}
