use notes::app::{Command, IcedApplication, Message, TextEditorAction};
use notes::buttons::{ButtonSize, IconButtonVariant};
use notes::common::post_date_created;
use notes::icons::{get_codepoint, Icons};
use notes::models::{Data, Post, Timestamp};
use notes::storage::{JsonStorage, StorageError};
use notes::styles::{ButtonVariant, FontSize};

fn ts(year: u16, month: u8, day: u8, hour: u8, minute: u8, second: u8) -> Timestamp {
    Timestamp { year, month, day, hour, minute, second }
}

#[test]
fn new_application_asks_for_a_load() {
    let (app, cmd) = IcedApplication::new();
    assert!(matches!(cmd, Command::LoadStorage));
    assert_eq!(app.notes.data.posts.len(), 0);
    assert!(app.notes.selected_post_id.is_none());
    assert!(!app.is_dark_theme);
    assert_eq!(app.title(), "notes");
}

#[test]
fn create_button_selects_the_new_note_and_persists() {
    let (mut app, _) = IcedApplication::new();
    let cmd = app.update(Message::ButtonCreatePressed);
    assert!(matches!(cmd, Command::PersistStorage));
    assert_eq!(app.notes.data.posts.len(), 1);
    let selected = app.notes.get_selected_post().expect("new note selected");
    assert_eq!(selected.title, "New");
    assert_eq!(selected.content, "");
    assert_eq!(app.notes.text_editor_state, "");
}

#[test]
fn editor_action_dispatches_content_update() {
    let (mut app, _) = IcedApplication::new();
    app.update(Message::ButtonCreatePressed);
    let cmd = app.update(Message::OnTextEditorAction(TextEditorAction {
        text: String::from("typed text"),
    }));
    assert!(app.notes.is_dirty);
    assert_eq!(app.notes.text_editor_state, "typed text");
    match cmd {
        Command::Dispatch(Message::PostContentUpdated(t)) => assert_eq!(t, "typed text"),
        _ => panic!("expected a dispatched content update"),
    }
    let cmd = app.update(Message::PostContentUpdated(String::from("typed text")));
    assert!(matches!(cmd, Command::PersistStorage));
    let selected = app.notes.get_selected_post().expect("selected");
    assert_eq!(selected.content, "typed text");
}

#[test]
fn every_editor_action_marks_dirty() {
    let (mut app, _) = IcedApplication::new();
    app.update(Message::ButtonCreatePressed);
    assert!(!app.notes.is_dirty);
    // Even a step that leaves the text unchanged (a pure cursor move) marks
    // the session dirty.
    app.update(Message::OnTextEditorAction(TextEditorAction { text: String::from("") }));
    assert!(app.notes.is_dirty);
}

#[test]
fn delete_button_removes_and_persists() {
    let (mut app, _) = IcedApplication::new();
    app.update(Message::ButtonCreatePressed);
    let id = app.notes.selected_post_id.expect("selected");
    let cmd = app.update(Message::ButtonDeletePressed(id));
    assert!(matches!(cmd, Command::PersistStorage));
    assert_eq!(app.notes.data.posts.len(), 0);
    assert!(app.notes.selected_post_id.is_none());
}

#[test]
fn toggle_theme_only_flips_the_flag() {
    let (mut app, _) = IcedApplication::new();
    let cmd = app.update(Message::ToggleIsDarkMode(true));
    assert!(matches!(cmd, Command::NoOp));
    assert!(app.is_dark_theme);
    app.update(Message::ToggleIsDarkMode(false));
    assert!(!app.is_dark_theme);
}

#[test]
fn loaded_document_replaces_state() {
    let (mut app, _) = IcedApplication::new();
    let mut data = Data::default();
    data.posts.push(Post {
        id: 11,
        title: String::from("from disk"),
        content: String::from("stored"),
        created_at: ts(2024, 3, 4, 5, 6, 7),
        updated_at: ts(2024, 3, 4, 5, 6, 7),
    });
    let cmd = app.update(Message::NotesStorageLoaded(Ok(data)));
    assert!(matches!(cmd, Command::NoOp));
    assert_eq!(app.notes.data.posts.len(), 1);
    assert_eq!(app.notes.data.posts[0].title, "from disk");
}

#[test]
fn failed_load_keeps_state() {
    let (mut app, _) = IcedApplication::new();
    app.update(Message::ButtonCreatePressed);
    let cmd = app.update(Message::NotesStorageLoaded(Err(StorageError::LoadFileError)));
    assert!(matches!(cmd, Command::NoOp));
    assert_eq!(app.notes.data.posts.len(), 1);
}

#[test]
fn malformed_load_result_from_codec_keeps_state() {
    let (mut app, _) = IcedApplication::new();
    let result = JsonStorage::from_json("not a document");
    let cmd = app.update(Message::NotesStorageLoaded(result));
    assert!(matches!(cmd, Command::NoOp));
    assert_eq!(app.notes.data.posts.len(), 0);
}

#[test]
fn loaded_document_keeps_valid_selection() {
    let (mut app, _) = IcedApplication::new();
    app.update(Message::ButtonCreatePressed);
    let id = app.notes.selected_post_id.expect("selected");
    app.update(Message::PostContentUpdated(String::from("in memory")));
    // The same note on disk carries different content.
    let mut disk = Data::default();
    let mut stored = app.notes.data.posts[0].clone();
    stored.content = String::from("on disk");
    disk.posts.push(stored);
    app.update(Message::NotesStorageLoaded(Ok(disk)));
    assert_eq!(app.notes.selected_post_id, Some(id));
    assert_eq!(app.notes.text_editor_state, "on disk");
}

#[test]
fn loaded_document_clears_dangling_selection() {
    let (mut app, _) = IcedApplication::new();
    app.update(Message::ButtonCreatePressed);
    assert!(app.notes.selected_post_id.is_some());
    // The loaded document does not carry the selected note.
    app.update(Message::NotesStorageLoaded(Ok(Data::default())));
    assert!(app.notes.selected_post_id.is_none());
    assert_eq!(app.notes.text_editor_state, "");
}

#[test]
fn select_message_loads_buffer() {
    let (mut app, _) = IcedApplication::new();
    app.update(Message::ButtonCreatePressed);
    let id = app.notes.selected_post_id.expect("selected");
    app.update(Message::PostContentUpdated(String::from("remembered")));
    app.update(Message::SelectPost(id));
    assert_eq!(app.notes.text_editor_state, "remembered");
}

#[test]
fn title_message_renames_selected_note() {
    let (mut app, _) = IcedApplication::new();
    app.update(Message::ButtonCreatePressed);
    let cmd = app.update(Message::PostTitleUpdated(String::from("Renamed")));
    assert!(matches!(cmd, Command::PersistStorage));
    assert_eq!(app.notes.get_selected_post().expect("selected").title, "Renamed");
}

#[test]
fn title_message_without_selection_is_ignored() {
    let (mut app, _) = IcedApplication::new();
    let cmd = app.update(Message::PostTitleUpdated(String::from("Renamed")));
    assert!(matches!(cmd, Command::NoOp));
}

#[test]
fn date_display_shape() {
    let p = Post {
        id: 1,
        title: String::new(),
        content: String::new(),
        created_at: ts(2024, 1, 2, 3, 4, 5),
        updated_at: ts(2024, 1, 2, 3, 4, 5),
    };
    assert_eq!(post_date_created(&p), "03:04 02.01.2024");
}

#[test]
fn icon_codepoints() {
    assert_eq!(get_codepoint(&Icons::DarkMode), '\u{e51c}');
    assert_eq!(get_codepoint(&Icons::LightMode), '\u{e518}');
    assert_eq!(get_codepoint(&Icons::DeleteForever), '\u{e92b}');
    assert_eq!(get_codepoint(&Icons::PostAdd), '\u{ea20}');
}

#[test]
fn button_sizes() {
    assert_eq!(ButtonSize::Small.pixels(), 24);
    assert_eq!(ButtonSize::Normal.pixels(), 36);
    assert_eq!(ButtonSize::Large.pixels(), 48);
    assert_eq!(ButtonSize::default(), ButtonSize::Normal);
    let v = IconButtonVariant::Outlined(ButtonSize::Large);
    assert_eq!(*v.get_button_size(), ButtonSize::Large);
}

#[test]
fn font_sizes_and_styles() {
    assert_eq!(FontSize::Body.pixels(), 16);
    assert_eq!(FontSize::Caption.pixels(), 10);
    assert_eq!(FontSize::Header1.pixels(), 24);
    assert_eq!(FontSize::Tooltip.pixels(), 12);
    assert_eq!(ButtonVariant::default(), ButtonVariant::Container);
}
