//! The command dispatcher: the application state and the update step that
//! turns one user or storage event into a state change and a follow-up
//! action. The caller performs the actions (loading, persisting,
//! re-dispatching) and feeds the resulting events back in.

use vstd::prelude::*;
use crate::models::NotesState;
use crate::models::Data;
use crate::models::PostV;
use crate::models::CategoryV;
use crate::models::contains_post;
use crate::models::idx_of;
use crate::models::lemma_idx_of;
use crate::storage::StorageError;

verus! {

/// One step of the text editor widget, reduced to what the core needs: the
/// full buffer text after the step. Every step marks the session dirty,
/// a pure cursor or selection move as much as a keystroke.
pub struct TextEditorAction {
    pub text: String,
}

/// The events the dispatcher handles.
pub enum Message {
    NotesStorageLoaded(Result<Data, StorageError>),
    NotesStorageSaved(Result<(), StorageError>),
    SelectPost(u128),
    ToggleIsDarkMode(bool),
    ButtonCreatePressed,
    ButtonDeletePressed(u128),
    PostTitleUpdated(String),
    PostContentUpdated(String),
    OnTextEditorAction(TextEditorAction),
}

/// What the caller is asked to do after an update step.
pub enum Command {
    /// Nothing.
    NoOp,
    /// Load the persisted document and feed back `NotesStorageLoaded`.
    LoadStorage,
    /// Persist the current document and feed back `NotesStorageSaved`.
    PersistStorage,
    /// Feed the carried event back into `update`.
    Dispatch(Message),
}

/// A note was created: a fresh record `pv` with the given title and empty
/// content entered the store and was selected, its content mirrored in the
/// buffer.
pub open spec fn created_note(pre: NotesState, post: NotesState, pv: PostV) -> bool {
    &&& pv.title == "New"@
    &&& pv.content == Seq::<char>::empty()
    &&& pv.created_at == pv.updated_at
    &&& pv.created_at.valid()
    &&& pv.id != 0
    &&& (if contains_post(pre.posts(), pv.id) {
        post.posts() == pre.posts().update(idx_of(pre.posts(), pv.id), pv)
    } else {
        post.posts() == pre.posts().push(pv)
    })
    &&& post.selected_post_id == Some(pv.id)
    &&& post.text_editor_state@ == pv.content
    &&& post.data@.categories == pre.data@.categories
    &&& post.same_transients(pre)
}

/// The application: the session state plus the one pure display preference.
#[derive(Debug)]
pub struct IcedApplication {
    pub notes: NotesState,
    pub is_dark_theme: bool,
}

impl Default for IcedApplication {
    /// An empty application in the light theme.
    fn default() -> (r: IcedApplication)
        ensures
            r.notes.wf(),
            r.notes.buffer_synced(),
            r.notes.posts() == Seq::<PostV>::empty(),
            r.notes.data@.categories == Seq::<CategoryV>::empty(),
            r.notes.selected_post_id is None,
            r.notes.text_editor_state@ == Seq::<char>::empty(),
            r.notes.search_input_value@ == Seq::<char>::empty(),
            !r.notes.is_loading,
            !r.notes.is_dirty,
            !r.is_dark_theme,
    {
        IcedApplication { notes: NotesState::default(), is_dark_theme: false }
    }
}

impl IcedApplication {
    /// A fresh application, with the request to load the persisted document:
    /// startup always attempts exactly one load.
    pub fn new() -> (r: (IcedApplication, Command))
        ensures
            r.0.notes.wf(),
            r.0.notes.buffer_synced(),
            r.0.notes.posts() == Seq::<PostV>::empty(),
            r.0.notes.data@.categories == Seq::<CategoryV>::empty(),
            r.0.notes.selected_post_id is None,
            r.0.notes.text_editor_state@ == Seq::<char>::empty(),
            r.0.notes.search_input_value@ == Seq::<char>::empty(),
            !r.0.notes.is_loading,
            !r.0.notes.is_dirty,
            !r.0.is_dark_theme,
            r.1 is LoadStorage,
    {
        (IcedApplication::default(), Command::LoadStorage)
    }

    /// The window title.
    pub fn title(&self) -> (r: String)
        ensures
            r@ == "notes"@,
    {
        String::from_str("notes")
    }

    /// One step of the event loop: applies `message` to the state and says
    /// what to do next. A load replaces the document wholesale; a selection
    /// that still names a note of the loaded document is kept (its buffer
    /// reloaded), a dangling one is cleared. A well-formedness violation in
    /// a loaded document, a load or save failure, and an operation without
    /// the selection it needs all leave the state as it was.
    #[verifier::rlimit(100)]
    #[verifier::spinoff_prover]
    pub fn update(&mut self, message: Message) -> (r: Command)
        requires
            old(self).notes.wf(),
        ensures
            final(self).notes.wf(),
            match message {
                Message::NotesStorageLoaded(res) => final(self).is_dark_theme == old(self).is_dark_theme && r is NoOp && (match res {
                    Ok(d) => if d@.wf() {
                        &&& final(self).notes.data@ == d@
                        &&& final(self).notes.buffer_synced()
                        &&& (match old(self).notes.selected_post_id {
                            Some(id) => if contains_post(d@.posts, id) {
                                &&& final(self).notes.selected_post_id == Some(id)
                                &&& final(self).notes.text_editor_state@ == d@.posts[idx_of(
                                    d@.posts,
                                    id,
                                )].content
                            } else {
                                &&& final(self).notes.selected_post_id is None
                                &&& final(self).notes.text_editor_state@ == Seq::<char>::empty()
                            },
                            None => final(self).notes.selected_post_id is None && final(self).notes.text_editor_state@ == Seq::<char>::empty(),
                        })
                        &&& final(self).notes.same_transients(old(self).notes)
                    } else {
                        final(self).notes == old(self).notes
                    },
                    Err(_) => final(self).notes == old(self).notes,
                }),
                Message::NotesStorageSaved(_) => final(self).notes == old(self).notes && final(self).is_dark_theme == old(self).is_dark_theme && r is NoOp,
                Message::ToggleIsDarkMode(v) => final(self).is_dark_theme == v && final(self).notes
                    == old(self).notes && r is NoOp,
                Message::ButtonDeletePressed(id) => {
                    &&& final(self).is_dark_theme == old(self).is_dark_theme
                    &&& r is PersistStorage
                    &&& (if contains_post(old(self).notes.posts(), id) {
                        final(self).notes.posts() == old(self).notes.posts().remove(
                            idx_of(old(self).notes.posts(), id),
                        )
                    } else {
                        final(self).notes.posts() == old(self).notes.posts()
                    })
                    &&& (if old(self).notes.selected_post_id == Some(id) {
                        final(self).notes.selected_post_id is None
                    } else {
                        final(self).notes.selected_post_id == old(self).notes.selected_post_id
                    })
                },
                Message::ButtonCreatePressed => {
                    &&& final(self).is_dark_theme == old(self).is_dark_theme
                    &&& r is PersistStorage
                    &&& final(self).notes.buffer_synced()
                    &&& exists|pv: PostV|
                        created_note(old(self).notes, final(self).notes, pv)
                },
                Message::SelectPost(id) => final(self).is_dark_theme == old(self).is_dark_theme
                    && r is NoOp && final(self).notes.data@ == old(self).notes.data@ && final(self).notes.buffer_synced() && (if contains_post(old(self).notes.posts(), id) {
                    &&& final(self).notes.selected_post_id == Some(id)
                    &&& final(self).notes.text_editor_state@ == old(self).notes.posts()[idx_of(
                        old(self).notes.posts(),
                        id,
                    )].content
                } else {
                    final(self).notes.selected_post_id is None
                }),
                Message::PostTitleUpdated(next_title) => final(self).is_dark_theme == old(self).is_dark_theme && (match old(self).notes.selected_post_id {
                    Some(id) => {
                        let w = idx_of(old(self).notes.posts(), id);
                        &&& r is PersistStorage
                        &&& final(self).notes.posts() == old(self).notes.posts().update(
                            w,
                            PostV { title: next_title@, ..old(self).notes.posts()[w] },
                        )
                    },
                    None => r is NoOp && final(self).notes.unchanged(old(self).notes),
                }),
                Message::PostContentUpdated(text) => final(self).is_dark_theme == old(self).is_dark_theme && (match old(self).notes.selected_post_id {
                    Some(id) => {
                        let w = idx_of(old(self).notes.posts(), id);
                        &&& r is PersistStorage
                        &&& final(self).notes.posts() == old(self).notes.posts().update(
                            w,
                            PostV { content: text@, ..old(self).notes.posts()[w] },
                        )
                        &&& final(self).notes.text_editor_state@ == text@
                        &&& final(self).notes.buffer_synced()
                    },
                    None => r is NoOp && final(self).notes.unchanged(old(self).notes),
                }),
                Message::OnTextEditorAction(action) => {
                    &&& final(self).is_dark_theme == old(self).is_dark_theme
                    &&& final(self).notes.text_editor_state@ == action.text@
                    &&& final(self).notes.is_dirty
                    &&& final(self).notes.data@ == old(self).notes.data@
                    &&& final(self).notes.selected_post_id == old(self).notes.selected_post_id
                    &&& (r matches Command::Dispatch(m) && m matches Message::PostContentUpdated(t)
                        && t@ == action.text@)
                },
            },
    {
        match message {
            Message::NotesStorageLoaded(res) => {
                match res {
                    Ok(data) => {
                        if data.check_wf() {
                            let sel = self.notes.selected_post_id;
                            self.notes.selected_post_id = None;
                            self.notes.data = data;
                            let _ = self.notes.set_selected_post(sel);
                        }
                    },
                    Err(_) => {},
                }
                Command::NoOp
            },
            Message::NotesStorageSaved(_) => Command::NoOp,
            Message::ToggleIsDarkMode(value) => {
                self.is_dark_theme = value;
                Command::NoOp
            },
            Message::ButtonDeletePressed(post_id) => {
                self.notes.remove_post(post_id);
                Command::PersistStorage
            },
            Message::ButtonCreatePressed => {
                let new_post = self.notes.add_post("New", "");
                let ghost mid = self.notes;
                proof {
                    if contains_post(old(self).notes.posts(), new_post.id) {
                        let w = idx_of(old(self).notes.posts(), new_post.id);
                        crate::models::lemma_contains_witness(
                            old(self).notes.posts(),
                            new_post.id,
                        );
                        assert(mid.posts()[w].id == new_post.id);
                        assert(contains_post(mid.posts(), new_post.id));
                    } else {
                        assert(mid.posts()[mid.posts().len() - 1].id == new_post.id);
                        assert(contains_post(mid.posts(), new_post.id));
                    }
                }
                let select_res = self.notes.set_selected_post(Some(new_post.id));
                proof {
                    reveal_strlit("");
                    assert(""@ =~= Seq::<char>::empty());
                    let pv = new_post@;
                    let w2 = idx_of(mid.posts(), pv.id);
                    crate::models::lemma_contains_witness(mid.posts(), pv.id);
                    if contains_post(old(self).notes.posts(), pv.id) {
                        let w = idx_of(old(self).notes.posts(), pv.id);
                        lemma_idx_of(mid.posts(), pv.id, w);
                        assert(mid.posts()[w2].content == pv.content);
                    } else {
                        lemma_idx_of(mid.posts(), pv.id, mid.posts().len() - 1);
                        assert(mid.posts()[w2].content == pv.content);
                    }
                    assert(created_note(old(self).notes, self.notes, pv));
                }
                Command::PersistStorage
            },
            Message::SelectPost(post_id) => {
                let _ = self.notes.set_selected_post(Some(post_id));
                Command::NoOp
            },
            Message::PostTitleUpdated(next_title) => {
                match self.notes.update_selected_post_title(next_title) {
                    Ok(_) => Command::PersistStorage,
                    Err(_) => Command::NoOp,
                }
            },
            Message::OnTextEditorAction(action) => {
                self.notes.is_dirty = true;
                let text = action.text;
                self.notes.text_editor_state = text.clone();
                Command::Dispatch(Message::PostContentUpdated(text))
            },
            Message::PostContentUpdated(text) => {
                match self.notes.update_selected_post_content(text) {
                    Ok(_) => Command::PersistStorage,
                    Err(_) => Command::NoOp,
                }
            },
        }
    }
}

} // verus!
