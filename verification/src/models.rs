//! The data model: notes (posts), categories, the persisted document, and the
//! in-memory session state with its store and selection operations.

use vstd::prelude::*;
use vstd::pervasive::VecAdditionalExecFns;
use vstd::multiset::Multiset;

verus! {

/// A calendar timestamp in UTC, second precision, held as plain fields.
#[derive(Clone, Copy, PartialEq, Eq, Structural, Debug)]
pub struct Timestamp {
    pub year: u16,
    pub month: u8,
    pub day: u8,
    pub hour: u8,
    pub minute: u8,
    pub second: u8,
}

impl Timestamp {
    /// Field ranges that the persisted text form can carry.
    pub open spec fn valid(self) -> bool {
        &&& self.year <= 9999
        &&& 1 <= self.month <= 12
        &&& 1 <= self.day <= 31
        &&& self.hour <= 23
        &&& self.minute <= 59
        &&& self.second <= 59
    }

    /// Packs the fields into one integer so that the numeric order is the
    /// lexicographic (chronological) order of the fields.
    pub open spec fn key(self) -> int {
        self.year as int * 0x10000000000 + self.month as int * 0x100000000
            + self.day as int * 0x1000000 + self.hour as int * 0x10000
            + self.minute as int * 0x100 + self.second as int
    }

    /// The packed chronological key, computed executably.
    pub fn key_exec(&self) -> (r: u64)
        ensures
            r as int == self.key(),
    {
        self.year as u64 * 0x10000000000 + self.month as u64 * 0x100000000
            + self.day as u64 * 0x1000000 + self.hour as u64 * 0x10000
            + self.minute as u64 * 0x100 + self.second as u64
    }
}

/// A note: a titled block of text with creation/update timestamps.
#[derive(Debug, PartialEq)]
pub struct Post {
    pub id: u128,
    pub title: String,
    pub content: String,
    pub created_at: Timestamp,
    pub updated_at: Timestamp,
}

/// The mathematical image of a `Post`.
pub struct PostV {
    pub id: u128,
    pub title: Seq<char>,
    pub content: Seq<char>,
    pub created_at: Timestamp,
    pub updated_at: Timestamp,
}

impl View for Post {
    type V = PostV;

    open spec fn view(&self) -> PostV {
        PostV {
            id: self.id,
            title: self.title@,
            content: self.content@,
            created_at: self.created_at,
            updated_at: self.updated_at,
        }
    }
}

impl Clone for Post {
    fn clone(&self) -> (r: Post)
        ensures
            r@ == self@,
    {
        Post {
            id: self.id,
            title: self.title.clone(),
            content: self.content.clone(),
            created_at: self.created_at,
            updated_at: self.updated_at,
        }
    }
}

/// A category record: present in the persisted document, never linked to a
/// note by any operation; kept as a schema extension point.
#[derive(Debug, PartialEq)]
pub struct Category {
    pub id: u128,
    pub title: String,
    pub created_at: Timestamp,
    pub updated_at: Timestamp,
}

/// The mathematical image of a `Category`.
pub struct CategoryV {
    pub id: u128,
    pub title: Seq<char>,
    pub created_at: Timestamp,
    pub updated_at: Timestamp,
}

impl View for Category {
    type V = CategoryV;

    open spec fn view(&self) -> CategoryV {
        CategoryV {
            id: self.id,
            title: self.title@,
            created_at: self.created_at,
            updated_at: self.updated_at,
        }
    }
}

impl Clone for Category {
    fn clone(&self) -> (r: Category)
        ensures
            r@ == self@,
    {
        Category {
            id: self.id,
            title: self.title.clone(),
            created_at: self.created_at,
            updated_at: self.updated_at,
        }
    }
}

/// The unit of persistence: all categories and all notes, each keyed by its
/// identifier. Identifiers are unique within each collection.
#[derive(Debug, PartialEq)]
pub struct Data {
    pub categories: Vec<Category>,
    pub posts: Vec<Post>,
}

/// The mathematical image of a `Data`.
pub struct DataV {
    pub categories: Seq<CategoryV>,
    pub posts: Seq<PostV>,
}

/// The images of a sequence of notes.
pub open spec fn posts_view(s: Seq<Post>) -> Seq<PostV> {
    s.map_values(|p: Post| p@)
}

/// The images of a sequence of categories.
pub open spec fn categories_view(s: Seq<Category>) -> Seq<CategoryV> {
    s.map_values(|c: Category| c@)
}

impl View for Data {
    type V = DataV;

    open spec fn view(&self) -> DataV {
        DataV { categories: categories_view(self.categories@), posts: posts_view(self.posts@) }
    }
}

/// Whether some note in `s` carries the identifier `id`.
pub open spec fn contains_post(s: Seq<PostV>, id: u128) -> bool {
    exists|i: int| 0 <= i < s.len() && s[i].id == id
}

/// The index of the note with identifier `id` (unique when ids are distinct).
pub open spec fn idx_of(s: Seq<PostV>, id: u128) -> int {
    choose|i: int| 0 <= i < s.len() && s[i].id == id
}

/// No two notes share an identifier.
pub open spec fn distinct_post_ids(s: Seq<PostV>) -> bool {
    forall|i: int, j: int| 0 <= i < j < s.len() ==> s[i].id != s[j].id
}

/// No two categories share an identifier.
pub open spec fn distinct_category_ids(s: Seq<CategoryV>) -> bool {
    forall|i: int, j: int| 0 <= i < j < s.len() ==> s[i].id != s[j].id
}

/// When ids are distinct, the index of a note that carries `id` is the one
/// `idx_of` names.
pub proof fn lemma_idx_of(s: Seq<PostV>, id: u128, i: int)
    requires
        0 <= i < s.len(),
        s[i].id == id,
        distinct_post_ids(s),
    ensures
        contains_post(s, id),
        idx_of(s, id) == i,
{
    assert(contains_post(s, id));
    let w = idx_of(s, id);
    assert(0 <= w < s.len() && s[w].id == id);
    if w < i {
        assert(s[w].id != s[i].id);
    }
    if i < w {
        assert(s[i].id != s[w].id);
    }
}

/// A well-founded selection has a witness index.
pub proof fn lemma_contains_witness(s: Seq<PostV>, id: u128)
    requires
        contains_post(s, id),
    ensures
        0 <= idx_of(s, id) < s.len(),
        s[idx_of(s, id)].id == id,
{
    let w = idx_of(s, id);
    assert(0 <= w < s.len() && s[w].id == id);
}

impl DataV {
    /// Document invariant: identifiers unique per collection, timestamps in
    /// range for the persisted text form.
    pub open spec fn wf(self) -> bool {
        &&& distinct_post_ids(self.posts)
        &&& distinct_category_ids(self.categories)
        &&& forall|i: int|
            0 <= i < self.posts.len() ==> (#[trigger] self.posts[i]).created_at.valid()
                && self.posts[i].updated_at.valid()
        &&& forall|i: int|
            0 <= i < self.categories.len() ==> (#[trigger] self.categories[i]).created_at.valid()
                && self.categories[i].updated_at.valid()
    }
}

impl Data {
    /// An empty document.
    pub fn empty() -> (r: Data)
        ensures
            r@.posts == Seq::<PostV>::empty(),
            r@.categories == Seq::<CategoryV>::empty(),
            r@.wf(),
    {
        let r = Data { categories: Vec::new(), posts: Vec::new() };
        proof {
            assert(r@.posts =~= Seq::<PostV>::empty());
            assert(r@.categories =~= Seq::<CategoryV>::empty());
        }
        r
    }
}

impl Default for Data {
    fn default() -> (r: Data)
        ensures
            r@.posts == Seq::<PostV>::empty(),
            r@.categories == Seq::<CategoryV>::empty(),
            r@.wf(),
    {
        Data::empty()
    }
}

impl Clone for Data {
    fn clone(&self) -> (r: Data)
        ensures
            r@ == self@,
    {
        let mut categories: Vec<Category> = Vec::new();
        let mut i: usize = 0;
        while i < self.categories.len()
            invariant
                i <= self.categories.len(),
                categories@.len() == i as int,
                forall|k: int| 0 <= k < i as int ==> categories@[k]@ == self.categories@[k]@,
            decreases self.categories.len() - i,
        {
            categories.push(self.categories[i].clone());
            i = i + 1;
        }
        let mut posts: Vec<Post> = Vec::new();
        let mut j: usize = 0;
        while j < self.posts.len()
            invariant
                j <= self.posts.len(),
                posts@.len() == j as int,
                forall|k: int| 0 <= k < j as int ==> posts@[k]@ == self.posts@[k]@,
            decreases self.posts.len() - j,
        {
            posts.push(self.posts[j].clone());
            j = j + 1;
        }
        let r = Data { categories, posts };
        proof {
            assert(categories_view(r.categories@) =~= categories_view(self.categories@));
            assert(posts_view(r.posts@) =~= posts_view(self.posts@));
        }
        r
    }
}

impl Post {
    /// A fresh note: a newly drawn identifier (never zero), the given title
    /// and content, and both timestamps stamped to the same current time.
    pub fn new(title: &str, content: &str) -> (r: Post)
        ensures
            r@.title == title@,
            r@.content == content@,
            r.created_at == r.updated_at,
            r.created_at.valid(),
            r.id != 0,
    {
        let now = crate::clock::now_timestamp();
        Post {
            id: crate::ident::fresh_id(),
            title: title.to_owned(),
            content: content.to_owned(),
            created_at: now,
            updated_at: now,
        }
    }

    /// Whether this note is the one the given selection points at.
    pub fn is_selected(&self, selected_post_id: &Option<u128>) -> (r: bool)
        ensures
            r == (selected_post_id matches Some(id) && id == self.id),
    {
        match selected_post_id {
            Some(id) => *id == self.id,
            None => false,
        }
    }
}

/// Why a session operation could not act on the selected note.
#[derive(Clone, Copy, PartialEq, Eq, Structural, Debug)]
pub enum SessionError {
    /// The operation needs a selected note and none is selected.
    NoActiveSelection,
    /// The selection named an identifier that no stored note carries.
    NoSuchNote,
}

/// The in-memory session: the stored document, the current selection, and the
/// live edit buffer, plus transient flags.
#[derive(Debug)]
pub struct NotesState {
    pub data: Data,
    pub selected_post_id: Option<u128>,
    /// The live edit buffer, mirroring the selected note's content.
    pub text_editor_state: String,
    pub search_input_value: String,
    pub is_loading: bool,
    pub is_dirty: bool,
}

impl NotesState {
    /// The images of the stored notes.
    pub open spec fn posts(self) -> Seq<PostV> {
        self.data@.posts
    }

    /// Session invariant: the document is well formed and the selection, when
    /// set, names a stored note.
    pub open spec fn wf(self) -> bool {
        &&& self.data@.wf()
        &&& (self.selected_post_id matches Some(id) ==> contains_post(self.posts(), id))
    }

    /// The live edit buffer holds exactly the selected note's content
    /// (trivially true when nothing is selected).
    pub open spec fn buffer_synced(self) -> bool {
        self.selected_post_id matches Some(id) ==> contains_post(self.posts(), id)
            && self.text_editor_state@ == self.posts()[idx_of(self.posts(), id)].content
    }

    /// All fields except the note collection are unchanged.
    pub open spec fn same_but_posts(self, other: NotesState) -> bool {
        &&& self.data@.categories == other.data@.categories
        &&& self.selected_post_id == other.selected_post_id
        &&& self.text_editor_state@ == other.text_editor_state@
        &&& self.same_transients(other)
    }

    /// Nothing observable differs between the two states.
    pub open spec fn unchanged(self, other: NotesState) -> bool {
        &&& self.data@ == other.data@
        &&& self.selected_post_id == other.selected_post_id
        &&& self.text_editor_state@ == other.text_editor_state@
        &&& self.same_transients(other)
    }

    /// The transient flags and the search field are unchanged.
    pub open spec fn same_transients(self, other: NotesState) -> bool {
        &&& self.search_input_value@ == other.search_input_value@
        &&& self.is_loading == other.is_loading
        &&& self.is_dirty == other.is_dirty
    }

    /// Point lookup of the selected note.
    pub fn get_selected_post(&self) -> (r: Option<&Post>)
        requires
            self.wf(),
        ensures
            match self.selected_post_id {
                Some(id) => r matches Some(p) && p@ == self.posts()[idx_of(self.posts(), id)]
                    && p@.id == id,
                None => r is None,
            },
    {
        match self.selected_post_id {
            Some(id) => {
                match self.find_post_index(id) {
                    Some(i) => {
                        proof {
                            lemma_idx_of(self.posts(), id, i as int);
                        }
                        Some(&self.data.posts[i])
                    },
                    None => {
                        proof {
                            lemma_contains_witness(self.posts(), id);
                        }
                        None
                    },
                }
            },
            None => None,
        }
    }

    /// Index of the note with identifier `id`, if one is stored.
    fn find_post_index(&self, id: u128) -> (r: Option<usize>)
        ensures
            match r {
                Some(i) => i < self.posts().len() && self.posts()[i as int].id == id
                    && (distinct_post_ids(self.posts()) ==> i as int == idx_of(self.posts(), id)),
                None => !contains_post(self.posts(), id),
            },
    {
        let n = self.data.posts.len();
        let mut i: usize = 0;
        while i < n
            invariant
                n == self.posts().len(),
                i <= n,
                forall|k: int| 0 <= k < i as int ==> self.posts()[k].id != id,
            decreases n - i,
        {
            if self.data.posts[i].id == id {
                proof {
                    assert(self.posts()[i as int].id == id);
                    if distinct_post_ids(self.posts()) {
                        lemma_idx_of(self.posts(), id, i as int);
                    }
                }
                return Some(i);
            }
            i = i + 1;
        }
        None
    }

    /// Sets the selection. Selecting a stored note reloads the live buffer
    /// from its content; selecting `None`, or an identifier no note carries,
    /// clears the selection and the buffer, the latter reported as an error.
    pub fn set_selected_post(&mut self, post_id: Option<u128>) -> (r: Result<(), SessionError>)
        requires
            old(self).wf(),
        ensures
            final(self).data@ == old(self).data@,
            final(self).same_transients(*old(self)),
            final(self).wf(),
            final(self).buffer_synced(),
            match post_id {
                Some(id) => if contains_post(old(self).posts(), id) {
                    &&& final(self).selected_post_id == Some(id)
                    &&& final(self).text_editor_state@ == old(self).posts()[idx_of(
                        old(self).posts(),
                        id,
                    )].content
                    &&& r is Ok
                } else {
                    &&& final(self).selected_post_id is None
                    &&& final(self).text_editor_state@ == Seq::<char>::empty()
                    &&& r == Result::<(), SessionError>::Err(SessionError::NoSuchNote)
                },
                None => {
                    &&& final(self).selected_post_id is None
                    &&& final(self).text_editor_state@ == Seq::<char>::empty()
                    &&& r is Ok
                },
            },
    {
        match post_id {
            Some(id) => {
                match self.find_post_index(id) {
                    Some(i) => {
                        self.selected_post_id = Some(id);
                        self.text_editor_state = self.data.posts[i].content.clone();
                        Ok(())
                    },
                    None => {
                        self.selected_post_id = None;
                        self.text_editor_state = String::new();
                        Err(SessionError::NoSuchNote)
                    },
                }
            },
            None => {
                self.selected_post_id = None;
                self.text_editor_state = String::new();
                Ok(())
            },
        }
    }

    /// Replaces the stored note carrying the given note's identifier in
    /// place, returning the previous record. An identifier no note carries
    /// is refused: nothing changes and the absence is reported as `None`.
    pub fn update_post(&mut self, updated_post: Post) -> (r: Option<Post>)
        requires
            old(self).wf(),
            updated_post.created_at.valid(),
            updated_post.updated_at.valid(),
        ensures
            final(self).same_but_posts(*old(self)),
            final(self).selected_post_id == old(self).selected_post_id,
            if contains_post(old(self).posts(), updated_post.id) {
                &&& r matches Some(p) && p@ == old(self).posts()[idx_of(
                    old(self).posts(),
                    updated_post.id,
                )]
                &&& final(self).posts() == old(self).posts().update(
                    idx_of(old(self).posts(), updated_post.id),
                    updated_post@,
                )
            } else {
                &&& r is None
                &&& final(self).posts() == old(self).posts()
            },
            final(self).wf(),
    {
        let ghost pre = self.posts();
        match self.find_post_index(updated_post.id) {
            Some(i) => {
                let ghost w = idx_of(pre, updated_post.id);
                let prev = self.data.posts[i].clone();
                self.data.posts.set(i, updated_post);
                proof {
                    assert(self.posts() =~= pre.update(w, updated_post@));
                    assert forall|a: int, b: int|
                        0 <= a < b < self.posts().len() implies self.posts()[a].id
                        != self.posts()[b].id by {
                        assert(pre[a].id != pre[b].id);
                    }
                    assert forall|k: int|
                        0 <= k < self.posts().len() implies (#[trigger] self.posts()[k]).created_at.valid()
                        && self.posts()[k].updated_at.valid() by {
                        if k != w {
                            assert(self.posts()[k] == pre[k]);
                            assert(pre[k].created_at.valid() && pre[k].updated_at.valid());
                        }
                    }
                    if old(self).selected_post_id is Some {
                        let sid = old(self).selected_post_id->0;
                        lemma_contains_witness(pre, sid);
                        let ws = idx_of(pre, sid);
                        assert(self.posts()[ws].id == sid);
                    }
                }
                Some(prev)
            },
            None => None,
        }
    }

    /// Creates a note with the given title and content and stores it under
    /// its freshly drawn identifier. In the vanishing case that the drawn
    /// identifier already names a stored note, that record is replaced, as a
    /// map insert would.
    pub fn add_post(&mut self, title: &str, content: &str) -> (r: Post)
        requires
            old(self).wf(),
        ensures
            r@.title == title@,
            r@.content == content@,
            r.created_at == r.updated_at,
            r.created_at.valid(),
            r.id != 0,
            final(self).same_but_posts(*old(self)),
            final(self).selected_post_id == old(self).selected_post_id,
            if contains_post(old(self).posts(), r.id) {
                final(self).posts() == old(self).posts().update(
                    idx_of(old(self).posts(), r.id),
                    r@,
                )
            } else {
                final(self).posts() == old(self).posts().push(r@)
            },
            final(self).wf(),
    {
        let new_post = Post::new(title, content);
        let r = new_post.clone();
        let ghost pre = self.posts();
        match self.find_post_index(new_post.id) {
            Some(i) => {
                let ghost w = idx_of(pre, new_post.id);
                self.data.posts.set(i, new_post);
                proof {
                    assert(self.posts() =~= pre.update(w, r@));
                    assert forall|a: int, b: int|
                        0 <= a < b < self.posts().len() implies self.posts()[a].id
                        != self.posts()[b].id by {
                        assert(pre[a].id != pre[b].id);
                    }
                    assert forall|k: int|
                        0 <= k < self.posts().len() implies (#[trigger] self.posts()[k]).created_at.valid()
                        && self.posts()[k].updated_at.valid() by {
                        if k != w {
                            assert(self.posts()[k] == pre[k]);
                            assert(pre[k].created_at.valid() && pre[k].updated_at.valid());
                        }
                    }
                    if old(self).selected_post_id is Some {
                        let sid = old(self).selected_post_id->0;
                        lemma_contains_witness(pre, sid);
                        let ws = idx_of(pre, sid);
                        assert(self.posts()[ws].id == sid);
                    }
                }
            },
            None => {
                self.data.posts.push(new_post);
                proof {
                    assert(self.posts() =~= pre.push(r@));
                    assert forall|a: int, b: int|
                        0 <= a < b < self.posts().len() implies self.posts()[a].id
                        != self.posts()[b].id by {
                        if b < pre.len() {
                            assert(pre[a].id != pre[b].id);
                        } else {
                            assert(!contains_post(pre, r.id));
                            assert(pre[a].id != r.id);
                        }
                    }
                    assert forall|k: int|
                        0 <= k < self.posts().len() implies (#[trigger] self.posts()[k]).created_at.valid()
                        && self.posts()[k].updated_at.valid() by {
                        if k < pre.len() {
                            assert(self.posts()[k] == pre[k]);
                            assert(pre[k].created_at.valid() && pre[k].updated_at.valid());
                        }
                    }
                    if old(self).selected_post_id is Some {
                        let sid = old(self).selected_post_id->0;
                        lemma_contains_witness(pre, sid);
                        let w = idx_of(pre, sid);
                        assert(self.posts()[w].id == sid);
                    }
                }
            },
        }
        r
    }

    /// Removes and returns the note with the given identifier, if stored.
    /// Removing the currently selected note clears the selection and the
    /// live buffer.
    pub fn remove_post(&mut self, post_id: u128) -> (r: Option<Post>)
        requires
            old(self).wf(),
        ensures
            final(self).data@.categories == old(self).data@.categories,
            final(self).same_transients(*old(self)),
            if contains_post(old(self).posts(), post_id) {
                &&& r matches Some(p) && p@ == old(self).posts()[idx_of(
                    old(self).posts(),
                    post_id,
                )]
                &&& final(self).posts() == old(self).posts().remove(
                    idx_of(old(self).posts(), post_id),
                )
            } else {
                &&& r is None
                &&& final(self).posts() == old(self).posts()
            },
            if old(self).selected_post_id == Some(post_id) {
                &&& final(self).selected_post_id is None
                &&& final(self).text_editor_state@ == Seq::<char>::empty()
            } else {
                &&& final(self).selected_post_id == old(self).selected_post_id
                &&& final(self).text_editor_state@ == old(self).text_editor_state@
            },
            final(self).wf(),
            old(self).buffer_synced() ==> final(self).buffer_synced(),
    {
        let ghost pre = self.posts();
        let r = match self.find_post_index(post_id) {
            Some(i) => {
                let removed = self.data.posts.remove(i);
                proof {
                    let w = idx_of(pre, post_id);
                    assert(self.posts() =~= pre.remove(w));
                    assert forall|a: int, b: int|
                        0 <= a < b < self.posts().len() implies self.posts()[a].id
                        != self.posts()[b].id by {
                        let pa = if a < w { a } else { a + 1 };
                        let pb = if b < w { b } else { b + 1 };
                        assert(self.posts()[a] == pre[pa]);
                        assert(self.posts()[b] == pre[pb]);
                        assert(pre[pa].id != pre[pb].id);
                    }
                }
                Some(removed)
            },
            None => None,
        };
        let clear = match self.selected_post_id {
            Some(sid) => sid == post_id,
            None => false,
        };
        if clear {
            self.selected_post_id = None;
            self.text_editor_state = String::new();
        }
        proof {
            if self.selected_post_id is Some {
                let sid = self.selected_post_id->0;
                assert(sid != post_id);
                let w = idx_of(pre, sid);
                assert(pre[w].id == sid);
                if contains_post(pre, post_id) {
                    let rm = idx_of(pre, post_id);
                    assert(pre[rm].id == post_id);
                    assert(w != rm);
                    let nw = if w < rm { w } else { w - 1 };
                    assert(self.posts()[nw] == pre[w]);
                    assert(contains_post(self.posts(), sid));
                    let w2 = idx_of(self.posts(), sid);
                    assert(0 <= w2 < self.posts().len() && self.posts()[w2].id
                        == sid);
                    if w2 != nw {
                        assert(self.posts()[w2].id != self.posts()[nw].id);
                    }
                    assert(w2 == nw);
                } else {
                    assert(self.posts() == pre);
                }
            }
        }
        r
    }

    /// Replaces the selected note's title in the store, leaving every other
    /// field and the live buffer as they were. Without a selection nothing
    /// changes and the violation is reported.
    pub fn update_selected_post_title(&mut self, next_title: String) -> (r: Result<
        (),
        SessionError,
    >)
        requires
            old(self).wf(),
        ensures
            final(self).data@.categories == old(self).data@.categories,
            final(self).selected_post_id == old(self).selected_post_id,
            final(self).text_editor_state@ == old(self).text_editor_state@,
            final(self).same_transients(*old(self)),
            match old(self).selected_post_id {
                Some(id) => {
                    let w = idx_of(old(self).posts(), id);
                    &&& r is Ok
                    &&& final(self).posts() == old(self).posts().update(
                        w,
                        PostV { title: next_title@, ..old(self).posts()[w] },
                    )
                },
                None => {
                    &&& r == Result::<(), SessionError>::Err(SessionError::NoActiveSelection)
                    &&& final(self).posts() == old(self).posts()
                },
            },
            final(self).wf(),
            old(self).buffer_synced() ==> final(self).buffer_synced(),
    {
        let ghost pre = self.posts();
        let id = match self.selected_post_id {
            Some(id) => id,
            None => {
                return Err(SessionError::NoActiveSelection);
            },
        };
        let i = match self.find_post_index(id) {
            Some(i) => i,
            None => {
                proof {
                    assert(contains_post(pre, id));
                }
                return Err(SessionError::NoActiveSelection);
            },
        };
        let p = &self.data.posts[i];
        let replacement = Post {
            id: p.id,
            title: next_title,
            content: p.content.clone(),
            created_at: p.created_at,
            updated_at: p.updated_at,
        };
        self.data.posts.set(i, replacement);
        proof {
            let w = idx_of(pre, id);
            assert(self.posts() =~= pre.update(
                w,
                PostV { title: next_title@, ..pre[w] },
            ));
            assert forall|a: int, b: int|
                0 <= a < b < self.posts().len() implies self.posts()[a].id != self.posts()[b].id by {
                assert(pre[a].id != pre[b].id);
            }
            assert(self.posts()[w].id == id);
            if old(self).buffer_synced() {
                assert(self.posts()[w].content == pre[w].content);
            }
        }
        Ok(())
    }

    /// Replaces the selected note's content in the store and mirrors it in
    /// the live buffer. Without a selection nothing changes and the
    /// violation is reported.
    pub fn update_selected_post_content(&mut self, next_content: String) -> (r: Result<
        (),
        SessionError,
    >)
        requires
            old(self).wf(),
        ensures
            final(self).data@.categories == old(self).data@.categories,
            final(self).selected_post_id == old(self).selected_post_id,
            final(self).same_transients(*old(self)),
            match old(self).selected_post_id {
                Some(id) => {
                    let w = idx_of(old(self).posts(), id);
                    &&& r is Ok
                    &&& final(self).posts() == old(self).posts().update(
                        w,
                        PostV { content: next_content@, ..old(self).posts()[w] },
                    )
                    &&& final(self).text_editor_state@ == next_content@
                },
                None => {
                    &&& r == Result::<(), SessionError>::Err(SessionError::NoActiveSelection)
                    &&& final(self).posts() == old(self).posts()
                    &&& final(self).text_editor_state@ == old(self).text_editor_state@
                },
            },
            final(self).wf(),
            final(self).buffer_synced(),
    {
        let ghost pre = self.posts();
        let id = match self.selected_post_id {
            Some(id) => id,
            None => {
                return Err(SessionError::NoActiveSelection);
            },
        };
        let i = match self.find_post_index(id) {
            Some(i) => i,
            None => {
                proof {
                    assert(contains_post(pre, id));
                }
                return Err(SessionError::NoActiveSelection);
            },
        };
        let p = &self.data.posts[i];
        let replacement = Post {
            id: p.id,
            title: p.title.clone(),
            content: next_content.clone(),
            created_at: p.created_at,
            updated_at: p.updated_at,
        };
        self.data.posts.set(i, replacement);
        self.text_editor_state = next_content;
        proof {
            let w = idx_of(pre, id);
            assert(self.posts() =~= pre.update(
                w,
                PostV { content: self.text_editor_state@, ..pre[w] },
            ));
            assert forall|a: int, b: int|
                0 <= a < b < self.posts().len() implies self.posts()[a].id != self.posts()[b].id by {
                assert(pre[a].id != pre[b].id);
            }
            assert(self.posts()[w].id == id);
        }
        Ok(())
    }
}

/// Display order of two notes: later creation first; equal creation times
/// are broken by ascending identifier, so the order is total and the listing
/// deterministic.
pub open spec fn post_before(a: PostV, b: PostV) -> bool {
    ||| a.created_at.key() > b.created_at.key()
    ||| (a.created_at.key() == b.created_at.key() && a.id <= b.id)
}

/// The sequence is in display order.
pub open spec fn sorted_posts(s: Seq<PostV>) -> bool {
    forall|i: int, j: int| 0 <= i < j < s.len() ==> post_before(s[i], s[j])
}

/// The display order is total.
pub proof fn lemma_before_total(a: PostV, b: PostV)
    ensures
        post_before(a, b) || post_before(b, a),
{
}

/// The display order is transitive.
pub proof fn lemma_before_trans(a: PostV, b: PostV, c: PostV)
    requires
        post_before(a, b),
        post_before(b, c),
    ensures
        post_before(a, c),
{
}

/// In a sorted listing a note created strictly later stands strictly
/// earlier, wherever the two were inserted.
pub proof fn lemma_sorted_position(s: Seq<PostV>, i: int, j: int)
    requires
        sorted_posts(s),
        0 <= i < s.len(),
        0 <= j < s.len(),
        s[i].created_at.key() > s[j].created_at.key(),
    ensures
        i < j,
{
    if j < i {
        assert(post_before(s[j], s[i]));
    }
}

/// Whether `a` comes no later than `b` in the display order, executably.
fn before_exec(a: &Post, b: &Post) -> (r: bool)
    ensures
        r == post_before(a@, b@),
{
    let ka = a.created_at.key_exec();
    let kb = b.created_at.key_exec();
    ka > kb || (ka == kb && a.id <= b.id)
}

impl NotesState {
    /// All stored notes in display order: a permutation of the store, sorted
    /// by creation time descending with identifier as tiebreak.
    pub fn get_ordered_posts_list(&self) -> (r: Vec<Post>)
        ensures
            posts_view(r@).to_multiset() == self.posts().to_multiset(),
            sorted_posts(posts_view(r@)),
    {
        broadcast use vstd::seq_lib::group_to_multiset_ensures;
        broadcast use vstd::multiset::group_multiset_axioms;

        let mut rest: Vec<Post> = Vec::new();
        let mut i: usize = 0;
        while i < self.data.posts.len()
            invariant
                i <= self.data.posts@.len(),
                rest@.len() == i as int,
                forall|k: int| 0 <= k < i as int ==> rest@[k]@ == self.data.posts@[k]@,
            decreases self.data.posts@.len() - i,
        {
            rest.push(self.data.posts[i].clone());
            i = i + 1;
        }
        proof {
            assert(posts_view(rest@) =~= self.posts());
        }
        let mut out: Vec<Post> = Vec::new();
        while rest.len() > 0
            invariant
                posts_view(out@).to_multiset().add(posts_view(rest@).to_multiset())
                    =~= self.posts().to_multiset(),
                sorted_posts(posts_view(out@)),
                forall|a: int, b: int|
                    0 <= a < out@.len() && 0 <= b < rest@.len() ==> post_before(
                        posts_view(out@)[a],
                        posts_view(rest@)[b],
                    ),
            decreases rest@.len(),
        {
            let ghost rest_v = posts_view(rest@);
            let ghost out_v = posts_view(out@);
            let mut m: usize = 0;
            let mut k: usize = 1;
            while k < rest.len()
                invariant
                    rest@.len() > 0,
                    rest_v == posts_view(rest@),
                    (m as int) < rest@.len(),
                    1 <= k <= rest@.len(),
                    forall|t: int| 0 <= t < k as int ==> post_before(rest_v[m as int], rest_v[t]),
                decreases rest@.len() - k,
            {
                if before_exec(&rest[k], &rest[m]) {
                    proof {
                        assert forall|t: int| 0 <= t < k as int implies post_before(
                            rest_v[k as int],
                            rest_v[t],
                        ) by {
                            lemma_before_trans(rest_v[k as int], rest_v[m as int], rest_v[t]);
                        }
                    }
                    m = k;
                } else {
                    proof {
                        lemma_before_total(rest_v[k as int], rest_v[m as int]);
                    }
                }
                k = k + 1;
            }
            let p = rest.remove(m);
            out.push(p);
            proof {
                let pv = rest_v[m as int];
                assert(posts_view(out@) =~= out_v.push(pv));
                assert(posts_view(rest@) =~= rest_v.remove(m as int));
                assert(rest_v.contains(pv));
                vstd::seq_lib::to_multiset_contains(rest_v, pv);
                vstd::seq_lib::to_multiset_build(out_v, pv);
                vstd::seq_lib::to_multiset_remove(rest_v, m as int);
                assert(rest_v.to_multiset().count(pv) > 0);
                assert(posts_view(out@).to_multiset() =~= out_v.to_multiset().insert(pv));
                assert(posts_view(rest@).to_multiset() =~= rest_v.to_multiset().remove(pv));
                assert(posts_view(out@).to_multiset().add(posts_view(rest@).to_multiset())
                    =~= out_v.to_multiset().add(rest_v.to_multiset()));
                assert forall|a: int, b: int|
                    0 <= a < out@.len() && 0 <= b < rest@.len() implies post_before(
                    posts_view(out@)[a],
                    posts_view(rest@)[b],
                ) by {
                    let rb = if b < m as int {
                        b
                    } else {
                        b + 1
                    };
                    assert(posts_view(rest@)[b] == rest_v[rb]);
                    if a < out_v.len() {
                        assert(post_before(out_v[a], rest_v[rb]));
                    } else {
                        assert(post_before(pv, rest_v[rb]));
                    }
                }
                assert forall|a: int, b: int|
                    0 <= a < b < posts_view(out@).len() implies post_before(
                    posts_view(out@)[a],
                    posts_view(out@)[b],
                ) by {
                    if b < out_v.len() {
                        assert(post_before(out_v[a], out_v[b]));
                    } else {
                        assert(post_before(out_v[a], pv));
                    }
                }
            }
        }
        proof {
            assert(posts_view(rest@) =~= Seq::<PostV>::empty());
            assert(posts_view(rest@).to_multiset() =~= Multiset::<PostV>::empty());
            assert(posts_view(out@).to_multiset() =~= self.posts().to_multiset());
        }
        out
    }

}

impl Data {
    /// Decides the document invariant executably.
    pub fn check_wf(&self) -> (r: bool)
        ensures
            r == self@.wf(),
    {
        let mut i: usize = 0;
        while i < self.posts.len()
            invariant
                i <= self.posts@.len(),
                forall|a: int, b: int|
                    0 <= a < b < i as int ==> posts_view(self.posts@)[a].id != posts_view(self.posts@)[b].id,
                forall|a: int|
                    0 <= a < i as int ==> (#[trigger] posts_view(self.posts@)[a]).created_at.valid()
                        && posts_view(self.posts@)[a].updated_at.valid(),
            decreases self.posts@.len() - i,
        {
            let p = &self.posts[i];
            if !(p.created_at.valid_exec() && p.updated_at.valid_exec()) {
                proof {
                    let pv = posts_view(self.posts@)[i as int];
                    assert(!(pv.created_at.valid() && pv.updated_at.valid()));
                    assert(!self@.wf());
                }
                return false;
            }
            let mut j: usize = 0;
            while j < i
                invariant
                    j <= i,
                    i < self.posts@.len(),
                    forall|a: int| 0 <= a < j as int ==> posts_view(self.posts@)[a].id != posts_view(self.posts@)[
                        i as int
                    ].id,
                decreases i - j,
            {
                if self.posts[j].id == self.posts[i].id {
                    proof {
                        assert(posts_view(self.posts@)[j as int].id == posts_view(self.posts@)[i as int].id);
                        assert((j as int) < (i as int) && (i as int) < posts_view(self.posts@).len());
                        assert(!distinct_post_ids(posts_view(self.posts@)));
                        assert(!self@.wf());
                    }
                    return false;
                }
                j = j + 1;
            }
            i = i + 1;
        }
        let mut i: usize = 0;
        while i < self.categories.len()
            invariant
                i <= self.categories@.len(),
                distinct_post_ids(posts_view(self.posts@)),
                forall|a: int|
                    0 <= a < posts_view(self.posts@).len() ==> (#[trigger] posts_view(self.posts@)[a]).created_at.valid()
                        && posts_view(self.posts@)[a].updated_at.valid(),
                forall|a: int, b: int|
                    0 <= a < b < i as int ==> categories_view(self.categories@)[a].id
                        != categories_view(self.categories@)[b].id,
                forall|a: int|
                    0 <= a < i as int ==> (#[trigger] categories_view(self.categories@)[a]).created_at.valid()
                        && categories_view(self.categories@)[a].updated_at.valid(),
            decreases self.categories@.len() - i,
        {
            let c = &self.categories[i];
            if !(c.created_at.valid_exec() && c.updated_at.valid_exec()) {
                proof {
                    let cv = categories_view(self.categories@)[i as int];
                    assert(!(cv.created_at.valid() && cv.updated_at.valid()));
                    assert(!self@.wf());
                }
                return false;
            }
            let mut j: usize = 0;
            while j < i
                invariant
                    j <= i,
                    i < self.categories@.len(),
                    forall|a: int| 0 <= a < j as int ==> categories_view(self.categories@)[a].id
                        != categories_view(self.categories@)[i as int].id,
                decreases i - j,
            {
                if self.categories[j].id == self.categories[i].id {
                    proof {
                        assert(categories_view(self.categories@)[j as int].id == categories_view(self.categories@)[
                            i as int
                        ].id);
                        assert((j as int) < (i as int) && (i as int) < categories_view(self.categories@).len());
                        assert(!distinct_category_ids(categories_view(self.categories@)));
                        assert(!self@.wf());
                    }
                    return false;
                }
                j = j + 1;
            }
            i = i + 1;
        }
        true
    }
}

impl Timestamp {
    /// Builds a timestamp from the six fields a clock hands out, exactly:
    /// every field is taken as given, except that a year outside 1..=9999
    /// (which the four-digit persisted form cannot carry) is clamped to the
    /// nearer bound.
    pub fn from_clock(y: i32, mo: u32, d: u32, h: u32, mi: u32, s: u32) -> (t: Timestamp)
        requires
            1 <= mo <= 12,
            1 <= d <= 31,
            h <= 23,
            mi <= 59,
            s <= 59,
        ensures
            t.year == (if y < 1 {
                1u16
            } else if y > 9999 {
                9999u16
            } else {
                y as u16
            }),
            t.month == mo as u8,
            t.day == d as u8,
            t.hour == h as u8,
            t.minute == mi as u8,
            t.second == s as u8,
            t.valid(),
    {
        let year: u16 = if y < 1 {
            1
        } else if y > 9999 {
            9999
        } else {
            y as u16
        };
        Timestamp {
            year,
            month: mo as u8,
            day: d as u8,
            hour: h as u8,
            minute: mi as u8,
            second: s as u8,
        }
    }

    /// Decides `valid` executably.
    pub fn valid_exec(&self) -> (r: bool)
        ensures
            r == self.valid(),
    {
        self.year <= 9999 && 1 <= self.month && self.month <= 12 && 1 <= self.day && self.day <= 31
            && self.hour <= 23 && self.minute <= 59 && self.second <= 59
    }
}

/// Reading the selected note yields a record whose content is exactly the
/// live edit buffer.
pub proof fn lemma_selected_matches_buffer(st: NotesState)
    requires
        st.wf(),
        st.buffer_synced(),
        st.selected_post_id is Some,
    ensures
        st.posts()[idx_of(st.posts(), st.selected_post_id->0)].content == st.text_editor_state@,
{
}

/// A note created under a fresh identifier stands in the store exactly once,
/// as the record it was created as.
pub proof fn lemma_create_fresh(pre: NotesState, post: NotesState, pv: PostV)
    requires
        pre.wf(),
        !contains_post(pre.posts(), pv.id),
        post.posts() == pre.posts().push(pv),
    ensures
        contains_post(post.posts(), pv.id),
        post.posts()[idx_of(post.posts(), pv.id)] == pv,
        forall|i: int|
            0 <= i < post.posts().len() && (#[trigger] post.posts()[i]).id == pv.id ==> i
                == post.posts().len() - 1,
{
    let n = post.posts().len() - 1;
    assert(post.posts()[n] == pv);
    assert(contains_post(post.posts(), pv.id));
    assert forall|i: int|
        0 <= i < post.posts().len() && (#[trigger] post.posts()[i]).id == pv.id implies i
        == n by {
        if i < n {
            assert(post.posts()[i] == pre.posts()[i]);
            assert(contains_post(pre.posts(), pv.id));
        }
    }
    lemma_contains_witness(post.posts(), pv.id);
}

/// One content commit: the selected note's content was replaced by `text` in
/// the store and the live buffer mirrors it. This is the shape
/// `update_selected_post_content` leaves behind when a note is selected.
pub open spec fn content_committed(pre: NotesState, post: NotesState, text: Seq<char>) -> bool {
    &&& pre.selected_post_id is Some
    &&& post.selected_post_id == pre.selected_post_id
    &&& post.data@.categories == pre.data@.categories
    &&& post.posts() == pre.posts().update(
        idx_of(pre.posts(), pre.selected_post_id->0),
        PostV {
            content: text,
            ..pre.posts()[idx_of(pre.posts(), pre.selected_post_id->0)]
        },
    )
    &&& post.text_editor_state@ == text
}

/// One commit preserves the session invariant and leaves exactly the
/// committed text as the selected note's stored content.
pub proof fn lemma_commit_step(pre: NotesState, post: NotesState, text: Seq<char>)
    requires
        pre.wf(),
        content_committed(pre, post, text),
    ensures
        post.wf(),
        post.buffer_synced(),
        post.selected_post_id is Some,
        post.posts()[idx_of(post.posts(), post.selected_post_id->0)].content == text,
{
    let sid = pre.selected_post_id->0;
    lemma_contains_witness(pre.posts(), sid);
    let w = idx_of(pre.posts(), sid);
    assert forall|a: int, b: int|
        0 <= a < b < post.posts().len() implies post.posts()[a].id != post.posts()[b].id by {
        assert(pre.posts()[a].id != pre.posts()[b].id);
    }
    assert forall|k: int|
        0 <= k < post.posts().len() implies (#[trigger] post.posts()[k]).created_at.valid()
        && post.posts()[k].updated_at.valid() by {
        assert(pre.posts()[k].created_at.valid() && pre.posts()[k].updated_at.valid());
    }
    assert(post.posts()[w].id == sid);
    lemma_idx_of(post.posts(), sid, w);
}

/// Applying any run of sequential content commits leaves the store holding
/// exactly the final buffer text: no earlier edit survives and none is lost.
pub proof fn lemma_edits_last_write_wins(states: Seq<NotesState>, texts: Seq<Seq<char>>)
    requires
        states.len() == texts.len() + 1,
        texts.len() >= 1,
        states[0].wf(),
        forall|k: int|
            0 <= k < texts.len() ==> content_committed(states[k], states[k + 1], texts[k]),
    ensures
        states.last().wf(),
        states.last().buffer_synced(),
        states.last().selected_post_id is Some,
        states.last().text_editor_state@ == texts.last(),
        states.last().posts()[idx_of(
            states.last().posts(),
            states.last().selected_post_id->0,
        )].content == texts.last(),
    decreases texts.len(),
{
    let n = texts.len() as int;
    if n == 1 {
        assert(content_committed(states[0], states[1], texts[0]));
        lemma_commit_step(states[0], states[1], texts[0]);
        assert(states.last() == states[1]);
    } else {
        let s2 = states.drop_last();
        let t2 = texts.drop_last();
        assert forall|k: int| 0 <= k < t2.len() implies content_committed(
            s2[k],
            s2[k + 1],
            t2[k],
        ) by {
            assert(content_committed(states[k], states[k + 1], texts[k]));
            assert(s2[k] == states[k] && s2[k + 1] == states[k + 1] && t2[k] == texts[k]);
        }
        lemma_edits_last_write_wins(s2, t2);
        assert(s2.last() == states[n - 1]);
        assert(content_committed(states[n - 1], states[n], texts[n - 1]));
        lemma_commit_step(states[n - 1], states[n], texts[n - 1]);
        assert(states.last() == states[n]);
        assert(texts.last() == texts[n - 1]);
    }
}

impl Default for NotesState {
    /// An empty session: no document, no selection, cleared buffer and flags.
    fn default() -> (r: NotesState)
        ensures
            r.posts() == Seq::<PostV>::empty(),
            r.data@.categories == Seq::<CategoryV>::empty(),
            r.selected_post_id is None,
            r.text_editor_state@ == Seq::<char>::empty(),
            r.search_input_value@ == Seq::<char>::empty(),
            !r.is_loading,
            !r.is_dirty,
            r.wf(),
            r.buffer_synced(),
    {
        NotesState {
            data: Data::empty(),
            selected_post_id: None,
            text_editor_state: String::new(),
            search_input_value: String::new(),
            is_loading: false,
            is_dirty: false,
        }
    }
}

} // verus!
