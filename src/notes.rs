//! Notes kept per conversation: an upsert that skips unchanged content, exact
//! lookup, removal and listing.

use vstd::prelude::*;
use crate::records::Note;
use crate::resolver::opt_view;
use crate::text::{blank, chars_of, find_ws, first_non_ws_from, first_ws_from, is_blank, skip_ws};

verus! {

pub type NoteKey = (i64, Seq<char>);

pub type NotesView = Map<NoteKey, Seq<char>>;

#[derive(Clone, Copy, Debug, PartialEq, Eq, Structural)]
pub enum StoreError {
    /// The note name is empty or all whitespace.
    EmptyName,
    /// The content is empty or all whitespace.
    EmptyContent,
}

/// No note by that name in that conversation.
#[derive(Clone, Copy, Debug, PartialEq, Eq, Structural)]
pub struct NotFound;

/// What a save command must carry before it reaches the store.
#[derive(Clone, Copy, Debug, PartialEq, Eq, Structural)]
pub enum NoteInputError {
    MissingName,
    MissingContent,
}

pub open spec fn key_of(n: Note) -> NoteKey {
    (n.chat_id, n.note_id@)
}

/// Whether saving `content` under `(chat, name)` changes what is stored.
pub open spec fn writes(m: NotesView, chat: i64, name: Seq<char>, content: Seq<char>) -> bool {
    !(m.contains_key((chat, name)) && m[(chat, name)] == content)
}

/// The notes after a save.
pub open spec fn saved(m: NotesView, chat: i64, name: Seq<char>, content: Seq<char>) -> NotesView {
    m.insert((chat, name), content)
}

/// The notes after a removal.
pub open spec fn deleted(m: NotesView, chat: i64, name: Seq<char>) -> NotesView {
    m.remove((chat, name))
}

/// What a lookup answers.
pub open spec fn lookup(m: NotesView, chat: i64, name: Seq<char>) -> Option<Seq<char>> {
    if m.contains_key((chat, name)) {
        Some(m[(chat, name)])
    } else {
        None
    }
}

/// The names of the notes of `chat`, in the order in which they are stored.
pub open spec fn names_in(ns: Seq<Note>, chat: i64) -> Seq<Seq<char>>
    decreases ns.len(),
{
    if ns.len() == 0 {
        Seq::empty()
    } else {
        let rest = names_in(ns.drop_last(), chat);
        if ns.last().chat_id == chat {
            rest.push(ns.last().note_id@)
        } else {
            rest
        }
    }
}

pub open spec fn string_views(v: Seq<String>) -> Seq<Seq<char>> {
    v.map_values(|s: String| s@)
}

/// The next value of the change marker, which wraps after its largest value.
pub open spec fn next_revision(r: u64) -> u64 {
    if r == u64::MAX {
        0
    } else {
        (r + 1) as u64
    }
}

proof fn lemma_names_in_contains(ns: Seq<Note>, chat: i64, x: Seq<char>)
    ensures
        names_in(ns, chat).contains(x) <==> exists|i: int|
            0 <= i < ns.len() && key_of(#[trigger] ns[i]) == (chat, x),
    decreases ns.len(),
{
    if ns.len() > 0 {
        let init = ns.drop_last();
        lemma_names_in_contains(init, chat, x);
        let last = ns.len() - 1;
        if names_in(ns, chat).contains(x) {
            if names_in(init, chat).contains(x) {
                let i = choose|i: int| 0 <= i < init.len() && key_of(#[trigger] init[i]) == (chat, x);
                assert(ns[i] == init[i]);
            } else {
                let r = names_in(init, chat);
                let j = choose|j: int| 0 <= j < names_in(ns, chat).len() && names_in(ns, chat)[j] == x;
                if ns[last].chat_id == chat {
                    assert(names_in(ns, chat) == r.push(ns[last].note_id@));
                    if j < r.len() {
                        assert(r[j] == x);
                        assert(r.contains(x));
                    }
                    assert(key_of(ns[last]) == (chat, x));
                } else {
                    assert(names_in(ns, chat) == r);
                }
            }
        }
        if exists|i: int| 0 <= i < ns.len() && key_of(#[trigger] ns[i]) == (chat, x) {
            let i = choose|i: int| 0 <= i < ns.len() && key_of(#[trigger] ns[i]) == (chat, x);
            if i < last {
                assert(init[i] == ns[i]);
                assert(key_of(init[i]) == (chat, x));
                let r = names_in(init, chat);
                assert(r.contains(x));
                let j = choose|j: int| 0 <= j < r.len() && r[j] == x;
                if ns[last].chat_id == chat {
                    assert(names_in(ns, chat) == r.push(ns[last].note_id@));
                    assert(names_in(ns, chat)[j] == x);
                } else {
                    assert(names_in(ns, chat) == r);
                }
            } else {
                let r = names_in(init, chat);
                assert(names_in(ns, chat) == r.push(x));
                assert(names_in(ns, chat)[r.len() as int] == x);
            }
        }
    }
}

proof fn lemma_names_unique(ns: Seq<Note>, chat: i64)
    requires
        forall|i: int, j: int|
            0 <= i < j < ns.len() ==> key_of(#[trigger] ns[i]) != key_of(#[trigger] ns[j]),
    ensures
        names_in(ns, chat).no_duplicates(),
    decreases ns.len(),
{
    if ns.len() > 0 {
        let init = ns.drop_last();
        let last = ns.len() - 1;
        assert forall|i: int, j: int| 0 <= i < j < init.len() implies key_of(
            #[trigger] init[i],
        ) != key_of(#[trigger] init[j]) by {
            assert(key_of(ns[i]) != key_of(ns[j]));
        }
        lemma_names_unique(init, chat);
        if ns[last].chat_id == chat {
            let x = ns[last].note_id@;
            lemma_names_in_contains(init, chat, x);
            if names_in(init, chat).contains(x) {
                let i = choose|i: int| 0 <= i < init.len() && key_of(#[trigger] init[i]) == (chat, x);
                assert(key_of(ns[i]) != key_of(ns[last]));
            }
            let r = names_in(init, chat);
            assert forall|a: int, b: int| 0 <= a < b < r.push(x).len() implies r.push(x)[a]
                != r.push(x)[b] by {
                if b == r.len() {
                    assert(r.contains(r[a]));
                }
            }
        }
    }
}

proof fn lemma_names_same_keys(a: Seq<Note>, b: Seq<Note>, chat: i64)
    requires
        a.len() == b.len(),
        forall|j: int| 0 <= j < a.len() ==> key_of(#[trigger] a[j]) == key_of(b[j]),
    ensures
        names_in(a, chat) == names_in(b, chat),
    decreases a.len(),
{
    if a.len() > 0 {
        assert(key_of(a[a.len() - 1]) == key_of(b[b.len() - 1]));
        assert forall|j: int| 0 <= j < a.drop_last().len() implies key_of(
            #[trigger] a.drop_last()[j],
        ) == key_of(b.drop_last()[j]) by {
            assert(key_of(a[j]) == key_of(b[j]));
        }
        lemma_names_same_keys(a.drop_last(), b.drop_last(), chat);
    }
}

/// The text with every `#` taken out.
pub open spec fn without_hashes(s: Seq<char>) -> Seq<char>
    decreases s.len(),
{
    if s.len() == 0 {
        Seq::empty()
    } else if s.last() == '#' {
        without_hashes(s.drop_last())
    } else {
        without_hashes(s.drop_last()).push(s.last())
    }
}

/// A message of a single token that starts with `#`, other than `#` alone, asks
/// for the note named by the token without its `#` characters.
pub open spec fn hashtag_request(t: Seq<char>) -> Option<Seq<char>> {
    if t.len() > 0 && t[0] == '#' && t != seq!['#'] && first_non_ws_from(t, first_ws_from(t, 0))
        >= t.len() {
        Some(without_hashes(t))
    } else {
        None
    }
}

/// The note name that a `#name` message asks for, if it is one.
pub fn hashtag_note_name(text: &str) -> (r: Option<String>)
    ensures
        opt_view(r) == hashtag_request(text@),
{
    let t = chars_of(text);
    let n = t.len();
    if n == 0 || t[0] != '#' || n == 1 {
        proof {
            if n == 1 && t@[0] == '#' {
                assert(text@ =~= seq!['#']);
            }
        }
        return None;
    }
    let w = find_ws(&t, 0);
    if skip_ws(&t, w) < n {
        return None;
    }
    let mut out = String::new();
    let mut i: usize = 0;
    while i < n
        invariant
            n == text@.len(),
            t@ == text@,
            i <= n,
            out@ == without_hashes(text@.subrange(0, i as int)),
        decreases n - i,
    {
        assert(text@.subrange(0, i + 1).drop_last() =~= text@.subrange(0, i as int));
        if t[i] != '#' {
            out.append(text.substring_char(i, i + 1));
            assert(text@.subrange(i as int, i + 1) =~= seq![t@[i as int]]);
            assert(out@ =~= without_hashes(text@.subrange(0, i as int)).push(t@[i as int]));
        }
        i = i + 1;
    }
    assert(text@.subrange(0, n as int) =~= text@);
    assert(text@.len() > 1);
    assert(text@ != seq!['#']);
    Some(out)
}

/// Index of the first space character of `t` at or after `i`, or the length when none is left.
pub open spec fn first_space_from(t: Seq<char>, i: int) -> int
    decreases t.len() - i,
{
    if i >= t.len() {
        t.len() as int
    } else if t[i] == ' ' {
        i
    } else {
        first_space_from(t, i + 1)
    }
}

/// A save command's text cut at its first space: the note name before it and the
/// content after it, both as written. A missing text or a blank name lacks the name;
/// a text without a space or with blank content lacks the content.
pub open spec fn note_definition(p: Option<Seq<char>>) -> Result<
    (Seq<char>, Seq<char>),
    NoteInputError,
> {
    match p {
        None => Err(NoteInputError::MissingName),
        Some(t) => {
            let k = first_space_from(t, 0);
            if k >= t.len() {
                Err(NoteInputError::MissingContent)
            } else if is_blank(t.subrange(0, k)) {
                Err(NoteInputError::MissingName)
            } else if is_blank(t.subrange(k + 1, t.len() as int)) {
                Err(NoteInputError::MissingContent)
            } else {
                Ok((t.subrange(0, k), t.subrange(k + 1, t.len() as int)))
            }
        },
    }
}

pub open spec fn definition_view(r: Result<(String, String), NoteInputError>) -> Result<
    (Seq<char>, Seq<char>),
    NoteInputError,
> {
    match r {
        Ok((n, c)) => Ok((n@, c@)),
        Err(e) => Err(e),
    }
}

/// Splits the text of a save command into a note name and its content, refusing
/// a command that lacks either.
pub fn split_note_definition(payload: &Option<String>) -> (r: Result<
    (String, String),
    NoteInputError,
>)
    ensures
        definition_view(r) == note_definition(opt_view(*payload)),
        r matches Ok((n, c)) ==> !is_blank(n@) && !is_blank(c@),
{
    match payload {
        None => Err(NoteInputError::MissingName),
        Some(p) => {
            let s = p.as_str();
            let t = chars_of(s);
            let mut k: usize = 0;
            while k < t.len() && t[k] != ' '
                invariant
                    k <= t@.len(),
                    first_space_from(t@, 0) == first_space_from(t@, k as int),
                decreases t@.len() - k,
            {
                k = k + 1;
            }
            if k >= t.len() {
                return Err(NoteInputError::MissingContent);
            }
            let name = String::from_str(s.substring_char(0, k));
            let content = String::from_str(s.substring_char(k + 1, t.len()));
            if blank(name.as_str()) {
                return Err(NoteInputError::MissingName);
            }
            if blank(content.as_str()) {
                return Err(NoteInputError::MissingContent);
            }
            Ok((name, content))
        },
    }
}

/// What a save writes can be read back: after saving `content` under a name, a
/// lookup of that name answers exactly `content`.
pub proof fn lemma_save_then_get(m: NotesView, chat: i64, name: Seq<char>, content: Seq<char>)
    ensures
        lookup(saved(m, chat, name, content), chat, name) == Some(content),
{
}

/// Saving the same content twice writes once: the second save changes neither the
/// notes nor, since it writes nothing, the change marker.
pub proof fn lemma_save_idempotent(m: NotesView, chat: i64, name: Seq<char>, content: Seq<char>)
    ensures
        !writes(saved(m, chat, name, content), chat, name, content),
        saved(saved(m, chat, name, content), chat, name, content) == saved(
            m,
            chat,
            name,
            content,
        ),
{
    assert(saved(saved(m, chat, name, content), chat, name, content) =~= saved(
        m,
        chat,
        name,
        content,
    ));
}

/// After a removal the name is gone: a lookup of it finds nothing.
pub proof fn lemma_delete_then_get(m: NotesView, chat: i64, name: Seq<char>)
    ensures
        lookup(deleted(m, chat, name), chat, name) is None,
{
}

/// The notes of other conversations, and other notes of the same one, are not
/// touched by a save or a removal.
pub proof fn lemma_other_notes_untouched(
    m: NotesView,
    chat: i64,
    name: Seq<char>,
    content: Seq<char>,
    other_chat: i64,
    other_name: Seq<char>,
)
    requires
        (chat, name) != (other_chat, other_name),
    ensures
        lookup(saved(m, chat, name, content), other_chat, other_name) == lookup(
            m,
            other_chat,
            other_name,
        ),
        lookup(deleted(m, chat, name), other_chat, other_name) == lookup(
            m,
            other_chat,
            other_name,
        ),
{
}

/// The notes of every conversation, with a marker that moves on each change.
pub struct NoteStore {
    notes: Vec<Note>,
    revision: u64,
    contents: Ghost<NotesView>,
}

impl View for NoteStore {
    type V = NotesView;

    closed spec fn view(&self) -> NotesView {
        self.contents@
    }
}

impl NoteStore {
    /// No note in a well-formed store has a blank name or blank content.
    pub proof fn lemma_no_blank_notes(&self)
        requires
            self.wf(),
        ensures
            forall|k: NoteKey| #[trigger]
                self@.contains_key(k) ==> !is_blank(k.1) && !is_blank(self@[k]),
    {
    }

    /// Each stored note has its own key, every key of the view is stored, and
    /// no stored name or content is blank.
    pub closed spec fn wf(&self) -> bool {
        &&& forall|i: int, j: int|
            0 <= i < j < self.notes@.len() ==> key_of(#[trigger] self.notes@[i]) != key_of(
                #[trigger] self.notes@[j],
            )
        &&& forall|i: int|
            0 <= i < self.notes@.len() ==> {
                &&& self.contents@.contains_key(key_of(#[trigger] self.notes@[i]))
                &&& self.contents@[key_of(self.notes@[i])] == self.notes@[i].note_content@
            }
        &&& forall|k: NoteKey|
            #[trigger] self.contents@.contains_key(k) ==> exists|i: int|
                0 <= i < self.notes@.len() && key_of(#[trigger] self.notes@[i]) == k
        &&& forall|k: NoteKey|
            #[trigger] self.contents@.contains_key(k) ==> !is_blank(k.1) && !is_blank(
                self.contents@[k],
            )
    }

    /// The names of the notes of `chat`, in the order in which they were first saved.
    pub closed spec fn names(&self, chat: i64) -> Seq<Seq<char>> {
        names_in(self.notes@, chat)
    }

    pub closed spec fn spec_revision(&self) -> u64 {
        self.revision
    }

    pub fn new() -> (r: NoteStore)
        ensures
            r.wf(),
            r@ == NotesView::empty(),
            r.spec_revision() == 0,
    {
        NoteStore { notes: Vec::new(), revision: 0, contents: Ghost(Map::empty()) }
    }

    /// A marker that changes on every write and stays put otherwise.
    pub fn revision(&self) -> (r: u64)
        ensures
            r == self.spec_revision(),
    {
        self.revision
    }

    fn find(&self, chat_id: i64, note_name: &str) -> (r: Option<usize>)
        requires
            self.wf(),
        ensures
            match r {
                Some(i) => i < self.notes@.len() && key_of(self.notes@[i as int]) == (
                    chat_id,
                    note_name@,
                ),
                None => !self@.contains_key((chat_id, note_name@)),
            },
    {
        let wanted = String::from_str(note_name);
        let mut i: usize = 0;
        while i < self.notes.len()
            invariant
                self.wf(),
                wanted@ == note_name@,
                i <= self.notes@.len(),
                forall|j: int| 0 <= j < i ==> key_of(#[trigger] self.notes@[j]) != (chat_id, note_name@),
            decreases self.notes@.len() - i,
        {
            let n = &self.notes[i];
            if n.chat_id == chat_id && n.note_id == wanted {
                return Some(i);
            }
            i = i + 1;
        }
        proof {
            if self@.contains_key((chat_id, note_name@)) {
                let j = choose|j: int|
                    0 <= j < self.notes@.len() && key_of(#[trigger] self.notes@[j]) == (
                        chat_id,
                        note_name@,
                    );
                assert(key_of(self.notes@[j]) != (chat_id, note_name@));
            }
        }
        None
    }

    /// Stores `content` under `note_name` in the conversation `chat_id`. A note that
    /// already holds exactly this content is left alone and the marker does not
    /// move; otherwise the note is inserted or overwritten and the marker moves on.
    /// A blank name or content is refused and nothing changes.
    pub fn save(&mut self, chat_id: i64, note_name: String, content: String) -> (r: Result<
        (),
        StoreError,
    >)
        requires
            old(self).wf(),
        ensures
            final(self).wf(),
            is_blank(note_name@) ==> r == Err::<(), StoreError>(StoreError::EmptyName),
            !is_blank(note_name@) && is_blank(content@) ==> r == Err::<(), StoreError>(
                StoreError::EmptyContent,
            ),
            r is Err ==> final(self)@ == old(self)@ && final(self).spec_revision() == old(
                self,
            ).spec_revision() && final(self).names(chat_id) == old(self).names(chat_id),
            !is_blank(note_name@) && !is_blank(content@) ==> r is Ok,
            r is Ok ==> final(self)@ == saved(old(self)@, chat_id, note_name@, content@),
            r is Ok ==> final(self).spec_revision() == if writes(
                old(self)@,
                chat_id,
                note_name@,
                content@,
            ) {
                next_revision(old(self).spec_revision())
            } else {
                old(self).spec_revision()
            },
    {
        if blank(note_name.as_str()) {
            return Err(StoreError::EmptyName);
        }
        if blank(content.as_str()) {
            return Err(StoreError::EmptyContent);
        }
        let ghost key = (chat_id, note_name@);
        let ghost before = self.notes@;
        let ghost prior = self.contents@;
        let ghost content_view = content@;
        let found = self.find(chat_id, note_name.as_str());
        match found {
            Some(i) => {
                if self.notes[i].note_content == content {
                    assert(self@ =~= saved(self@, chat_id, note_name@, content@));
                    return Ok(());
                }
                self.revision = if self.revision == u64::MAX {
                    0
                } else {
                    self.revision + 1
                };
                let ghost old_contents = self.contents@;
                self.notes.set(i, Note { chat_id, note_id: note_name, note_content: content });
                self.contents = Ghost(old_contents.insert(key, self.notes@[i as int].note_content@));
                assert forall|k: NoteKey| #[trigger] self.contents@.contains_key(k) implies exists|j: int|
                    0 <= j < self.notes@.len() && key_of(#[trigger] self.notes@[j]) == k by {
                    if k != key {
                        let j = choose|j: int| 0 <= j < before.len() && key_of(#[trigger] before[j]) == k;
                        assert(key_of(self.notes@[j]) == k);
                    } else {
                        assert(key_of(self.notes@[i as int]) == k);
                    }
                }
                assert(self.notes@.len() == before.len());
                assert(forall|j: int| 0 <= j < before.len() ==> key_of(#[trigger] self.notes@[j]) == key_of(before[j]));
                assert forall|a: int, b: int| 0 <= a < b < self.notes@.len() implies key_of(
                    #[trigger] self.notes@[a],
                ) != key_of(#[trigger] self.notes@[b]) by {
                    assert(key_of(before[a]) != key_of(before[b]));
                }
                assert forall|j: int| 0 <= j < self.notes@.len() implies {
                    &&& self.contents@.contains_key(key_of(#[trigger] self.notes@[j]))
                    &&& self.contents@[key_of(self.notes@[j])] == self.notes@[j].note_content@
                } by {
                    if j != i {
                        assert(key_of(before[j]) != key_of(before[i as int]) || j == i);
                        assert(self.notes@[j] == before[j]);
                    }
                }
                proof {
                    lemma_names_same_keys(before, self.notes@, chat_id);
                }
            },
            None => {
                self.revision = if self.revision == u64::MAX {
                    0
                } else {
                    self.revision + 1
                };
                let ghost old_contents = self.contents@;
                self.notes.push(Note { chat_id, note_id: note_name, note_content: content });
                self.contents = Ghost(old_contents.insert(key, self.notes@.last().note_content@));
                assert forall|k: NoteKey| #[trigger] self.contents@.contains_key(k) implies exists|j: int|
                    0 <= j < self.notes@.len() && key_of(#[trigger] self.notes@[j]) == k by {
                    if k != key {
                        let j = choose|j: int| 0 <= j < before.len() && key_of(#[trigger] before[j]) == k;
                        assert(key_of(self.notes@[j]) == k);
                    } else {
                        assert(key_of(self.notes@[before.len() as int]) == k);
                    }
                }
                assert(self.notes@.drop_last() =~= before);
                assert forall|a: int, b: int| 0 <= a < b < self.notes@.len() implies key_of(
                    #[trigger] self.notes@[a],
                ) != key_of(#[trigger] self.notes@[b]) by {
                    if b == before.len() {
                        assert(old_contents.contains_key(key_of(before[a])));
                    } else {
                        assert(key_of(before[a]) != key_of(before[b]));
                    }
                }
                assert forall|j: int| 0 <= j < self.notes@.len() implies {
                    &&& self.contents@.contains_key(key_of(#[trigger] self.notes@[j]))
                    &&& self.contents@[key_of(self.notes@[j])] == self.notes@[j].note_content@
                } by {
                    if j < before.len() {
                        assert(self.notes@[j] == before[j]);
                        assert(old_contents.contains_key(key_of(before[j])));
                    }
                }
            },
        }
        assert(self.contents@ == prior.insert(key, content_view));
        assert forall|k: NoteKey| #[trigger] self.contents@.contains_key(k) implies !is_blank(k.1)
            && !is_blank(self.contents@[k]) by {
            if k != key {
                assert(prior.contains_key(k));
            }
        }
        Ok(())
    }

    /// The note `note_name` of the conversation `chat_id`, if there is one.
    pub fn get(&self, chat_id: i64, note_name: &str) -> (r: Result<Note, NotFound>)
        requires
            self.wf(),
        ensures
            r is Ok <==> self@.contains_key((chat_id, note_name@)),
            r matches Ok(n) ==> n.chat_id == chat_id && n.note_id@ == note_name@ && lookup(
                self@,
                chat_id,
                note_name@,
            ) == Some(n.note_content@),
            r is Err ==> lookup(self@, chat_id, note_name@) is None,
    {
        match self.find(chat_id, note_name) {
            Some(i) => {
                let n = &self.notes[i];
                Ok(
                    Note {
                        chat_id: n.chat_id,
                        note_id: n.note_id.clone(),
                        note_content: n.note_content.clone(),
                    },
                )
            },
            None => Err(NotFound),
        }
    }

    /// Removes the note `note_name` of the conversation `chat_id`; removing one that
    /// is not there is an error and changes nothing.
    pub fn delete(&mut self, chat_id: i64, note_name: &str) -> (r: Result<(), NotFound>)
        requires
            old(self).wf(),
        ensures
            final(self).wf(),
            r is Ok <==> old(self)@.contains_key((chat_id, note_name@)),
            final(self)@ == deleted(old(self)@, chat_id, note_name@),
            final(self).spec_revision() == if r is Ok {
                next_revision(old(self).spec_revision())
            } else {
                old(self).spec_revision()
            },
    {
        match self.find(chat_id, note_name) {
            Some(i) => {
                let ghost key = (chat_id, note_name@);
                let ghost before = self.notes@;
                self.revision = if self.revision == u64::MAX {
                    0
                } else {
                    self.revision + 1
                };
                let ghost old_contents = self.contents@;
                self.notes.remove(i);
                self.contents = Ghost(old_contents.remove(key));
                assert forall|k: NoteKey| #[trigger] self.contents@.contains_key(k) implies exists|j: int|
                    0 <= j < self.notes@.len() && key_of(#[trigger] self.notes@[j]) == k by {
                    let j = choose|j: int| 0 <= j < before.len() && key_of(#[trigger] before[j]) == k;
                    if j < i {
                        assert(key_of(self.notes@[j]) == k);
                    } else {
                        assert(key_of(self.notes@[j - 1]) == k);
                    }
                }
                assert forall|a: int, b: int| 0 <= a < b < self.notes@.len() implies key_of(
                    #[trigger] self.notes@[a],
                ) != key_of(#[trigger] self.notes@[b]) by {
                    let a2 = if a < i { a } else { a + 1 };
                    let b2 = if b < i { b } else { b + 1 };
                    assert(self.notes@[a] == before[a2]);
                    assert(self.notes@[b] == before[b2]);
                }
                Ok(())
            },
            None => {
                assert(self@ =~= deleted(self@, chat_id, note_name@));
                Err(NotFound)
            },
        }
    }

    /// The names of the notes of the conversation `chat_id`, in the order in which
    /// they were first saved.
    pub fn list_names(&self, chat_id: i64) -> (r: Vec<String>)
        requires
            self.wf(),
        ensures
            string_views(r@) == self.names(chat_id),
            forall|x: Seq<char>|
                string_views(r@).contains(x) <==> #[trigger] self@.contains_key((chat_id, x)),
            string_views(r@).no_duplicates(),
    {
        let mut out: Vec<String> = Vec::new();
        let mut i: usize = 0;
        while i < self.notes.len()
            invariant
                i <= self.notes@.len(),
                string_views(out@) == names_in(self.notes@.subrange(0, i as int), chat_id),
            decreases self.notes@.len() - i,
        {
            let ghost pre = self.notes@.subrange(0, i as int);
            let ghost next = self.notes@.subrange(0, i + 1);
            assert(next.drop_last() =~= pre);
            if self.notes[i].chat_id == chat_id {
                let ghost before = out@;
                out.push(self.notes[i].note_id.clone());
                assert(out@.drop_last() =~= before);
                assert(string_views(out@) =~= string_views(before).push(out@.last()@));
            }
            i = i + 1;
        }
        assert(self.notes@.subrange(0, self.notes@.len() as int) =~= self.notes@);
        proof {
            lemma_names_unique(self.notes@, chat_id);
            assert forall|x: Seq<char>|
                string_views(out@).contains(x) <==> #[trigger] self@.contains_key((chat_id, x)) by {
                lemma_names_in_contains(self.notes@, chat_id, x);
                if self@.contains_key((chat_id, x)) {
                    let i = choose|i: int|
                        0 <= i < self.notes@.len() && key_of(#[trigger] self.notes@[i]) == (
                            chat_id,
                            x,
                        );
                }
                if exists|i: int|
                    0 <= i < self.notes@.len() && key_of(#[trigger] self.notes@[i]) == (chat_id, x) {
                    let i = choose|i: int|
                        0 <= i < self.notes@.len() && key_of(#[trigger] self.notes@[i]) == (
                            chat_id,
                            x,
                        );
                    assert(self.contents@.contains_key(key_of(self.notes@[i])));
                }
            }
        }
        out
    }
}

} // verus!
