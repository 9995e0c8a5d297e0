//! The store: notebooks, tags, notes, the note-tag links and the history of
//! notes, each a table whose rows keep increasing, never reused ids.

use vstd::prelude::*;

use crate::keysort::{KeyEntry, sort_by_key, sort_entries};
use crate::model::{Note, NoteHistory, NoteRow, NoteTag, Notebook, Tag, TagView, NoteView, tags_view, tag_ids};

verus! {

/// The ids of a table are positive, below the next id to hand out, strictly
/// increasing along the table, and fewer than the next id.
pub open spec fn ids_ok(ids: Seq<i64>, next: i64) -> bool {
    &&& forall|i: int, j: int| 0 <= i < j < ids.len() ==> ids[i] < ids[j]
    &&& forall|i: int| 0 <= i < ids.len() ==> 0 < #[trigger] ids[i] < next
    &&& ids.len() < next
}

pub proof fn lemma_ids_unique(ids: Seq<i64>, next: i64, i: int, j: int)
    requires
        ids_ok(ids, next),
        0 <= i < ids.len(),
        0 <= j < ids.len(),
        ids[i] == ids[j],
    ensures
        i == j,
{
    if i < j {
        assert(ids[i] < ids[j]);
    } else if j < i {
        assert(ids[j] < ids[i]);
    }
}

pub open spec fn notebook_ids(s: Seq<Notebook>) -> Seq<i64> {
    s.map_values(|n: Notebook| n.id)
}

pub open spec fn note_ids(s: Seq<NoteRow>) -> Seq<i64> {
    s.map_values(|n: NoteRow| n.id)
}

pub open spec fn link_ids(s: Seq<NoteTag>) -> Seq<i64> {
    s.map_values(|n: NoteTag| n.id)
}

pub open spec fn history_ids(s: Seq<NoteHistory>) -> Seq<i64> {
    s.map_values(|n: NoteHistory| n.id)
}

/// The notebook a snapshot refers to: its id and name when a notebook with
/// this id exists, else 0 and the empty name.
pub open spec fn notebook_ref(nbs: Seq<Notebook>, id: i64) -> (i64, Seq<char>) {
    if exists|i: int| 0 <= i < nbs.len() && nbs[i].id == id {
        let i = choose|i: int| 0 <= i < nbs.len() && nbs[i].id == id;
        (id, nbs[i].name@)
    } else {
        (0, Seq::empty())
    }
}

/// The tag with this id, if the table holds one.
pub open spec fn tag_with_id(tags: Seq<Tag>, id: i64) -> Option<TagView> {
    if exists|i: int| 0 <= i < tags.len() && tags[i].id == id {
        let i = choose|i: int| 0 <= i < tags.len() && tags[i].id == id;
        Some(tags[i]@)
    } else {
        None
    }
}

/// The tags that the links point to, in the links' order; a link to a tag
/// that no longer exists is skipped.
pub open spec fn resolve_tags(tags: Seq<Tag>, links: Seq<NoteTag>) -> Seq<TagView>
    decreases links.len(),
{
    if links.len() == 0 {
        Seq::empty()
    } else {
        let rest = resolve_tags(tags, links.drop_last());
        match tag_with_id(tags, links.last().tag_id) {
            Some(t) => rest.push(t),
            None => rest,
        }
    }
}

/// The links of one note, in table order.
pub open spec fn links_of(links: Seq<NoteTag>, note_id: i64) -> Seq<NoteTag>
    decreases links.len(),
{
    if links.len() == 0 {
        Seq::empty()
    } else {
        let rest = links_of(links.drop_last(), note_id);
        if links.last().note_id == note_id {
            rest.push(links.last())
        } else {
            rest
        }
    }
}

/// Sort entries for links: by sort order, then by link id.
pub open spec fn link_entries(ls: Seq<NoteTag>) -> Seq<KeyEntry> {
    Seq::new(ls.len(), |i: int| (ls[i].sort_order as i64, ls[i].id, i as usize))
}

/// The links in ascending sort order, ties broken by ascending link id.
pub open spec fn ordered_links(ls: Seq<NoteTag>) -> Seq<NoteTag> {
    sort_entries(link_entries(ls)).map_values(|e: KeyEntry| ls[e.2 as int])
}

/// Every entry's position is below `n`.
pub open spec fn positions_below(s: Seq<KeyEntry>, n: int) -> bool {
    forall|k: int| 0 <= k < s.len() ==> (#[trigger] s[k]).2 < n
}

proof fn lemma_sort_positions(s: Seq<KeyEntry>, n: int)
    requires
        positions_below(s, n),
    ensures
        positions_below(sort_entries(s), n),
        sort_entries(s).len() == s.len(),
{
    crate::keysort::lemma_sort_keeps(s, |e: KeyEntry| e.2 < n);
}

/// Tells whether a table's ids are in order, positive, below `next` and
/// fewer than `next`.
pub fn check_ids(ids: &Vec<i64>, next: i64) -> (r: bool)
    ensures
        r == ids_ok(ids@, next),
{
    if (ids.len() as u128) >= (next as u128) || next <= 0 {
        return false;
    }
    let mut i: usize = 0;
    while i < ids.len()
        invariant
            i <= ids@.len(),
            ids@.len() < next,
            forall|k: int| 0 <= k < i ==> 0 < #[trigger] ids@[k] < next,
            forall|a: int, b: int| 0 <= a < b < i ==> ids@[a] < ids@[b],
        decreases ids@.len() - i,
    {
        if ids[i] <= 0 || ids[i] >= next {
            return false;
        }
        if i > 0 && ids[i - 1] >= ids[i] {
            return false;
        }
        proof {
            assert forall|a: int, b: int| 0 <= a < b < i + 1 implies ids@[a] < ids@[b] by {
                if b == i && a < i - 1 {
                    assert(ids@[a] < ids@[i - 1]);
                }
            }
        }
        i = i + 1;
    }
    true
}

/// No two links join the same note to the same tag.
pub open spec fn links_unique(s: Seq<NoteTag>) -> bool {
    forall|i: int, j: int|
        0 <= i < j < s.len() && (#[trigger] s[i]).note_id == (#[trigger] s[j]).note_id ==> s[i].tag_id
            != s[j].tag_id
}

/// Tells whether no two links join the same note to the same tag.
pub fn check_links_unique(links: &Vec<NoteTag>) -> (r: bool)
    ensures
        r == links_unique(links@),
{
    let mut j: usize = 0;
    while j < links.len()
        invariant
            j <= links@.len(),
            forall|a: int, b: int|
                0 <= a < b < j && (#[trigger] links@[a]).note_id == (#[trigger] links@[b]).note_id
                    ==> links@[a].tag_id != links@[b].tag_id,
        decreases links@.len() - j,
    {
        let mut i: usize = 0;
        while i < j
            invariant
                j < links@.len(),
                i <= j,
                forall|a: int, b: int|
                    0 <= a < b < j && (#[trigger] links@[a]).note_id == (#[trigger] links@[b]).note_id
                        ==> links@[a].tag_id != links@[b].tag_id,
                forall|a: int|
                    0 <= a < i && (#[trigger] links@[a]).note_id == links@[j as int].note_id
                        ==> links@[a].tag_id != links@[j as int].tag_id,
            decreases j - i,
        {
            if links[i].note_id == links[j].note_id && links[i].tag_id == links[j].tag_id {
                return false;
            }
            i = i + 1;
        }
        j = j + 1;
    }
    true
}

/// The rows of the whole store.
#[derive(Debug)]
pub struct NoteStore {
    pub notebooks: Vec<Notebook>,
    pub tags: Vec<Tag>,
    pub notes: Vec<NoteRow>,
    pub note_tags: Vec<NoteTag>,
    pub histories: Vec<NoteHistory>,
    pub next_notebook_id: i64,
    pub next_tag_id: i64,
    pub next_note_id: i64,
    pub next_note_tag_id: i64,
    pub next_history_id: i64,
}

impl NoteStore {
    /// Every table's ids are in order and below the table's next id, every
    /// link belongs to a note id that has been handed out, and no two links
    /// join the same note and tag.
    pub open spec fn wf(&self) -> bool {
        &&& ids_ok(notebook_ids(self.notebooks@), self.next_notebook_id)
        &&& ids_ok(tag_ids(self.tags@), self.next_tag_id)
        &&& ids_ok(note_ids(self.notes@), self.next_note_id)
        &&& ids_ok(link_ids(self.note_tags@), self.next_note_tag_id)
        &&& ids_ok(history_ids(self.histories@), self.next_history_id)
        &&& forall|i: int|
            0 <= i < self.note_tags@.len() ==> #[trigger] self.note_tags@[i].note_id
                < self.next_note_id
        &&& links_unique(self.note_tags@)
    }

    /// Ids are left to create one more row in every table, `links` of them
    /// links.
    pub open spec fn has_room(&self, links: int) -> bool {
        &&& self.next_notebook_id < i64::MAX
        &&& self.next_tag_id < i64::MAX
        &&& self.next_note_id < i64::MAX
        &&& self.next_history_id < i64::MAX
        &&& self.next_note_tag_id + links < i64::MAX
    }

    /// The tags of a note as a read shows them: its links in ascending sort
    /// order (ties by link id), each resolved to its tag.
    pub open spec fn tags_of(&self, note_id: i64) -> Seq<TagView> {
        resolve_tags(self.tags@, ordered_links(links_of(self.note_tags@, note_id)))
    }

    /// A stored note row as a read shows it.
    pub open spec fn note_view(&self, row: NoteRow) -> NoteView {
        NoteView {
            id: row.id,
            notebook_id: row.notebook_id,
            notebook_name: notebook_ref(self.notebooks@, row.notebook_id).1,
            title: row.title@,
            content: row.content@,
            content_type: row.content_type,
            create_time: Some(row.create_time),
            update_time: Some(row.update_time),
            tags: self.tags_of(row.id),
        }
    }

    /// Some note is stored under this id.
    pub open spec fn has_note(&self, id: i64) -> bool {
        exists|i: int| 0 <= i < self.notes@.len() && self.notes@[i].id == id
    }

    /// The note stored under this id, as a read shows it.
    pub open spec fn note_spec(&self, id: i64) -> Option<NoteView> {
        if self.has_note(id) {
            let i = choose|i: int| 0 <= i < self.notes@.len() && self.notes@[i].id == id;
            Some(self.note_view(self.notes@[i]))
        } else {
            None
        }
    }

    /// An empty store.
    pub fn new() -> (r: NoteStore)
        ensures
            r.wf(),
            r.notebooks@.len() == 0,
            r.tags@.len() == 0,
            r.notes@.len() == 0,
            r.note_tags@.len() == 0,
            r.histories@.len() == 0,
            r.has_room(0),
    {
        NoteStore {
            notebooks: Vec::new(),
            tags: Vec::new(),
            notes: Vec::new(),
            note_tags: Vec::new(),
            histories: Vec::new(),
            next_notebook_id: 1,
            next_tag_id: 1,
            next_note_id: 1,
            next_note_tag_id: 1,
            next_history_id: 1,
        }
    }

    /// Tells whether the store is well formed: the check to make on rows
    /// that come from outside, before any operation runs on them.
    pub fn is_well_formed(&self) -> (r: bool)
        ensures
            r == self.wf(),
    {
        let mut ids: Vec<i64> = Vec::new();
        let mut i: usize = 0;
        while i < self.notebooks.len()
            invariant
                i <= self.notebooks@.len(),
                ids@ =~= notebook_ids(self.notebooks@).take(i as int),
            decreases self.notebooks@.len() - i,
        {
            ids.push(self.notebooks[i].id);
            i = i + 1;
        }
        proof {
            assert(ids@ =~= notebook_ids(self.notebooks@));
        }
        if !check_ids(&ids, self.next_notebook_id) {
            return false;
        }
        let mut ids: Vec<i64> = Vec::new();
        let mut i: usize = 0;
        while i < self.tags.len()
            invariant
                i <= self.tags@.len(),
                ids@ =~= tag_ids(self.tags@).take(i as int),
            decreases self.tags@.len() - i,
        {
            ids.push(self.tags[i].id);
            i = i + 1;
        }
        proof {
            assert(ids@ =~= tag_ids(self.tags@));
        }
        if !check_ids(&ids, self.next_tag_id) {
            return false;
        }
        let mut ids: Vec<i64> = Vec::new();
        let mut i: usize = 0;
        while i < self.notes.len()
            invariant
                i <= self.notes@.len(),
                ids@ =~= note_ids(self.notes@).take(i as int),
            decreases self.notes@.len() - i,
        {
            ids.push(self.notes[i].id);
            i = i + 1;
        }
        proof {
            assert(ids@ =~= note_ids(self.notes@));
        }
        if !check_ids(&ids, self.next_note_id) {
            return false;
        }
        let mut ids: Vec<i64> = Vec::new();
        let mut i: usize = 0;
        while i < self.note_tags.len()
            invariant
                i <= self.note_tags@.len(),
                ids@ =~= link_ids(self.note_tags@).take(i as int),
                forall|k: int| 0 <= k < i ==> #[trigger] self.note_tags@[k].note_id < self.next_note_id,
            decreases self.note_tags@.len() - i,
        {
            if self.note_tags[i].note_id >= self.next_note_id {
                return false;
            }
            ids.push(self.note_tags[i].id);
            i = i + 1;
        }
        proof {
            assert(ids@ =~= link_ids(self.note_tags@));
        }
        if !check_ids(&ids, self.next_note_tag_id) || !check_links_unique(&self.note_tags) {
            return false;
        }
        let mut ids: Vec<i64> = Vec::new();
        let mut i: usize = 0;
        while i < self.histories.len()
            invariant
                i <= self.histories@.len(),
                ids@ =~= history_ids(self.histories@).take(i as int),
            decreases self.histories@.len() - i,
        {
            ids.push(self.histories[i].id);
            i = i + 1;
        }
        proof {
            assert(ids@ =~= history_ids(self.histories@));
        }
        check_ids(&ids, self.next_history_id)
    }

    /// Tells whether ids are left for one more row in every table, `links`
    /// of them links.
    pub fn has_room_for(&self, links: usize) -> (r: bool)
        ensures
            r == self.has_room(links as int),
    {
        self.next_notebook_id < i64::MAX && self.next_tag_id < i64::MAX && self.next_note_id
            < i64::MAX && self.next_history_id < i64::MAX && (self.next_note_tag_id as i128)
            + (links as i128) < (i64::MAX as i128)
    }

    pub(crate) fn notebook_index(&self, id: i64) -> (r: Option<usize>)
        ensures
            match r {
                Some(i) => i < self.notebooks@.len() && self.notebooks@[i as int].id == id,
                None => forall|i: int|
                    0 <= i < self.notebooks@.len() ==> #[trigger] self.notebooks@[i].id != id,
            },
    {
        let mut i: usize = 0;
        while i < self.notebooks.len()
            invariant
                i <= self.notebooks@.len(),
                forall|k: int| 0 <= k < i ==> #[trigger] self.notebooks@[k].id != id,
            decreases self.notebooks@.len() - i,
        {
            if self.notebooks[i].id == id {
                return Some(i);
            }
            i = i + 1;
        }
        None
    }

    pub(crate) fn tag_index(&self, id: i64) -> (r: Option<usize>)
        ensures
            match r {
                Some(i) => i < self.tags@.len() && self.tags@[i as int].id == id,
                None => forall|i: int|
                    0 <= i < self.tags@.len() ==> #[trigger] self.tags@[i].id != id,
            },
    {
        let mut i: usize = 0;
        while i < self.tags.len()
            invariant
                i <= self.tags@.len(),
                forall|k: int| 0 <= k < i ==> #[trigger] self.tags@[k].id != id,
            decreases self.tags@.len() - i,
        {
            if self.tags[i].id == id {
                return Some(i);
            }
            i = i + 1;
        }
        None
    }

    pub(crate) fn note_index(&self, id: i64) -> (r: Option<usize>)
        ensures
            match r {
                Some(i) => i < self.notes@.len() && self.notes@[i as int].id == id,
                None => forall|i: int|
                    0 <= i < self.notes@.len() ==> #[trigger] self.notes@[i].id != id,
            },
    {
        let mut i: usize = 0;
        while i < self.notes.len()
            invariant
                i <= self.notes@.len(),
                forall|k: int| 0 <= k < i ==> #[trigger] self.notes@[k].id != id,
            decreases self.notes@.len() - i,
        {
            if self.notes[i].id == id {
                return Some(i);
            }
            i = i + 1;
        }
        None
    }

    /// The id and name of the notebook with this id; 0 and the empty name
    /// when there is none.
    pub(crate) fn notebook_ref_of(&self, id: i64) -> (r: (i64, String))
        requires
            self.wf(),
        ensures
            r.0 == notebook_ref(self.notebooks@, id).0,
            r.1@ == notebook_ref(self.notebooks@, id).1,
    {
        match self.notebook_index(id) {
            Some(i) => {
                proof {
                    let j = choose|j: int|
                        0 <= j < self.notebooks@.len() && self.notebooks@[j].id == id;
                    lemma_ids_unique(
                        notebook_ids(self.notebooks@),
                        self.next_notebook_id,
                        i as int,
                        j,
                    );
                }
                (id, self.notebooks[i].name.clone())
            },
            None => (0, String::new()),
        }
    }

    /// The links of one note, in table order.
    pub(crate) fn links_for(&self, note_id: i64) -> (r: Vec<NoteTag>)
        ensures
            r@ == links_of(self.note_tags@, note_id),
    {
        let mut r: Vec<NoteTag> = Vec::new();
        let mut i: usize = 0;
        while i < self.note_tags.len()
            invariant
                i <= self.note_tags@.len(),
                r@ == links_of(self.note_tags@.take(i as int), note_id),
            decreases self.note_tags@.len() - i,
        {
            proof {
                assert(self.note_tags@.take(i + 1).drop_last() =~= self.note_tags@.take(i as int));
            }
            if self.note_tags[i].note_id == note_id {
                r.push(self.note_tags[i]);
            }
            i = i + 1;
        }
        proof {
            assert(self.note_tags@.take(i as int) =~= self.note_tags@);
        }
        r
    }

    /// The tags that the links point to, in the links' order.
    fn resolve(&self, links: &Vec<NoteTag>) -> (r: Vec<Tag>)
        requires
            self.wf(),
        ensures
            tags_view(r@) == resolve_tags(self.tags@, links@),
    {
        let mut r: Vec<Tag> = Vec::new();
        let mut i: usize = 0;
        while i < links.len()
            invariant
                self.wf(),
                i <= links@.len(),
                tags_view(r@) == resolve_tags(self.tags@, links@.take(i as int)),
            decreases links@.len() - i,
        {
            proof {
                assert(links@.take(i + 1).drop_last() =~= links@.take(i as int));
            }
            let ghost before = r@;
            match self.tag_index(links[i].tag_id) {
                Some(k) => {
                    proof {
                        let id = links@[i as int].tag_id;
                        let j = choose|j: int| 0 <= j < self.tags@.len() && self.tags@[j].id == id;
                        lemma_ids_unique(tag_ids(self.tags@), self.next_tag_id, k as int, j);
                    }
                    r.push(self.tags[k].clone());
                    proof {
                        assert(tags_view(r@) =~= tags_view(before).push(self.tags@[k as int]@));
                    }
                },
                None => {},
            }
            i = i + 1;
        }
        proof {
            assert(links@.take(i as int) =~= links@);
        }
        r
    }

    /// The links in ascending sort order, ties by link id.
    fn order_links(ls: &Vec<NoteTag>) -> (r: Vec<NoteTag>)
        ensures
            r@ == ordered_links(ls@),
    {
        let mut entries: Vec<KeyEntry> = Vec::new();
        let mut i: usize = 0;
        while i < ls.len()
            invariant
                i <= ls@.len(),
                entries@ =~= link_entries(ls@).take(i as int),
            decreases ls@.len() - i,
        {
            entries.push((ls[i].sort_order as i64, ls[i].id, i));
            i = i + 1;
        }
        proof {
            assert(entries@ =~= link_entries(ls@));
            lemma_sort_positions(entries@, ls@.len() as int);
        }
        let sorted = sort_by_key(&entries);
        let mut r: Vec<NoteTag> = Vec::new();
        let mut k: usize = 0;
        while k < sorted.len()
            invariant
                k <= sorted@.len(),
                sorted@ == sort_entries(link_entries(ls@)),
                positions_below(sorted@, ls@.len() as int),
                r@ =~= sorted@.take(k as int).map_values(|e: KeyEntry| ls@[e.2 as int]),
            decreases sorted@.len() - k,
        {
            let p = sorted[k].2;
            r.push(ls[p]);
            k = k + 1;
        }
        proof {
            assert(sorted@.take(k as int) =~= sorted@);
        }
        r
    }

    /// The tags of a note as a read shows them.
    pub(crate) fn tags_for(&self, note_id: i64) -> (r: Vec<Tag>)
        requires
            self.wf(),
        ensures
            tags_view(r@) == self.tags_of(note_id),
    {
        let links = self.links_for(note_id);
        let ordered = Self::order_links(&links);
        self.resolve(&ordered)
    }

    /// The note stored at position `i`, as a read shows it.
    pub(crate) fn note_at(&self, i: usize) -> (r: Note)
        requires
            self.wf(),
            i < self.notes@.len(),
        ensures
            r@ == self.note_view(self.notes@[i as int]),
    {
        let row = &self.notes[i];
        let (_, name) = self.notebook_ref_of(row.notebook_id);
        Note {
            id: row.id,
            notebook_id: row.notebook_id,
            notebook_name: name,
            title: row.title.clone(),
            content: row.content.clone(),
            content_type: row.content_type,
            create_time: Some(row.create_time),
            update_time: Some(row.update_time),
            tags: self.tags_for(row.id),
        }
    }

    /// The note with this id, with its notebook's name and its tags; `None`
    /// when no note has this id.
    pub fn find_by_id(&self, id: i64) -> (r: Option<Note>)
        requires
            self.wf(),
        ensures
            match r {
                Some(n) => self.note_spec(id) == Some(n@),
                None => self.note_spec(id) is None,
            },
    {
        match self.note_index(id) {
            Some(i) => {
                proof {
                    let j = choose|j: int| 0 <= j < self.notes@.len() && self.notes@[j].id == id;
                    lemma_ids_unique(note_ids(self.notes@), self.next_note_id, i as int, j);
                }
                Some(self.note_at(i))
            },
            None => None,
        }
    }

    /// The number of stored notes.
    pub fn total_count(&self) -> (r: i64)
        requires
            self.wf(),
        ensures
            r == self.notes@.len(),
    {
        self.notes.len() as i64
    }
}

} // verus!
