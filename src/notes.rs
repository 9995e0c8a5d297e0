//! Creating, updating and deleting notes. Each mutation keeps the note row,
//! its tag links and the history log consistent, and is applied whole or not
//! at all.

use vstd::prelude::*;

use crate::error::AppError;
use crate::model::{
    Note, NoteHistory, NoteHistoryExtra, NoteHistoryExtraView, NoteHistoryView, NoteRow,
    NoteRowView, NoteTag, NoteView, Tag, OPERATE_CREATE, OPERATE_DELETE, OPERATE_UPDATE, clone_tags,
    tag_ids,
};
use crate::store::{NoteStore, links_of, links_unique, notebook_ref, note_ids, link_ids, history_ids, notebook_ids, ids_ok};

verus! {

/// The links that a new note gets for its tags: one per tag, in the tags'
/// order, with consecutive ids from `first_id`.
pub open spec fn new_links(note_id: i64, tags: Seq<Tag>, first_id: i64, now: i64) -> Seq<NoteTag> {
    Seq::new(
        tags.len(),
        |i: int|
            NoteTag {
                id: (first_id + i) as i64,
                note_id,
                tag_id: tags[i].id,
                sort_order: tags[i].sort_order,
                create_time: now,
                update_time: now,
            },
    )
}

/// The history row for the creation of `note` under `id`.
pub open spec fn create_history(pre: NoteStore, id: i64, note: NoteView, now: i64) -> NoteHistoryView {
    NoteHistoryView {
        id: pre.next_history_id,
        note_id: id,
        old_content: Seq::empty(),
        new_content: note.content,
        extra: NoteHistoryExtraView {
            notebook_id: notebook_ref(pre.notebooks@, note.notebook_id).0,
            notebook_name: notebook_ref(pre.notebooks@, note.notebook_id).1,
            content_type: note.content_type,
            title: note.title,
            tags: note.tags,
        },
        operate_type: OPERATE_CREATE,
        operate_time: now,
        create_time: now,
    }
}

/// `post` is `pre` after `note` was created at `now`: one note row under the
/// next note id, one link per tag, one history row.
pub open spec fn note_created(pre: NoteStore, post: NoteStore, note: Note, now: i64) -> bool {
    let id = pre.next_note_id;
    &&& post.notebooks == pre.notebooks
    &&& post.tags == pre.tags
    &&& post.notes@.len() == pre.notes@.len() + 1
    &&& post.notes@.drop_last() == pre.notes@
    &&& post.notes@.last()@ == (NoteRowView {
        id,
        notebook_id: note.notebook_id,
        title: note.title@,
        content: note.content@,
        content_type: note.content_type,
        create_time: now,
        update_time: now,
    })
    &&& post.note_tags@ == pre.note_tags@ + new_links(id, note.tags@, pre.next_note_tag_id, now)
    &&& post.histories@.len() == pre.histories@.len() + 1
    &&& post.histories@.drop_last() == pre.histories@
    &&& post.histories@.last()@ == create_history(pre, id, note@, now)
    &&& post.next_notebook_id == pre.next_notebook_id
    &&& post.next_tag_id == pre.next_tag_id
    &&& post.next_note_id == id + 1
    &&& post.next_note_tag_id == pre.next_note_tag_id + note.tags@.len()
    &&& post.next_history_id == pre.next_history_id + 1
}

/// The links left after removing those of `note_id` whose tag is not in
/// `keep`; the other links keep their order.
pub open spec fn retain_links(links: Seq<NoteTag>, note_id: i64, keep: Set<i64>) -> Seq<NoteTag>
    decreases links.len(),
{
    if links.len() == 0 {
        Seq::empty()
    } else {
        let rest = retain_links(links.drop_last(), note_id, keep);
        let l = links.last();
        if l.note_id == note_id && !keep.contains(l.tag_id) {
            rest
        } else {
            rest.push(l)
        }
    }
}

/// The history row for the deletion of the note stored at position `i`:
/// its content, and a snapshot of the note as it was.
pub open spec fn delete_history(pre: NoteStore, i: int, now: i64) -> NoteHistoryView {
    let row = pre.notes@[i];
    NoteHistoryView {
        id: pre.next_history_id,
        note_id: row.id,
        old_content: row.content@,
        new_content: Seq::empty(),
        extra: NoteHistoryExtraView {
            notebook_id: notebook_ref(pre.notebooks@, row.notebook_id).0,
            notebook_name: notebook_ref(pre.notebooks@, row.notebook_id).1,
            content_type: row.content_type,
            title: row.title@,
            tags: pre.tags_of(row.id),
        },
        operate_type: OPERATE_DELETE,
        operate_time: now,
        create_time: now,
    }
}

/// The position of the note with this id.
pub open spec fn note_pos(s: NoteStore, id: i64) -> int {
    choose|i: int| 0 <= i < s.notes@.len() && s.notes@[i].id == id
}

/// `post` is `pre` after the note `id` was deleted at `now`: when it
/// existed, a history row that records it, and the note row and its links
/// gone; else nothing changed.
pub open spec fn note_deleted(pre: NoteStore, post: NoteStore, id: i64, now: i64) -> bool {
    if pre.has_note(id) {
        let i = note_pos(pre, id);
        &&& post.notebooks == pre.notebooks
        &&& post.tags == pre.tags
        &&& post.notes@ == pre.notes@.remove(i)
        &&& post.note_tags@ == retain_links(pre.note_tags@, id, Set::empty())
        &&& post.histories@.len() == pre.histories@.len() + 1
        &&& post.histories@.drop_last() == pre.histories@
        &&& post.histories@.last()@ == delete_history(pre, i, now)
        &&& post.next_notebook_id == pre.next_notebook_id
        &&& post.next_tag_id == pre.next_tag_id
        &&& post.next_note_id == pre.next_note_id
        &&& post.next_note_tag_id == pre.next_note_tag_id
        &&& post.next_history_id == pre.next_history_id + 1
    } else {
        post == pre
    }
}

/// Tells whether `x` is in `v`.
pub fn contains_id(v: &Vec<i64>, x: i64) -> (r: bool)
    ensures
        r == v@.contains(x),
{
    let mut i: usize = 0;
    while i < v.len()
        invariant
            i <= v@.len(),
            forall|k: int| 0 <= k < i ==> v@[k] != x,
        decreases v@.len() - i,
    {
        if v[i] == x {
            return true;
        }
        i = i + 1;
    }
    false
}

/// The links kept by `retain_links`, with the table's order of ids intact.
fn retain_links_of(links: &Vec<NoteTag>, note_id: i64, keep: &Vec<i64>, next: i64, next_note: i64) -> (r: Vec<NoteTag>)
    requires
        ids_ok(link_ids(links@), next),
        forall|k: int| 0 <= k < links@.len() ==> #[trigger] links@[k].note_id < next_note,
        links_unique(links@),
    ensures
        r@ == retain_links(links@, note_id, keep@.to_set()),
        ids_ok(link_ids(r@), next),
        forall|k: int| 0 <= k < r@.len() ==> #[trigger] r@[k].note_id < next_note,
        links_unique(r@),
        forall|a: int| 0 <= a < r@.len() ==> links@.contains(#[trigger] r@[a]),
{
    let mut r: Vec<NoteTag> = Vec::new();
    let mut i: usize = 0;
    while i < links.len()
        invariant
            i <= links@.len(),
            ids_ok(link_ids(links@), next),
            forall|k: int| 0 <= k < links@.len() ==> #[trigger] links@[k].note_id < next_note,
            r@ == retain_links(links@.take(i as int), note_id, keep@.to_set()),
            r@.len() <= i,
            forall|a: int, b: int| 0 <= a < b < r@.len() ==> r@[a].id < r@[b].id,
            forall|a: int| 0 <= a < r@.len() ==> 0 < #[trigger] r@[a].id < next,
            forall|a: int, k: int| 0 <= a < r@.len() && i <= k < links@.len() ==> r@[a].id < links@[k].id,
            forall|k: int| 0 <= k < r@.len() ==> #[trigger] r@[k].note_id < next_note,
            links_unique(links@),
            links_unique(r@),
            forall|a: int| 0 <= a < r@.len() ==> links@.contains(#[trigger] r@[a]),
            forall|a: int, k: int| 0 <= a < r@.len() && i <= k < links@.len() && (#[trigger] r@[a]).note_id
                == (#[trigger] links@[k]).note_id ==> r@[a].tag_id != links@[k].tag_id,
        decreases links@.len() - i,
    {
        proof {
            assert(links@.take(i + 1).drop_last() =~= links@.take(i as int));
        }
        let l = links[i];
        let ghost before = r@;
        proof {
            assert(link_ids(links@)[i as int] == l.id);
            assert forall|k: int| i < k < links@.len() implies l.id < links@[k].id by {
                assert(link_ids(links@)[k] == links@[k].id);
            }
        }
        if l.note_id == note_id && !contains_id(keep, l.tag_id) {
        } else {
            r.push(l);
            proof {
                assert(links@[i as int] == l);
                assert forall|a: int| 0 <= a < r@.len() implies links@.contains(#[trigger] r@[a]) by {
                    if a < before.len() {
                        assert(r@[a] == before[a]);
                    }
                }
                assert forall|a: int, b: int| 0 <= a < b < r@.len() && (#[trigger] r@[a]).note_id
                    == (#[trigger] r@[b]).note_id implies r@[a].tag_id != r@[b].tag_id by {
                    if b < before.len() {
                        assert(r@[a] == before[a] && r@[b] == before[b]);
                    } else {
                        assert(r@[a] == before[a]);
                        assert(links@[i as int] == r@[b]);
                    }
                }
                assert forall|a: int, k: int| 0 <= a < r@.len() && i + 1 <= k < links@.len() && (#[trigger] r@[a]).note_id
                    == (#[trigger] links@[k]).note_id implies r@[a].tag_id != links@[k].tag_id by {
                    if a < before.len() {
                        assert(r@[a] == before[a]);
                    } else {
                        assert(r@[a] == links@[i as int]);
                    }
                }
            }
        }
        i = i + 1;
    }
    proof {
        assert(links@.take(i as int) =~= links@);
        assert(ids_ok(link_ids(r@), next)) by {
            assert forall|a: int| 0 <= a < link_ids(r@).len() implies 0 < #[trigger] link_ids(r@)[a] < next by {
                assert(link_ids(r@)[a] == r@[a].id);
            }
            assert forall|a: int, b: int| 0 <= a < b < link_ids(r@).len() implies link_ids(r@)[a] < link_ids(r@)[b] by {
                assert(link_ids(r@)[a] == r@[a].id);
                assert(link_ids(r@)[b] == r@[b].id);
            }
        }
    }
    r
}

/// The tags that get a new link: those whose ids are not in `ids`, each id
/// at its first occurrence, in order.
pub open spec fn tags_to_link(tags: Seq<Tag>, ids: Set<i64>) -> Seq<Tag>
    decreases tags.len(),
{
    if tags.len() == 0 {
        Seq::empty()
    } else {
        let rest = tags_to_link(tags.drop_last(), ids);
        let id = tags.last().id;
        if ids.contains(id) || tag_ids(tags.drop_last()).contains(id) {
            rest
        } else {
            rest.push(tags.last())
        }
    }
}

/// The ids of the tags linked to note `id`.
pub open spec fn linked_tag_ids(s: NoteStore, id: i64) -> Set<i64> {
    links_of(s.note_tags@, id).map_values(|l: NoteTag| l.tag_id).to_set()
}

/// The stored row differs from the incoming note in a field that an update
/// writes: notebook, title, content or content type.
pub open spec fn row_changed(row: NoteRow, note: Note) -> bool {
    row.notebook_id != note.notebook_id || row.title@ != note.title@ || row.content@
        != note.content@ || row.content_type != note.content_type
}

/// The history row for an update of the note stored at position `i`: the
/// content before and after, and a snapshot of the note as it was before.
pub open spec fn update_history(pre: NoteStore, i: int, note: Note, now: i64) -> NoteHistoryView {
    let row = pre.notes@[i];
    NoteHistoryView {
        id: pre.next_history_id,
        note_id: row.id,
        old_content: row.content@,
        new_content: note.content@,
        extra: NoteHistoryExtraView {
            notebook_id: notebook_ref(pre.notebooks@, row.notebook_id).0,
            notebook_name: notebook_ref(pre.notebooks@, row.notebook_id).1,
            content_type: row.content_type,
            title: row.title@,
            tags: pre.tags_of(row.id),
        },
        operate_type: OPERATE_UPDATE,
        operate_time: now,
        create_time: now,
    }
}

/// `post` is `pre` after the update of `note` at `now`, where the note
/// exists: each written field that differs takes the new value and then the
/// update time is `now`; links to tags that are no longer wanted go, links to
/// newly wanted tags come (links of kept tags stay as they were); and when
/// anything changed, one history row records it.
pub open spec fn note_updated(pre: NoteStore, post: NoteStore, note: Note, now: i64) -> bool {
    let i = note_pos(pre, note.id);
    let row = pre.notes@[i];
    let changed = row_changed(row, note);
    let old_ids = linked_tag_ids(pre, note.id);
    let new_ids = tag_ids(note.tags@).to_set();
    let added = tags_to_link(note.tags@, old_ids);
    &&& post.notebooks == pre.notebooks
    &&& post.tags == pre.tags
    &&& post.notes@.len() == pre.notes@.len()
    &&& forall|k: int| 0 <= k < pre.notes@.len() && k != i ==> post.notes@[k] == pre.notes@[k]
    &&& post.notes@[i]@ == if changed {
        NoteRowView {
            id: row.id,
            notebook_id: note.notebook_id,
            title: note.title@,
            content: note.content@,
            content_type: note.content_type,
            create_time: row.create_time,
            update_time: now,
        }
    } else {
        row@
    }
    &&& post.note_tags@ == retain_links(pre.note_tags@, note.id, new_ids) + new_links(
        note.id,
        added,
        pre.next_note_tag_id,
        now,
    )
    &&& post.next_note_tag_id == pre.next_note_tag_id + added.len()
    &&& if changed || old_ids != new_ids {
        &&& post.histories@.len() == pre.histories@.len() + 1
        &&& post.histories@.drop_last() == pre.histories@
        &&& post.histories@.last()@ == update_history(pre, i, note, now)
        &&& post.next_history_id == pre.next_history_id + 1
    } else {
        &&& post.histories == pre.histories
        &&& post.next_history_id == pre.next_history_id
    }
    &&& post.next_notebook_id == pre.next_notebook_id
    &&& post.next_tag_id == pre.next_tag_id
    &&& post.next_note_id == pre.next_note_id
}

/// Tells whether two lists hold the same set of ids.
pub fn same_id_set(a: &Vec<i64>, b: &Vec<i64>) -> (r: bool)
    ensures
        r == (a@.to_set() == b@.to_set()),
{
    let mut i: usize = 0;
    while i < a.len()
        invariant
            i <= a@.len(),
            forall|k: int| 0 <= k < i ==> b@.contains(#[trigger] a@[k]),
        decreases a@.len() - i,
    {
        if !contains_id(b, a[i]) {
            proof {
                assert(a@.to_set().contains(a@[i as int]));
                assert(!b@.to_set().contains(a@[i as int]));
            }
            return false;
        }
        i = i + 1;
    }
    let mut j: usize = 0;
    while j < b.len()
        invariant
            j <= b@.len(),
            forall|k: int| 0 <= k < j ==> a@.contains(#[trigger] b@[k]),
        decreases b@.len() - j,
    {
        if !contains_id(a, b[j]) {
            proof {
                assert(b@.to_set().contains(b@[j as int]));
                assert(!a@.to_set().contains(b@[j as int]));
            }
            return false;
        }
        j = j + 1;
    }
    proof {
        assert forall|x: i64| a@.to_set().contains(x) implies b@.to_set().contains(x) by {
            let k = choose|k: int| 0 <= k < a@.len() && a@[k] == x;
            assert(b@.contains(a@[k]));
        }
        assert forall|x: i64| b@.to_set().contains(x) implies a@.to_set().contains(x) by {
            let k = choose|k: int| 0 <= k < b@.len() && b@[k] == x;
            assert(a@.contains(b@[k]));
        }
        assert(a@.to_set() =~= b@.to_set());
    }
    true
}

/// The tag ids of a list of links.
fn link_tag_ids(links: &Vec<NoteTag>) -> (r: Vec<i64>)
    ensures
        r@ == links@.map_values(|l: NoteTag| l.tag_id),
{
    let mut r: Vec<i64> = Vec::new();
    let mut i: usize = 0;
    while i < links.len()
        invariant
            i <= links@.len(),
            r@ =~= links@.take(i as int).map_values(|l: NoteTag| l.tag_id),
        decreases links@.len() - i,
    {
        r.push(links[i].tag_id);
        i = i + 1;
    }
    proof {
        assert(links@.take(i as int) =~= links@);
    }
    r
}

/// The ids of a list of tags.
fn ids_of_tags(tags: &Vec<Tag>) -> (r: Vec<i64>)
    ensures
        r@ == tag_ids(tags@),
{
    let mut r: Vec<i64> = Vec::new();
    let mut i: usize = 0;
    while i < tags.len()
        invariant
            i <= tags@.len(),
            r@ =~= tag_ids(tags@.take(i as int)),
        decreases tags@.len() - i,
    {
        r.push(tags[i].id);
        i = i + 1;
    }
    proof {
        assert(tags@.take(i as int) =~= tags@);
    }
    r
}

pub proof fn lemma_in_links_of(links: Seq<NoteTag>, id: i64, k: int)
    requires
        0 <= k < links.len(),
        links[k].note_id == id,
    ensures
        links_of(links, id).contains(links[k]),
    decreases links.len(),
{
    let r = links_of(links, id);
    if k == links.len() - 1 {
        assert(r[r.len() - 1] == links[k]);
    } else {
        lemma_in_links_of(links.drop_last(), id, k);
        let d = links_of(links.drop_last(), id);
        let j = choose|j: int| 0 <= j < d.len() && d[j] == links[k];
        assert(r[j] == d[j]);
    }
}

/// Tells whether no two tags share an id.
pub fn distinct_tag_ids(tags: &Vec<Tag>) -> (r: bool)
    ensures
        r == tag_ids(tags@).no_duplicates(),
{
    let mut i: usize = 0;
    while i < tags.len()
        invariant
            i <= tags@.len(),
            forall|a: int, b: int|
                0 <= a < b < tags@.len() && a < i ==> tags@[a].id != tags@[b].id,
        decreases tags@.len() - i,
    {
        let mut j: usize = i + 1;
        while j < tags.len()
            invariant
                i < tags@.len(),
                i + 1 <= j <= tags@.len(),
                forall|a: int, b: int|
                    0 <= a < b < tags@.len() && a < i ==> tags@[a].id != tags@[b].id,
                forall|b: int| i < b < j ==> tags@[i as int].id != #[trigger] tags@[b].id,
            decreases tags@.len() - j,
        {
            if tags[i].id == tags[j].id {
                proof {
                    assert(tag_ids(tags@)[i as int] == tag_ids(tags@)[j as int]);
                }
                return false;
            }
            j = j + 1;
        }
        i = i + 1;
    }
    proof {
        assert forall|a: int, b: int|
            0 <= a < tag_ids(tags@).len() && 0 <= b < tag_ids(tags@).len() && a != b implies
            tag_ids(tags@)[a] != tag_ids(tags@)[b] by {
            if a < b {
                assert(tags@[a].id != tags@[b].id);
            } else {
                assert(tags@[b].id != tags@[a].id);
            }
        }
    }
    true
}

impl NoteStore {
    /// A stored note at position `i` is the one `note_spec` gives for its id.
    proof fn lemma_note_spec_at(&self, i: int)
        requires
            self.wf(),
            0 <= i < self.notes@.len(),
        ensures
            self.note_spec(self.notes@[i].id) == Some(self.note_view(self.notes@[i])),
    {
        let id = self.notes@[i].id;
        assert(note_ids(self.notes@)[i] == id);
        let j = choose|j: int| 0 <= j < self.notes@.len() && self.notes@[j].id == id;
        lemma_ids_unique_notes(self, i, j);
    }

    /// Deletes the note `id` at time `now`: writes a history row with the
    /// note's content and a snapshot of it as it was, then removes the note
    /// row and its links. History rows of the note stay. Deleting a note
    /// that does not exist changes nothing.
    pub fn delete_by_id(&mut self, id: i64, now: i64)
        requires
            old(self).wf(),
            old(self).has_room(0),
        ensures
            final(self).wf(),
            note_deleted(*old(self), *final(self), id, now),
            final(self).note_spec(id) is None,
    {
        let idx = match self.note_index(id) {
            Some(i) => i,
            None => {
                return ;
            },
        };
        let ghost pre = *self;
        proof {
            let j = note_pos(pre, id);
            lemma_ids_unique_notes(self, idx as int, j);
        }
        let (notebook_id, notebook_name) = self.notebook_ref_of(self.notes[idx].notebook_id);
        let tags = self.tags_for(id);
        let history = NoteHistory {
            id: self.next_history_id,
            note_id: id,
            old_content: self.notes[idx].content.clone(),
            new_content: String::new(),
            extra: NoteHistoryExtra {
                notebook_id,
                notebook_name,
                content_type: self.notes[idx].content_type,
                title: self.notes[idx].title.clone(),
                tags,
            },
            operate_type: OPERATE_DELETE,
            operate_time: now,
            create_time: now,
        };
        self.histories.push(history);
        self.next_history_id = self.next_history_id + 1;
        self.notes.remove(idx);
        let keep: Vec<i64> = Vec::new();
        let links = retain_links_of(&self.note_tags, id, &keep, self.next_note_tag_id, self.next_note_id);
        self.note_tags = links;
        proof {
            assert(keep@.to_set() =~= Set::<i64>::empty());
            assert(history_ids(self.histories@) =~= history_ids(pre.histories@).push(history.id));
            assert(self.histories@.drop_last() =~= pre.histories@);
            let ids = note_ids(self.notes@);
            let old_ids = note_ids(pre.notes@);
            assert(ids =~= old_ids.remove(idx as int));
            assert(ids_ok(note_ids(self.notes@), self.next_note_id));
            assert forall|k: int| 0 <= k < self.notes@.len() implies #[trigger] self.notes@[k].id != id by {
                if k < idx {
                    assert(old_ids[k] < old_ids[idx as int]);
                } else {
                    assert(old_ids[k + 1] > old_ids[idx as int]);
                }
            }
        }
    }

    /// Updates a note at time `now`. Each of notebook, title, content and
    /// content type is written only where it differs from the stored value,
    /// and then the update time becomes `now`. The note's links follow the
    /// incoming tags by set difference: links of tags that are no longer
    /// wanted are removed, links of new tags are added, and links of kept
    /// tags stay as they were. When a field or the set of tags changed, one
    /// history row records the content before and after and a snapshot of
    /// the note as it was before. Returns the note as a read now shows it,
    /// or `None` (and changes nothing) when no note has the id. The incoming
    /// tags count as a set: a tag named twice gets one link, with the sort
    /// order of its first occurrence.
    pub fn update(&mut self, note: &Note, now: i64) -> (r: Result<Option<Note>, AppError>)
        requires
            old(self).wf(),
            old(self).has_room(note.tags@.len() as int),
        ensures
            final(self).wf(),
            r is Ok,
            r matches Ok(Some(_)) <==> old(self).has_note(note.id),
            match r {
                Ok(Some(n)) => {
                    &&& note_updated(*old(self), *final(self), *note, now)
                    &&& final(self).note_spec(note.id) == Some(n@)
                },
                _ => *final(self) == *old(self),
            },
    {
        let idx = match self.note_index(note.id) {
            Some(i) => i,
            None => {
                return Ok(None);
            },
        };
        proof {
            let j = note_pos(*self, note.id);
            lemma_ids_unique_notes(self, idx as int, j);
        }
        let ghost pre = *self;
        let old_links = self.links_for(note.id);
        let old_ids = link_tag_ids(&old_links);
        let new_ids = ids_of_tags(&note.tags);
        let old_tags = self.tags_for(note.id);
        let (notebook_id, notebook_name) = self.notebook_ref_of(self.notes[idx].notebook_id);
        let old_title = self.notes[idx].title.clone();
        let old_content = self.notes[idx].content.clone();
        let old_content_type = self.notes[idx].content_type;
        let create_time = self.notes[idx].create_time;
        let changed = self.notes[idx].notebook_id != note.notebook_id || self.notes[idx].title
            != note.title || self.notes[idx].content != note.content
            || self.notes[idx].content_type != note.content_type;
        let tags_changed = !same_id_set(&old_ids, &new_ids);
        if changed {
            self.notes[idx] = NoteRow {
                id: note.id,
                notebook_id: note.notebook_id,
                title: note.title.clone(),
                content: note.content.clone(),
                content_type: note.content_type,
                create_time,
                update_time: now,
            };
            proof {
                assert(note_ids(self.notes@) =~= note_ids(pre.notes@));
            }
        }
        let kept = retain_links_of(
            &self.note_tags,
            note.id,
            &new_ids,
            self.next_note_tag_id,
            self.next_note_id,
        );
        self.note_tags = kept;
        let ghost base = self.note_tags@;
        let ghost old_set = old_ids@.to_set();
        let ghost notes_now = self.notes@;
        proof {
            assert(note_ids(pre.notes@)[idx as int] == note.id);
            assert forall|a: int| 0 <= a < base.len() && (#[trigger] base[a]).note_id == note.id implies old_set.contains(base[a].tag_id) by {
                let k = choose|k: int| 0 <= k < pre.note_tags@.len() && pre.note_tags@[k] == base[a];
                lemma_in_links_of(pre.note_tags@, note.id, k);
                let ls = links_of(pre.note_tags@, note.id);
                let j = choose|j: int| 0 <= j < ls.len() && ls[j] == base[a];
                assert(ls.map_values(|l: NoteTag| l.tag_id)[j] == base[a].tag_id);
            }
        }
        let mut seen: Vec<i64> = Vec::new();
        let mut i: usize = 0;
        while i < note.tags.len()
            invariant
                pre.wf(),
                pre.has_room(note.tags@.len() as int),
                pre.has_note(note.id),
                seen@ == tag_ids(note.tags@.take(i as int)),
                0 <= i <= note.tags@.len(),
                old_set == linked_tag_ids(pre, note.id),
                old_set == old_ids@.to_set(),
                self.next_note_id == pre.next_note_id,
                note.id < pre.next_note_id,
                self.notes@ == notes_now,
                self.histories == pre.histories,
                self.next_history_id == pre.next_history_id,
                self.notebooks == pre.notebooks,
                self.tags == pre.tags,
                self.next_notebook_id == pre.next_notebook_id,
                self.next_tag_id == pre.next_tag_id,
                self.next_note_tag_id == pre.next_note_tag_id + tags_to_link(note.tags@.take(i as int), old_set).len(),
                tags_to_link(note.tags@.take(i as int), old_set).len() <= i,
                self.note_tags@ == base + new_links(note.id, tags_to_link(note.tags@.take(i as int), old_set), pre.next_note_tag_id, now),
                ids_ok(link_ids(base), pre.next_note_tag_id),
                ids_ok(link_ids(self.note_tags@), self.next_note_tag_id),
                forall|k: int|
                    0 <= k < self.note_tags@.len() ==> #[trigger] self.note_tags@[k].note_id
                        < self.next_note_id,
                links_unique(self.note_tags@),
                self.note_tags@.len() >= base.len(),
                forall|a: int| 0 <= a < base.len() ==> self.note_tags@[a] == #[trigger] base[a],
                forall|a: int| 0 <= a < base.len() && (#[trigger] base[a]).note_id == note.id ==> old_set.contains(base[a].tag_id),
                forall|a: int| base.len() <= a < self.note_tags@.len() ==> (#[trigger] self.note_tags@[a]).note_id == note.id
                    && seen@.contains(self.note_tags@[a].tag_id) && !old_set.contains(self.note_tags@[a].tag_id),
            decreases note.tags@.len() - i,
        {
            proof {
                assert(note.tags@.take(i + 1).drop_last() =~= note.tags@.take(i as int));
            }
            let ghost prev = tags_to_link(note.tags@.take(i as int), old_set);
            let tag_id = note.tags[i].id;
            if !contains_id(&old_ids, tag_id) && !contains_id(&seen, tag_id) {
                let link = NoteTag {
                    id: self.next_note_tag_id,
                    note_id: note.id,
                    tag_id: note.tags[i].id,
                    sort_order: note.tags[i].sort_order,
                    create_time: now,
                    update_time: now,
                };
                let ghost before = self.note_tags@;
                self.note_tags.push(link);
                self.next_note_tag_id = self.next_note_tag_id + 1;
                proof {
                    assert(new_links(note.id, prev.push(note.tags@[i as int]), pre.next_note_tag_id, now)
                        =~= new_links(note.id, prev, pre.next_note_tag_id, now).push(link));
                    assert(link_ids(self.note_tags@) =~= link_ids(before).push(link.id));
                    assert forall|a: int, b: int| 0 <= a < b < self.note_tags@.len() && (#[trigger] self.note_tags@[a]).note_id
                        == (#[trigger] self.note_tags@[b]).note_id implies self.note_tags@[a].tag_id != self.note_tags@[b].tag_id by {
                        if b < before.len() {
                            assert(self.note_tags@[a] == before[a] && self.note_tags@[b] == before[b]);
                        } else if a < base.len() {
                            assert(self.note_tags@[a] == base[a]);
                        } else {
                            assert(self.note_tags@[a] == before[a]);
                        }
                    }
                }
            }
            let ghost seen_before = seen@;
            seen.push(tag_id);
            proof {
                assert(seen@ =~= tag_ids(note.tags@.take(i + 1)));
                assert forall|x: i64| seen_before.contains(x) implies seen@.contains(x) by {
                    let j = choose|j: int| 0 <= j < seen_before.len() && seen_before[j] == x;
                    assert(seen@[j] == x);
                }
                assert(seen@[seen@.len() - 1] == tag_id);
            }
            i = i + 1;
        }
        proof {
            assert(note.tags@.take(i as int) =~= note.tags@);
            assert(new_ids@.to_set() == tag_ids(note.tags@).to_set());
        }
        if changed || tags_changed {
            let history = NoteHistory {
                id: self.next_history_id,
                note_id: note.id,
                old_content,
                new_content: note.content.clone(),
                extra: NoteHistoryExtra {
                    notebook_id,
                    notebook_name,
                    content_type: old_content_type,
                    title: old_title,
                    tags: old_tags,
                },
                operate_type: OPERATE_UPDATE,
                operate_time: now,
                create_time: now,
            };
            let ghost hbefore = self.histories@;
            self.histories.push(history);
            self.next_history_id = self.next_history_id + 1;
            proof {
                assert(history_ids(self.histories@) =~= history_ids(hbefore).push(history.id));
                assert(self.histories@.drop_last() =~= hbefore);
            }
        }
        proof {
            assert(ids_ok(note_ids(self.notes@), self.next_note_id));
            assert(self.notes@[idx as int].id == note.id);
            self.lemma_note_spec_at(idx as int);
        }
        Ok(Some(self.note_at(idx)))
    }

    /// Creates a note at time `now`: a note row under a fresh id, a link for
    /// each of its tags (keeping each tag's sort order) and a history row
    /// that records the creation. Returns the note as a read now shows it.
    /// Two tags with one id break the uniqueness of a note's links: then
    /// nothing is written and the store's error comes back.
    pub fn create(&mut self, note: &Note, now: i64) -> (r: Result<Note, AppError>)
        requires
            old(self).wf(),
            old(self).has_room(note.tags@.len() as int),
        ensures
            final(self).wf(),
            r is Ok <==> tag_ids(note.tags@).no_duplicates(),
            match r {
                Ok(n) => {
                    &&& note_created(*old(self), *final(self), *note, now)
                    &&& final(self).note_spec(old(self).next_note_id) == Some(n@)
                },
                Err(e) => e is Database && *final(self) == *old(self),
            },
    {
        if !distinct_tag_ids(&note.tags) {
            return Err(AppError::Database("a note cannot carry one tag twice".to_owned()));
        }
        let ghost pre = *self;
        let id = self.next_note_id;
        let (notebook_id, notebook_name) = self.notebook_ref_of(note.notebook_id);
        self.notes.push(
            NoteRow {
                id,
                notebook_id: note.notebook_id,
                title: note.title.clone(),
                content: note.content.clone(),
                content_type: note.content_type,
                create_time: now,
                update_time: now,
            },
        );
        self.next_note_id = id + 1;
        proof {
            assert(note_ids(self.notes@) =~= note_ids(pre.notes@).push(id));
            assert(self.notes@.drop_last() =~= pre.notes@);
            assert(ids_ok(note_ids(self.notes@), self.next_note_id));
        }
        let ghost notes_after = self.notes@;
        let mut i: usize = 0;
        while i < note.tags.len()
            invariant
                pre.wf(),
                pre.has_room(note.tags@.len() as int),
                0 <= i <= note.tags@.len(),
                id == pre.next_note_id,
                self.next_note_id == id + 1,
                self.next_note_tag_id == pre.next_note_tag_id + i,
                self.note_tags@ == pre.note_tags@ + new_links(id, note.tags@, pre.next_note_tag_id, now).take(i as int),
                self.notebooks == pre.notebooks,
                self.tags == pre.tags,
                self.notes@ == notes_after,
                ids_ok(note_ids(self.notes@), self.next_note_id),
                self.histories == pre.histories,
                self.next_history_id == pre.next_history_id,
                self.next_notebook_id == pre.next_notebook_id,
                self.next_tag_id == pre.next_tag_id,
                ids_ok(link_ids(self.note_tags@), self.next_note_tag_id),
                forall|k: int|
                    0 <= k < self.note_tags@.len() ==> #[trigger] self.note_tags@[k].note_id
                        < self.next_note_id,
                tag_ids(note.tags@).no_duplicates(),
                links_unique(self.note_tags@),
            decreases note.tags@.len() - i,
        {
            let link = NoteTag {
                id: self.next_note_tag_id,
                note_id: id,
                tag_id: note.tags[i].id,
                sort_order: note.tags[i].sort_order,
                create_time: now,
                update_time: now,
            };
            let ghost before = self.note_tags@;
            self.note_tags.push(link);
            self.next_note_tag_id = self.next_note_tag_id + 1;
            proof {
                assert(new_links(id, note.tags@, pre.next_note_tag_id, now).take(i + 1)
                    =~= new_links(id, note.tags@, pre.next_note_tag_id, now).take(i as int).push(link));
                assert(link_ids(self.note_tags@) =~= link_ids(before).push(link.id));
                let pl = pre.note_tags@.len();
                assert forall|a: int, b: int| 0 <= a < b < self.note_tags@.len() && (#[trigger] self.note_tags@[a]).note_id
                    == (#[trigger] self.note_tags@[b]).note_id implies self.note_tags@[a].tag_id != self.note_tags@[b].tag_id by {
                    if b < before.len() {
                        assert(self.note_tags@[a] == before[a] && self.note_tags@[b] == before[b]);
                    } else if a < pl {
                        assert(self.note_tags@[a] == pre.note_tags@[a]);
                        assert(pre.note_tags@[a].note_id < pre.next_note_id);
                    } else {
                        let k = a - pl;
                        assert(self.note_tags@[a] == before[a]);
                        assert(before[a] == new_links(id, note.tags@, pre.next_note_tag_id, now)[k]);
                        assert(tag_ids(note.tags@)[k] != tag_ids(note.tags@)[i as int]);
                    }
                }
            }
            i = i + 1;
        }
        proof {
            assert(new_links(id, note.tags@, pre.next_note_tag_id, now).take(i as int)
                =~= new_links(id, note.tags@, pre.next_note_tag_id, now));
        }
        let history = NoteHistory {
            id: self.next_history_id,
            note_id: id,
            old_content: String::new(),
            new_content: note.content.clone(),
            extra: NoteHistoryExtra {
                notebook_id,
                notebook_name,
                content_type: note.content_type,
                title: note.title.clone(),
                tags: clone_tags(&note.tags),
            },
            operate_type: OPERATE_CREATE,
            operate_time: now,
            create_time: now,
        };
        let ghost hbefore = self.histories@;
        self.histories.push(history);
        self.next_history_id = self.next_history_id + 1;
        proof {
            assert(history_ids(self.histories@) =~= history_ids(hbefore).push(history.id));
            assert(self.histories@.drop_last() =~= hbefore);
            assert(self.notes@.drop_last() =~= pre.notes@);
        }
        let last = self.notes.len() - 1;
        proof {
            assert(ids_ok(notebook_ids(self.notebooks@), self.next_notebook_id));
            assert(ids_ok(tag_ids(self.tags@), self.next_tag_id));
            assert(ids_ok(note_ids(self.notes@), self.next_note_id));
            assert(ids_ok(history_ids(self.histories@), self.next_history_id));
            assert(ids_ok(link_ids(self.note_tags@), self.next_note_tag_id));
            self.lemma_note_spec_at(last as int);
        }
        Ok(self.note_at(last))
    }
}

proof fn lemma_ids_unique_notes(s: &NoteStore, i: int, j: int)
    requires
        s.wf(),
        0 <= i < s.notes@.len(),
        0 <= j < s.notes@.len(),
        s.notes@[i].id == s.notes@[j].id,
    ensures
        i == j,
{
    let ids = note_ids(s.notes@);
    assert(ids[i] == ids[j]);
    if i < j {
        assert(ids[i] < ids[j]);
    } else if j < i {
        assert(ids[j] < ids[i]);
    }
}

} // verus!
