//! Laws that relate the store's operations: what a read shows after a
//! write, and which history rows a write leaves.

use vstd::prelude::*;

use crate::keysort::{KeyEntry, key_lt, lemma_sort_keeps, lemma_sort_map, lemma_sorted_unchanged, sort_entries, strictly_sorted};
use crate::model::{Note, NoteTag, Tag, TagView, OPERATE_DELETE, OPERATE_UPDATE, tag_ids, tags_view};
use crate::notes::{
    lemma_in_links_of, retain_links, tags_to_link,
    linked_tag_ids, new_links, note_created, note_deleted, note_pos, note_updated, row_changed,
};
use crate::store::{
    NoteStore, link_entries, link_ids, links_of, note_ids, ordered_links, resolve_tags,
    tag_with_id,
};

verus! {

proof fn lemma_links_of_append(a: Seq<NoteTag>, b: Seq<NoteTag>, id: i64)
    ensures
        links_of(a + b, id) == links_of(a, id) + links_of(b, id),
    decreases b.len(),
{
    if b.len() == 0 {
        assert(a + b =~= a);
        assert(links_of(a, id) + links_of(b, id) =~= links_of(a, id));
    } else {
        lemma_links_of_append(a, b.drop_last(), id);
        assert((a + b).drop_last() =~= a + b.drop_last());
        assert((a + b).last() == b.last());
        if b.last().note_id == id {
            assert(links_of(a, id) + links_of(b.drop_last(), id).push(b.last()) =~= (links_of(a, id)
                + links_of(b.drop_last(), id)).push(b.last()));
        }
    }
}

proof fn lemma_links_of_none(a: Seq<NoteTag>, id: i64)
    requires
        forall|k: int| 0 <= k < a.len() ==> (#[trigger] a[k]).note_id != id,
    ensures
        links_of(a, id) == Seq::<NoteTag>::empty(),
    decreases a.len(),
{
    if a.len() > 0 {
        lemma_links_of_none(a.drop_last(), id);
    }
}

proof fn lemma_links_of_all(a: Seq<NoteTag>, id: i64)
    requires
        forall|k: int| 0 <= k < a.len() ==> (#[trigger] a[k]).note_id == id,
    ensures
        links_of(a, id) == a,
    decreases a.len(),
{
    if a.len() > 0 {
        lemma_links_of_all(a.drop_last(), id);
        assert(a.drop_last().push(a.last()) =~= a);
    }
}

proof fn lemma_resolve_in_order(tags: Seq<Tag>, links: Seq<NoteTag>, t: Seq<Tag>)
    requires
        links.len() == t.len(),
        forall|k: int| 0 <= k < links.len() ==> (#[trigger] links[k]).tag_id == t[k].id,
        forall|k: int| 0 <= k < t.len() ==> tag_with_id(tags, (#[trigger] t[k]).id) == Some(t[k]@),
    ensures
        resolve_tags(tags, links) == tags_view(t),
    decreases links.len(),
{
    if links.len() > 0 {
        lemma_resolve_in_order(tags, links.drop_last(), t.drop_last());
        assert(t[t.len() - 1] == t.last());
        assert(tags_view(t) =~= tags_view(t.drop_last()).push(t.last()@));
    }
}

/// Creating a note with tags `T` and reading it back gives exactly `T`, in
/// the same order, where `T` is in ascending sort order and lists tags as
/// the store holds them (a read resolves each link to the stored tag).
pub proof fn lemma_created_tags_read_back(pre: NoteStore, post: NoteStore, note: Note, now: i64)
    requires
        pre.wf(),
        post.wf(),
        note_created(pre, post, note, now),
        forall|i: int, j: int|
            0 <= i < j < note.tags@.len() ==> note.tags@[i].sort_order <= note.tags@[j].sort_order,
        forall|i: int|
            0 <= i < note.tags@.len() ==> tag_with_id(pre.tags@, (#[trigger] note.tags@[i]).id)
                == Some(note.tags@[i]@),
    ensures
        post.tags_of(pre.next_note_id) == tags_view(note.tags@),
        post.note_spec(pre.next_note_id) matches Some(v) && v.tags == tags_view(note.tags@),
{
    let id = pre.next_note_id;
    let added = new_links(id, note.tags@, pre.next_note_tag_id, now);
    lemma_links_of_append(pre.note_tags@, added, id);
    assert forall|k: int| 0 <= k < pre.note_tags@.len() implies (#[trigger] pre.note_tags@[k]).note_id != id by {
        assert(pre.note_tags@[k].note_id < pre.next_note_id);
    }
    lemma_links_of_none(pre.note_tags@, id);
    lemma_links_of_all(added, id);
    assert(links_of(post.note_tags@, id) =~= added);
    let n = pre.note_tags@.len();
    let entries = link_entries(added);
    assert forall|i: int, j: int| 0 <= i < j < entries.len() implies crate::keysort::key_lt(entries[i], entries[j]) by {
        assert(post.note_tags@[n + i] == added[i]);
        assert(post.note_tags@[n + j] == added[j]);
        assert(link_ids(post.note_tags@)[n + i] < link_ids(post.note_tags@)[n + j]);
    }
    assert(strictly_sorted(entries));
    lemma_sorted_unchanged(entries);
    assert(post.note_tags@.len() == post.note_tags.len());
    assert(ordered_links(added) =~= added);
    lemma_resolve_in_order(post.tags@, added, note.tags@);
    let last = post.notes@.len() - 1;
    assert(post.notes@[last].id == id);
    assert(post.has_note(id));
    let j = choose|j: int| 0 <= j < post.notes@.len() && post.notes@[j].id == id;
    if j != last {
        assert(post.notes@[j] == pre.notes@[j]);
        assert(note_ids(pre.notes@)[j] < pre.next_note_id);
    }
}

/// Sort entries of a tag list: by sort order, then by place in the list.
pub open spec fn tag_order_entries(t: Seq<Tag>) -> Seq<KeyEntry> {
    Seq::new(t.len(), |i: int| (t[i].sort_order as i64, i as i64, i as usize))
}

/// The tag list stably sorted by ascending sort order: tags with equal sort
/// orders keep their places relative to each other.
pub open spec fn stably_sorted_tags(t: Seq<Tag>) -> Seq<Tag> {
    sort_entries(tag_order_entries(t)).map_values(|e: KeyEntry| t[e.2 as int])
}

pub open spec fn tag_view_ids(s: Seq<TagView>) -> Seq<i64> {
    s.map_values(|t: TagView| t.id)
}

proof fn lemma_resolve_ids(tags: Seq<Tag>, links: Seq<NoteTag>)
    requires
        forall|k: int| 0 <= k < links.len() ==> tag_with_id(tags, (#[trigger] links[k]).tag_id) is Some,
    ensures
        tag_view_ids(resolve_tags(tags, links)) == links.map_values(|l: NoteTag| l.tag_id),
    decreases links.len(),
{
    if links.len() > 0 {
        let d = links.drop_last();
        lemma_resolve_ids(tags, d);
        let id = links.last().tag_id;
        assert(tag_with_id(tags, links[links.len() - 1].tag_id) is Some);
        let i = choose|i: int| 0 <= i < tags.len() && tags[i].id == id;
        assert(tag_view_ids(resolve_tags(tags, links)) =~= tag_view_ids(resolve_tags(tags, d)).push(id));
        assert(links.map_values(|l: NoteTag| l.tag_id) =~= d.map_values(|l: NoteTag| l.tag_id).push(id));
    }
}

/// The entry of a link of a new note, with its link id turned back into
/// its place among the note's tags.
spec fn unshift(e: KeyEntry) -> KeyEntry {
    (e.0, e.2 as i64, e.2)
}

/// Creating a note with tags `T`, each of which exists, and reading it back
/// gives the ids of `T` stably sorted by ascending sort order.
pub proof fn lemma_created_tags_read_back_sorted(pre: NoteStore, post: NoteStore, note: Note, now: i64)
    requires
        pre.wf(),
        post.wf(),
        note_created(pre, post, note, now),
        forall|i: int|
            0 <= i < note.tags@.len() ==> tag_with_id(pre.tags@, (#[trigger] note.tags@[i]).id) is Some,
    ensures
        tag_view_ids(post.tags_of(pre.next_note_id)) == tag_ids(stably_sorted_tags(note.tags@)),
        post.note_spec(pre.next_note_id) matches Some(v) && tag_view_ids(v.tags) == tag_ids(
            stably_sorted_tags(note.tags@),
        ),
{
    let id = pre.next_note_id;
    let t = note.tags@;
    let first = pre.next_note_tag_id;
    let added = new_links(id, t, first, now);
    lemma_links_of_append(pre.note_tags@, added, id);
    assert forall|k: int| 0 <= k < pre.note_tags@.len() implies (#[trigger] pre.note_tags@[k]).note_id != id by {
        assert(pre.note_tags@[k].note_id < pre.next_note_id);
    }
    lemma_links_of_none(pre.note_tags@, id);
    lemma_links_of_all(added, id);
    assert(links_of(post.note_tags@, id) =~= added);
    assert(post.note_tags@.len() == post.note_tags.len());
    let n = t.len() as int;
    assert(first + n <= i64::MAX);
    let le = link_entries(added);
    assert forall|k: int| 0 <= k < le.len() implies ((#[trigger] le[k]).2 as int) < n && le[k].1 == first + le[k].2 by {}
    lemma_sort_keeps(le, |e: KeyEntry| (e.2 as int) < n && e.1 == first + e.2);
    assert forall|a: KeyEntry, b: KeyEntry| #![trigger key_lt(a, b)]
        ((a.2 as int) < n && a.1 == first + a.2) && ((b.2 as int) < n && b.1 == first + b.2) implies
        key_lt(a, b) == key_lt(unshift(a), unshift(b)) by {}
    lemma_sort_map(le, |e: KeyEntry| unshift(e), |e: KeyEntry| (e.2 as int) < n && e.1 == first + e.2);
    assert(le.map_values(|e: KeyEntry| unshift(e)) =~= tag_order_entries(t));
    let sl = sort_entries(le);
    let ordered = ordered_links(added);
    assert(ordered.len() == n);
    assert forall|k: int| 0 <= k < ordered.len() implies tag_with_id(pre.tags@, (#[trigger] ordered[k]).tag_id) is Some by {
        assert((sl[k].2 as int) < n);
        assert(ordered[k] == added[sl[k].2 as int]);
        assert(t[sl[k].2 as int].id == ordered[k].tag_id);
    }
    lemma_resolve_ids(post.tags@, ordered);
    assert(ordered.map_values(|l: NoteTag| l.tag_id) =~= tag_ids(stably_sorted_tags(t))) by {
        assert forall|k: int| 0 <= k < n implies ordered.map_values(|l: NoteTag| l.tag_id)[k]
            == #[trigger] tag_ids(stably_sorted_tags(t))[k] by {
            assert((sl[k].2 as int) < n);
            assert(sort_entries(tag_order_entries(t))[k] == unshift(sl[k]));
        }
    }
    let last = post.notes@.len() - 1;
    assert(post.notes@[last].id == id);
    assert(post.has_note(id));
    let j = choose|j: int| 0 <= j < post.notes@.len() && post.notes@[j].id == id;
    if j != last {
        assert(post.notes@[j] == pre.notes@[j]);
        assert(note_ids(pre.notes@)[j] < pre.next_note_id);
    }
}

/// An update that changes the title alone (same notebook, content, content
/// type and set of tags) writes exactly one history row, an update, whose
/// snapshot holds the title from before the update.
pub proof fn lemma_title_update_history(pre: NoteStore, post: NoteStore, note: Note, now: i64)
    requires
        pre.wf(),
        pre.has_note(note.id),
        note_updated(pre, post, note, now),
        ({
            let row = pre.notes@[note_pos(pre, note.id)];
            &&& note.notebook_id == row.notebook_id
            &&& note.content@ == row.content@
            &&& note.content_type == row.content_type
            &&& note.title@ != row.title@
        }),
        crate::model::tag_ids(note.tags@).to_set() == linked_tag_ids(pre, note.id),
    ensures
        post.histories@.len() == pre.histories@.len() + 1,
        post.histories@.drop_last() == pre.histories@,
        post.histories@.last().operate_type == OPERATE_UPDATE,
        post.histories@.last().extra.title@ == pre.notes@[note_pos(pre, note.id)].title@,
{
}

/// An update whose fields and set of tags equal what is stored writes no
/// history row, and leaves the note row, its update time included, and the
/// links as they were.
pub proof fn lemma_noop_update(pre: NoteStore, post: NoteStore, note: Note, now: i64)
    requires
        pre.wf(),
        pre.has_note(note.id),
        note_updated(pre, post, note, now),
        !row_changed(pre.notes@[note_pos(pre, note.id)], note),
        crate::model::tag_ids(note.tags@).to_set() == linked_tag_ids(pre, note.id),
    ensures
        post.histories == pre.histories,
        post.notes@[note_pos(pre, note.id)]@ == pre.notes@[note_pos(pre, note.id)]@,
        post.notes@[note_pos(pre, note.id)].update_time == pre.notes@[note_pos(pre, note.id)].update_time,
        post.note_tags@ == pre.note_tags@,
        post.next_note_tag_id == pre.next_note_tag_id,
{
    let id = note.id;
    let keep = tag_ids(note.tags@).to_set();
    assert forall|k: int| 0 <= k < pre.note_tags@.len() && (#[trigger] pre.note_tags@[k]).note_id == id implies keep.contains(pre.note_tags@[k].tag_id) by {
        lemma_in_links_of(pre.note_tags@, id, k);
        let ls = links_of(pre.note_tags@, id);
        let j = choose|j: int| 0 <= j < ls.len() && ls[j] == pre.note_tags@[k];
        assert(ls.map_values(|l: NoteTag| l.tag_id)[j] == pre.note_tags@[k].tag_id);
    }
    lemma_retain_all(pre.note_tags@, id, keep);
    assert forall|k: int| 0 <= k < note.tags@.len() implies keep.contains(#[trigger] note.tags@[k].id) by {
        assert(tag_ids(note.tags@)[k] == note.tags@[k].id);
    }
    lemma_nothing_to_link(note.tags@, keep);
    assert(new_links(id, Seq::<Tag>::empty(), pre.next_note_tag_id, now) =~= Seq::<NoteTag>::empty());
    assert(pre.note_tags@ + Seq::<NoteTag>::empty() =~= pre.note_tags@);
}

proof fn lemma_retain_all(links: Seq<NoteTag>, id: i64, keep: Set<i64>)
    requires
        forall|k: int| 0 <= k < links.len() && (#[trigger] links[k]).note_id == id ==> keep.contains(links[k].tag_id),
    ensures
        retain_links(links, id, keep) == links,
    decreases links.len(),
{
    if links.len() > 0 {
        lemma_retain_all(links.drop_last(), id, keep);
        assert(links[links.len() - 1] == links.last());
        assert(links.drop_last().push(links.last()) =~= links);
    }
}

proof fn lemma_nothing_to_link(tags: Seq<Tag>, ids: Set<i64>)
    requires
        forall|k: int| 0 <= k < tags.len() ==> ids.contains(#[trigger] tags[k].id),
    ensures
        tags_to_link(tags, ids) == Seq::<Tag>::empty(),
    decreases tags.len(),
{
    if tags.len() > 0 {
        lemma_nothing_to_link(tags.drop_last(), ids);
        assert(tags[tags.len() - 1] == tags.last());
    }
}

/// Deleting a stored note writes exactly one history row, a deletion whose
/// old content is the note's content, and afterwards no note has its id.
pub proof fn lemma_delete_history(pre: NoteStore, post: NoteStore, id: i64, now: i64)
    requires
        pre.wf(),
        pre.has_note(id),
        note_deleted(pre, post, id, now),
    ensures
        post.histories@.len() == pre.histories@.len() + 1,
        post.histories@.drop_last() == pre.histories@,
        post.histories@.last().operate_type == OPERATE_DELETE,
        post.histories@.last().old_content@ == pre.notes@[note_pos(pre, id)].content@,
        post.note_spec(id) is None,
{
    let i = note_pos(pre, id);
    let ids = note_ids(pre.notes@);
    assert forall|k: int| 0 <= k < post.notes@.len() implies #[trigger] post.notes@[k].id != id by {
        assert(ids[i] == id);
        if k < i {
            assert(post.notes@[k] == pre.notes@[k]);
            assert(ids[k] < ids[i]);
        } else {
            assert(post.notes@[k] == pre.notes@[k + 1]);
            assert(ids[k + 1] > ids[i]);
        }
    }
}

} // verus!
