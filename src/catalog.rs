//! Notebooks and tags: listing, creating, updating and deleting them.

use vstd::prelude::*;

use crate::keysort::{KeyEntry, reverse_entries, reversed, sort_by_key, sort_entries};
use crate::model::{Notebook, NotebookView, Tag, TagView, tag_ids, tags_view};
use crate::store::{NoteStore, notebook_ids, lemma_ids_unique};

verus! {

/// A time that may be missing, as a sort key: a missing time sorts first.
pub open spec fn time_key(t: Option<i64>) -> i64 {
    match t {
        Some(t) => t,
        None => i64::MIN,
    }
}

fn time_key_of(t: Option<i64>) -> (r: i64)
    ensures
        r == time_key(t),
{
    match t {
        Some(t) => t,
        None => i64::MIN,
    }
}

/// Sort entries `(sort order, update time, position)` of the notebooks.
pub open spec fn notebook_entries(s: Seq<Notebook>) -> Seq<KeyEntry> {
    Seq::new(s.len(), |i: int| (s[i].sort_order as i64, time_key(s[i].update_time), i as usize))
}

/// Sort entries `(sort order, update time, position)` of the tags.
pub open spec fn tag_entries(s: Seq<Tag>) -> Seq<KeyEntry> {
    Seq::new(s.len(), |i: int| (s[i].sort_order as i64, time_key(s[i].update_time), i as usize))
}

/// The notebooks by descending sort order, then by descending update time.
pub open spec fn notebook_listing(s: Seq<Notebook>) -> Seq<NotebookView> {
    reversed(sort_entries(notebook_entries(s))).map_values(|e: KeyEntry| s[e.2 as int]@)
}

/// The tags by descending sort order, then by descending update time.
pub open spec fn tag_listing(s: Seq<Tag>) -> Seq<TagView> {
    reversed(sort_entries(tag_entries(s))).map_values(|e: KeyEntry| s[e.2 as int]@)
}

pub open spec fn notebooks_view(s: Seq<Notebook>) -> Seq<NotebookView> {
    s.map_values(|n: Notebook| n@)
}

/// The notebook fields that an update writes differ from the stored ones.
pub open spec fn notebook_changed(row: Notebook, nb: Notebook) -> bool {
    row.name@ != nb.name@ || row.description@ != nb.description@ || row.icon@ != nb.icon@
        || row.cls@ != nb.cls@ || row.sort_order != nb.sort_order
}

/// The tag fields that an update writes differ from the stored ones.
pub open spec fn tag_changed(row: Tag, t: Tag) -> bool {
    row.name@ != t.name@ || row.icon@ != t.icon@ || row.cls@ != t.cls@ || row.sort_order
        != t.sort_order
}

/// The position of the notebook with this id.
pub open spec fn notebook_pos(s: NoteStore, id: i64) -> int {
    choose|i: int| 0 <= i < s.notebooks@.len() && s.notebooks@[i].id == id
}

/// The position of the tag with this id.
pub open spec fn tag_pos(s: NoteStore, id: i64) -> int {
    choose|i: int| 0 <= i < s.tags@.len() && s.tags@[i].id == id
}

pub open spec fn has_notebook(s: NoteStore, id: i64) -> bool {
    exists|i: int| 0 <= i < s.notebooks@.len() && s.notebooks@[i].id == id
}

pub open spec fn has_tag(s: NoteStore, id: i64) -> bool {
    exists|i: int| 0 <= i < s.tags@.len() && s.tags@[i].id == id
}

/// Every table but the notebooks, and every counter but the notebooks', is
/// as it was.
pub open spec fn only_notebooks_differ(pre: NoteStore, post: NoteStore) -> bool {
    &&& post.tags == pre.tags
    &&& post.notes == pre.notes
    &&& post.note_tags == pre.note_tags
    &&& post.histories == pre.histories
    &&& post.next_tag_id == pre.next_tag_id
    &&& post.next_note_id == pre.next_note_id
    &&& post.next_note_tag_id == pre.next_note_tag_id
    &&& post.next_history_id == pre.next_history_id
}

/// Every table but the tags, and every counter but the tags', is as it was.
pub open spec fn only_tags_differ(pre: NoteStore, post: NoteStore) -> bool {
    &&& post.notebooks == pre.notebooks
    &&& post.notes == pre.notes
    &&& post.note_tags == pre.note_tags
    &&& post.histories == pre.histories
    &&& post.next_notebook_id == pre.next_notebook_id
    &&& post.next_note_id == pre.next_note_id
    &&& post.next_note_tag_id == pre.next_note_tag_id
    &&& post.next_history_id == pre.next_history_id
}

/// `post` is `pre` after an update of the notebook with `notebook`'s id at
/// `now` that returned `r`: `None` and nothing changed when no notebook has
/// the id; else each written field that differs takes the new value, and
/// then the update time is `now`.
pub open spec fn notebook_updated(pre: NoteStore, post: NoteStore, notebook: Notebook, now: i64, r: Option<Notebook>) -> bool {
    match r {
        None => post.notebooks == pre.notebooks,
        Some(m) => {
            let i = notebook_pos(pre, notebook.id);
            let row = pre.notebooks@[i];
            let changed = notebook_changed(row, notebook);
            &&& post.notebooks@.len() == pre.notebooks@.len()
            &&& forall|k: int| 0 <= k < pre.notebooks@.len() && k != i ==> post.notebooks@[k] == pre.notebooks@[k]
            &&& post.notebooks@[i]@ == if changed {
                NotebookView {
                    name: notebook.name@,
                    description: notebook.description@,
                    icon: notebook.icon@,
                    cls: notebook.cls@,
                    sort_order: notebook.sort_order,
                    update_time: Some(now),
                    ..row@
                }
            } else {
                row@
            }
            &&& m@ == if changed {
                NotebookView { update_time: Some(now), ..notebook@ }
            } else {
                notebook@
            }
        },
    }
}

/// `post` is `pre` after an update of the tag with `tag`'s id at `now` that
/// returned `r`, as for notebooks.
pub open spec fn tag_updated(pre: NoteStore, post: NoteStore, tag: Tag, now: i64, r: Option<Tag>) -> bool {
    match r {
        None => post.tags == pre.tags,
        Some(m) => {
            let i = tag_pos(pre, tag.id);
            let row = pre.tags@[i];
            let changed = tag_changed(row, tag);
            &&& post.tags@.len() == pre.tags@.len()
            &&& forall|k: int| 0 <= k < pre.tags@.len() && k != i ==> post.tags@[k] == pre.tags@[k]
            &&& post.tags@[i]@ == if changed {
                TagView {
                    name: tag.name@,
                    icon: tag.icon@,
                    cls: tag.cls@,
                    sort_order: tag.sort_order,
                    update_time: Some(now),
                    ..row@
                }
            } else {
                row@
            }
            &&& m@ == if changed {
                TagView { update_time: Some(now), ..tag@ }
            } else {
                tag@
            }
        },
    }
}

fn ordered_positions(entries: &Vec<KeyEntry>, n: usize) -> (r: Vec<KeyEntry>)
    requires
        forall|k: int| 0 <= k < entries@.len() ==> ((#[trigger] entries@[k]).2 as int) < n,
    ensures
        r@ == reversed(sort_entries(entries@)),
        forall|k: int| 0 <= k < r@.len() ==> ((#[trigger] r@[k]).2 as int) < n,
{
    let sorted = sort_by_key(entries);
    proof {
        crate::keysort::lemma_sort_keeps(entries@, |e: KeyEntry| (e.2 as int) < n);
    }
    let r = reverse_entries(&sorted);
    proof {
        assert forall|k: int| 0 <= k < r@.len() implies ((#[trigger] r@[k]).2 as int) < n by {
            assert(r@[k] == sorted@[sorted@.len() - 1 - k]);
        }
    }
    r
}

impl NoteStore {
    /// Every notebook, by descending sort order, then by descending update
    /// time.
    pub fn find_all_notebooks(&self) -> (r: Vec<Notebook>)
        ensures
            notebooks_view(r@) == notebook_listing(self.notebooks@),
    {
        let mut entries: Vec<KeyEntry> = Vec::new();
        let mut i: usize = 0;
        while i < self.notebooks.len()
            invariant
                i <= self.notebooks@.len(),
                entries@ =~= notebook_entries(self.notebooks@).take(i as int),
            decreases self.notebooks@.len() - i,
        {
            entries.push(
                (self.notebooks[i].sort_order as i64, time_key_of(self.notebooks[i].update_time), i),
            );
            i = i + 1;
        }
        proof {
            assert(entries@ =~= notebook_entries(self.notebooks@));
        }
        let order = ordered_positions(&entries, self.notebooks.len());
        let mut r: Vec<Notebook> = Vec::new();
        let mut k: usize = 0;
        while k < order.len()
            invariant
                k <= order@.len(),
                order@ == reversed(sort_entries(notebook_entries(self.notebooks@))),
                forall|q: int| 0 <= q < order@.len() ==> ((#[trigger] order@[q]).2 as int) < self.notebooks@.len(),
                notebooks_view(r@) =~= order@.take(k as int).map_values(|e: KeyEntry| self.notebooks@[e.2 as int]@),
            decreases order@.len() - k,
        {
            let nb = self.notebooks[order[k].2].clone();
            let ghost before = r@;
            r.push(nb);
            proof {
                assert(notebooks_view(r@) =~= notebooks_view(before).push(nb@));
                assert(order@.take(k + 1) =~= order@.take(k as int).push(order@[k as int]));
            }
            k = k + 1;
        }
        proof {
            assert(order@.take(k as int) =~= order@);
        }
        r
    }

    /// Every tag, by descending sort order, then by descending update time.
    pub fn find_all_tags(&self) -> (r: Vec<Tag>)
        ensures
            tags_view(r@) == tag_listing(self.tags@),
    {
        let mut entries: Vec<KeyEntry> = Vec::new();
        let mut i: usize = 0;
        while i < self.tags.len()
            invariant
                i <= self.tags@.len(),
                entries@ =~= tag_entries(self.tags@).take(i as int),
            decreases self.tags@.len() - i,
        {
            entries.push((self.tags[i].sort_order as i64, time_key_of(self.tags[i].update_time), i));
            i = i + 1;
        }
        proof {
            assert(entries@ =~= tag_entries(self.tags@));
        }
        let order = ordered_positions(&entries, self.tags.len());
        let mut r: Vec<Tag> = Vec::new();
        let mut k: usize = 0;
        while k < order.len()
            invariant
                k <= order@.len(),
                order@ == reversed(sort_entries(tag_entries(self.tags@))),
                forall|q: int| 0 <= q < order@.len() ==> ((#[trigger] order@[q]).2 as int) < self.tags@.len(),
                tags_view(r@) =~= order@.take(k as int).map_values(|e: KeyEntry| self.tags@[e.2 as int]@),
            decreases order@.len() - k,
        {
            let t = self.tags[order[k].2].clone();
            let ghost before = r@;
            r.push(t);
            proof {
                assert(tags_view(r@) =~= tags_view(before).push(t@));
                assert(order@.take(k + 1) =~= order@.take(k as int).push(order@[k as int]));
            }
            k = k + 1;
        }
        proof {
            assert(order@.take(k as int) =~= order@);
        }
        r
    }

    /// Creates a notebook at time `now` under the next notebook id, with
    /// the given parent, name, description, icon, style class and sort
    /// order; returns it.
    pub fn create_notebook(&mut self, notebook: &Notebook, now: i64) -> (r: Notebook)
        requires
            old(self).wf(),
            old(self).has_room(0),
        ensures
            final(self).wf(),
            only_notebooks_differ(*old(self), *final(self)),
            final(self).next_notebook_id == old(self).next_notebook_id + 1,
            final(self).notebooks@.drop_last() == old(self).notebooks@,
            final(self).notebooks@.len() == old(self).notebooks@.len() + 1,
            r@ == final(self).notebooks@.last()@,
            r@ == (NotebookView {
                id: old(self).next_notebook_id,
                parent_id: notebook.parent_id,
                name: notebook.name@,
                description: notebook.description@,
                icon: notebook.icon@,
                cls: notebook.cls@,
                sort_order: notebook.sort_order,
                create_time: Some(now),
                update_time: Some(now),
            }),
    {
        let row = Notebook {
            id: self.next_notebook_id,
            parent_id: notebook.parent_id,
            name: notebook.name.clone(),
            description: notebook.description.clone(),
            icon: notebook.icon.clone(),
            cls: notebook.cls.clone(),
            sort_order: notebook.sort_order,
            create_time: Some(now),
            update_time: Some(now),
        };
        let ghost pre = self.notebooks@;
        let r = row.clone();
        self.notebooks.push(row);
        self.next_notebook_id = self.next_notebook_id + 1;
        proof {
            assert(notebook_ids(self.notebooks@) =~= notebook_ids(pre).push(r.id));
            assert(self.notebooks@.drop_last() =~= pre);
        }
        r
    }

    /// Creates a tag at time `now` under the next tag id, with the given
    /// name, icon, style class and sort order; returns it.
    pub fn create_tag(&mut self, tag: &Tag, now: i64) -> (r: Tag)
        requires
            old(self).wf(),
            old(self).has_room(0),
        ensures
            final(self).wf(),
            only_tags_differ(*old(self), *final(self)),
            final(self).next_tag_id == old(self).next_tag_id + 1,
            final(self).tags@.drop_last() == old(self).tags@,
            final(self).tags@.len() == old(self).tags@.len() + 1,
            r@ == final(self).tags@.last()@,
            r@ == (TagView {
                id: old(self).next_tag_id,
                name: tag.name@,
                icon: tag.icon@,
                cls: tag.cls@,
                sort_order: tag.sort_order,
                create_time: Some(now),
                update_time: Some(now),
            }),
    {
        let row = Tag {
            id: self.next_tag_id,
            name: tag.name.clone(),
            icon: tag.icon.clone(),
            cls: tag.cls.clone(),
            sort_order: tag.sort_order,
            create_time: Some(now),
            update_time: Some(now),
        };
        let ghost pre = self.tags@;
        let r = row.clone();
        self.tags.push(row);
        self.next_tag_id = self.next_tag_id + 1;
        proof {
            assert(tag_ids(self.tags@) =~= tag_ids(pre).push(r.id));
            assert(self.tags@.drop_last() =~= pre);
        }
        r
    }

    /// Deletes the notebook with this id, if there is one. Its notes stay,
    /// and keep its id.
    pub fn delete_notebook_by_id(&mut self, id: i64)
        requires
            old(self).wf(),
        ensures
            final(self).wf(),
            only_notebooks_differ(*old(self), *final(self)),
            final(self).next_notebook_id == old(self).next_notebook_id,
            final(self).notebooks@ == if has_notebook(*old(self), id) {
                old(self).notebooks@.remove(notebook_pos(*old(self), id))
            } else {
                old(self).notebooks@
            },
    {
        match self.notebook_index(id) {
            Some(i) => {
                proof {
                    lemma_ids_unique(notebook_ids(self.notebooks@), self.next_notebook_id, i as int, notebook_pos(*self, id));
                }
                let ghost pre = self.notebooks@;
                self.notebooks.remove(i);
                proof {
                    assert(notebook_ids(self.notebooks@) =~= notebook_ids(pre).remove(i as int));
                }
            },
            None => {},
        }
    }

    /// Deletes the tag with this id, if there is one. Links of notes to it
    /// stay; reads skip them.
    pub fn delete_tag_by_id(&mut self, id: i64)
        requires
            old(self).wf(),
        ensures
            final(self).wf(),
            only_tags_differ(*old(self), *final(self)),
            final(self).next_tag_id == old(self).next_tag_id,
            final(self).tags@ == if has_tag(*old(self), id) {
                old(self).tags@.remove(tag_pos(*old(self), id))
            } else {
                old(self).tags@
            },
    {
        match self.tag_index(id) {
            Some(i) => {
                proof {
                    lemma_ids_unique(tag_ids(self.tags@), self.next_tag_id, i as int, tag_pos(*self, id));
                }
                let ghost pre = self.tags@;
                self.tags.remove(i);
                proof {
                    assert(tag_ids(self.tags@) =~= tag_ids(pre).remove(i as int));
                }
            },
            None => {},
        }
    }

    /// Updates the notebook with the incoming one's id at time `now`: each
    /// of name, description, icon, style class and sort order is written
    /// only where it differs, and then the update time becomes `now`.
    /// Returns the incoming notebook, with update time `now` when anything
    /// changed; `None`, and no change, when no notebook has the id.
    pub fn update_notebook(&mut self, notebook: &Notebook, now: i64) -> (r: Option<Notebook>)
        requires
            old(self).wf(),
        ensures
            final(self).wf(),
            only_notebooks_differ(*old(self), *final(self)),
            final(self).next_notebook_id == old(self).next_notebook_id,
            r is Some <==> has_notebook(*old(self), notebook.id),
            notebook_updated(*old(self), *final(self), *notebook, now, r),
    {
        let i = match self.notebook_index(notebook.id) {
            Some(i) => i,
            None => {
                return None;
            },
        };
        proof {
            lemma_ids_unique(notebook_ids(self.notebooks@), self.next_notebook_id, i as int, notebook_pos(*self, notebook.id));
        }
        let ghost pre = self.notebooks@;
        let mut m = notebook.clone();
        let row = &self.notebooks[i];
        let changed = row.name != notebook.name || row.description != notebook.description
            || row.icon != notebook.icon || row.cls != notebook.cls || row.sort_order
            != notebook.sort_order;
        if changed {
            let updated = Notebook {
                id: row.id,
                parent_id: row.parent_id,
                name: notebook.name.clone(),
                description: notebook.description.clone(),
                icon: notebook.icon.clone(),
                cls: notebook.cls.clone(),
                sort_order: notebook.sort_order,
                create_time: row.create_time,
                update_time: Some(now),
            };
            self.notebooks[i] = updated;
            m.update_time = Some(now);
            proof {
                assert(notebook_ids(self.notebooks@) =~= notebook_ids(pre));
            }
        }
        Some(m)
    }

    /// Updates the tag with the incoming one's id at time `now`: each of
    /// name, icon, style class and sort order is written only where it
    /// differs, and then the update time becomes `now`. Returns the incoming
    /// tag, with update time `now` when anything changed; `None`, and no
    /// change, when no tag has the id.
    pub fn update_tag(&mut self, tag: &Tag, now: i64) -> (r: Option<Tag>)
        requires
            old(self).wf(),
        ensures
            final(self).wf(),
            only_tags_differ(*old(self), *final(self)),
            final(self).next_tag_id == old(self).next_tag_id,
            r is Some <==> has_tag(*old(self), tag.id),
            tag_updated(*old(self), *final(self), *tag, now, r),
    {
        let i = match self.tag_index(tag.id) {
            Some(i) => i,
            None => {
                return None;
            },
        };
        proof {
            lemma_ids_unique(tag_ids(self.tags@), self.next_tag_id, i as int, tag_pos(*self, tag.id));
        }
        let ghost pre = self.tags@;
        let mut m = tag.clone();
        let row = &self.tags[i];
        let changed = row.name != tag.name || row.icon != tag.icon || row.cls != tag.cls
            || row.sort_order != tag.sort_order;
        if changed {
            let updated = Tag {
                id: row.id,
                name: tag.name.clone(),
                icon: tag.icon.clone(),
                cls: tag.cls.clone(),
                sort_order: tag.sort_order,
                create_time: row.create_time,
                update_time: Some(now),
            };
            self.tags[i] = updated;
            m.update_time = Some(now);
            proof {
                assert(tag_ids(self.tags@) =~= tag_ids(pre));
            }
        }
        Some(m)
    }
}

} // verus!
