//! The records of the store and the values handed to and from callers.
//!
//! Times are seconds on the local wall clock (a naive date-time counted from
//! 1970-01-01 00:00:00). Identifiers are positive; `0` in an identifier field
//! stands for "none".

use vstd::prelude::*;

use crate::page::PageParam;

verus! {

/// Operation code of a history row written when a note is created.
pub const OPERATE_CREATE: i32 = 1;

/// Operation code of a history row written when a note is updated.
pub const OPERATE_UPDATE: i32 = 2;

/// Operation code of a history row written when a note is deleted.
pub const OPERATE_DELETE: i32 = 3;

/// A folder of notes; `parent_id` is 0 for a notebook at the root.
#[derive(Debug)]
pub struct Notebook {
    pub id: i64,
    pub parent_id: i64,
    pub name: String,
    pub description: String,
    pub icon: String,
    pub cls: String,
    pub sort_order: i32,
    pub create_time: Option<i64>,
    pub update_time: Option<i64>,
}

pub ghost struct NotebookView {
    pub id: i64,
    pub parent_id: i64,
    pub name: Seq<char>,
    pub description: Seq<char>,
    pub icon: Seq<char>,
    pub cls: Seq<char>,
    pub sort_order: i32,
    pub create_time: Option<i64>,
    pub update_time: Option<i64>,
}

impl View for Notebook {
    type V = NotebookView;

    open spec fn view(&self) -> NotebookView {
        NotebookView {
            id: self.id,
            parent_id: self.parent_id,
            name: self.name@,
            description: self.description@,
            icon: self.icon@,
            cls: self.cls@,
            sort_order: self.sort_order,
            create_time: self.create_time,
            update_time: self.update_time,
        }
    }
}

impl Clone for Notebook {
    fn clone(&self) -> (r: Self)
        ensures
            r@ == self@,
    {
        Notebook {
            id: self.id,
            parent_id: self.parent_id,
            name: self.name.clone(),
            description: self.description.clone(),
            icon: self.icon.clone(),
            cls: self.cls.clone(),
            sort_order: self.sort_order,
            create_time: self.create_time,
            update_time: self.update_time,
        }
    }
}

/// A label that can be attached to many notes.
#[derive(Debug)]
pub struct Tag {
    pub id: i64,
    pub name: String,
    pub icon: String,
    pub cls: String,
    pub sort_order: i32,
    pub create_time: Option<i64>,
    pub update_time: Option<i64>,
}

pub ghost struct TagView {
    pub id: i64,
    pub name: Seq<char>,
    pub icon: Seq<char>,
    pub cls: Seq<char>,
    pub sort_order: i32,
    pub create_time: Option<i64>,
    pub update_time: Option<i64>,
}

impl View for Tag {
    type V = TagView;

    open spec fn view(&self) -> TagView {
        TagView {
            id: self.id,
            name: self.name@,
            icon: self.icon@,
            cls: self.cls@,
            sort_order: self.sort_order,
            create_time: self.create_time,
            update_time: self.update_time,
        }
    }
}

impl Clone for Tag {
    fn clone(&self) -> (r: Self)
        ensures
            r@ == self@,
    {
        Tag {
            id: self.id,
            name: self.name.clone(),
            icon: self.icon.clone(),
            cls: self.cls.clone(),
            sort_order: self.sort_order,
            create_time: self.create_time,
            update_time: self.update_time,
        }
    }
}

/// The views of a sequence of tags.
pub open spec fn tags_view(s: Seq<Tag>) -> Seq<TagView> {
    s.map_values(|t: Tag| t@)
}

/// The identifiers of a sequence of tags.
pub open spec fn tag_ids(s: Seq<Tag>) -> Seq<i64> {
    s.map_values(|t: Tag| t.id)
}

/// Copies a list of tags.
pub fn clone_tags(v: &Vec<Tag>) -> (r: Vec<Tag>)
    ensures
        tags_view(r@) == tags_view(v@),
        tag_ids(r@) == tag_ids(v@),
{
    let mut r: Vec<Tag> = Vec::new();
    let mut i: usize = 0;
    while i < v.len()
        invariant
            i <= v@.len(),
            r@.len() == i,
            forall|k: int| 0 <= k < i ==> (#[trigger] r@[k])@ == v@[k]@,
        decreases v@.len() - i,
    {
        let t = v[i].clone();
        r.push(t);
        i = i + 1;
    }
    proof {
        assert(tags_view(r@) =~= tags_view(v@));
        assert(tag_ids(r@) =~= tag_ids(v@));
    }
    r
}

/// A note as callers see it: the stored row together with the name of its
/// notebook and its tags, which are resolved when the note is read.
#[derive(Debug)]
pub struct Note {
    pub id: i64,
    pub notebook_id: i64,
    pub notebook_name: String,
    pub title: String,
    pub content: String,
    pub content_type: i32,
    pub create_time: Option<i64>,
    pub update_time: Option<i64>,
    pub tags: Vec<Tag>,
}

pub ghost struct NoteView {
    pub id: i64,
    pub notebook_id: i64,
    pub notebook_name: Seq<char>,
    pub title: Seq<char>,
    pub content: Seq<char>,
    pub content_type: i32,
    pub create_time: Option<i64>,
    pub update_time: Option<i64>,
    pub tags: Seq<TagView>,
}

impl View for Note {
    type V = NoteView;

    open spec fn view(&self) -> NoteView {
        NoteView {
            id: self.id,
            notebook_id: self.notebook_id,
            notebook_name: self.notebook_name@,
            title: self.title@,
            content: self.content@,
            content_type: self.content_type,
            create_time: self.create_time,
            update_time: self.update_time,
            tags: tags_view(self.tags@),
        }
    }
}

impl Clone for Note {
    fn clone(&self) -> (r: Self)
        ensures
            r@ == self@,
    {
        Note {
            id: self.id,
            notebook_id: self.notebook_id,
            notebook_name: self.notebook_name.clone(),
            title: self.title.clone(),
            content: self.content.clone(),
            content_type: self.content_type,
            create_time: self.create_time,
            update_time: self.update_time,
            tags: clone_tags(&self.tags),
        }
    }
}

/// A stored note row: the note without its resolved notebook name and tags.
#[derive(Debug)]
pub struct NoteRow {
    pub id: i64,
    pub notebook_id: i64,
    pub title: String,
    pub content: String,
    pub content_type: i32,
    pub create_time: i64,
    pub update_time: i64,
}

pub ghost struct NoteRowView {
    pub id: i64,
    pub notebook_id: i64,
    pub title: Seq<char>,
    pub content: Seq<char>,
    pub content_type: i32,
    pub create_time: i64,
    pub update_time: i64,
}

impl View for NoteRow {
    type V = NoteRowView;

    open spec fn view(&self) -> NoteRowView {
        NoteRowView {
            id: self.id,
            notebook_id: self.notebook_id,
            title: self.title@,
            content: self.content@,
            content_type: self.content_type,
            create_time: self.create_time,
            update_time: self.update_time,
        }
    }
}

/// A stored link between a note and a tag, with the tag's place among the
/// note's tags.
#[derive(Clone, Copy, Debug, PartialEq, Eq)]
pub struct NoteTag {
    pub id: i64,
    pub note_id: i64,
    pub tag_id: i64,
    pub sort_order: i32,
    pub create_time: i64,
    pub update_time: i64,
}

/// What a note looked like around a change: its notebook, content type,
/// title and tags.
#[derive(Debug)]
pub struct NoteHistoryExtra {
    pub notebook_id: i64,
    pub notebook_name: String,
    pub content_type: i32,
    pub title: String,
    pub tags: Vec<Tag>,
}

pub ghost struct NoteHistoryExtraView {
    pub notebook_id: i64,
    pub notebook_name: Seq<char>,
    pub content_type: i32,
    pub title: Seq<char>,
    pub tags: Seq<TagView>,
}

impl View for NoteHistoryExtra {
    type V = NoteHistoryExtraView;

    open spec fn view(&self) -> NoteHistoryExtraView {
        NoteHistoryExtraView {
            notebook_id: self.notebook_id,
            notebook_name: self.notebook_name@,
            content_type: self.content_type,
            title: self.title@,
            tags: tags_view(self.tags@),
        }
    }
}

impl Clone for NoteHistoryExtra {
    fn clone(&self) -> (r: Self)
        ensures
            r@ == self@,
    {
        NoteHistoryExtra {
            notebook_id: self.notebook_id,
            notebook_name: self.notebook_name.clone(),
            content_type: self.content_type,
            title: self.title.clone(),
            tags: clone_tags(&self.tags),
        }
    }
}

/// One event in the life of a note: what its content was before and after,
/// and a snapshot of the note's other fields.
#[derive(Debug)]
pub struct NoteHistory {
    pub id: i64,
    pub note_id: i64,
    pub old_content: String,
    pub new_content: String,
    pub extra: NoteHistoryExtra,
    pub operate_type: i32,
    pub operate_time: i64,
    pub create_time: i64,
}

pub ghost struct NoteHistoryView {
    pub id: i64,
    pub note_id: i64,
    pub old_content: Seq<char>,
    pub new_content: Seq<char>,
    pub extra: NoteHistoryExtraView,
    pub operate_type: i32,
    pub operate_time: i64,
    pub create_time: i64,
}

impl View for NoteHistory {
    type V = NoteHistoryView;

    open spec fn view(&self) -> NoteHistoryView {
        NoteHistoryView {
            id: self.id,
            note_id: self.note_id,
            old_content: self.old_content@,
            new_content: self.new_content@,
            extra: self.extra@,
            operate_type: self.operate_type,
            operate_time: self.operate_time,
            create_time: self.create_time,
        }
    }
}

impl Clone for NoteHistory {
    fn clone(&self) -> (r: Self)
        ensures
            r@ == self@,
    {
        NoteHistory {
            id: self.id,
            note_id: self.note_id,
            old_content: self.old_content.clone(),
            new_content: self.new_content.clone(),
            extra: self.extra.clone(),
            operate_type: self.operate_type,
            operate_time: self.operate_time,
            create_time: self.create_time,
        }
    }
}

/// A note search: one page of the notes that lie in `notebook_id` (unless it
/// is 0), carry `tag_id` (unless it is 0) and hold `keyword` in their title or
/// content (unless it is empty).
#[derive(Debug)]
pub struct NoteSearchPageParam {
    pub page_param: PageParam,
    pub notebook_id: i64,
    pub tag_id: i64,
    pub keyword: String,
}

/// A history search: one page of the history rows of `note_id` (of all
/// notes when it is 0).
#[derive(Debug)]
pub struct NoteHistorySearchPageParam {
    pub page_param: PageParam,
    pub note_id: i64,
}

} // verus!
