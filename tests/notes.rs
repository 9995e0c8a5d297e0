use enote::error::{AppError, ErrorResponse};
use enote::keysort::{reverse_entries, sort_by_key};
use enote::text::{bytes_contain, char_count, str_contains, trim_spaces};
use enote::model::{
    Note, NoteHistorySearchPageParam, NoteSearchPageParam, Notebook, Tag, OPERATE_CREATE,
    OPERATE_DELETE, OPERATE_UPDATE,
};
use enote::page::{PageParam, PageResult};
use enote::store::NoteStore;

fn notebook(name: &str, sort_order: i32) -> Notebook {
    Notebook {
        id: 0,
        parent_id: 0,
        name: name.to_string(),
        description: String::new(),
        icon: String::new(),
        cls: String::new(),
        sort_order,
        create_time: None,
        update_time: None,
    }
}

fn tag(name: &str, sort_order: i32) -> Tag {
    Tag {
        id: 0,
        name: name.to_string(),
        icon: String::new(),
        cls: String::new(),
        sort_order,
        create_time: None,
        update_time: None,
    }
}

fn note(notebook_id: i64, title: &str, content: &str, tags: Vec<Tag>) -> Note {
    Note {
        id: 0,
        notebook_id,
        notebook_name: String::new(),
        title: title.to_string(),
        content: content.to_string(),
        content_type: 0,
        create_time: None,
        update_time: None,
        tags,
    }
}

fn search(notebook_id: i64, tag_id: i64, keyword: &str) -> NoteSearchPageParam {
    NoteSearchPageParam {
        page_param: PageParam { page_index: 1, page_size: 50 },
        notebook_id,
        tag_id,
        keyword: keyword.to_string(),
    }
}

fn history_search(note_id: i64) -> NoteHistorySearchPageParam {
    NoteHistorySearchPageParam { page_param: PageParam { page_index: 1, page_size: 50 }, note_id }
}

fn tag_ids(tags: &[Tag]) -> Vec<i64> {
    tags.iter().map(|t| t.id).collect()
}

#[test]
fn page_start_is_offset_of_first_row() {
    assert_eq!(PageParam { page_index: 1, page_size: 50 }.start(), 0);
    assert_eq!(PageParam { page_index: 3, page_size: 20 }.start(), 40);
    let d = PageParam::default();
    assert_eq!((d.page_index, d.page_size), (1, 50));
    assert_eq!(PageParam::default_page_index(), 1);
    assert_eq!(PageParam::default_page_size(), 50);
}

#[test]
fn total_pages_is_ceiling() {
    let mut p: PageResult<i64> = PageResult::with_data(101, vec![]);
    assert_eq!(p.total_pages, 0);
    p.total_pages(50);
    assert_eq!(p.total_pages, 3);
    let mut q: PageResult<i64> = PageResult::new(100, 7, vec![1]);
    q.total_pages(50);
    assert_eq!(q.total_pages, 2);
    let mut e: PageResult<i64> = PageResult::new(0, 0, vec![]);
    e.total_pages(50);
    assert_eq!(e.total_pages, 0);
    let mut z: PageResult<i64> = PageResult::new(5, 9, vec![]);
    z.total_pages(0);
    assert_eq!(z.total_pages, 9);
    let d: PageResult<i64> = PageResult::default();
    assert_eq!((d.total, d.total_pages, d.data.len()), (0, 0, 0));
    assert_eq!(PageResult::<i64>::default_total(), 0);
    assert_eq!(PageResult::<i64>::default_total_pages(), 0);
    assert!(PageResult::<i64>::default_data().is_empty());
}

#[test]
fn page_check_bounds() {
    assert!(PageParam { page_index: 1, page_size: 1 }.check());
    assert!(PageParam { page_index: 2, page_size: 1000 }.check());
    assert!(!PageParam { page_index: 0, page_size: 10 }.check());
    assert!(!PageParam { page_index: 1, page_size: 0 }.check());
    assert!(!PageParam { page_index: 1, page_size: 1001 }.check());
    assert!(!PageParam { page_index: i64::MAX, page_size: 2 }.check());
}

#[test]
fn error_responses_carry_codes() {
    let r = ErrorResponse::from_error(&AppError::not_found("note", 7), false);
    assert_eq!(r.code, "NOT_FOUND");
    assert_eq!(r.message, "note不存在");
    assert_eq!(r.details.as_deref(), Some("ID: 7"));
    let v = ErrorResponse::from_error(&AppError::validation("bad page"), false);
    assert_eq!((v.code.as_str(), v.message.as_str(), v.details), ("VALIDATION_ERROR", "bad page", None));
    let b = ErrorResponse::from_error(&AppError::business("no"), false);
    assert_eq!((b.code.as_str(), b.message.as_str()), ("BUSINESS_ERROR", "no"));
    let d = ErrorResponse::from_error(&AppError::Database("secret table".to_string()), false);
    assert_eq!(d.code, "DATABASE_ERROR");
    assert!(!d.message.contains("secret"));
    assert!(d.details.is_none());
    assert_eq!(d.message, "数据库操作失败，请稍后重试");
    let c = ErrorResponse::from_error(&AppError::Config("x".to_string()), false);
    assert_eq!(c.code, "CONFIG_ERROR");
    assert_eq!(c.message, "配置错误，请检查应用配置");
    let i = ErrorResponse::from_error(&AppError::Internal("y".to_string()), false);
    assert_eq!(i.code, "INTERNAL_ERROR");
    assert_eq!(i.message, "系统内部错误，请稍后重试");
    assert!(i.details.is_none());
}

#[test]
fn created_tags_read_back_in_order() {
    let mut s = NoteStore::new();
    let a = s.create_tag(&tag("a", 0), 10);
    let b = s.create_tag(&tag("b", 1), 10);
    let c = s.create_tag(&tag("c", 2), 10);
    let created = s
        .create(&note(0, "t", "x", vec![a.clone(), b.clone(), c.clone()]), 20)
        .unwrap();
    assert_eq!(tag_ids(&created.tags), vec![a.id, b.id, c.id]);
    let read = s.find_by_id(created.id).unwrap();
    assert_eq!(tag_ids(&read.tags), vec![a.id, b.id, c.id]);
    assert_eq!(read.tags[1].name, "b");
}

#[test]
fn read_orders_tags_by_sort_order() {
    let mut s = NoteStore::new();
    let a = s.create_tag(&tag("a", 0), 10);
    let b = s.create_tag(&tag("b", 0), 10);
    let mut high = a.clone();
    high.sort_order = 5;
    let mut low = b.clone();
    low.sort_order = 1;
    let created = s.create(&note(0, "t", "x", vec![high, low]), 20).unwrap();
    assert_eq!(tag_ids(&created.tags), vec![b.id, a.id]);
}

#[test]
fn links_to_missing_tags_are_skipped() {
    let mut s = NoteStore::new();
    let a = s.create_tag(&tag("a", 0), 10);
    let mut ghost_tag = tag("gone", 1);
    ghost_tag.id = 99;
    let created = s.create(&note(0, "t", "x", vec![a.clone(), ghost_tag]), 20).unwrap();
    assert_eq!(tag_ids(&created.tags), vec![a.id]);
}

#[test]
fn duplicate_tags_are_refused() {
    let mut s = NoteStore::new();
    let a = s.create_tag(&tag("a", 0), 10);
    let r = s.create(&note(0, "t", "x", vec![a.clone(), a.clone()]), 20);
    assert!(matches!(r, Err(AppError::Database(_))));
    assert_eq!(s.total_count(), 0);
    assert!(s.histories.is_empty());
}

#[test]
fn create_writes_one_history_row() {
    let mut s = NoteStore::new();
    let n = s.create(&note(0, "Plan", "draft", vec![]), 20).unwrap();
    assert!(n.id > 0);
    assert_eq!(n.create_time, Some(20));
    assert_eq!(n.update_time, Some(20));
    let h = s.search_histories(&history_search(n.id)).unwrap();
    assert_eq!(h.total, 1);
    assert_eq!(h.data[0].operate_type, OPERATE_CREATE);
    assert_eq!(h.data[0].old_content, "");
    assert_eq!(h.data[0].new_content, "draft");
    assert_eq!(h.data[0].extra.title, "Plan");
}

#[test]
fn title_only_update_writes_one_history_row() {
    let mut s = NoteStore::new();
    let t = s.create_tag(&tag("a", 0), 10);
    let n = s.create(&note(0, "Old", "body", vec![t.clone()]), 20).unwrap();
    let mut changed = n.clone();
    changed.title = "New".to_string();
    let updated = s.update(&changed, 30).unwrap().unwrap();
    assert_eq!(updated.title, "New");
    assert_eq!(updated.update_time, Some(30));
    let h = s.search_histories(&history_search(n.id)).unwrap();
    assert_eq!(h.total, 2);
    assert_eq!(h.data[0].operate_type, OPERATE_UPDATE);
    assert_eq!(h.data[0].extra.title, "Old");
    assert_eq!(h.data[0].old_content, "body");
    assert_eq!(h.data[0].new_content, "body");
    assert_eq!(tag_ids(&h.data[0].extra.tags), vec![t.id]);
}

#[test]
fn noop_update_writes_nothing() {
    let mut s = NoteStore::new();
    let t = s.create_tag(&tag("a", 0), 10);
    let n = s.create(&note(0, "T", "body", vec![t]), 20).unwrap();
    let same = s.update(&n, 30).unwrap().unwrap();
    assert_eq!(same.update_time, Some(20));
    assert_eq!(s.histories.len(), 1);
    assert_eq!(s.search_histories(&history_search(n.id)).unwrap().total, 1);
}

#[test]
fn tag_change_alone_writes_history_and_keeps_update_time() {
    let mut s = NoteStore::new();
    let a = s.create_tag(&tag("a", 0), 10);
    let b = s.create_tag(&tag("b", 1), 10);
    let n = s.create(&note(0, "T", "body", vec![a.clone()]), 20).unwrap();
    let kept_link = s.note_tags[0].id;
    let mut changed = n.clone();
    changed.tags = vec![a.clone(), b.clone()];
    let updated = s.update(&changed, 30).unwrap().unwrap();
    assert_eq!(updated.update_time, Some(20));
    assert_eq!(tag_ids(&updated.tags), vec![a.id, b.id]);
    assert_eq!(s.note_tags[0].id, kept_link);
    assert_eq!(s.histories.len(), 2);
    assert_eq!(tag_ids(&s.histories[1].extra.tags), vec![a.id]);
    let mut fewer = updated.clone();
    fewer.tags = vec![b.clone()];
    let after = s.update(&fewer, 40).unwrap().unwrap();
    assert_eq!(tag_ids(&after.tags), vec![b.id]);
    assert_eq!(s.note_tags.len(), 1);
}

#[test]
fn update_of_missing_note_is_none() {
    let mut s = NoteStore::new();
    let mut n = note(0, "T", "body", vec![]);
    n.id = 5;
    assert!(s.update(&n, 30).unwrap().is_none());
    assert!(s.histories.is_empty());
}

#[test]
fn delete_writes_history_and_removes_note() {
    let mut s = NoteStore::new();
    let t = s.create_tag(&tag("a", 0), 10);
    let n = s.create(&note(0, "T", "final", vec![t]), 20).unwrap();
    s.delete_by_id(n.id, 30);
    assert!(s.find_by_id(n.id).is_none());
    assert!(s.note_tags.is_empty());
    let h = s.search_histories(&history_search(n.id)).unwrap();
    assert_eq!(h.total, 2);
    assert_eq!(h.data[0].operate_type, OPERATE_DELETE);
    assert_eq!(h.data[0].old_content, "final");
    assert_eq!(h.data[0].new_content, "");
    assert_eq!(h.data[0].extra.tags.len(), 1);
    s.delete_by_id(n.id, 40);
    assert_eq!(s.histories.len(), 2);
}

#[test]
fn search_filters_by_notebook_keyword_and_both() {
    let mut s = NoteStore::new();
    for name in ["one", "two", "three"] {
        s.create_notebook(&notebook(name, 0), 1);
    }
    s.create(&note(3, "foo plan", "a", vec![]), 10).unwrap();
    s.create(&note(3, "bar", "b", vec![]), 11).unwrap();
    s.create(&note(2, "baz", "has foo inside", vec![]), 12).unwrap();
    s.create(&note(1, "qux", "c", vec![]), 13).unwrap();
    let by_notebook = s.search_page(&search(3, 0, "")).unwrap();
    assert_eq!(by_notebook.total, 2);
    assert!(by_notebook.data.iter().all(|n| n.notebook_id == 3));
    assert_eq!(by_notebook.data[0].notebook_name, "three");
    let by_keyword = s.search_page(&search(0, 0, "foo")).unwrap();
    assert_eq!(by_keyword.total, 2);
    assert!(by_keyword.data.iter().all(|n| n.title.contains("foo") || n.content.contains("foo")));
    let both = s.search_page(&search(3, 0, "foo")).unwrap();
    assert_eq!(both.total, 1);
    assert_eq!(both.data[0].title, "foo plan");
    let none = s.search_page(&search(1, 0, "foo")).unwrap();
    assert_eq!((none.total, none.total_pages, none.data.len()), (0, 0, 0));
}

#[test]
fn search_filters_by_tag() {
    let mut s = NoteStore::new();
    let a = s.create_tag(&tag("a", 0), 1);
    let b = s.create_tag(&tag("b", 0), 1);
    s.create(&note(0, "x", "", vec![a.clone()]), 10).unwrap();
    let y = s.create(&note(0, "y", "", vec![b.clone()]), 11).unwrap();
    let r = s.search_page(&search(0, b.id, "")).unwrap();
    assert_eq!(r.total, 1);
    assert_eq!(r.data[0].id, y.id);
    assert_eq!(tag_ids(&r.data[0].tags), vec![b.id]);
}

#[test]
fn search_orders_newest_first_and_pages() {
    let mut s = NoteStore::new();
    let mut ids = vec![];
    for i in 0..5 {
        ids.push(s.create(&note(0, "n", "", vec![]), 100 + (i % 2)).unwrap().id);
    }
    let mut p = search(0, 0, "");
    p.page_param = PageParam { page_index: 1, page_size: 2 };
    let first = s.search_page(&p).unwrap();
    assert_eq!(first.total, 5);
    assert_eq!(first.total_pages, 3);
    assert_eq!(first.data.iter().map(|n| n.id).collect::<Vec<_>>(), vec![ids[3], ids[1]]);
    p.page_param.page_index = 3;
    let last = s.search_page(&p).unwrap();
    assert_eq!(last.data.iter().map(|n| n.id).collect::<Vec<_>>(), vec![ids[0]]);
    p.page_param.page_index = 9;
    assert!(s.search_page(&p).unwrap().data.is_empty());
}

#[test]
fn search_refuses_malformed_requests() {
    let s = NoteStore::new();
    let mut p = search(0, 0, "");
    p.page_param.page_size = 0;
    assert!(matches!(s.search_page(&p), Err(AppError::Validation(_))));
    p.page_param.page_size = 1001;
    assert!(matches!(s.search_page(&p), Err(AppError::Validation(_))));
    let long = search(0, 0, &"k".repeat(501));
    assert!(matches!(s.search_page(&long), Err(AppError::Validation(_))));
    let fits = search(0, 0, &"k".repeat(500));
    assert!(s.search_page(&fits).is_ok());
    let mut h = history_search(0);
    h.page_param.page_index = 0;
    assert!(matches!(s.search_histories(&h), Err(AppError::Validation(_))));
}

#[test]
fn stats_count_notes_per_notebook() {
    let mut s = NoteStore::new();
    s.create_notebook(&notebook("one", 0), 1);
    s.create_notebook(&notebook("two", 0), 1);
    s.create(&note(1, "a", "", vec![]), 10).unwrap();
    s.create(&note(1, "b", "", vec![]), 10).unwrap();
    s.create(&note(2, "c", "", vec![]), 10).unwrap();
    s.create(&note(0, "d", "", vec![]), 10).unwrap();
    let all = s.stats(&search(0, 0, ""));
    assert_eq!(all.total, 4);
    assert_eq!(all.notebook_counts.get(&1), Some(&2));
    assert_eq!(all.notebook_counts.get(&2), Some(&1));
    assert_eq!(all.notebook_counts.get(&0), Some(&1));
    let one = s.stats(&search(0, 0, "c"));
    assert_eq!(one.total, 1);
    assert_eq!(one.notebook_counts.len(), 1);
    let none = s.stats(&search(0, 0, "zzz"));
    assert_eq!(none.total, 0);
    assert!(none.notebook_counts.is_empty());
}

#[test]
fn histories_list_newest_first() {
    let mut s = NoteStore::new();
    let a = s.create(&note(0, "a", "1", vec![]), 10).unwrap();
    let b = s.create(&note(0, "b", "1", vec![]), 11).unwrap();
    let mut a2 = a.clone();
    a2.content = "2".to_string();
    s.update(&a2, 12).unwrap();
    let all = s.search_histories(&history_search(0)).unwrap();
    assert_eq!(all.total, 3);
    assert_eq!(all.data.iter().map(|h| h.id).collect::<Vec<_>>(), vec![3, 2, 1]);
    let only_b = s.search_histories(&history_search(b.id)).unwrap();
    assert_eq!(only_b.total, 1);
    assert_eq!(only_b.data[0].note_id, b.id);
}

#[test]
fn work_plan_scenario() {
    let mut s = NoteStore::new();
    let work = s.create_notebook(&notebook("Work", 0), 1);
    assert_eq!(work.id, 1);
    for i in 0..5 {
        s.create_tag(&tag(if i == 4 { "urgent" } else { "other" }, 0), 1);
    }
    let urgent = s.find_all_tags().into_iter().find(|t| t.id == 5).unwrap();
    assert_eq!(urgent.name, "urgent");
    let created = s.create(&note(1, "Plan", "draft", vec![urgent.clone()]), 10).unwrap();
    assert!(created.id > 0);
    assert_eq!(created.notebook_name, "Work");
    assert_eq!(tag_ids(&created.tags), vec![5]);
    let h1 = s.search_histories(&history_search(created.id)).unwrap();
    assert_eq!(h1.total, 1);
    assert_eq!(h1.data[0].operate_type, 1);
    assert_eq!(h1.data[0].new_content, "draft");
    let mut edit = created.clone();
    edit.content = "final".to_string();
    s.update(&edit, 20).unwrap().unwrap();
    let h2 = s.search_histories(&history_search(created.id)).unwrap();
    assert_eq!(h2.total, 2);
    assert_eq!(h2.data[0].operate_type, 2);
    assert_eq!(h2.data[0].old_content, "draft");
    assert_eq!(h2.data[0].new_content, "final");
    assert_eq!(h2.data[0].extra.title, "Plan");
    assert_eq!(h2.data[0].extra.notebook_name, "Work");
    s.delete_by_id(created.id, 30);
    let h3 = s.search_histories(&history_search(created.id)).unwrap();
    assert_eq!(h3.total, 3);
    assert_eq!(h3.data[0].operate_type, 3);
    assert_eq!(h3.data[0].old_content, "final");
    assert!(s.find_by_id(created.id).is_none());
}

#[test]
fn notebooks_and_tags_crud() {
    let mut s = NoteStore::new();
    let a = s.create_notebook(&notebook("a", 1), 10);
    let b = s.create_notebook(&notebook("b", 5), 10);
    let c = s.create_notebook(&notebook("c", 1), 20);
    let listed: Vec<i64> = s.find_all_notebooks().iter().map(|n| n.id).collect();
    assert_eq!(listed, vec![b.id, c.id, a.id]);
    let same = s.update_notebook(&a, 30).unwrap();
    assert_eq!(same.update_time, Some(10));
    let mut renamed = a.clone();
    renamed.name = "A".to_string();
    let r = s.update_notebook(&renamed, 30).unwrap();
    assert_eq!(r.update_time, Some(30));
    assert_eq!(s.notebooks[0].name, "A");
    let mut missing = a.clone();
    missing.id = 42;
    assert!(s.update_notebook(&missing, 30).is_none());
    s.delete_notebook_by_id(b.id);
    assert_eq!(s.find_all_notebooks().len(), 2);
    s.delete_notebook_by_id(b.id);
    assert_eq!(s.notebooks.len(), 2);

    let t1 = s.create_tag(&tag("x", 0), 10);
    let t2 = s.create_tag(&tag("y", 3), 10);
    assert_eq!(s.find_all_tags().iter().map(|t| t.id).collect::<Vec<_>>(), vec![t2.id, t1.id]);
    let mut t1b = t1.clone();
    t1b.sort_order = 9;
    assert_eq!(s.update_tag(&t1b, 40).unwrap().update_time, Some(40));
    assert_eq!(s.find_all_tags()[0].id, t1.id);
    s.delete_tag_by_id(t1.id);
    assert_eq!(s.tags.len(), 1);
}

#[test]
fn search_keyword_is_trimmed() {
    let mut s = NoteStore::new();
    s.create(&note(0, "foo", "", vec![]), 10).unwrap();
    s.create(&note(0, "bar", "", vec![]), 11).unwrap();
    let r = s.search_page(&search(0, 0, "  foo\t")).unwrap();
    assert_eq!(r.total, 1);
    assert_eq!(r.data[0].title, "foo");
    let blank = s.search_page(&search(0, 0, "   ")).unwrap();
    assert_eq!(blank.total, 2);
}

#[test]
fn text_search_on_utf8() {
    assert!(str_contains("笔记 note", "记 n"));
    assert!(!str_contains("abc", "abd"));
    assert!(str_contains("abc", ""));
    assert!(!str_contains("", "a"));
    assert!(bytes_contain(b"aab", b"ab"));
    assert_eq!(trim_spaces(" \n x y \r"), "x y");
    assert_eq!(char_count("笔记"), 2);
}

#[test]
fn key_sort_is_stable() {
    let v = vec![(2, 0, 0), (1, 5, 1), (2, 0, 2), (1, 1, 3)];
    let s = sort_by_key(&v);
    assert_eq!(s, vec![(1, 1, 3), (1, 5, 1), (2, 0, 0), (2, 0, 2)]);
    assert_eq!(reverse_entries(&s)[0], (2, 0, 2));
}

#[test]
fn well_formedness_check() {
    let mut s = NoteStore::new();
    assert!(s.is_well_formed());
    s.create(&note(0, "a", "", vec![]), 1).unwrap();
    assert!(s.is_well_formed());
    s.notes[0].id = 7;
    assert!(!s.is_well_formed());
}

#[test]
fn update_counts_repeated_tags_once() {
    let mut s = NoteStore::new();
    let a = s.create_tag(&tag("a", 0), 10);
    let b = s.create_tag(&tag("b", 0), 10);
    let n = s.create(&note(0, "T", "body", vec![a.clone()]), 20).unwrap();
    let mut same = n.clone();
    same.tags = vec![a.clone(), a.clone()];
    let r = s.update(&same, 30).unwrap().unwrap();
    assert_eq!(r.update_time, Some(20));
    assert_eq!(s.histories.len(), 1);
    let mut retitled = same;
    retitled.title = "U".to_string();
    s.update(&retitled, 31).unwrap().unwrap();
    assert_eq!(s.histories.len(), 2);
    assert_eq!(s.histories[1].extra.title, "T");
    let mut b_first = b.clone();
    b_first.sort_order = 3;
    let mut b_again = b.clone();
    b_again.sort_order = 9;
    let mut more = n.clone();
    more.title = "U".to_string();
    more.tags = vec![a.clone(), b_first, b_again];
    let after = s.update(&more, 40).unwrap().unwrap();
    assert_eq!(tag_ids(&after.tags), vec![a.id, b.id]);
    assert_eq!(s.note_tags.len(), 2);
    assert_eq!(s.note_tags[1].sort_order, 3);
    assert!(s.is_well_formed());
}

#[test]
fn keyword_matches_ascii_letters_in_any_case() {
    let mut s = NoteStore::new();
    s.create(&note(0, "Foo Plan", "", vec![]), 10).unwrap();
    s.create(&note(0, "other", "FOOD", vec![]), 11).unwrap();
    s.create(&note(0, "bar", "", vec![]), 12).unwrap();
    assert_eq!(s.search_page(&search(0, 0, "foo")).unwrap().total, 2);
    assert_eq!(s.search_page(&search(0, 0, "PLAN")).unwrap().total, 1);
    assert!(str_contains("ÄBC", "äbc") == false);
}

#[test]
fn keyword_cap_counts_trimmed_text() {
    let s = NoteStore::new();
    let padded = format!("  {}  ", "k".repeat(500));
    assert!(s.search_page(&search(0, 0, &padded)).is_ok());
    let long = format!(" {} ", "k".repeat(501));
    assert!(matches!(s.search_page(&search(0, 0, &long)), Err(AppError::Validation(_))));
}

#[test]
fn well_formedness_requires_unique_links() {
    let mut s = NoteStore::new();
    let a = s.create_tag(&tag("a", 0), 1);
    s.create(&note(0, "x", "", vec![a.clone()]), 2).unwrap();
    assert!(s.is_well_formed());
    let mut dup = s.note_tags[0];
    dup.id = s.next_note_tag_id;
    s.note_tags.push(dup);
    s.next_note_tag_id += 1;
    assert!(!s.is_well_formed());
}

#[test]
fn error_details_show_ids_and_debug_causes() {
    let neg = ErrorResponse::from_error(&AppError::not_found("tag", -120), false);
    assert_eq!(neg.details.as_deref(), Some("ID: -120"));
    let min = ErrorResponse::from_error(&AppError::not_found("tag", i64::MIN), false);
    assert_eq!(min.details.as_deref(), Some("ID: -9223372036854775808"));
    let zero = ErrorResponse::from_error(&AppError::not_found("tag", 0), true);
    assert_eq!(zero.details.as_deref(), Some("ID: 0"));
    let big = ErrorResponse::from_error(&AppError::not_found("tag", 1234567890), false);
    assert_eq!(big.details.as_deref(), Some("ID: 1234567890"));
    let d = ErrorResponse::from_error(&AppError::Database("locked".to_string()), true);
    assert_eq!(d.details.as_deref(), Some("locked"));
    assert_eq!(d.message, "数据库操作失败，请稍后重试");
    let c = ErrorResponse::from_error(&AppError::Config("no url".to_string()), true);
    assert_eq!(c.details.as_deref(), Some("no url"));
    let i = ErrorResponse::from_error(&AppError::Internal("boom".to_string()), true);
    assert_eq!(i.details.as_deref(), Some("boom"));
    let v = ErrorResponse::from_error(&AppError::validation("bad"), true);
    assert!(v.details.is_none());
}
