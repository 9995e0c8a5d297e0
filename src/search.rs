//! Searching notes and note histories, one page at a time, and counting the
//! notes that a search matches per notebook.

use std::collections::HashMap;

use vstd::prelude::*;

use crate::error::AppError;
use crate::keysort::{KeyEntry, reverse_entries, reversed, sort_by_key, sort_entries};
use crate::model::{Note, NoteHistory, NoteHistorySearchPageParam, NoteHistoryView, NoteRow, NoteSearchPageParam, NoteView};
use crate::page::{PageResult, pages_for};
use crate::store::{NoteStore, note_ids, history_ids};
use crate::text::{char_count, str_contains, text_contains, trim_spaces, trimmed};

verus! {

broadcast use vstd::std_specs::hash::group_hash_axioms;

/// Longest keyword, in characters, that a search accepts.
pub const MAX_KEYWORD_CHARS: usize = 500;

/// The store links note `note_id` to tag `tag_id`.
pub open spec fn has_link(s: NoteStore, note_id: i64, tag_id: i64) -> bool {
    exists|k: int|
        0 <= k < s.note_tags@.len() && s.note_tags@[k].note_id == note_id
            && s.note_tags@[k].tag_id == tag_id
}

/// A note row passes every filter of a search: the notebook filter (unless
/// it is 0), the tag filter (unless it is 0) and the keyword, which must occur
/// in the title or the content (unless it is empty).
pub open spec fn note_matches(s: NoteStore, notebook_id: i64, tag_id: i64, keyword: Seq<char>, row: NoteRow) -> bool {
    &&& (notebook_id <= 0 || row.notebook_id == notebook_id)
    &&& (tag_id <= 0 || has_link(s, row.id, tag_id))
    &&& (keyword.len() == 0 || text_contains(row.title@, keyword) || text_contains(row.content@, keyword))
}

/// Sort entries `(update time, id, position)` of the first `n` note rows
/// that pass the filters, in table order.
pub open spec fn match_entries(s: NoteStore, notebook_id: i64, tag_id: i64, keyword: Seq<char>, n: int) -> Seq<KeyEntry>
    decreases n,
{
    if n <= 0 {
        Seq::empty()
    } else {
        let rest = match_entries(s, notebook_id, tag_id, keyword, n - 1);
        let row = s.notes@[n - 1];
        if note_matches(s, notebook_id, tag_id, keyword, row) {
            rest.push((row.update_time, row.id, (n - 1) as usize))
        } else {
            rest
        }
    }
}

/// The notes that a search matches, most recently updated first, ties by
/// descending id.
pub open spec fn search_order(s: NoteStore, notebook_id: i64, tag_id: i64, keyword: Seq<char>) -> Seq<KeyEntry> {
    reversed(sort_entries(match_entries(s, notebook_id, tag_id, keyword, s.notes@.len() as int)))
}

/// The page of `s` that starts at offset `start` and holds at most `size`
/// elements.
pub open spec fn page_of<A>(s: Seq<A>, start: int, size: int) -> Seq<A> {
    let lo = if start < s.len() { start } else { s.len() as int };
    let hi = if start + size < s.len() { start + size } else { s.len() as int };
    s.subrange(lo, hi)
}

/// The keyword a search matches with: the given one without white space at
/// its ends.
pub open spec fn search_keyword(p: NoteSearchPageParam) -> Seq<char> {
    trimmed(p.keyword@)
}

/// A note search that is accepted: a valid page request and a keyword of at
/// most `MAX_KEYWORD_CHARS` characters once trimmed.
pub open spec fn search_valid(p: NoteSearchPageParam) -> bool {
    p.page_param.is_valid() && search_keyword(p).len() <= MAX_KEYWORD_CHARS
}

pub open spec fn notes_view(s: Seq<Note>) -> Seq<NoteView> {
    s.map_values(|n: Note| n@)
}

pub open spec fn histories_view(s: Seq<NoteHistory>) -> Seq<NoteHistoryView> {
    s.map_values(|h: NoteHistory| h@)
}

/// The number of the given rows in each notebook.
pub open spec fn notebook_counts(s: NoteStore, entries: Seq<KeyEntry>) -> Map<i64, i64>
    decreases entries.len(),
{
    if entries.len() == 0 {
        Map::empty()
    } else {
        let rest = notebook_counts(s, entries.drop_last());
        let nb = s.notes@[entries.last().2 as int].notebook_id;
        if rest.contains_key(nb) {
            rest.insert(nb, (rest[nb] + 1) as i64)
        } else {
            rest.insert(nb, 1)
        }
    }
}

/// A history row passes the note filter (every row does when it is 0).
pub open spec fn history_matches(h: NoteHistory, note_id: i64) -> bool {
    note_id <= 0 || h.note_id == note_id
}

/// The history rows of the first `n` that pass the note filter, in table
/// order.
pub open spec fn matching_histories(s: Seq<NoteHistory>, note_id: i64, n: int) -> Seq<NoteHistory>
    decreases n,
{
    if n <= 0 {
        Seq::empty()
    } else {
        let rest = matching_histories(s, note_id, n - 1);
        if history_matches(s[n - 1], note_id) {
            rest.push(s[n - 1])
        } else {
            rest
        }
    }
}

/// The history rows that pass the note filter, newest (highest id) first.
pub open spec fn history_order(s: NoteStore, note_id: i64) -> Seq<NoteHistory> {
    let m = matching_histories(s.histories@, note_id, s.histories@.len() as int);
    Seq::new(m.len(), |k: int| m[m.len() - 1 - k])
}

/// The outcome of a note count: how many notes match, and how many of them
/// lie in each notebook.
#[derive(Debug)]
pub struct NoteStatsResult {
    pub total: i64,
    pub notebook_counts: HashMap<i64, i64>,
}

/// One page of a note search together with the per-notebook counts.
#[derive(Debug)]
pub struct NotePageResult {
    pub page_result: PageResult<Note>,
    pub notebook_counts: HashMap<i64, i64>,
}

impl NotePageResult {
    pub fn new(page_result: PageResult<Note>, notebook_counts: HashMap<i64, i64>) -> (r: Self)
        ensures
            r.page_result == page_result,
            r.notebook_counts == notebook_counts,
    {
        NotePageResult { page_result, notebook_counts }
    }
}

proof fn lemma_match_entries(s: NoteStore, notebook_id: i64, tag_id: i64, keyword: Seq<char>, n: int)
    requires
        0 <= n <= s.notes@.len(),
        n <= usize::MAX,
    ensures
        match_entries(s, notebook_id, tag_id, keyword, n).len() <= n,
        forall|k: int|
            0 <= k < match_entries(s, notebook_id, tag_id, keyword, n).len() ==> {
                let e = #[trigger] match_entries(s, notebook_id, tag_id, keyword, n)[k];
                &&& (e.2 as int) < n
                &&& note_matches(s, notebook_id, tag_id, keyword, s.notes@[e.2 as int])
            },
    decreases n,
{
    if n > 0 {
        lemma_match_entries(s, notebook_id, tag_id, keyword, n - 1);
        let rest = match_entries(s, notebook_id, tag_id, keyword, n - 1);
        let all = match_entries(s, notebook_id, tag_id, keyword, n);
        assert forall|k: int| 0 <= k < all.len() implies {
            let e = #[trigger] all[k];
            &&& (e.2 as int) < n
            &&& note_matches(s, notebook_id, tag_id, keyword, s.notes@[e.2 as int])
        } by {
            if k < rest.len() {
                assert(all[k] == rest[k]);
            }
        }
    }
}

proof fn lemma_matching_histories(s: Seq<NoteHistory>, note_id: i64, n: int)
    requires
        0 <= n <= s.len(),
    ensures
        matching_histories(s, note_id, n).len() <= n,
    decreases n,
{
    if n > 0 {
        lemma_matching_histories(s, note_id, n - 1);
    }
}

/// Turns a validated page offset and size into positions in a list of
/// `len` elements: where the page starts and where it ends.
fn page_bounds(start: i64, size: i64, len: usize) -> (r: (usize, usize))
    requires
        start >= 0,
        size >= 1,
    ensures
        r.0 == (if start < len { start as int } else { len as int }),
        r.1 == (if start + size < len { start + size } else { len as int }),
        r.0 <= r.1 <= len,
{
    let lo: usize = if (start as u128) < (len as u128) { start as usize } else { len };
    let end: i128 = (start as i128) + (size as i128);
    let hi: usize = if end < (len as i128) { end as usize } else { len };
    (lo, hi)
}

impl NoteStore {
    fn has_link_exec(&self, note_id: i64, tag_id: i64) -> (r: bool)
        ensures
            r == has_link(*self, note_id, tag_id),
    {
        let mut k: usize = 0;
        while k < self.note_tags.len()
            invariant
                k <= self.note_tags@.len(),
                forall|j: int|
                    0 <= j < k ==> !(#[trigger] self.note_tags@[j].note_id == note_id
                        && self.note_tags@[j].tag_id == tag_id),
            decreases self.note_tags@.len() - k,
        {
            if self.note_tags[k].note_id == note_id && self.note_tags[k].tag_id == tag_id {
                return true;
            }
            k = k + 1;
        }
        false
    }

    fn row_matches(&self, notebook_id: i64, tag_id: i64, keyword: &str, i: usize) -> (r: bool)
        requires
            i < self.notes@.len(),
        ensures
            r == note_matches(*self, notebook_id, tag_id, keyword@, self.notes@[i as int]),
    {
        let row = &self.notes[i];
        if notebook_id > 0 && row.notebook_id != notebook_id {
            return false;
        }
        if tag_id > 0 && !self.has_link_exec(row.id, tag_id) {
            return false;
        }
        if keyword.is_empty() {
            return true;
        }
        str_contains(row.title.as_str(), keyword) || str_contains(row.content.as_str(), keyword)
    }

    /// Sort entries of the matching notes, in table order.
    fn matching_entries(&self, param: &NoteSearchPageParam) -> (r: Vec<KeyEntry>)
        ensures
            r@ == match_entries(*self, param.notebook_id, param.tag_id, search_keyword(*param), self.notes@.len() as int),
    {
        let keyword = trim_spaces(param.keyword.as_str());
        let mut r: Vec<KeyEntry> = Vec::new();
        let mut i: usize = 0;
        while i < self.notes.len()
            invariant
                i <= self.notes@.len(),
                keyword@ == search_keyword(*param),
                r@ == match_entries(*self, param.notebook_id, param.tag_id, keyword@, i as int),
            decreases self.notes@.len() - i,
        {
            if self.row_matches(param.notebook_id, param.tag_id, keyword, i) {
                r.push((self.notes[i].update_time, self.notes[i].id, i));
            }
            i = i + 1;
        }
        r
    }

    /// Checks a note search: a valid page request and a keyword that is not
    /// too long.
    fn check_search(param: &NoteSearchPageParam) -> (r: Result<(), AppError>)
        ensures
            r is Ok <==> search_valid(*param),
            r matches Err(e) ==> e is Validation,
    {
        if !param.page_param.check() {
            return Err(AppError::validation("invalid page index or page size"));
        }
        if char_count(trim_spaces(param.keyword.as_str())) > MAX_KEYWORD_CHARS {
            return Err(AppError::validation("keyword is too long"));
        }
        Ok(())
    }

    /// One page of the notes that pass the search's filters, most recently
    /// updated first (ties by descending id), each with its notebook's name
    /// and its tags; with the number of matching notes and of pages. A
    /// malformed page request or an overlong keyword is refused.
    pub fn search_page(&self, param: &NoteSearchPageParam) -> (r: Result<PageResult<Note>, AppError>)
        requires
            self.wf(),
        ensures
            r is Ok <==> search_valid(*param),
            match r {
                Err(e) => e is Validation,
                Ok(p) => {
                    let order = search_order(*self, param.notebook_id, param.tag_id, search_keyword(*param));
                    let size = param.page_param.page_size as int;
                    &&& p.total == order.len()
                    &&& p.total_pages == if order.len() > 0 { pages_for(order.len() as int, size) } else { 0 }
                    &&& notes_view(p.data@) == page_of(order, param.page_param.spec_start(), size).map_values(
                        |e: KeyEntry| self.note_view(self.notes@[e.2 as int]),
                    )
                    &&& forall|k: int| 0 <= k < p.data@.len() ==> exists|i: int|
                        0 <= i < self.notes@.len()
                            && note_matches(*self, param.notebook_id, param.tag_id, search_keyword(*param), self.notes@[i])
                            && (#[trigger] p.data@[k])@ == self.note_view(self.notes@[i])
                },
            },
    {
        Self::check_search(param)?;
        let entries = self.matching_entries(param);
        let row_count = self.notes.len();
        let ghost n = self.notes@.len() as int;
        proof {
            lemma_match_entries(*self, param.notebook_id, param.tag_id, search_keyword(*param), n);
            assert(note_ids(self.notes@).len() == n);
        }
        if entries.len() == 0 {
            let p = PageResult::<Note>::default();
            proof {
                assert(p.data@ =~= Seq::<Note>::empty());
                assert(notes_view(p.data@) =~= Seq::<NoteView>::empty());
                crate::keysort::lemma_sort_keeps(entries@, |e: KeyEntry| true);
            }
            return Ok(p);
        }
        let total = entries.len() as i64;
        let sorted = sort_by_key(&entries);
        let ordered = reverse_entries(&sorted);
        proof {
            crate::keysort::lemma_sort_keeps(
                entries@,
                |e: KeyEntry|
                    (e.2 as int) < n && note_matches(*self, param.notebook_id, param.tag_id, search_keyword(*param), self.notes@[e.2 as int]),
            );
            assert forall|k: int| 0 <= k < ordered@.len() implies (#[trigger] ordered@[k].2 as int) < n
                && note_matches(*self, param.notebook_id, param.tag_id, search_keyword(*param), self.notes@[ordered@[k].2 as int]) by {
                assert(ordered@[k] == sorted@[sorted@.len() - 1 - k]);
            }
        }
        let size = param.page_param.page_size;
        let (lo, hi) = page_bounds(param.page_param.start(), size, ordered.len());
        let ghost page = page_of(ordered@, param.page_param.spec_start(), size as int);
        proof {
            assert(page =~= ordered@.subrange(lo as int, hi as int));
        }
        let mut data: Vec<Note> = Vec::new();
        let mut j: usize = lo;
        while j < hi
            invariant
                self.wf(),
                lo <= j <= hi <= ordered@.len(),
                page == ordered@.subrange(lo as int, hi as int),
                n == self.notes@.len(),
                forall|k: int| 0 <= k < ordered@.len() ==> (#[trigger] ordered@[k].2 as int) < n
                    && note_matches(*self, param.notebook_id, param.tag_id, search_keyword(*param), self.notes@[ordered@[k].2 as int]),
                notes_view(data@) =~= page.take(j - lo).map_values(
                    |e: KeyEntry| self.note_view(self.notes@[e.2 as int]),
                ),
                forall|k: int| 0 <= k < data@.len() ==> exists|i: int|
                    0 <= i < self.notes@.len()
                        && note_matches(*self, param.notebook_id, param.tag_id, search_keyword(*param), self.notes@[i])
                        && (#[trigger] data@[k])@ == self.note_view(self.notes@[i]),
            decreases hi - j,
        {
            let p = ordered[j].2;
            proof {
                assert((ordered@[j as int].2 as int) < n);
                assert((p as int) < n);
            }
            let note = self.note_at(p);
            let ghost before = data@;
            data.push(note);
            proof {
                assert(data@[data@.len() - 1] == note);
                assert forall|k: int| 0 <= k < data@.len() implies exists|i: int|
                    0 <= i < self.notes@.len()
                        && note_matches(*self, param.notebook_id, param.tag_id, search_keyword(*param), self.notes@[i])
                        && (#[trigger] data@[k])@ == self.note_view(self.notes@[i]) by {
                    if k < before.len() {
                        assert(data@[k] == before[k]);
                    } else {
                        assert(note_matches(*self, param.notebook_id, param.tag_id, search_keyword(*param), self.notes@[p as int]));
                    }
                }
                assert(notes_view(data@) =~= notes_view(before).push(note@));
                assert(page.take(j + 1 - lo) =~= page.take(j - lo).push(ordered@[j as int]));
            }
            j = j + 1;
        }
        proof {
            assert(page.take(j - lo) =~= page);
        }
        let mut result = PageResult::with_data(total, data);
        result.total_pages(size);
        Ok(result)
    }

    /// How many notes pass the search's filters, and how many of them lie in
    /// each notebook. Only the filters of the search count; its page does not.
    pub fn stats(&self, param: &NoteSearchPageParam) -> (r: NoteStatsResult)
        requires
            self.wf(),
        ensures
            ({
                let entries = match_entries(*self, param.notebook_id, param.tag_id, search_keyword(*param), self.notes@.len() as int);
                &&& r.total == entries.len()
                &&& r.notebook_counts@ == notebook_counts(*self, entries)
            }),
    {
        let entries = self.matching_entries(param);
        let row_count = self.notes.len();
        let ghost n = self.notes@.len() as int;
        proof {
            lemma_match_entries(*self, param.notebook_id, param.tag_id, search_keyword(*param), n);
            assert(note_ids(self.notes@).len() == n);
        }
        let mut counts: HashMap<i64, i64> = HashMap::new();
        let mut k: usize = 0;
        while k < entries.len()
            invariant
                k <= entries@.len(),
                entries@.len() <= n,
                n == self.notes@.len(),
                n < self.next_note_id,
                forall|q: int| 0 <= q < entries@.len() ==> ((#[trigger] entries@[q]).2 as int) < n,
                counts@ == notebook_counts(*self, entries@.take(k as int)),
                forall|key: i64| #[trigger] counts@.contains_key(key) ==> 1 <= counts@[key] <= k,
            decreases entries@.len() - k,
        {
            proof {
                assert(entries@.take(k + 1).drop_last() =~= entries@.take(k as int));
            }
            let nb = self.notes[entries[k].2].notebook_id;
            let c: i64 = match counts.get(&nb) {
                Some(v) => *v,
                None => 0,
            };
            counts.insert(nb, c + 1);
            k = k + 1;
        }
        proof {
            assert(entries@.take(k as int) =~= entries@);
        }
        NoteStatsResult { total: entries.len() as i64, notebook_counts: counts }
    }

    /// One page of the history rows of a note (of all notes when the note id
    /// is 0), newest first, with the number of matching rows and of pages. A
    /// malformed page request is refused.
    pub fn search_histories(&self, param: &NoteHistorySearchPageParam) -> (r: Result<PageResult<NoteHistory>, AppError>)
        requires
            self.wf(),
        ensures
            r is Ok <==> param.page_param.is_valid(),
            match r {
                Err(e) => e is Validation,
                Ok(p) => {
                    let order = history_order(*self, param.note_id);
                    let size = param.page_param.page_size as int;
                    &&& p.total == order.len()
                    &&& p.total_pages == if order.len() > 0 { pages_for(order.len() as int, size) } else { 0 }
                    &&& histories_view(p.data@) == histories_view(page_of(order, param.page_param.spec_start(), size))
                },
            },
    {
        if !param.page_param.check() {
            return Err(AppError::validation("invalid page index or page size"));
        }
        let mut matched: Vec<usize> = Vec::new();
        let mut i: usize = 0;
        let ghost hs = self.histories@;
        while i < self.histories.len()
            invariant
                i <= hs.len(),
                hs == self.histories@,
                matched@.len() == matching_histories(hs, param.note_id, i as int).len(),
                forall|k: int| 0 <= k < matched@.len() ==> (#[trigger] matched@[k] as int) < i && hs[matched@[k] as int] == matching_histories(hs, param.note_id, i as int)[k],
            decreases hs.len() - i,
        {
            if param.note_id <= 0 || self.histories[i].note_id == param.note_id {
                matched.push(i);
            }
            i = i + 1;
        }
        let ghost m = matching_histories(hs, param.note_id, hs.len() as int);
        let ghost order = history_order(*self, param.note_id);
        proof {
            lemma_matching_histories(hs, param.note_id, hs.len() as int);
            assert(history_ids(hs).len() == hs.len());
        }
        if matched.len() == 0 {
            let p = PageResult::<NoteHistory>::default();
            proof {
                assert(histories_view(p.data@) =~= histories_view(page_of(order, param.page_param.spec_start(), param.page_param.page_size as int)));
            }
            return Ok(p);
        }
        let total = matched.len() as i64;
        let size = param.page_param.page_size;
        let (lo, hi) = page_bounds(param.page_param.start(), size, matched.len());
        let ghost page = page_of(order, param.page_param.spec_start(), size as int);
        proof {
            assert(page =~= order.subrange(lo as int, hi as int));
        }
        let mut data: Vec<NoteHistory> = Vec::new();
        let mut j: usize = lo;
        let len = matched.len();
        while j < hi
            invariant
                lo <= j <= hi <= len,
                len == matched@.len(),
                len == m.len(),
                hs == self.histories@,
                order == Seq::new(m.len(), |k: int| m[m.len() - 1 - k]),
                page == order.subrange(lo as int, hi as int),
                forall|k: int| 0 <= k < matched@.len() ==> (#[trigger] matched@[k] as int) < hs.len() && hs[matched@[k] as int] == m[k],
                histories_view(data@) =~= histories_view(page.take(j - lo)),
            decreases hi - j,
        {
            let p = matched[len - 1 - j];
            let h = self.histories[p].clone();
            let ghost before = data@;
            data.push(h);
            proof {
                assert(histories_view(data@) =~= histories_view(before).push(h@));
                assert(page.take(j + 1 - lo) =~= page.take(j - lo).push(order[j as int]));
            }
            j = j + 1;
        }
        proof {
            assert(page.take(j - lo) =~= page);
        }
        let mut result = PageResult::with_data(total, data);
        result.total_pages(size);
        Ok(result)
    }
}

} // verus!
