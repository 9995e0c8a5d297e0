//! Paging parameters and paged results.

use vstd::prelude::*;

verus! {

/// Page number used when a request names none.
pub const DEFAULT_PAGE_INDEX: i64 = 1;

/// Page size used when a request names none.
pub const DEFAULT_PAGE_SIZE: i64 = 50;

/// Largest page size a search accepts.
pub const MAX_PAGE_SIZE: i64 = 1000;

/// The number of pages of `size` rows needed to hold `total` rows.
pub open spec fn pages_for(total: int, size: int) -> int
    recommends
        size > 0,
{
    if total % size == 0 {
        total / size
    } else {
        total / size + 1
    }
}

/// `pages_for` is the ceiling of `total / size`: the smallest page count
/// whose pages hold every row.
pub proof fn lemma_pages_for_is_ceiling(total: int, size: int)
    requires
        total >= 0,
        size > 0,
    ensures
        pages_for(total, size) * size >= total,
        (pages_for(total, size) - 1) * size < total || total == 0,
        pages_for(total, size) >= 0,
        total > 0 ==> pages_for(total, size) >= 1,
{
    let q = total / size;
    let r = total % size;
    assert(total == q * size + r && 0 <= r < size) by (nonlinear_arith)
        requires
            size > 0,
            q == total / size,
            r == total % size,
    ;
    assert(q >= 0) by (nonlinear_arith)
        requires
            size > 0,
            total >= 0,
            q == total / size,
    ;
    if r == 0 {
        assert(pages_for(total, size) == q);
        assert((q - 1) * size == q * size - size) by (nonlinear_arith);
        if total > 0 {
            assert(q >= 1) by (nonlinear_arith)
                requires
                    total == q * size,
                    total > 0,
                    size > 0,
            ;
        }
    } else {
        assert(pages_for(total, size) == q + 1);
        assert((q + 1) * size == q * size + size) by (nonlinear_arith);
    }
}

/// Which page of a listing to return. Pages are numbered from 1.
#[derive(Clone, Copy, Debug, PartialEq, Eq)]
pub struct PageParam {
    pub page_index: i64,
    pub page_size: i64,
}

impl PageParam {
    /// Offset of the first row of the page.
    pub open spec fn spec_start(&self) -> int {
        (self.page_index - 1) * self.page_size
    }

    /// A page request that a search accepts: a page number of at least 1 and
    /// a page size between 1 and `MAX_PAGE_SIZE`, whose offset fits an `i64`.
    pub open spec fn is_valid(&self) -> bool {
        &&& self.page_index >= 1
        &&& 1 <= self.page_size <= MAX_PAGE_SIZE
        &&& self.spec_start() <= i64::MAX
    }

    /// Offset of the first row of the page: `(page_index - 1) * page_size`.
    pub fn start(&self) -> (r: i64)
        requires
            self.page_index > i64::MIN,
            i64::MIN <= self.spec_start() <= i64::MAX,
        ensures
            r == self.spec_start(),
    {
        (self.page_index - 1) * self.page_size
    }

    /// Tells whether the request is one that a search accepts.
    pub fn check(&self) -> (r: bool)
        ensures
            r == self.is_valid(),
    {
        if self.page_index < 1 || self.page_size < 1 || self.page_size > MAX_PAGE_SIZE {
            return false;
        }
        let before: i64 = self.page_index - 1;
        let limit: i64 = i64::MAX / self.page_size;
        proof {
            let s = self.page_size as int;
            let b = before as int;
            let l = limit as int;
            assert(l * s <= 0x7fff_ffff_ffff_ffffint && 0x7fff_ffff_ffff_ffffint < (l + 1) * s) by (nonlinear_arith)
                requires
                    s > 0,
                    l == 0x7fff_ffff_ffff_ffffint / s,
            ;
            if b <= l {
                assert(b * s <= l * s) by (nonlinear_arith)
                    requires
                        b <= l,
                        s > 0,
                ;
            } else {
                assert(b * s >= (l + 1) * s) by (nonlinear_arith)
                    requires
                        b >= l + 1,
                        s > 0,
                ;
            }
        }
        before <= limit
    }

    /// The page number used when a request names none.
    pub fn default_page_index() -> (r: i64)
        ensures
            r == DEFAULT_PAGE_INDEX,
    {
        DEFAULT_PAGE_INDEX
    }

    /// The page size used when a request names none.
    pub fn default_page_size() -> (r: i64)
        ensures
            r == DEFAULT_PAGE_SIZE,
    {
        DEFAULT_PAGE_SIZE
    }
}

impl Default for PageParam {
    fn default() -> (r: Self)
        ensures
            r.page_index == DEFAULT_PAGE_INDEX,
            r.page_size == DEFAULT_PAGE_SIZE,
    {
        PageParam { page_index: DEFAULT_PAGE_INDEX, page_size: DEFAULT_PAGE_SIZE }
    }
}

/// One page of a listing, with the number of rows that match and the number
/// of pages they fill.
#[derive(Debug)]
pub struct PageResult<T> {
    pub total: i64,
    pub total_pages: i64,
    pub data: Vec<T>,
}

impl<T> PageResult<T> {
    pub fn new(total: i64, total_pages: i64, data: Vec<T>) -> (r: Self)
        ensures
            r.total == total,
            r.total_pages == total_pages,
            r.data == data,
    {
        PageResult { total, total_pages, data }
    }

    /// A page whose page count is still to be set by `total_pages`.
    pub fn with_data(total: i64, data: Vec<T>) -> (r: Self)
        ensures
            r.total == total,
            r.total_pages == 0,
            r.data == data,
    {
        PageResult { total, total_pages: 0, data }
    }

    /// Sets the page count to the ceiling of `total / page_size`; leaves it
    /// as it was when there are no rows or the page size is not positive.
    pub fn total_pages(&mut self, page_size: i64)
        ensures
            final(self).total == old(self).total,
            final(self).data == old(self).data,
            final(self).total_pages == if old(self).total > 0 && page_size > 0 {
                pages_for(old(self).total as int, page_size as int)
            } else {
                old(self).total_pages as int
            },
    {
        if self.total > 0 && page_size > 0 {
            let q: i64 = self.total / page_size;
            proof {
                let t = self.total as int;
                let s = page_size as int;
                assert(0 <= q <= t) by (nonlinear_arith)
                    requires
                        t > 0,
                        s > 0,
                        q == t / s,
                ;
                if t % s != 0 {
                    assert(q < t) by (nonlinear_arith)
                        requires
                            t > 0,
                            s > 0,
                            q == t / s,
                            t % s != 0,
                    ;
                }
            }
            if self.total % page_size == 0 {
                self.total_pages = q;
            } else {
                self.total_pages = q + 1;
            }
        }
    }

    pub fn default_total() -> (r: i64)
        ensures
            r == 0,
    {
        0
    }

    pub fn default_total_pages() -> (r: i64)
        ensures
            r == 0,
    {
        0
    }

    pub fn default_data() -> (r: Vec<T>)
        ensures
            r@.len() == 0,
    {
        Vec::new()
    }
}

impl<T> Default for PageResult<T> {
    fn default() -> (r: Self)
        ensures
            r.total == 0,
            r.total_pages == 0,
            r.data@.len() == 0,
    {
        PageResult { total: 0, total_pages: 0, data: Vec::new() }
    }
}

} // verus!
