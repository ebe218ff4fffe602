//! Maps a flat list of rows onto bounded pages.

use vstd::prelude::*;

verus! {

/// A window over `entry_len` rows, `page_size` rows at a time.
#[derive(Clone, Copy, Debug)]
pub struct Paginator {
    pub page: usize,
    pub page_size: usize,
    pub entry_len: usize,
}

impl Paginator {
    /// Pages hold at least one row, and the current page starts inside the
    /// list or at its end.
    pub open spec fn wf(self) -> bool {
        &&& self.page_size > 0
        &&& self.page * self.page_size <= self.entry_len
    }

    /// The row that the current page starts with.
    pub open spec fn start(self) -> int {
        self.page * self.page_size
    }

    /// The row after the last one of the current page.
    pub open spec fn end(self) -> int {
        if self.start() + self.page_size <= self.entry_len {
            self.start() + self.page_size
        } else {
            self.entry_len as int
        }
    }

    /// Whether another page follows the current one.
    pub open spec fn has_next(self) -> bool {
        (self.page + 1) * self.page_size < self.entry_len
    }

    /// Whether the paginator is well-formed.
    pub fn is_wf(&self) -> (r: bool)
        ensures
            r == self.wf(),
    {
        if self.page_size == 0 {
            return false;
        }
        let pages = self.entry_len / self.page_size;
        proof {
            let (page, size, len) = (
                self.page as int,
                self.page_size as int,
                self.entry_len as int,
            );
            assert(page * size <= len <==> page <= len / size) by (nonlinear_arith)
                requires
                    size > 0,
                    page >= 0,
                    len >= 0,
            ;
        }
        self.page <= pages
    }

    /// The first page of a list of `entry_len` rows.
    pub fn new(page_size: usize, entry_len: usize) -> (p: Paginator)
        requires
            page_size > 0,
        ensures
            p == (Paginator { page: 0, page_size, entry_len }),
            p.wf(),
    {
        let p = Paginator { page: 0, page_size, entry_len };
        assert(p.page * p.page_size == 0) by (nonlinear_arith)
            requires
                p.page == 0,
        ;
        p
    }

    /// Back to the first page, over a list of `entry_len` rows.
    pub fn reset(&mut self, entry_len: usize)
        requires
            old(self).page_size > 0,
        ensures
            *final(self) == (Paginator { page: 0, page_size: old(self).page_size, entry_len }),
            final(self).wf(),
    {
        self.page = 0;
        self.entry_len = entry_len;
        assert(self.page * self.page_size == 0) by (nonlinear_arith)
            requires
                self.page == 0,
        ;
    }

    /// Goes to the next page if there is one.
    pub fn next_page(&mut self)
        requires
            old(self).wf(),
        ensures
            final(self).page == if old(self).has_next() {
                old(self).page + 1
            } else {
                old(self).page as int
            },
            final(self).page_size == old(self).page_size,
            final(self).entry_len == old(self).entry_len,
            final(self).wf(),
            final(self).page <= final(self).entry_len / final(self).page_size,
    {
        let start = self.offset();
        proof {
            let (p, s) = (self.page as int, self.page_size as int);
            assert((p + 1) * s == p * s + s) by (nonlinear_arith);
            assert(p <= p * s) by (nonlinear_arith)
                requires
                    s >= 1,
                    p >= 0,
            ;
            lemma_page_in_range(*self);
        }
        if self.entry_len - start > self.page_size {
            self.page += 1;
            proof {
                lemma_page_in_range(*self);
            }
        }
    }

    /// Goes to the previous page if there is one.
    pub fn prev_page(&mut self)
        requires
            old(self).wf(),
        ensures
            final(self).page == if old(self).page > 0 {
                old(self).page - 1
            } else {
                0
            },
            final(self).page_size == old(self).page_size,
            final(self).entry_len == old(self).entry_len,
            final(self).wf(),
            final(self).page <= final(self).entry_len / final(self).page_size,
    {
        if self.page > 0 {
            proof {
                let (p, s) = (self.page as int, self.page_size as int);
                assert((p - 1) * s == p * s - s) by (nonlinear_arith);
            }
            self.page -= 1;
        }
        proof {
            lemma_page_in_range(*self);
        }
    }

    /// The row that the current page starts with.
    pub fn offset(&self) -> (start: usize)
        requires
            self.wf(),
        ensures
            start == self.start(),
            start <= self.entry_len,
    {
        self.page * self.page_size
    }

    /// The number of rows on the current page: `page_size`, or fewer on the
    /// last page.
    pub fn content_height(&self) -> (height: u16)
        requires
            self.wf(),
        ensures
            height == (self.end() - self.start()) as u16,
            self.page_size <= u16::MAX ==> height == self.end() - self.start(),
    {
        let (start, end) = self.page_slice();
        #[verifier::truncate]
        ((end - start) as u16)
    }

    /// The rows of the current page: from `start` up to, and without, `end`.
    pub fn page_slice(&self) -> (bounds: (usize, usize))
        requires
            self.wf(),
        ensures
            bounds.0 == self.start(),
            bounds.1 == self.end(),
            0 <= bounds.0 <= bounds.1 <= self.entry_len,
            bounds.1 - bounds.0 <= self.page_size,
    {
        let total_logs = self.entry_len;
        let start_idx = self.offset();
        let end_idx = if total_logs - start_idx >= self.page_size {
            start_idx + self.page_size
        } else {
            total_logs
        };
        (start_idx, end_idx)
    }
}

/// The current page of a well-formed paginator lies between 0 and
/// `entry_len / page_size`.
pub proof fn lemma_page_in_range(p: Paginator)
    requires
        p.wf(),
    ensures
        0 <= p.page <= p.entry_len / p.page_size,
{
    let (page, size, len) = (p.page as int, p.page_size as int, p.entry_len as int);
    assert(page <= len / size) by (nonlinear_arith)
        requires
            size > 0,
            page >= 0,
            page * size <= len,
    ;
}

} // verus!
