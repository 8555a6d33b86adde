//! Pagination over a fixed page capacity: which page is current and which
//! item range it shows.

use vstd::prelude::*;
use vstd::arithmetic::div_mod::lemma_fundamental_div_mod;

verus! {

/// The number of pages needed for `items` items at `size` per page: the
/// ceiling of their quotient.
pub open spec fn spec_total_pages(items: usize, size: usize) -> int {
    items as int / size as int + if items as int % size as int != 0 {
        1int
    } else {
        0int
    }
}

/// The item range the current page shows: from `page_current * page_size`,
/// up to a full page or the end of the items, or nothing past the end.
pub open spec fn spec_page_range(items: usize, size: usize, cur: usize) -> Option<(int, int)> {
    let p = cur as int * size as int;
    if p < items {
        Some((p, if p + size <= items {
            p + size
        } else {
            items as int
        }))
    } else {
        None
    }
}

/// A pager over a fixed number of items.
#[derive(Clone, Copy, Debug, PartialEq, Eq, Structural)]
pub struct Pagnator {
    pub total_items: usize,
    pub page_size: usize,
    pub page_current: usize,
}

impl Pagnator {
    /// A pager on its first page.
    pub fn new(page_size: usize, total_items: usize) -> (r: Pagnator)
        ensures
            r == (Pagnator { total_items, page_size, page_current: 0 }),
    {
        Pagnator { total_items, page_size, page_current: 0 }
    }

    /// Advances one page, unless the next page would start past the items.
    pub fn inc(&mut self)
        ensures
            final(self).total_items == old(self).total_items,
            final(self).page_size == old(self).page_size,
            final(self).page_current == if (old(self).page_current + 1) * old(self).page_size
                < old(self).total_items && old(self).page_current < usize::MAX {
                old(self).page_current + 1
            } else {
                old(self).page_current as int
            },
    {
        proof {
            assert((self.page_current as u128 + 1) * (self.page_size as u128) <= u128::MAX)
                by (nonlinear_arith)
                requires
                    self.page_current as u128 <= 0xFFFF_FFFF_FFFF_FFFFu128,
                    self.page_size as u128 <= 0xFFFF_FFFF_FFFF_FFFFu128,
            ;
        }
        let p: u128 = (self.page_current as u128 + 1) * (self.page_size as u128);
        if p < self.total_items as u128 && self.page_current < usize::MAX {
            self.page_current = self.page_current + 1;
        }
    }

    /// Steps one page back, stopping at the first page.
    pub fn dec(&mut self)
        ensures
            final(self).total_items == old(self).total_items,
            final(self).page_size == old(self).page_size,
            final(self).page_current == if old(self).page_current > 0 {
                old(self).page_current - 1
            } else {
                0int
            },
    {
        if self.page_current > 0 {
            self.page_current = self.page_current - 1;
        }
    }

    /// How many pages there are in total.
    pub fn total(&self) -> (r: usize)
        requires
            self.page_size > 0,
        ensures
            r == spec_total_pages(self.total_items, self.page_size),
    {
        let q = self.total_items / self.page_size;
        let r = self.total_items % self.page_size;
        if r != 0 {
            proof {
                lemma_fundamental_div_mod(self.total_items as int, self.page_size as int);
                assert(self.page_size as int * (q as int) >= q as int) by (nonlinear_arith)
                    requires
                        self.page_size as int >= 1,
                        q as int >= 0,
                ;
                assert(q < usize::MAX);
            }
            q + 1
        } else {
            q
        }
    }

    /// The item range of the current page, or nothing when the page starts
    /// past the items.
    pub fn get_range(&self) -> (r: Option<(usize, usize)>)
        ensures
            match r {
                Some((lo, hi)) => spec_page_range(
                    self.total_items,
                    self.page_size,
                    self.page_current,
                ) == Some((lo as int, hi as int)),
                None => spec_page_range(
                    self.total_items,
                    self.page_size,
                    self.page_current,
                ) is None,
            },
    {
        proof {
            assert((self.page_current as u128) * (self.page_size as u128) <= u128::MAX)
                by (nonlinear_arith)
                requires
                    self.page_current as u128 <= 0xFFFF_FFFF_FFFF_FFFFu128,
                    self.page_size as u128 <= 0xFFFF_FFFF_FFFF_FFFFu128,
            ;
        }
        let p: u128 = (self.page_current as u128) * (self.page_size as u128);
        if p < self.total_items as u128 {
            let lo = p as usize;
            let hi = if self.page_size <= self.total_items - lo {
                lo + self.page_size
            } else {
                self.total_items
            };
            Some((lo, hi))
        } else {
            None
        }
    }
}

} // verus!
