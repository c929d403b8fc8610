use vstd::prelude::*;

verus! {

/// Page number used when a request names none (pages are 1-based).
pub const DEFAULT_PAGE: u64 = 1;

/// Page size used when a request names none.
pub const DEFAULT_PER_PAGE: u64 = 30;

/// Where a page stands among all items, as returned to clients.
#[derive(Clone, Copy, Debug, PartialEq, Eq, Structural)]
pub struct PaginationMeta {
    pub page: u64,
    pub total_pages: u64,
    pub per_page: u64,
    pub total: u64,
}

/// The rows a page covers: skip `offset` rows, then take at most `limit`.
#[derive(Clone, Copy, Debug, PartialEq, Eq, Structural)]
pub struct PageWindow {
    pub offset: u64,
    pub limit: u64,
}

pub open spec fn clamp(n: int, len: int) -> int {
    if n < len {
        n
    } else {
        len
    }
}

/// The part of a table that a window covers.
pub open spec fn page_of<T>(s: Seq<T>, w: PageWindow) -> Seq<T> {
    s.subrange(clamp(w.offset as int, s.len() as int), clamp(w.offset + w.limit, s.len() as int))
}

/// The smallest number of pages of `per_page` items that hold `total` items.
pub open spec fn ceil_div(total: nat, per_page: nat) -> nat
    recommends
        per_page > 0,
{
    if total % per_page == 0 {
        total / per_page
    } else {
        total / per_page + 1
    }
}

pub open spec fn page_or_default(page: Option<u64>) -> u64 {
    match page {
        Some(p) => p,
        None => DEFAULT_PAGE,
    }
}

pub open spec fn per_page_or_default(per_page: Option<u64>) -> u64 {
    match per_page {
        Some(n) => n,
        None => DEFAULT_PER_PAGE,
    }
}

/// The page size is usable: it is absent (the default applies) or positive.
pub open spec fn valid_per_page(per_page: Option<u64>) -> bool {
    per_page_or_default(per_page) > 0
}

/// `ceil(total / per_page)`, without overflow.
pub fn total_pages(total: u64, per_page: u64) -> (r: u64)
    requires
        per_page > 0,
    ensures
        r == ceil_div(total as nat, per_page as nat),
{
    let q = total / per_page;
    if total % per_page == 0 {
        q
    } else {
        proof {
            assert(q < total) by (nonlinear_arith)
                requires
                    q == total / per_page,
                    total % per_page != 0,
                    per_page > 0,
            ;
        }
        q + 1
    }
}

/// Pagination metadata for a page of a listing of `total_items` items.
/// Missing values take the defaults (page 1, 30 per page).
pub fn paginate(page: Option<u64>, per_page: Option<u64>, total_items: u64) -> (r: PaginationMeta)
    requires
        valid_per_page(per_page),
    ensures
        r.page == page_or_default(page),
        r.per_page == per_page_or_default(per_page),
        r.total == total_items,
        r.total_pages == ceil_div(total_items as nat, r.per_page as nat),
{
    let page = match page {
        Some(p) => p,
        None => DEFAULT_PAGE,
    };
    let per_page = match per_page {
        Some(n) => n,
        None => DEFAULT_PER_PAGE,
    };
    PaginationMeta { page, total_pages: total_pages(total_items, per_page), per_page, total: total_items }
}

/// The offset and limit of a 1-based page: `offset = (page - 1) * per_page`.
/// `None` when the page is 0, the page size is 0, or the offset does not fit in `u64`.
pub fn page_window(page: Option<u64>, per_page: Option<u64>) -> (r: Option<PageWindow>)
    ensures
        r is Some <==> (page_or_default(page) >= 1 && per_page_or_default(per_page) >= 1
            && (page_or_default(page) - 1) * per_page_or_default(per_page) <= u64::MAX),
        r matches Some(w) ==> w.offset == (page_or_default(page) - 1) * per_page_or_default(per_page)
            && w.limit == per_page_or_default(per_page),
{
    let page = match page {
        Some(p) => p,
        None => DEFAULT_PAGE,
    };
    let per_page = match per_page {
        Some(n) => n,
        None => DEFAULT_PER_PAGE,
    };
    if page == 0 || per_page == 0 {
        return None;
    }
    match (page - 1).checked_mul(per_page) {
        Some(offset) => Some(PageWindow { offset, limit: per_page }),
        None => None,
    }
}

} // verus!
