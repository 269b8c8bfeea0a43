//! Cutting a list into pages.
//!
//! Pages are numbered from 1. An empty list has one page, which is empty.

use vstd::prelude::*;

verus! {

/// The number of pages.
pub open spec fn page_count(total: int, per_page: int) -> int {
    if total == 0 {
        1
    } else {
        (total + per_page - 1) / per_page
    }
}

/// The position of the first row of a page.
pub open spec fn page_start(page: int, per_page: int) -> int {
    (page - 1) * per_page
}

/// The position behind the last row of a page.
pub open spec fn page_end(page: int, per_page: int, total: int) -> int {
    if page_start(page, per_page) + per_page < total {
        page_start(page, per_page) + per_page
    } else {
        total
    }
}

/// Every row stands on exactly one page.
pub proof fn law_every_row_is_on_one_page(total: int, per_page: int, row: int, page: int)
    requires
        per_page > 0,
        0 <= row < total,
    ensures
        1 <= row / per_page + 1 <= page_count(total, per_page),
        1 <= page <= page_count(total, per_page) ==> ((page_start(page, per_page) <= row < page_end(
            page,
            per_page,
            total,
        )) <==> page == row / per_page + 1),
{
    let q = row / per_page;
    assert(q * per_page <= row < (q + 1) * per_page) by (nonlinear_arith)
        requires
            q == row / per_page,
            per_page > 0,
    ;
    assert(0 <= q) by (nonlinear_arith)
        requires
            q == row / per_page,
            0 <= row,
            per_page > 0,
    ;
    let n = (total + per_page - 1) / per_page;
    assert(q + 1 <= n) by (nonlinear_arith)
        requires
            n == (total + per_page - 1) / per_page,
            q * per_page <= row,
            row < total,
            per_page > 0,
    ;
    if page <= q {
        assert(page * per_page <= q * per_page) by (nonlinear_arith)
            requires
                page <= q,
                per_page > 0,
        ;
        assert((page - 1) * per_page + per_page == page * per_page) by (nonlinear_arith);
    }
    if page == q + 1 {
        assert((page - 1) * per_page + per_page == (q + 1) * per_page) by (nonlinear_arith)
            requires
                page == q + 1,
        ;
    }
    if page > q + 1 {
        assert((page - 1) * per_page >= (q + 1) * per_page) by (nonlinear_arith)
            requires
                page > q + 1,
                per_page > 0,
        ;
    }
}

/// Counts the pages.
pub fn total_pages(total: u64, per_page: u32) -> (r: u64)
    requires
        per_page > 0,
    ensures
        r == page_count(total as int, per_page as int),
        1 <= r,
        total > 0 ==> r <= total,
{
    if total == 0 {
        return 1;
    }
    let p: u64 = per_page as u64;
    let q: u64 = total / p;
    let rem: u64 = total % p;
    proof {
        let n = (total + p - 1) / (p as int);
        assert(q * p + rem == total && 0 <= rem < p) by (nonlinear_arith)
            requires
                q as int == total as int / p as int,
                rem as int == total as int % p as int,
                p > 0,
        ;
        if rem == 0 {
            assert(n == q) by (nonlinear_arith)
                requires
                    n == (total + p - 1) / (p as int),
                    q * p == total,
                    p > 0,
            ;
            assert(q >= 1) by (nonlinear_arith)
                requires
                    q * p == total,
                    total > 0,
            ;
            assert(q <= total) by (nonlinear_arith)
                requires
                    q * p == total,
                    p > 0,
            ;
        } else {
            assert(n == q + 1) by (nonlinear_arith)
                requires
                    n == (total + p - 1) / (p as int),
                    q * p + rem == total,
                    0 < rem < p,
            ;
            assert(q + 1 <= total) by (nonlinear_arith)
                requires
                    q * p + rem == total,
                    0 < rem < p,
            ;
        }
    }
    if rem == 0 {
        q
    } else {
        q + 1
    }
}

/// The page that is shown where `asked` is asked for: the nearest there is.
pub open spec fn nearest_page(asked: Option<u32>, pages: int) -> int {
    let a = match asked {
        Some(n) => n as int,
        None => 1,
    };
    if a < 1 {
        1
    } else if a > pages {
        pages
    } else {
        a
    }
}

/// Finds the page to show.
pub fn clamp_page(asked: Option<u32>, pages: u32) -> (r: u32)
    requires
        pages >= 1,
    ensures
        r == nearest_page(asked, pages as int),
        1 <= r <= pages,
{
    let a: u32 = match asked {
        Some(n) => n,
        None => 1,
    };
    if a < 1 {
        1
    } else if a > pages {
        pages
    } else {
        a
    }
}

/// A page of a list lies inside the list.
pub proof fn lemma_page_bounds(total: int, per_page: int, page: int)
    requires
        per_page > 0,
        0 <= total,
        1 <= page <= page_count(total, per_page),
    ensures
        0 <= page_start(page, per_page) <= page_end(page, per_page, total) <= total,
        page_start(page, per_page) + per_page <= total + per_page,
{
    assert(0 <= (page - 1) * per_page) by (nonlinear_arith)
        requires
            page >= 1,
            per_page > 0,
    ;
    if total == 0 {
        assert((page - 1) * per_page == 0) by (nonlinear_arith)
            requires
                page == 1,
        ;
    } else {
        let n = (total + per_page - 1) / per_page;
        assert((page - 1) * per_page <= total) by (nonlinear_arith)
            requires
                page <= n,
                n == (total + per_page - 1) / per_page,
                per_page > 0,
                total > 0,
        ;
    }
}

/// The page that is shown is the one asked for where there is it, and else the nearest.
pub proof fn law_nearest_page_is_shown(asked: Option<u32>, pages: int)
    requires
        pages >= 1,
    ensures
        1 <= nearest_page(asked, pages) <= pages,
        asked matches Some(n) ==> (1 <= n <= pages ==> nearest_page(asked, pages) == n),
        asked matches Some(n) ==> (n > pages ==> nearest_page(asked, pages) == pages),
        asked is None ==> nearest_page(asked, pages) == 1,
{
}

} // verus!
