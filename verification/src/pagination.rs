//! Offset pagination of a project's session list: the page size check
//! shared by the list handlers, the offset a cursor stands for, and the
//! window and next cursor of one page.

use vstd::prelude::*;

use crate::decimal::{dec_nat, push_decimal_u64};
use crate::error::{ApiError, ApiErrorCode};
use crate::messages::{parse_usize, parsed_usize};

verus! {

/// Message of the error for a page size of zero.
pub open spec fn page_size_error_text() -> Seq<char> {
    "pageSize must be > 0"@
}

/// Refuses a page size of zero.
pub fn check_page_size(page_size: usize) -> (r: Result<(), ApiError>)
    ensures
        r is Ok <==> page_size > 0,
        r matches Err(e) ==> e.code == ApiErrorCode::ValidationError && e.message@ == page_size_error_text(),
{
    if page_size == 0 {
        Err(ApiError::validation(String::from_str("pageSize must be > 0")))
    } else {
        Ok(())
    }
}

/// The offset a list cursor stands for: its decimal value, or 0 for no
/// cursor or one that is not a decimal number.
pub open spec fn cursor_offset(cursor: Option<Seq<char>>) -> nat {
    match cursor {
        None => 0,
        Some(c) => match parsed_usize(c) {
            Some(n) => n as nat,
            None => 0,
        },
    }
}

/// The smaller of two numbers.
pub open spec fn min_nat(a: nat, b: nat) -> nat {
    if a <= b {
        a
    } else {
        b
    }
}

/// One page of a list of `total` items: the items `start..end`, and the
/// cursor of the next page when items remain after it.
#[derive(Debug)]
pub struct OffsetPage {
    pub start: usize,
    pub end: usize,
    pub next_cursor: Option<String>,
}

/// The page that starts `offset` items into a list of `total` items and
/// holds at most `page_size` of them.
pub open spec fn page_start(total: nat, offset: nat) -> nat {
    min_nat(offset, total)
}

/// End (exclusive) of that page.
pub open spec fn page_end(total: nat, offset: nat, page_size: nat) -> nat {
    min_nat(offset + page_size, total)
}

/// The next page's cursor: the decimal offset just past this page, when
/// that offset is still inside the list.
pub open spec fn next_page_cursor(total: nat, offset: nat, page_size: nat) -> Option<Seq<char>> {
    let len = page_end(total, offset, page_size) - page_start(total, offset);
    if offset + len < total {
        Some(dec_nat((offset + len) as nat))
    } else {
        None
    }
}

/// The page of a list of `total` items that `cursor` asks for: refused for
/// a page size of zero, else the window after the cursor's offset and the
/// next page's cursor.
pub fn offset_page(total: usize, cursor: Option<&str>, page_size: usize) -> (r: Result<OffsetPage, ApiError>)
    ensures
        r is Ok <==> page_size > 0,
        r matches Err(e) ==> e.code == ApiErrorCode::ValidationError && e.message@ == page_size_error_text(),
        r matches Ok(p) ==> {
            let off = cursor_offset(
                match cursor {
                    Some(c) => Some(c@),
                    None => None,
                },
            );
            &&& p.start == page_start(total as nat, off)
            &&& p.end == page_end(total as nat, off, page_size as nat)
            &&& match p.next_cursor {
                Some(c) => next_page_cursor(total as nat, off, page_size as nat) == Some(c@),
                None => next_page_cursor(total as nat, off, page_size as nat) is None,
            }
        },
{
    match check_page_size(page_size) {
        Err(e) => {
            return Err(e);
        },
        Ok(()) => {},
    }
    let offset: usize = match cursor {
        None => 0,
        Some(c) => match parse_usize(c) {
            Some(n) => n,
            None => 0,
        },
    };
    let start: usize = if offset <= total {
        offset
    } else {
        total
    };
    let end: usize = if page_size <= total - start {
        start + page_size
    } else {
        total
    };
    let len: usize = end - start;
    let next_cursor = if offset <= total && offset + len < total {
        let mut s = String::new();
        push_decimal_u64(&mut s, (offset + len) as u64);
        proof {
            assert(s@ =~= dec_nat((offset + len) as nat));
        }
        Some(s)
    } else {
        None
    };
    Ok(OffsetPage { start, end, next_cursor })
}

} // verus!
