//! The layout of a guarded buffer: whole pages, with a page that nobody may
//! touch on each side.
use vstd::prelude::*;

verus! {

/// Bytes in a page.
pub const PAGE: usize = 4096;

/// Where the parts of a guarded buffer lie.
#[derive(Clone, Copy, PartialEq, Eq, Structural, Debug)]
pub struct Layout {
    /// Bytes that can be used. They start one page behind the start.
    pub usable: usize,
    /// Bytes in all.
    pub total: usize,
}

/// The fewest whole pages, and at least one, that hold `len` bytes.
pub open spec fn is_page_span(len: int, n: int) -> bool {
    n % 4096 == 0 && 4096 <= n && len <= n && (n == 4096 || n - 4096 < len)
}

/// The layout of a buffer for `len` bytes.
pub fn guarded_layout(len: usize) -> (l: Layout)
    requires
        len + 3 * 4096 <= usize::MAX,
    ensures
        is_page_span(len as int, l.usable as int),
        l.total == l.usable + 2 * 4096,
{
    let usable: usize = if len <= PAGE {
        PAGE
    } else {
        (len + PAGE - 1) / PAGE * PAGE
    };
    Layout { usable, total: usable + 2 * PAGE }
}

/// There is one layout only.
pub proof fn law_layout_unique(len: int, a: int, b: int)
    requires
        is_page_span(len, a),
        is_page_span(len, b),
    ensures
        a == b,
{
}

/// A guarded buffer has whole pages of 4096 bytes, room for what is asked, and
/// not a page more than that needs.
pub proof fn law_pages_are_whole(len: int, n: int)
    requires
        is_page_span(len, n),
    ensures
        n % 4096 == 0,
        n >= 4096,
        n >= len,
        len > 4096 ==> n < len + 4096,
        len <= 4096 ==> n == 4096,
{
}

} // verus!
