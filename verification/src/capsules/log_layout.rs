//! How a log lies in flash.
//!
//! The volume is a row of pages of one size. A page starts with a header that
//! holds the cookie of the page's first byte, and then holds entries: a word with
//! the entry's length, and the entry. What is left of a page that was written to
//! flash is padding, which reads as erased flash does. A cookie is a position in
//! the log as if it had never wrapped around: it lies in the volume at its
//! remainder by the volume's length.

use crate::capsules::word::{read_word, word_value, ByteOrder, WORD_SIZE};
use vstd::prelude::*;

verus! {

/// Maximum page header size.
pub const PAGE_HEADER_SIZE: usize = WORD_SIZE;

/// Maximum entry header size.
pub const ENTRY_HEADER_SIZE: usize = WORD_SIZE;

/// Byte used to pad the end of a page.
pub const PAD_BYTE: u8 = 0xFF;

/// `s` with `bytes` in place of what stood from `at` on.
pub open spec fn overwrite(s: Seq<u8>, at: int, bytes: Seq<u8>) -> Seq<u8> {
    Seq::new(
        s.len(),
        |i: int|
            if at <= i < at + bytes.len() {
                bytes[i - at]
            } else {
                s[i]
            },
    )
}

/// `page` with padding from `from` on.
pub open spec fn padded(page: Seq<u8>, from: int) -> Seq<u8> {
    Seq::new(
        page.len(),
        |i: int|
            if i >= from {
                PAD_BYTE
            } else {
                page[i]
            },
    )
}

/// The volume and the page size fit each other.
pub open spec fn volume_ok(volume_len: int, page_size: int) -> bool {
    &&& PAGE_HEADER_SIZE < page_size <= volume_len
    &&& volume_len % page_size == 0
}

/// Number of bytes that a volume of `volume_len` bytes holds beside page headers.
pub open spec fn capacity_of(volume_len: int, page_size: int) -> int {
    volume_len - PAGE_HEADER_SIZE * (volume_len / page_size)
}

/// The word that stands in the volume at `offset`.
pub open spec fn word_at(order: ByteOrder, volume: Seq<u8>, offset: int) -> int {
    word_value(order, volume.subrange(offset, offset + WORD_SIZE))
}

/// The volume holds the page that starts at `cookie`: its header says so. The header of
/// an erased page reads as the highest word, which is the cookie of no page.
pub open spec fn page_recorded(
    order: ByteOrder,
    volume: Seq<u8>,
    page_size: int,
    cookie: int,
) -> bool {
    let offset = cookie % (volume.len() as int);
    &&& 0 <= cookie < usize::MAX
    &&& offset % page_size == 0
    &&& word_at(order, volume, offset) == cookie
}

/// `cookie` is the lowest page that the volume holds.
pub open spec fn is_oldest_page(
    order: ByteOrder,
    volume: Seq<u8>,
    page_size: int,
    cookie: int,
) -> bool {
    &&& page_recorded(order, volume, page_size, cookie)
    &&& forall|other: int| #[trigger]
        page_recorded(order, volume, page_size, other) ==> cookie <= other
}

/// `cookie` is the highest page that the volume holds.
pub open spec fn is_newest_page(
    order: ByteOrder,
    volume: Seq<u8>,
    page_size: int,
    cookie: int,
) -> bool {
    &&& page_recorded(order, volume, page_size, cookie)
    &&& forall|other: int| #[trigger]
        page_recorded(order, volume, page_size, other) ==> other <= cookie
}

/// The lowest page that the volume holds.
pub open spec fn oldest_page(order: ByteOrder, volume: Seq<u8>, page_size: int) -> int {
    choose|cookie: int| is_oldest_page(order, volume, page_size, cookie)
}

/// The highest page that the volume holds.
pub open spec fn newest_page(order: ByteOrder, volume: Seq<u8>, page_size: int) -> int {
    choose|cookie: int| is_newest_page(order, volume, page_size, cookie)
}

/// A log can be recovered from the volume: it holds a page, and the cookies of the page
/// that follows its last page fit a word.
pub open spec fn recoverable(order: ByteOrder, volume: Seq<u8>, page_size: int) -> bool {
    exists|cookie: int| #[trigger]
        is_newest_page(order, volume, page_size, cookie) && cookie + 2 * page_size
            + PAGE_HEADER_SIZE <= usize::MAX
}

/// The bytes of the page that starts at `cookie`.
pub open spec fn page_at(volume: Seq<u8>, page_size: int, cookie: int) -> Seq<u8> {
    let offset = cookie % (volume.len() as int);
    volume.subrange(offset, offset + page_size)
}

/// Where the entries of `page` that start at `from` end: where no entry header fits the
/// page, or where the header is that of no entry that fits the page. Padding reads as the
/// length of an entry that fits no page.
pub open spec fn used_len(order: ByteOrder, page: Seq<u8>, from: int) -> int
    decreases page.len() - from,
{
    if from < 0 || from + WORD_SIZE > page.len() {
        from
    } else {
        let length = word_at(order, page, from);
        let next = from + WORD_SIZE + length;
        if 0 < length && next <= page.len() {
            used_len(order, page, next)
        } else {
            from
        }
    }
}

pub proof fn lemma_used_len_bounds(order: ByteOrder, page: Seq<u8>, from: int)
    requires
        0 <= from <= page.len(),
    ensures
        from <= used_len(order, page, from) <= page.len(),
    decreases page.len() - from,
{
    if from + WORD_SIZE <= page.len() {
        let length = word_at(order, page, from);
        let next = from + WORD_SIZE + length;
        if 0 < length && next <= page.len() {
            lemma_used_len_bounds(order, page, next);
        }
    }
}

/// Whatever starts on a page boundary of the volume is a whole page.
pub proof fn lemma_page_in_volume(volume_len: int, page_size: int, offset: int)
    requires
        volume_ok(volume_len, page_size),
        0 <= offset < volume_len,
        offset % page_size == 0,
    ensures
        offset + page_size <= volume_len,
{
    let gap = volume_len - offset;
    assert(gap % page_size == 0) by {
        vstd::arithmetic::div_mod::lemma_sub_mod_noop(volume_len, offset, page_size);
        vstd::arithmetic::div_mod::lemma_small_mod(0, page_size as nat);
    }
    if gap < page_size {
        vstd::arithmetic::div_mod::lemma_small_mod(gap as nat, page_size as nat);
    }
}

/// Nothing between two neighbouring page boundaries is a page boundary.
pub proof fn lemma_between_boundaries(page_size: int, boundary: int, x: int)
    requires
        page_size > 0,
        boundary % page_size == 0,
        boundary <= x < boundary + page_size,
    ensures
        x % page_size == x - boundary,
{
    vstd::arithmetic::div_mod::lemma_add_mod_noop(boundary, x - boundary, page_size);
    vstd::arithmetic::div_mod::lemma_small_mod((x - boundary) as nat, page_size as nat);
}

/// A step of one page leads from a page boundary to a page boundary.
pub proof fn lemma_next_boundary(page_size: int, boundary: int)
    requires
        page_size > 0,
        boundary % page_size == 0,
    ensures
        (boundary + page_size) % page_size == 0,
        (boundary - page_size) % page_size == 0,
{
    vstd::arithmetic::div_mod::lemma_mod_add_multiples_vanish(boundary, page_size);
    vstd::arithmetic::div_mod::lemma_mod_sub_multiples_vanish(boundary, page_size);
}

/// Of two page boundaries, the one that is less than a page above the other is not
/// above it.
pub proof fn lemma_boundary_order(page_size: int, a: int, b: int)
    requires
        page_size > 0,
        a % page_size == 0,
        b % page_size == 0,
    ensures
        a < b + page_size ==> a <= b,
{
    if b < a < b + page_size {
        lemma_between_boundaries(page_size, b, a);
    }
}

/// A whole number of volumes before a page boundary is a page boundary.
pub proof fn lemma_page_offset_of_difference(volume_len: int, page_size: int, boundary: int)
    requires
        volume_ok(volume_len, page_size),
        boundary % page_size == 0,
    ensures
        (boundary - volume_len) % page_size == 0,
        (boundary + volume_len) % page_size == 0,
        (-page_size) % page_size == 0,
{
    vstd::arithmetic::div_mod::lemma_sub_mod_noop(boundary, volume_len, page_size);
    vstd::arithmetic::div_mod::lemma_add_mod_noop(boundary, volume_len, page_size);
    vstd::arithmetic::div_mod::lemma_small_mod(0, page_size as nat);
    lemma_next_boundary(page_size, 0);
}

/// A number less its remainder is a multiple.
pub proof fn lemma_page_start(page_size: int, x: int)
    requires
        page_size > 0,
    ensures
        (x - x % page_size) % page_size == 0,
        x - x % page_size <= x < x - x % page_size + page_size,
        0 <= x ==> 0 <= x - x % page_size,
{
    if 0 <= x {
        vstd::arithmetic::div_mod::lemma_mod_decreases(x as nat, page_size as nat);
    }
    vstd::arithmetic::div_mod::lemma_mod_bound(x, page_size);
    vstd::arithmetic::div_mod::lemma_sub_mod_noop(x, x % page_size, page_size);
    vstd::arithmetic::div_mod::lemma_mod_twice(x, page_size);
    vstd::arithmetic::div_mod::lemma_small_mod(0, page_size as nat);
}

/// Reducing by the length of the volume keeps the position within the page.
pub proof fn lemma_page_offset(volume_len: int, page_size: int, cookie: int)
    requires
        volume_ok(volume_len, page_size),
        0 <= cookie,
    ensures
        (cookie % volume_len) % page_size == cookie % page_size,
{
    let pages = volume_len / page_size;
    vstd::arithmetic::div_mod::lemma_fundamental_div_mod(volume_len, page_size);
    vstd::arithmetic::mul::lemma_mul_is_commutative(page_size, pages);
    assert(pages > 0) by (nonlinear_arith)
        requires
            volume_len == pages * page_size,
            volume_len > 0,
            page_size > 0,
    ;
    vstd::arithmetic::div_mod::lemma_mod_mod(cookie, page_size, pages);
}

/// The lowest and the highest page that the volume holds are where scanning its
/// headers finds them.
pub proof fn lemma_extremes(
    order: ByteOrder,
    volume: Seq<u8>,
    page_size: int,
    oldest: int,
    newest: int,
)
    requires
        is_oldest_page(order, volume, page_size, oldest),
        is_newest_page(order, volume, page_size, newest),
    ensures
        oldest_page(order, volume, page_size) == oldest,
        newest_page(order, volume, page_size) == newest,
{
    let a = oldest_page(order, volume, page_size);
    let b = newest_page(order, volume, page_size);
    assert(is_oldest_page(order, volume, page_size, a));
    assert(is_newest_page(order, volume, page_size, b));
}

/// Scans the page headers for the lowest and the highest page that the volume
/// holds.
pub fn scan_pages(
    order: ByteOrder,
    volume: &[u8],
    page_size: usize,
) -> (found: Option<(usize, usize)>)
    requires
        volume_ok(volume@.len() as int, page_size as int),
    ensures
        match found {
            Some((oldest, newest)) => {
                &&& is_oldest_page(order, volume@, page_size as int, oldest as int)
                &&& is_newest_page(order, volume@, page_size as int, newest as int)
            },
            None => forall|cookie: int| !#[trigger]
                page_recorded(order, volume@, page_size as int, cookie),
        },
{
    let ghost len = volume@.len() as int;
    let ghost size = page_size as int;
    let mut found: Option<(usize, usize)> = None;
    let mut offset: usize = 0;
    let end: usize = volume.len();
    assert(0int % size == 0) by {
        vstd::arithmetic::div_mod::lemma_small_mod(0, page_size as nat);
    }
    while offset < end
        invariant
            volume_ok(len, size),
            len == volume@.len() == end,
            size == page_size,
            0 <= offset <= end,
            offset % page_size == 0,
            match found {
                Some((oldest, newest)) => {
                    &&& page_recorded(order, volume@, size, oldest as int)
                    &&& page_recorded(order, volume@, size, newest as int)
                    &&& forall|cookie: int| #[trigger]
                        page_recorded(order, volume@, size, cookie) && cookie % len < offset
                            ==> oldest <= cookie <= newest
                },
                None => forall|cookie: int| #[trigger]
                    page_recorded(order, volume@, size, cookie) ==> cookie % len >= offset,
            },
        decreases end - offset,
    {
        proof {
            lemma_page_in_volume(len, size, offset as int);
            lemma_next_boundary(size, offset as int);
        }
        let cookie: usize = read_word(order, volume, offset);
        let ghost before = found;
        if cookie != usize::MAX && cookie % end == offset {
            assert(page_recorded(order, volume@, size, cookie as int));
            found = match found {
                None => Some((cookie, cookie)),
                Some((oldest, newest)) => {
                    let low: usize = if cookie < oldest {
                        cookie
                    } else {
                        oldest
                    };
                    let high: usize = if cookie > newest {
                        cookie
                    } else {
                        newest
                    };
                    Some((low, high))
                },
            };
        }
        proof {
            assert forall|other: int| #[trigger]
                page_recorded(order, volume@, size, other) && other % len < offset
                    + page_size implies other % len < offset || (other % len == offset && other
                == cookie) by {
                if other % len >= offset {
                    lemma_between_boundaries(size, offset as int, other % len);
                }
            }
            if let Some((oldest, newest)) = found {
                assert(page_recorded(order, volume@, size, oldest as int));
                assert(page_recorded(order, volume@, size, newest as int));
                assert forall|other: int| #[trigger]
                    page_recorded(order, volume@, size, other) && other % len < offset
                        + page_size implies oldest <= other <= newest by {
                    assert(other % len < offset || (other % len == offset && other == cookie));
                }
            }
        }
        offset = offset + page_size;
    }
    proof {
        assert forall|other: int| #[trigger]
            page_recorded(order, volume@, size, other) implies other % len < end by {
            vstd::arithmetic::div_mod::lemma_mod_bound(other, len);
        }
    }
    found
}

/// Walks the entries of the page that starts at `offset` in the volume.
pub fn walk_page(order: ByteOrder, volume: &[u8], page_size: usize, offset: usize) -> (used: usize)
    requires
        PAGE_HEADER_SIZE < page_size,
        offset + page_size <= volume@.len(),
    ensures
        used == used_len(
            order,
            volume@.subrange(offset as int, offset + page_size),
            PAGE_HEADER_SIZE as int,
        ),
        PAGE_HEADER_SIZE <= used <= page_size,
{
    let ghost page = volume@.subrange(offset as int, offset + page_size);
    let mut used: usize = PAGE_HEADER_SIZE;
    let end: usize = volume.len();
    loop
        invariant
            PAGE_HEADER_SIZE <= used <= page_size,
            offset + page_size <= volume@.len() == end,
            page == volume@.subrange(offset as int, offset + page_size),
            used_len(order, page, used as int) == used_len(order, page, PAGE_HEADER_SIZE as int),
        ensures
            used == used_len(order, page, PAGE_HEADER_SIZE as int),
            PAGE_HEADER_SIZE <= used <= page_size,
        decreases page_size - used,
    {
        if page_size - used < ENTRY_HEADER_SIZE {
            break ;
        }
        let length: usize = read_word(order, volume, offset + used);
        proof {
            assert(page.subrange(used as int, used + WORD_SIZE) =~= volume@.subrange(
                offset + used,
                offset + used + WORD_SIZE,
            ));
        }
        if length == 0 || length > page_size - used - ENTRY_HEADER_SIZE {
            break ;
        }
        used = used + ENTRY_HEADER_SIZE + length;
    }
    used
}

} // verus!
