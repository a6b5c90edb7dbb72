//! What the operations of a log do to its cookies and to the page that is being filled, in
//! numbers.

use crate::capsules::log_layout::{
    capacity_of, is_newest_page, is_oldest_page, lemma_between_boundaries, lemma_boundary_order,
    lemma_extremes, lemma_next_boundary, lemma_page_in_volume, lemma_page_offset,
    lemma_page_start, lemma_used_len_bounds, overwrite, padded, page_at, page_recorded,
    recoverable, used_len, volume_ok, word_at, PAGE_HEADER_SIZE,
};
use crate::capsules::log_view::{LogView, State};
use crate::capsules::storage_interface::StorageCookie;
use crate::capsules::word::{
    law_word_has_one_form, lemma_word_bytes_len, word_bytes, ByteOrder, WORD_SIZE,
};
use crate::return_code::ReturnCode;
use vstd::prelude::*;

verus! {

impl<T> LogView<T> {
    /// When an append is accepted, and why it is refused if it is: a log that is busy takes
    /// none, a buffer must hold what is to be appended of it, an entry must fit a page beside
    /// two headers, and an entry of a log that is not circular must end before the volume does.
    /// Any other entry is accepted by a log with a client and its page at hand.
    pub proof fn law_append_accepted(self, buffer_len: int, length: int)
        requires
            0 <= length,
        ensures
            ({
                let error = self.append_error(buffer_len, length);
                let idle = self.state == State::Idle;
                let given = 0 < length <= buffer_len;
                let fits = 2 * WORD_SIZE + length <= self.page_size;
                let ends = self.circular || self.append + WORD_SIZE + length < self.volume_len;
                let at_hand = self.client is Some && self.page is Some;
                &&& error is None <==> idle && given && fits && ends && at_hand
                &&& error == Some(ReturnCode::EBUSY) <==> !idle
                &&& error == Some(ReturnCode::EINVAL) <==> idle && !given
                &&& error == Some(ReturnCode::ESIZE) <==> idle && given && !fits
                &&& error == Some(ReturnCode::FAIL) <==> idle && given && fits && !ends
                &&& error == Some(ReturnCode::ERESERVE) <==> idle && given && fits && ends
                    && !at_hand
            }),
    {
    }

    /// An entry goes to the current page exactly if the page is begun and its header and data
    /// fit what is left of the page, to the last byte.
    pub proof fn law_entry_fits_rest(self, length: int)
        requires
            0 < self.page_size,
            0 < self.append,
        ensures
            ({
                let last = self.append - 1;
                let end = last - last % self.page_size + self.page_size;
                self.fits_rest(length) <==> self.append < end && self.append + WORD_SIZE + length
                    <= end
            }),
    {
        self.lemma_last_start();
    }

    /// An entry is appended at the append cookie: the length as a word, then the data. The
    /// cookie moves past both, and nothing else changes.
    pub proof fn law_entry_format(self, data: Seq<u8>, i: int)
        requires
            self.wf(),
            self.page is Some,
            self.fits_rest(data.len() as int),
            0 <= i < self.page_size,
        ensures
            ({
                let after = self.with_entry(data);
                let at = self.append % self.page_size;
                let length = data.len() as int;
                &&& after == (LogView { append: after.append, page: after.page, ..self })
                &&& after.append == self.append + WORD_SIZE + length
                &&& after.page is Some
                &&& after.page->0.len() == self.page_size
                &&& after.page->0[i] == if at <= i < at + WORD_SIZE {
                    word_bytes(self.order, length)[i - at]
                } else if at + WORD_SIZE <= i < at + WORD_SIZE + length {
                    data[i - at - WORD_SIZE]
                } else {
                    self.page->0[i]
                }
            }),
    {
        lemma_word_bytes_len(self.order, data.len() as int);
    }

    /// The page that is written to flash is the current page up to the append cookie, and
    /// reads as erased flash from there on.
    pub proof fn law_flushed_page(self, i: int)
        requires
            self.wf(),
            self.page is Some,
            0 <= i < self.page_size,
        ensures
            ({
                let last = self.append - 1;
                let start = last - last % self.page_size;
                &&& self.page_to_flush().len() == self.page_size
                &&& self.page_to_flush()[i] == if start + i < self.append {
                    self.page->0[i]
                } else {
                    0xFF
                }
            }),
    {
    }

    /// Writing the current page takes a cookie out of the page that lies a volume before it,
    /// to the first entry of the page after that one, and moves no cookie that is elsewhere.
    /// The append cookie stays.
    pub proof fn law_flushed_cookies(self, state: State)
        ensures
            ({
                let after = self.flushed(state);
                let last = self.append - 1;
                let first = last - last % self.page_size - self.volume_len;
                let end = first + self.page_size;
                &&& after == (LogView {
                    state,
                    page: None,
                    read: after.read,
                    oldest: after.oldest,
                    ..self
                })
                &&& first <= self.read < end ==> after.read == end + WORD_SIZE
                &&& !(first <= self.read < end) ==> after.read == self.read
                &&& first <= self.oldest < end ==> after.oldest == end + WORD_SIZE
                &&& !(first <= self.oldest < end) ==> after.oldest == self.oldest
            }),
    {
    }

    /// A new page is begun at the first page boundary that is not below the append cookie:
    /// its header is that boundary, and the append cookie follows it. A log that is not
    /// circular begins none where no page is left in the volume.
    pub proof fn law_page_begun(self, page: Seq<u8>, i: int)
        requires
            0 < self.page_size,
            0 < self.append,
            0 <= i < page.len(),
            WORD_SIZE <= page.len(),
        ensures
            ({
                let after = self.reset(page);
                let start = after.append - WORD_SIZE;
                &&& after == (LogView { append: after.append, page: after.page, ..self })
                &&& after.page is Some
                &&& after.page->0.len() == page.len()
                &&& if !self.circular && self.append + self.page_size > self.volume_len {
                    after.append == self.append && after.page->0 == page
                } else {
                    &&& start % self.page_size == 0
                    &&& self.append <= start < self.append + self.page_size
                    &&& after.page->0[i] == if i < WORD_SIZE {
                        word_bytes(self.order, start)[i]
                    } else {
                        page[i]
                    }
                }
            }),
    {
        self.lemma_last_start();
        lemma_next_boundary(self.page_size, self.last_start());
        lemma_word_bytes_len(self.order, self.next_start());
    }

    /// A sync leaves the append cookie and the page where they were, unless the page is full:
    /// the next page is begun, if there is one. The log is idle again, and all else stays.
    pub proof fn law_sync_completes(self, page: Seq<u8>)
        ensures
            ({
                let after = self.after_sync_write(page);
                let next = self.reset(page);
                &&& after == (LogView {
                    state: State::Idle,
                    append: after.append,
                    page: after.page,
                    ..self
                })
                &&& self.append % self.page_size != 0 ==> after.append == self.append
                    && after.page == Some(page)
                &&& self.append % self.page_size == 0 ==> after.append == next.append && after.page
                    == next.page
            }),
    {
    }

    /// A write for an append that completes begins a page and appends what was waiting, which
    /// no longer waits.
    pub proof fn law_append_completes(self, page: Seq<u8>)
        requires
            self.pending is Some,
            0 <= self.pending_len <= self.pending->0.len(),
        ensures
            ({
                let after = self.after_append_write(page);
                let begun = self.reset(page);
                let data = self.pending->0.subrange(0, self.pending_len);
                &&& after == (LogView {
                    state: State::Idle,
                    pending: None,
                    append: after.append,
                    page: after.page,
                    ..self
                })
                &&& after.append == begun.append + WORD_SIZE + self.pending_len
                &&& after.page == begun.with_entry(data).page
            }),
    {
    }

    /// A write that fails gives the page back and ends the operation, and nothing is appended.
    pub proof fn law_write_fails(self, page: Seq<u8>)
        ensures
            ({
                let after = self.after_failed_write(page);
                &&& after.state == State::Idle && after.page == Some(page) && after.pending is None
                &&& after.append == self.append && after.read == self.read && after.oldest
                    == self.oldest
                &&& after == (LogView {
                    state: after.state,
                    page: after.page,
                    pending: after.pending,
                    ..self
                })
            }),
    {
    }

    /// Erasing takes the oldest page out of the log. Where that page holds the append cookie,
    /// the log starts again at its first cookie, with a first page whose header is zero.
    pub proof fn law_erase_step(self)
        requires
            self.wf(),
        ensures
            ({
                let after = self.after_erase();
                let page_end = self.oldest - WORD_SIZE + self.page_size;
                &&& self.one_page_left() <==> self.append < page_end
                &&& self.append >= page_end ==> after == (LogView {
                    oldest: self.oldest + self.page_size,
                    ..self
                })
                &&& self.append < page_end ==> {
                    &&& after == (LogView {
                        read: WORD_SIZE as int,
                        append: WORD_SIZE as int,
                        oldest: WORD_SIZE as int,
                        page: after.page,
                        ..self
                    })
                    &&& after.page is Some <==> self.page is Some
                    &&& self.page matches Some(page) ==> after.page->0.len() == page.len()
                        && forall|i: int|
                        0 <= i < page.len() ==> #[trigger] after.page->0[i] == if i < WORD_SIZE {
                            word_bytes(self.order, 0)[i]
                        } else {
                            page[i]
                        }
                }
            }),
    {
        let size = self.page_size;
        let start = self.append - self.append % size;
        let first = self.oldest - PAGE_HEADER_SIZE;
        lemma_page_start(size, self.append);
        lemma_page_start(size, self.oldest);
        lemma_boundary_order(size, start, first);
        lemma_boundary_order(size, first, start);
        lemma_word_bytes_len(self.order, 0);
    }

    /// Giving an erase up takes the read cookie to the oldest entry that is left, and keeps the
    /// page that is being filled.
    pub proof fn law_erase_given_up(self)
        ensures
            ({
                let after = self.given_up_erase();
                let last = self.append - 1;
                let first_entry = last - last % self.page_size + WORD_SIZE;
                &&& after == (LogView { read: after.read, oldest: after.oldest, ..self })
                &&& after.oldest <= self.oldest && after.oldest <= first_entry
                &&& after.oldest == self.oldest || after.oldest == first_entry
                &&& after.oldest <= after.read && self.read <= after.read
                &&& after.read == self.read || after.read == after.oldest
            }),
    {
    }

    /// When a read is refused before any entry is looked for: while the log is busy, where the
    /// buffer does not hold what may be read, where the read cookie is beyond the append
    /// cookie, or without a client or the page. It is refused so for no other reason.
    pub proof fn law_read_refused(self, volume: Seq<u8>, buffer_len: int, length: int)
        ensures
            ({
                let error = self.read_error(volume, buffer_len, length);
                let idle = self.state == State::Idle;
                let given = length <= buffer_len;
                let within = self.read <= self.append;
                let at_hand = self.client is Some && self.page is Some;
                &&& error == Some(ReturnCode::EBUSY) <==> !idle
                &&& error == Some(ReturnCode::EINVAL) <==> idle && !given
                &&& error == Some(ReturnCode::ECANCEL) <==> idle && given && !within
                &&& error == Some(ReturnCode::ERESERVE) <==> idle && given && within && !at_hand
                &&& idle && given && within && at_hand ==> error is None || error == Some(
                    ReturnCode::FAIL,
                ) || error == Some(ReturnCode::ESIZE)
            }),
    {
    }

    /// A read moves the read cookie past the entry that it gave, and nothing else.
    pub proof fn law_read_moves(self, volume: Seq<u8>)
        ensures
            ({
                let after = self.after_read(volume);
                let entry = self.entry_after(volume, self.read);
                &&& after == (LogView { read: after.read, ..self })
                &&& after.read == entry + WORD_SIZE + self.entry_len(volume, entry)
            }),
    {
    }

    /// Going back to the beginning moves the read cookie to the oldest entry, and nothing else.
    pub proof fn law_rewound(self)
        ensures
            self.rewound() == (LogView { read: self.oldest, ..self }),
    {
    }

    /// A seek to a cookie succeeds exactly if the cookie is not below the oldest entry and not
    /// beyond the append cookie, and there is a client to tell; to a cookie that is out of these
    /// bounds it is invalid, and moves nothing. A seek to the beginning is always within them.
    /// It moves the read cookie only.
    pub proof fn law_seek(self, cookie: StorageCookie)
        ensures
            ({
                let (after, status) = self.sought(cookie);
                &&& after == (LogView { read: after.read, ..self })
                &&& match cookie {
                    StorageCookie::Cookie(at) => {
                        let within = self.oldest <= at && at <= self.append;
                        &&& status == ReturnCode::EINVAL <==> !within
                        &&& status == ReturnCode::SUCCESS <==> within && self.client is Some
                        &&& within ==> after.read == at
                        &&& !within ==> after.read == self.read
                    },
                    StorageCookie::SeekBeginning => {
                        &&& status == ReturnCode::SUCCESS <==> self.client is Some
                        &&& after.read == self.oldest
                    },
                }
                &&& status == ReturnCode::SUCCESS || status == ReturnCode::EINVAL || status
                    == ReturnCode::ERESERVE
            }),
    {
    }

    /// Records are lost once the oldest entry is beyond the first page of the log.
    pub proof fn law_lost_once_moved(self)
        requires
            self.wf(),
        ensures
            self.records_lost() <==> self.oldest >= self.page_size + WORD_SIZE,
    {
        let first = self.oldest - PAGE_HEADER_SIZE;
        lemma_page_start(self.page_size, self.oldest);
        if 0 < first < self.page_size {
            vstd::arithmetic::div_mod::lemma_small_mod(0, self.page_size as nat);
            lemma_between_boundaries(self.page_size, 0, first);
        }
    }

    /// A byte of the log is read from the current page from the start of that page on, and from
    /// its place in the volume otherwise.
    pub proof fn law_byte_at(self, volume: Seq<u8>, cookie: int)
        requires
            self.wf(),
            self.page is Some,
            volume.len() == self.volume_len,
            0 <= cookie < self.append,
        ensures
            ({
                let last = self.append - 1;
                let start = last - last % self.page_size;
                self.byte_at(volume, cookie) == if cookie >= start {
                    self.page->0[cookie - start]
                } else {
                    volume[cookie % self.volume_len]
                }
            }),
    {
        self.lemma_last_start();
        if cookie >= self.last_start() {
            lemma_between_boundaries(self.page_size, self.last_start(), cookie);
        }
    }

    /// A cookie lies in the current page exactly if its page starts where that of the last
    /// written byte does.
    pub proof fn law_in_last_page(self, cookie: int)
        requires
            0 < self.page_size,
            0 < self.append,
        ensures
            self.in_last_page(cookie) <==> cookie - cookie % self.page_size == (self.append - 1)
                - (self.append - 1) % self.page_size,
    {
        self.lemma_last_start();
        lemma_page_start(self.page_size, cookie);
        if self.in_last_page(cookie) {
            lemma_between_boundaries(self.page_size, self.last_start(), cookie);
        }
    }

    /// Where an entry is looked for: behind the header at the start of a page; where the bytes
    /// are, unless they start with the byte of erased flash; there too if they are an entry that
    /// fits its page all the same; and otherwise behind the header of the next page.
    pub proof fn law_entry_looked_for(self, volume: Seq<u8>, cookie: int)
        requires
            0 < self.page_size,
        ensures
            ({
                let entry = self.entry_after(volume, cookie);
                let offset = cookie % self.page_size;
                let length = self.entry_len(volume, cookie);
                let fits = offset + WORD_SIZE <= self.page_size && 0 < length && offset + WORD_SIZE
                    + length <= self.page_size && 2 * WORD_SIZE + length <= self.page_size;
                let erased = self.byte_at(volume, cookie) == 0xFF;
                &&& offset == 0 ==> entry == cookie + WORD_SIZE
                &&& offset != 0 && (!erased || fits) ==> entry == cookie
                &&& offset != 0 && erased && !fits ==> (entry - WORD_SIZE) % self.page_size == 0
                    && cookie < entry - WORD_SIZE <= cookie + self.page_size
            }),
    {
        lemma_page_start(self.page_size, cookie);
        lemma_next_boundary(self.page_size, cookie - cookie % self.page_size);
    }

    /// A page can be begun as long as the cookies up to the header of the page after it fit a
    /// word. One is begun after a write for an append, and after one of a page that is full.
    pub proof fn law_room_for_page(self)
        requires
            0 < self.page_size,
            0 < self.append,
        ensures
            self.room() <==> self.next_start() + self.page_size + WORD_SIZE <= usize::MAX,
            self.append <= self.next_start() < self.append + self.page_size,
            self.next_start() % self.page_size == 0,
            self.begins_page() <==> self.state == State::Write || self.next_start() == self.append,
    {
        self.lemma_last_start();
        lemma_next_boundary(self.page_size, self.last_start());
    }

    /// What a volume is recovered to: an idle log without a client, over the whole volume, that
    /// is read from its oldest page on. The oldest page is the lowest that the volume holds.
    /// The append cookie is in the highest page that the volume holds, or at the first entry of
    /// the page after it.
    pub proof fn law_recovered(
        order: ByteOrder,
        volume: Seq<u8>,
        base: int,
        page: Seq<u8>,
        circular: bool,
        oldest: int,
        newest: int,
    )
        requires
            volume_ok(volume.len() as int, page.len() as int),
            0 <= base && base + volume.len() <= usize::MAX,
            recoverable(order, volume, page.len() as int),
            page_recorded(order, volume, page.len() as int, oldest),
            page_recorded(order, volume, page.len() as int, newest),
            forall|other: int| #[trigger]
                page_recorded(order, volume, page.len() as int, other) ==> oldest <= other
                    <= newest,
        ensures
            ({
                let log = LogView::<T>::recovered(order, volume, base, page, circular);
                &&& log == (LogView::<T> {
                    order,
                    base,
                    volume_len: volume.len() as int,
                    capacity: capacity_of(volume.len() as int, page.len() as int),
                    page_size: page.len() as int,
                    circular,
                    client: None,
                    state: State::Idle,
                    read: log.oldest,
                    append: log.append,
                    oldest: log.oldest,
                    page: log.page,
                    pending: None,
                    pending_len: 0,
                })
                &&& log.oldest == oldest + WORD_SIZE
                &&& newest + WORD_SIZE <= log.append <= newest + page.len() + WORD_SIZE
                &&& log.append <= newest + page.len() || log.append == newest + page.len()
                    + WORD_SIZE
                &&& log.page is Some
            }),
    {
        let size = page.len() as int;
        assert(is_oldest_page(order, volume, size, oldest));
        assert(is_newest_page(order, volume, size, newest));
        lemma_extremes(order, volume, size, oldest, newest);
        let last = page_at(volume, size, newest);
        lemma_page_offset(volume.len() as int, size, newest);
        vstd::arithmetic::div_mod::lemma_mod_bound(newest, volume.len() as int);
        lemma_page_in_volume(
            volume.len() as int,
            size,
            newest % (volume.len() as int),
        );
        lemma_used_len_bounds(order, last, PAGE_HEADER_SIZE as int);
        lemma_next_boundary(size, newest);
    }
}

/// A volume holds the page of a cookie exactly if the bytes of the cookie stand at the place of
/// the page; the highest word, which is what erased flash reads as, is the cookie of no page.
pub proof fn law_page_recorded(order: ByteOrder, volume: Seq<u8>, page_size: int, cookie: int)
    requires
        volume_ok(volume.len() as int, page_size),
        0 <= cookie <= usize::MAX,
        cookie % page_size == 0,
    ensures
        ({
            let offset = cookie % (volume.len() as int);
            page_recorded(order, volume, page_size, cookie) <==> cookie != usize::MAX
                && volume.subrange(offset, offset + WORD_SIZE) == word_bytes(order, cookie)
        }),
{
    let len = volume.len() as int;
    let offset = cookie % len;
    lemma_page_offset(len, page_size, cookie);
    vstd::arithmetic::div_mod::lemma_mod_bound(cookie, len);
    lemma_page_in_volume(len, page_size, offset);
    law_word_has_one_form(order, volume.subrange(offset, offset + WORD_SIZE), cookie);
}

/// Walking the entries of a page ends where no entry stands any more: what the header there
/// holds is the length of no entry that fits the page, if a header is in the page at all.
pub proof fn law_walk_ends_at_no_entry(order: ByteOrder, page: Seq<u8>, from: int)
    requires
        0 <= from <= page.len(),
    ensures
        ({
            let end = used_len(order, page, from);
            let length = word_at(order, page, end);
            &&& from <= end <= page.len()
            &&& end + WORD_SIZE > page.len() || length <= 0 || end + WORD_SIZE + length
                > page.len()
        }),
    decreases page.len() - from,
{
    lemma_used_len_bounds(order, page, from);
    if from + WORD_SIZE <= page.len() {
        let length = word_at(order, page, from);
        let next = from + WORD_SIZE + length;
        if 0 < length && next <= page.len() {
            law_walk_ends_at_no_entry(order, page, next);
        }
    }
}

/// Walking passes over an entry that stands where it starts, and over no more: the walk goes on
/// from the end of the entry.
pub proof fn law_walk_passes_entry(order: ByteOrder, page: Seq<u8>, from: int)
    requires
        0 <= from,
        from + WORD_SIZE <= page.len(),
        0 < word_at(order, page, from),
        from + WORD_SIZE + word_at(order, page, from) <= page.len(),
    ensures
        used_len(order, page, from) == used_len(
            order,
            page,
            from + WORD_SIZE + word_at(order, page, from),
        ),
{
}

/// Overwriting replaces exactly the bytes of the stretch that is written.
pub proof fn law_overwrite(s: Seq<u8>, at: int, bytes: Seq<u8>)
    requires
        0 <= at,
        at + bytes.len() <= s.len(),
    ensures
        overwrite(s, at, bytes) == s.subrange(0, at) + bytes + s.subrange(
            at + bytes.len(),
            s.len() as int,
        ),
{
}

/// Padding keeps what comes before it, and reads as erased flash.
pub proof fn law_padded(page: Seq<u8>, from: int)
    requires
        0 <= from <= page.len(),
    ensures
        padded(page, from) == page.subrange(0, from) + Seq::new(
            (page.len() - from) as nat,
            |i: int| 0xFFu8,
        ),
{
}

/// Every volume of one or more whole pages will do, as long as a page holds more than a word,
/// and no other.
pub proof fn law_volumes(pages: int, page_size: int, volume_len: int)
    requires
        0 < pages,
        WORD_SIZE < page_size,
    ensures
        volume_ok(pages * page_size, page_size),
        volume_ok(volume_len, page_size) ==> 0 < volume_len && volume_len == (volume_len
            / page_size) * page_size,
        forall|size: int| #[trigger] volume_ok(volume_len, size) ==> WORD_SIZE < size,
{
    vstd::arithmetic::div_mod::lemma_mod_multiples_basic(pages, page_size);
    vstd::arithmetic::mul::lemma_mul_inequality(1, pages, page_size);
    vstd::arithmetic::div_mod::lemma_fundamental_div_mod(volume_len, page_size);
    vstd::arithmetic::mul::lemma_mul_is_commutative(volume_len / page_size, page_size);
}

/// The capacity of a volume is what its pages hold beside one word each.
pub proof fn law_capacity(pages: int, page_size: int)
    requires
        0 < pages,
        WORD_SIZE < page_size,
    ensures
        capacity_of(pages * page_size, page_size) == pages * (page_size - WORD_SIZE),
{
    vstd::arithmetic::div_mod::lemma_div_multiples_vanish(pages, page_size);
    vstd::arithmetic::mul::lemma_mul_is_commutative(pages, page_size);
    vstd::arithmetic::mul::lemma_mul_is_commutative(pages, WORD_SIZE as int);
    vstd::arithmetic::mul::lemma_mul_is_distributive_sub(pages, page_size, WORD_SIZE as int);
}

} // verus!
