//! Every operation on a log keeps it well-formed.

use crate::capsules::log_layout::{
    capacity_of, is_newest_page, is_oldest_page, lemma_between_boundaries, lemma_boundary_order,
    lemma_extremes, lemma_next_boundary, lemma_page_in_volume, lemma_page_offset,
    lemma_page_offset_of_difference, lemma_page_start, lemma_used_len_bounds, page_at,
    page_recorded, recoverable, used_len, volume_ok, ENTRY_HEADER_SIZE, PAGE_HEADER_SIZE,
};
use crate::capsules::log_view::{LogView, State};
use crate::capsules::word::{lemma_word_bytes_len, ByteOrder};
use vstd::prelude::*;

verus! {

impl<T> LogView<T> {
    /// Where the append cookie lies in relation to the page that is being filled.
    pub proof fn lemma_last_start(self)
        requires
            0 < self.page_size,
            0 < self.append,
        ensures
            0 <= self.last_start(),
            self.last_start() % self.page_size == 0,
            self.last_start() < self.append <= self.last_start() + self.page_size,
            self.append % self.page_size == 0 <==> self.append == self.last_start()
                + self.page_size,
            self.append % self.page_size != 0 ==> self.append % self.page_size == self.append
                - self.last_start(),
            self.next_start() == self.last_start() + self.page_size,
    {
        let start = self.last_start();
        lemma_page_start(self.page_size, self.append - 1);
        if self.append < start + self.page_size {
            lemma_between_boundaries(self.page_size, start, self.append);
        } else {
            lemma_next_boundary(self.page_size, start);
        }
    }

    /// A page boundary that the last byte lies less than a page behind is the start
    /// of the page that is being filled.
    pub proof fn lemma_last_start_is(self, start: int)
        requires
            0 < self.page_size,
            start % self.page_size == 0,
            start < self.append <= start + self.page_size,
        ensures
            self.last_start() == start,
    {
        lemma_between_boundaries(self.page_size, start, self.append - 1);
    }

    /// Appending an entry that fits keeps the log well-formed.
    pub proof fn lemma_with_entry_wf(self, data: Seq<u8>)
        requires
            self.wf(),
            self.page is Some,
            self.fits_rest(data.len() as int),
        ensures
            self.with_entry(data).wf(),
            self.with_entry(data).last_start() == self.last_start(),
            self.append + ENTRY_HEADER_SIZE + data.len() <= self.last_start() + self.page_size,
    {
        self.lemma_last_start();
        self.with_entry(data).lemma_last_start_is(self.last_start());
    }

    /// Sending the current page to flash for a sync keeps the log well-formed.
    pub proof fn lemma_flushed_wf(self)
        requires
            self.wf(),
            self.page is Some,
            self.client is Some,
        ensures
            self.flushed(State::Sync).wf(),
    {
        let size = self.page_size;
        let next = self.last_start() - self.volume_len + size;
        self.lemma_last_start();
        lemma_page_offset_of_difference(self.volume_len, size, self.last_start());
        lemma_next_boundary(size, self.last_start() - self.volume_len);
        lemma_between_boundaries(size, next, next + PAGE_HEADER_SIZE);
    }

    /// Sending the current page to flash for an append that does not fit it keeps
    /// the log well-formed.
    pub proof fn lemma_flushed_for_append_wf(self, buffer: Seq<u8>, length: int)
        requires
            self.wf(),
            self.append_error(buffer.len() as int, length) is None,
            !self.fits_rest(length),
            0 <= length,
        ensures
            (LogView {
                pending: Some(buffer),
                pending_len: length,
                ..self.flushed(State::Write)
            }).wf(),
    {
        let start = self.last_start();
        self.lemma_flushed_wf();
        self.lemma_last_start();
        if !self.circular {
            lemma_next_boundary(self.page_size, start);
            lemma_boundary_order(self.page_size, self.volume_len, start + self.page_size);
        }
    }

    /// A page that is made ready for new data starts where the last page ends, and
    /// any entry that fits a page fits it.
    pub proof fn lemma_reset(self, page: Seq<u8>)
        requires
            volume_ok(self.volume_len, self.page_size),
            PAGE_HEADER_SIZE <= self.append,
            page.len() == self.page_size,
        ensures
            !self.at_end() ==> {
                &&& self.reset(page).last_start() == self.last_start() + self.page_size
                &&& self.reset(page).append == self.last_start() + self.page_size
                    + PAGE_HEADER_SIZE
                &&& self.reset(page).append % self.page_size == PAGE_HEADER_SIZE
                &&& !self.circular ==> self.last_start() + 2 * self.page_size <= self.volume_len
            },
    {
        let start = self.last_start();
        let next = start + self.page_size;
        self.lemma_last_start();
        lemma_next_boundary(self.page_size, start);
        if !self.at_end() {
            self.reset(page).lemma_last_start_is(next);
            lemma_between_boundaries(self.page_size, next, next + PAGE_HEADER_SIZE);
            lemma_boundary_order(self.page_size, self.volume_len, next);
        }
    }

    /// Finishing an append on a new page keeps the log well-formed.
    pub proof fn lemma_after_append_write_wf(self, page: Seq<u8>)
        requires
            self.wf(),
            self.state == State::Write,
            page.len() == self.page_size,
            self.room(),
        ensures
            self.after_append_write(page).wf(),
            self.reset(page).fits_rest(self.pending_len),
            self.reset(page).append + ENTRY_HEADER_SIZE + self.pending_len <= usize::MAX,
    {
        let ready = LogView { state: State::Idle, pending: None, ..self.reset(page) };
        let data = self.pending->0.subrange(0, self.pending_len);
        self.lemma_last_start();
        self.lemma_reset(page);
        lemma_word_bytes_len(self.order, self.next_start());
        lemma_boundary_order(self.page_size, self.volume_len, self.last_start());
        ready.lemma_with_entry_wf(data);
        assert(self.after_append_write(page) =~= ready.with_entry(data));
    }

    /// Finishing a sync keeps the log well-formed.
    pub proof fn lemma_after_sync_write_wf(self, page: Seq<u8>)
        requires
            self.wf(),
            self.state == State::Sync,
            page.len() == self.page_size,
            self.begins_page() ==> self.room(),
        ensures
            self.after_sync_write(page).wf(),
    {
        self.lemma_last_start();
        self.lemma_reset(page);
        lemma_word_bytes_len(self.order, self.next_start());
    }

    /// Erasing all of the log keeps it well-formed.
    pub proof fn lemma_cleared_wf(self)
        requires
            self.wf(),
        ensures
            self.cleared().wf(),
    {
        let size = self.page_size;
        self.lemma_last_start();
        vstd::arithmetic::div_mod::lemma_small_mod(PAGE_HEADER_SIZE as nat, size as nat);
        vstd::arithmetic::div_mod::lemma_small_mod(0, size as nat);
        self.cleared().lemma_last_start_is(0);
    }

    /// Erasing the oldest page keeps the log well-formed.
    pub proof fn lemma_after_erase_wf(self)
        requires
            self.wf(),
        ensures
            self.after_erase().wf(),
            self.after_erase().oldest <= usize::MAX,
    {
        let size = self.page_size;
        let append_start = self.append - self.append % size;
        let oldest_start = self.oldest - PAGE_HEADER_SIZE;
        self.lemma_last_start();
        lemma_page_start(size, self.append);
        lemma_page_start(size, self.oldest);
        if self.one_page_left() {
            self.lemma_cleared_wf();
        } else {
            lemma_boundary_order(size, oldest_start, append_start);
            lemma_boundary_order(size, append_start, oldest_start);
            lemma_next_boundary(size, oldest_start);
            lemma_between_boundaries(size, oldest_start + size, self.oldest + size);
        }
    }

    /// Giving up an erase keeps the log well-formed.
    pub proof fn lemma_given_up_erase_wf(self)
        requires
            self.wf(),
        ensures
            self.given_up_erase().wf(),
            self.given_up_erase().last_start() == self.last_start(),
    {
        self.lemma_last_start();
        lemma_between_boundaries(
            self.page_size,
            self.last_start(),
            self.last_start() + PAGE_HEADER_SIZE,
        );
    }

    /// A log that is recovered from a volume is well-formed.
    pub proof fn lemma_recovered_wf(
        order: ByteOrder,
        volume: Seq<u8>,
        base: int,
        page: Seq<u8>,
        circular: bool,
        oldest: int,
        newest: int,
    )
        requires
            volume_ok(volume.len() as int, page.len() as int),
            0 <= base && base + volume.len() <= usize::MAX,
            recoverable(order, volume, page.len() as int),
            is_oldest_page(order, volume, page.len() as int, oldest),
            is_newest_page(order, volume, page.len() as int, newest),
        ensures
            LogView::<T>::recovered(order, volume, base, page, circular).wf(),
            0 <= oldest <= newest,
            newest + 2 * page.len() + PAGE_HEADER_SIZE <= usize::MAX,
            newest % (volume.len() as int) + page.len() <= volume.len(),
    {
        let len = volume.len() as int;
        let size = page.len() as int;
        let witness = choose|cookie: int| #[trigger]
            is_newest_page(order, volume, size, cookie) && cookie + 2 * size + PAGE_HEADER_SIZE
                <= usize::MAX;
        assert(page_recorded(order, volume, size, witness));
        assert(page_recorded(order, volume, size, newest));
        assert(page_recorded(order, volume, size, oldest));
        lemma_extremes(order, volume, size, oldest, newest);
        lemma_page_offset(len, size, oldest);
        lemma_page_offset(len, size, newest);
        vstd::arithmetic::div_mod::lemma_mod_bound(newest, len);
        lemma_page_in_volume(len, size, newest % len);
        if newest < len {
            vstd::arithmetic::div_mod::lemma_small_mod(newest as nat, len as nat);
        }
        let last = page_at(volume, size, newest);
        let used = used_len(order, last, PAGE_HEADER_SIZE as int);
        lemma_used_len_bounds(order, last, PAGE_HEADER_SIZE as int);
        lemma_between_boundaries(size, oldest, oldest + PAGE_HEADER_SIZE);
        let log = LogView::<T> {
            order,
            base,
            volume_len: len,
            capacity: capacity_of(len, size),
            page_size: size,
            circular,
            client: None,
            state: State::Idle,
            read: oldest + PAGE_HEADER_SIZE,
            append: newest + used,
            oldest: oldest + PAGE_HEADER_SIZE,
            page: Some(last),
            pending: None,
            pending_len: 0,
        };
        log.lemma_last_start_is(newest);
        log.lemma_reset(page);
        lemma_word_bytes_len(order, log.next_start());
    }
}

} // verus!
