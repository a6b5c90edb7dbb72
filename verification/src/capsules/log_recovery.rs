//! What a log on flash promises across a restart: after a sync, a log that is
//! recovered from the volume holds the entries that the log held.

use crate::capsules::log_layout::{
    is_newest_page, is_oldest_page, lemma_between_boundaries, lemma_boundary_order, lemma_extremes,
    lemma_next_boundary, lemma_page_in_volume, lemma_page_offset, lemma_page_offset_of_difference,
    lemma_page_start, newest_page, oldest_page, page_at, page_recorded, recoverable, used_len,
    volume_ok, word_at, ENTRY_HEADER_SIZE, PAGE_HEADER_SIZE,
};
use crate::capsules::log_view::{LogView, State};
use crate::capsules::word::{
    lemma_word_of_ones, lemma_word_of_zeros, lemma_word_roundtrip, word_bytes, ByteOrder, WORD_SIZE,
};
use vstd::prelude::*;

verus! {

impl<T> LogView<T> {
    /// The volume holds the pages of the log up to the cookie `end`, and no others.
    pub open spec fn pages_recorded(self, volume: Seq<u8>, end: int) -> bool {
        forall|cookie: int| #[trigger]
            page_recorded(self.order, volume, self.page_size, cookie) <==> cookie
                % self.page_size == 0
                && self.oldest - PAGE_HEADER_SIZE <= cookie < end
    }

    /// The volume holds the pages of the log, with or without the current page, whose
    /// header is in place.
    pub open spec fn on_flash(self, volume: Seq<u8>) -> bool {
        &&& word_at(self.order, self.page->0, 0) == self.last_start()
        &&& self.pages_recorded(volume, self.last_start()) || self.pages_recorded(
            volume,
            self.last_start() + self.page_size,
        )
    }

    /// Writing the current page records it in place of the page that it overwrites.
    #[verifier::rlimit(40)]
    proof fn lemma_written_pages(self, volume: Seq<u8>)
        requires
            self.consistent(volume),
            self.on_flash(volume),
        ensures
            self.flushed(State::Idle).pages_recorded(
                self.written(volume),
                self.last_start() + self.page_size,
            ),
            page_at(self.written(volume), self.page_size, self.last_start())
                == self.page_to_flush(),
    {
        let size = self.page_size;
        let len = self.volume_len;
        let start = self.last_start();
        let first = start - len;
        let slot = start % len;
        let new_volume = self.written(volume);
        let page = self.page_to_flush();
        let after = self.flushed(State::Idle);
        self.lemma_last_start();
        self.lemma_flushed_cookies(volume);
        lemma_page_start(size, self.oldest);
        lemma_page_offset_of_difference(len, size, start);
        lemma_page_offset(len, size, start);
        vstd::arithmetic::div_mod::lemma_mod_bound(start, len);
        lemma_page_in_volume(len, size, slot);
        assert(page_at(new_volume, size, start) =~= page);
        assert(page.subrange(0, WORD_SIZE as int) =~= self.page->0.subrange(0, WORD_SIZE as int));
        assert(new_volume.subrange(slot, slot + WORD_SIZE) =~= page.subrange(0, WORD_SIZE as int));
        assert forall|cookie: int| #[trigger]
            page_recorded(self.order, new_volume, size, cookie) <==> cookie % size == 0
            && after.oldest
            - PAGE_HEADER_SIZE <= cookie < start + size by {
            let offset = cookie % len;
            vstd::arithmetic::div_mod::lemma_mod_bound(cookie, len);
            if 0 <= cookie {
                lemma_page_offset(len, size, cookie);
            }
            if offset % size == 0 && offset != slot {
                lemma_boundary_order(size, offset, slot);
                lemma_boundary_order(size, slot, offset);
                lemma_page_in_volume(len, size, offset);
                assert(new_volume.subrange(offset, offset + WORD_SIZE) =~= volume.subrange(
                    offset,
                    offset + WORD_SIZE,
                ));
                assert(page_recorded(self.order, new_volume, size, cookie) == page_recorded(
                    self.order,
                    volume,
                    size,
                    cookie,
                ));
            }
            if offset == slot {
                // Of the cookies in this slot, only the current page's is in range.
                if cookie % size == 0 && after.oldest - PAGE_HEADER_SIZE <= cookie < start + size
                    && cookie != start {
                    lemma_boundary_order(size, cookie, start);
                    self.lemma_slots_differ(cookie);
                }
            } else if cookie % size == 0 {
                lemma_boundary_order(size, cookie, start);
                lemma_boundary_order(size, cookie, first);
                lemma_boundary_order(size, first, cookie);
                if cookie == first {
                    vstd::arithmetic::div_mod::lemma_mod_sub_multiples_vanish(start, len);
                }
            }
        }
    }

    /// A page of the log that the current page does not overwrite lies elsewhere in the
    /// volume.
    proof fn lemma_slots_differ(self, cookie: int)
        requires
            volume_ok(self.volume_len, self.page_size),
            0 <= cookie,
            self.last_start() - self.volume_len < cookie < self.last_start(),
        ensures
            cookie % self.volume_len != self.last_start() % self.volume_len,
    {
        let len = self.volume_len;
        let start = self.last_start();
        let gap = start - cookie;
        if cookie % len == start % len {
            vstd::arithmetic::div_mod::lemma_sub_mod_noop(start, cookie, len);
            vstd::arithmetic::div_mod::lemma_small_mod(0, len as nat);
            vstd::arithmetic::div_mod::lemma_small_mod(gap as nat, len as nat);
        }
    }

    /// Walking the written page finds the entries that the log has put into it.
    proof fn lemma_walk(self, volume: Seq<u8>, cookie: int)
        requires
            self.stored(volume),
            self.last_start() + PAGE_HEADER_SIZE <= cookie <= self.append,
            self.chained(volume, cookie),
        ensures
            used_len(self.order, self.page_to_flush(), cookie - self.last_start()) == self.append
                - self.last_start(),
        decreases self.append - cookie,
    {
        let size = self.page_size;
        let start = self.last_start();
        let page = self.page_to_flush();
        let at = cookie - start;
        self.lemma_last_start();
        if cookie < self.append {
            lemma_between_boundaries(size, start, cookie);
            assert(self.entry_after(volume, cookie) == cookie);
            let length = self.entry_len(volume, cookie);
            assert(self.byte_at(volume, cookie) == page[at]);
            assert(self.bytes_at(volume, cookie, WORD_SIZE as int) =~= page.subrange(
                at,
                at + WORD_SIZE,
            ));
            self.lemma_walk(volume, cookie + ENTRY_HEADER_SIZE + length);
        } else if at + WORD_SIZE <= size {
            lemma_word_of_ones(self.order, page.subrange(at, at + WORD_SIZE));
        }
    }

    /// Only the oldest cookie decides which pages are to be on flash.
    proof fn lemma_same_pages(self, other: LogView<T>, volume: Seq<u8>, end: int)
        requires
            self.pages_recorded(volume, end),
            other.order == self.order,
            other.page_size == self.page_size,
            other.oldest == self.oldest,
        ensures
            other.pages_recorded(volume, end),
    {
        assert forall|cookie: int| #[trigger]
            page_recorded(other.order, volume, other.page_size, cookie) <==> cookie
            % other.page_size == 0
            && other.oldest - PAGE_HEADER_SIZE <= cookie < end by {
            assert(page_recorded(self.order, volume, self.page_size, cookie) == page_recorded(
                other.order,
                volume,
                other.page_size,
                cookie,
            ));
        }
    }

    /// Reading, seeking and setting a client leave what is on flash alone.
    pub proof fn law_reading_on_flash(self, volume: Seq<u8>, read: int, client: Option<T>)
        requires
            self.on_flash(volume),
        ensures
            (LogView { read, client, ..self }).on_flash(volume),
    {
        let after = LogView { read, client, ..self };
        let end = if self.pages_recorded(volume, self.last_start()) {
            self.last_start()
        } else {
            self.last_start() + self.page_size
        };
        self.lemma_same_pages(after, volume, end);
    }

    /// Appending to the current page leaves the pages on flash and its header alone.
    pub proof fn law_append_on_flash(self, volume: Seq<u8>, data: Seq<u8>)
        requires
            self.consistent(volume),
            self.on_flash(volume),
            self.append_error(data.len() as int, data.len() as int) is None,
            self.fits_rest(data.len() as int),
        ensures
            self.with_entry(data).on_flash(volume),
    {
        let after = self.with_entry(data);
        self.lemma_last_start();
        self.lemma_with_entry_wf(data);
        assert(after.page->0.subrange(0, WORD_SIZE as int) =~= self.page->0.subrange(
            0,
            WORD_SIZE as int,
        ));
        if self.pages_recorded(volume, self.last_start()) {
            assert(after.pages_recorded(volume, after.last_start()));
        } else {
            assert(after.pages_recorded(volume, after.last_start() + after.page_size));
        }
    }

    /// Appending on a new page leaves every page of the log but the new one on flash.
    #[verifier::rlimit(40)]
    pub proof fn law_append_on_new_page_on_flash(
        self,
        volume: Seq<u8>,
        buffer: Seq<u8>,
        length: int,
    )
        requires
            self.consistent(volume),
            self.on_flash(volume),
            0 <= length,
            self.append_error(buffer.len() as int, length) is None,
            !self.fits_rest(length),
            self.room(),
        ensures
            (LogView {
                pending: Some(buffer),
                pending_len: length,
                ..self.flushed(State::Write)
            }).after_append_write(self.page_to_flush()).on_flash(self.written(volume)),
    {
        let page = self.page_to_flush();
        let waiting = LogView {
            pending: Some(buffer),
            pending_len: length,
            ..self.flushed(State::Write)
        };
        let ready = waiting.reset(page);
        let after = waiting.after_append_write(page);
        let data = buffer.subrange(0, length);
        self.lemma_last_start();
        self.lemma_flushed_for_append_wf(buffer, length);
        self.lemma_written_pages(volume);
        waiting.lemma_last_start_is(self.last_start());
        waiting.lemma_last_start();
        waiting.lemma_reset(page);
        lemma_word_roundtrip(self.order, waiting.next_start());
        waiting.lemma_after_append_write_wf(page);
        lemma_next_boundary(self.page_size, self.last_start());
        after.lemma_last_start_is(self.last_start() + self.page_size);
        assert(after.page->0.subrange(0, WORD_SIZE as int) =~= word_bytes(
            self.order,
            waiting.next_start(),
        ));
        self.flushed(State::Idle).lemma_same_pages(
            after,
            self.written(volume),
            after.last_start(),
        );
    }

    /// A sync that completes leaves every page of the log on flash, but for an empty one
    /// that it may have begun.
    #[verifier::rlimit(40)]
    pub proof fn law_sync_on_flash(self, volume: Seq<u8>)
        requires
            self.consistent(volume),
            self.on_flash(volume),
            self.state == State::Idle,
            self.client is Some,
            self.room(),
        ensures
            self.flushed(State::Sync).after_sync_write(self.page_to_flush()).on_flash(
                self.written(volume),
            ),
    {
        let page = self.page_to_flush();
        let waiting = self.flushed(State::Sync);
        let after = waiting.after_sync_write(page);
        let start = self.last_start();
        self.lemma_last_start();
        self.lemma_flushed_wf();
        self.lemma_written_pages(volume);
        waiting.lemma_last_start_is(start);
        waiting.lemma_last_start();
        waiting.lemma_reset(page);
        lemma_word_roundtrip(self.order, waiting.next_start());
        lemma_next_boundary(self.page_size, start);
        if self.append % self.page_size == 0 && !self.at_end() {
            after.lemma_last_start_is(start + self.page_size);
            assert(after.page->0.subrange(0, WORD_SIZE as int) =~= word_bytes(
                self.order,
                waiting.next_start(),
            ));
        } else {
            after.lemma_last_start_is(start);
            assert(after.page->0.subrange(0, WORD_SIZE as int) =~= self.page->0.subrange(
                0,
                WORD_SIZE as int,
            ));
        }
        self.flushed(State::Idle).lemma_same_pages(
            after,
            self.written(volume),
            start + self.page_size,
        );
    }

    /// A log that is recovered after a sync has completed is the synced log, read from its
    /// beginning: it has the same oldest and append cookies and holds the same entries,
    /// all of them unread.
    #[verifier::rlimit(40)]
    pub proof fn law_recover_after_sync(self, volume: Seq<u8>, buffer: Seq<u8>)
        requires
            self.consistent(volume),
            self.on_flash(volume),
            self.state == State::Idle,
            self.client is Some,
            self.room(),
            buffer.len() == self.page_size,
        ensures
            ({
                let synced = self.flushed(State::Sync).after_sync_write(self.page_to_flush());
                let new_volume = self.written(volume);
                let log = LogView::<T>::recovered(
                    self.order,
                    new_volume,
                    self.base,
                    buffer,
                    self.circular,
                );
                &&& recoverable(self.order, new_volume, self.page_size)
                &&& log.oldest == synced.oldest
                &&& log.append == synced.append
                &&& log.read == synced.oldest
                &&& log.consistent(new_volume)
                &&& log.on_flash(new_volume)
                &&& log.entries(new_volume) == synced.entries(new_volume)
                &&& log.unread(new_volume) == synced.entries(new_volume)
            }),
    {
        self.lemma_last_start();
        self.lemma_synced_pages(volume);
        self.law_sync(volume);
        self.law_sync_on_flash(volume);
        if self.append % self.page_size == 0 && !self.at_end() {
            self.lemma_recover_full_page(volume, buffer);
        } else {
            self.lemma_recover_part_page(volume, buffer);
        }
    }

    /// What scanning the headers and walking the last page find after a sync.
    #[verifier::rlimit(40)]
    proof fn lemma_synced_pages(self, volume: Seq<u8>)
        requires
            self.consistent(volume),
            self.on_flash(volume),
            self.room(),
        ensures
            ({
                let new_volume = self.written(volume);
                let start = self.last_start();
                let oldest = self.flushed(State::Sync).oldest - PAGE_HEADER_SIZE;
                &&& new_volume.len() == volume.len()
                &&& recoverable(self.order, new_volume, self.page_size)
                &&& is_oldest_page(self.order, new_volume, self.page_size, oldest)
                &&& is_newest_page(self.order, new_volume, self.page_size, start)
                &&& oldest_page(self.order, new_volume, self.page_size) == oldest
                &&& newest_page(self.order, new_volume, self.page_size) == start
                &&& page_at(new_volume, self.page_size, start) == self.page_to_flush()
                &&& used_len(self.order, self.page_to_flush(), PAGE_HEADER_SIZE as int)
                    == self.append - start
                &&& self.flushed(State::Sync).pages_recorded(new_volume, start + self.page_size)
            }),
    {
        let size = self.page_size;
        let start = self.last_start();
        let waiting = self.flushed(State::Sync);
        let new_volume = self.written(volume);
        let oldest = waiting.oldest - PAGE_HEADER_SIZE;
        self.lemma_last_start();
        self.lemma_flushed_cookies(volume);
        self.lemma_written_pages(volume);
        self.flushed(State::Idle).lemma_same_pages(waiting, new_volume, start + size);
        assert(waiting.page_size == size);
        lemma_page_start(size, waiting.oldest);
        assert(page_recorded(self.order, new_volume, size, start));
        assert(page_recorded(self.order, new_volume, size, oldest));
        assert forall|other: int| #[trigger]
            page_recorded(self.order, new_volume, size, other) implies oldest
            <= other <= start by {
            lemma_boundary_order(size, other, start);
        }
        assert(is_newest_page(self.order, new_volume, size, start));
        assert(is_oldest_page(self.order, new_volume, size, oldest));
        lemma_extremes(self.order, new_volume, size, oldest, start);
        self.lemma_walk(volume, start + PAGE_HEADER_SIZE);
    }

    #[verifier::rlimit(40)]
    proof fn lemma_recover_part_page(self, volume: Seq<u8>, buffer: Seq<u8>)
        requires
            self.consistent(volume),
            self.on_flash(volume),
            self.state == State::Idle,
            self.client is Some,
            self.room(),
            buffer.len() == self.page_size,
            self.append % self.page_size != 0 || self.at_end(),
        ensures
            ({
                let synced = self.flushed(State::Sync).after_sync_write(self.page_to_flush());
                let new_volume = self.written(volume);
                let log = LogView::<T>::recovered(
                    self.order,
                    new_volume,
                    self.base,
                    buffer,
                    self.circular,
                );
                &&& log.oldest == synced.oldest
                &&& log.append == synced.append
                &&& log.read == synced.oldest
                &&& log.consistent(new_volume)
                &&& log.on_flash(new_volume)
                &&& log.entries(new_volume) == synced.entries(new_volume)
            }),
    {
        let size = self.page_size;
        let start = self.last_start();
        let waiting = self.flushed(State::Sync);
        let synced = waiting.after_sync_write(self.page_to_flush());
        let new_volume = self.written(volume);
        let oldest = waiting.oldest - PAGE_HEADER_SIZE;
        let log = LogView::<T>::recovered(self.order, new_volume, self.base, buffer, self.circular);
        self.lemma_last_start();
        self.lemma_synced_pages(volume);
        self.law_sync(volume);
        self.law_sync_on_flash(volume);
        LogView::<T>::lemma_recovered_wf(
            self.order,
            new_volume,
            self.base,
            buffer,
            self.circular,
            oldest,
            start,
        );
        synced.lemma_last_start_is(start);
        log.lemma_last_start_is(start);
        assert(log.page == synced.page);
        synced.lemma_same_cookies(log, new_volume, synced.oldest);
        synced.lemma_same_cookies(log, new_volume, start + PAGE_HEADER_SIZE);
        waiting.lemma_same_pages(log, new_volume, start + size);
    }

    #[verifier::rlimit(40)]
    proof fn lemma_recover_full_page(self, volume: Seq<u8>, buffer: Seq<u8>)
        requires
            self.consistent(volume),
            self.on_flash(volume),
            self.state == State::Idle,
            self.client is Some,
            self.room(),
            buffer.len() == self.page_size,
            self.append % self.page_size == 0,
            !self.at_end(),
        ensures
            ({
                let synced = self.flushed(State::Sync).after_sync_write(self.page_to_flush());
                let new_volume = self.written(volume);
                let log = LogView::<T>::recovered(
                    self.order,
                    new_volume,
                    self.base,
                    buffer,
                    self.circular,
                );
                &&& log.oldest == synced.oldest
                &&& log.append == synced.append
                &&& log.read == synced.oldest
                &&& log.consistent(new_volume)
                &&& log.on_flash(new_volume)
                &&& log.entries(new_volume) == synced.entries(new_volume)
            }),
    {
        let size = self.page_size;
        let start = self.last_start();
        let page = self.page_to_flush();
        let waiting = self.flushed(State::Sync);
        let synced = waiting.after_sync_write(page);
        let new_volume = self.written(volume);
        let oldest = waiting.oldest - PAGE_HEADER_SIZE;
        let log = LogView::<T>::recovered(self.order, new_volume, self.base, buffer, self.circular);
        let next = start + size;
        self.lemma_last_start();
        self.lemma_flushed_wf();
        self.lemma_synced_pages(volume);
        self.law_sync(volume);
        self.law_sync_on_flash(volume);
        LogView::<T>::lemma_recovered_wf(
            self.order,
            new_volume,
            self.base,
            buffer,
            self.circular,
            oldest,
            start,
        );
        lemma_next_boundary(size, start);
        lemma_boundary_order(size, self.volume_len, self.append);
        waiting.lemma_last_start_is(start);
        waiting.lemma_reset(page);
        let header = word_bytes(self.order, next);
        lemma_word_roundtrip(self.order, next);
        assert(synced.append == next + PAGE_HEADER_SIZE && synced.oldest == waiting.oldest);
        assert(log.append == next + PAGE_HEADER_SIZE && log.oldest == waiting.oldest);
        assert(log.page->0.subrange(0, WORD_SIZE as int) =~= header);
        assert(synced.page->0.subrange(0, WORD_SIZE as int) =~= header);
        synced.lemma_fresh_page(log, new_volume, next);
        waiting.lemma_same_pages(log, new_volume, next);
    }

    /// Of a page that holds only its header, what follows the header does not matter.
    #[verifier::rlimit(40)]
    proof fn lemma_fresh_page(self, other: LogView<T>, volume: Seq<u8>, start: int)
        requires
            self.consistent(volume),
            other.wf(),
            other.stored(volume),
            other.volume_len == self.volume_len,
            other.page_size == self.page_size,
            other.circular == self.circular,
            other.order == self.order,
            other.append == self.append == start + PAGE_HEADER_SIZE,
            start % self.page_size == 0,
            other.oldest == self.oldest,
            other.read == self.oldest,
            other.page->0.subrange(0, WORD_SIZE as int) == self.page->0.subrange(
                0,
                WORD_SIZE as int,
            ),
        ensures
            other.last_start() == self.last_start() == start,
            other.consistent(volume),
            other.entries(volume) == self.entries(volume),
    {
        self.lemma_last_start_is(start);
        other.lemma_last_start_is(start);
        assert forall|x: int| 0 <= x < self.append implies #[trigger] self.byte_at(volume, x)
            == other.byte_at(volume, x) by {
            if self.in_last_page(x) {
                lemma_between_boundaries(self.page_size, start, x);
                let k = x - start;
                assert(0 <= k < WORD_SIZE);
                assert(self.page->0.subrange(0, WORD_SIZE as int)[k] == self.page->0[k]);
                assert(other.page->0.subrange(0, WORD_SIZE as int)[k] == other.page->0[k]);
                assert(self.byte_at(volume, x) == self.page->0[k]);
                assert(other.byte_at(volume, x) == other.page->0[k]);
            }
        }
        self.lemma_transfer(volume, other, volume, self.oldest);
        other.lemma_entry_after(volume, other.append);
        assert(other.entries_from(volume, other.append) =~= seq![]);
        assert(other.entries(volume) =~= self.entries(volume));
    }

    /// Erasing the oldest page takes it, and no other, off the flash.
    proof fn lemma_without_oldest_pages(self, volume: Seq<u8>, end: int)
        requires
            self.wf(),
            volume.len() == self.volume_len,
            self.pages_recorded(volume, end),
        ensures
            forall|cookie: int| #[trigger]
                page_recorded(
                    self.order,
                    self.without_oldest(volume),
                    self.page_size,
                    cookie,
                ) <==> cookie
                    % self.page_size == 0 && self.oldest - PAGE_HEADER_SIZE + self.page_size
                    <= cookie < end,
    {
        let size = self.page_size;
        let len = self.volume_len;
        let start = self.oldest - PAGE_HEADER_SIZE;
        let slot = start % len;
        let new_volume = self.without_oldest(volume);
        lemma_page_start(size, self.oldest);
        lemma_page_offset(len, size, start);
        vstd::arithmetic::div_mod::lemma_mod_bound(start, len);
        lemma_page_in_volume(len, size, slot);
        lemma_word_of_ones(self.order, new_volume.subrange(slot, slot + WORD_SIZE));
        assert forall|cookie: int| #[trigger]
            page_recorded(self.order, new_volume, size, cookie) <==> cookie % size == 0 && start
            + size
            <= cookie < end by {
            let offset = cookie % len;
            vstd::arithmetic::div_mod::lemma_mod_bound(cookie, len);
            let kept = cookie % size == 0 && start + size <= cookie < end;
            assert(kept ==> page_recorded(self.order, volume, size, cookie));
            if offset == slot {
                assert(kept ==> page_recorded(self.order, volume, size, start));
            } else if offset % size == 0 {
                lemma_boundary_order(size, offset, slot);
                lemma_boundary_order(size, slot, offset);
                lemma_page_in_volume(len, size, offset);
                assert(new_volume.subrange(offset, offset + WORD_SIZE) =~= volume.subrange(
                    offset,
                    offset + WORD_SIZE,
                ));
                assert(page_recorded(self.order, new_volume, size, cookie) == page_recorded(
                    self.order,
                    volume,
                    size,
                    cookie,
                ));
                if cookie % size == 0 && start <= cookie {
                    lemma_boundary_order(size, cookie, start);
                }
            }
        }
    }

    /// Erasing the oldest page of several leaves the other pages of the log on flash,
    /// whether or not the erase is given up then.
    pub proof fn law_partial_erase_on_flash(self, volume: Seq<u8>)
        requires
            self.wf(),
            self.stored(volume),
            self.on_flash(volume),
            !self.one_page_left(),
        ensures
            self.after_erase().on_flash(self.without_oldest(volume)),
            self.after_erase().given_up_erase().on_flash(self.without_oldest(volume)),
    {
        let after = self.after_erase();
        let new_volume = self.without_oldest(volume);
        let end = if self.pages_recorded(volume, self.last_start()) {
            self.last_start()
        } else {
            self.last_start() + self.page_size
        };
        self.lemma_without_oldest_pages(volume, end);
        assert(after.page_size == self.page_size && after.last_start() == self.last_start());
        assert(after.pages_recorded(new_volume, end));
        let given_up = after.given_up_erase();
        self.lemma_last_start();
        self.lemma_after_erase_wf();
        after.lemma_given_up_erase_wf();
        if given_up.oldest == after.oldest {
            after.lemma_same_pages(given_up, new_volume, end);
        } else {
            // No page is left on flash, and the current one is still at hand.
            lemma_page_start(self.page_size, self.append);
            self.lemma_next_to_erase();
            lemma_page_start(self.page_size, self.oldest);
            lemma_boundary_order(
                self.page_size,
                self.last_start(),
                self.oldest - PAGE_HEADER_SIZE,
            );
            assert forall|cookie: int| #[trigger]
                page_recorded(given_up.order, new_volume, given_up.page_size, cookie) <==> cookie
                % given_up.page_size == 0 && given_up.oldest - PAGE_HEADER_SIZE <= cookie
                < given_up.last_start() by {
                assert(page_recorded(self.order, new_volume, self.page_size, cookie)
                    == page_recorded(given_up.order, new_volume, given_up.page_size, cookie));
            }
            assert(given_up.pages_recorded(new_volume, given_up.last_start()));
        }
    }

    /// Erasing the last page of the log leaves no page on flash, and the log with the header
    /// of its first page in place.
    pub proof fn law_erased_on_flash(self, volume: Seq<u8>)
        requires
            self.wf(),
            self.stored(volume),
            self.on_flash(volume),
            self.one_page_left(),
        ensures
            self.after_erase().on_flash(self.without_oldest(volume)),
    {
        let size = self.page_size;
        let after = self.after_erase();
        let new_volume = self.without_oldest(volume);
        let end = if self.pages_recorded(volume, self.last_start()) {
            self.last_start()
        } else {
            self.last_start() + size
        };
        self.lemma_without_oldest_pages(volume, end);
        self.lemma_last_start();
        lemma_page_start(size, self.append);
        lemma_boundary_order(size, self.last_start(), self.append - self.append % size);
        self.lemma_cleared_wf();
        vstd::arithmetic::div_mod::lemma_small_mod(0, size as nat);
        after.lemma_last_start_is(0);
        lemma_word_roundtrip(self.order, 0);
        assert(after.page->0.subrange(0, WORD_SIZE as int) =~= word_bytes(self.order, 0));
        assert(after.page_size == size);
        assert forall|cookie: int| #[trigger]
            page_recorded(after.order, new_volume, after.page_size, cookie) <==> cookie
            % after.page_size == 0
            && after.oldest - PAGE_HEADER_SIZE <= cookie < 0 by {
            assert(page_recorded(self.order, new_volume, size, cookie) == page_recorded(
                after.order,
                new_volume,
                after.page_size,
                cookie,
            ));
        }
        assert(after.pages_recorded(new_volume, after.last_start()));
    }

    /// Erasing all of the log leaves it such that whatever is appended and synced from then
    /// on is recovered.
    pub proof fn law_erase_on_flash(self, volume: Seq<u8>)
        requires
            self.wf(),
            self.stored(volume),
            self.on_flash(volume),
        ensures
            self.erased_log().on_flash(self.erased_volume(volume)),
        decreases self.append - (self.oldest - PAGE_HEADER_SIZE),
    {
        self.lemma_after_erase_wf();
        self.lemma_without_oldest(volume);
        if self.one_page_left() {
            self.law_erased_on_flash(volume);
        } else {
            lemma_page_start(self.page_size, self.append);
            self.lemma_next_to_erase();
            self.law_partial_erase_on_flash(volume);
            self.after_erase().law_erase_on_flash(self.without_oldest(volume));
        }
    }

    /// On a volume of zero bytes, a log starts out consistent and empty.
    pub proof fn law_blank_volume(
        order: ByteOrder,
        volume: Seq<u8>,
        base: int,
        buffer: Seq<u8>,
        circular: bool,
    )
        requires
            volume_ok(volume.len() as int, buffer.len() as int),
            forall|i: int| 0 <= i < volume.len() ==> volume[i] == 0,
            0 <= base && base + volume.len() <= usize::MAX,
            2 * buffer.len() + PAGE_HEADER_SIZE <= usize::MAX,
        ensures
            recoverable(order, volume, buffer.len() as int),
            ({
                let log = LogView::<T>::recovered(order, volume, base, buffer, circular);
                &&& log.consistent(volume)
                &&& log.on_flash(volume)
                &&& log.entries(volume).len() == 0
                &&& log.unread(volume).len() == 0
                &&& log.append == PAGE_HEADER_SIZE
                &&& !log.records_lost()
            }),
    {
        let len = volume.len() as int;
        let size = buffer.len() as int;
        let log = LogView::<T>::recovered(order, volume, base, buffer, circular);
        vstd::arithmetic::div_mod::lemma_small_mod(0, len as nat);
        vstd::arithmetic::div_mod::lemma_small_mod(0, size as nat);
        assert forall|cookie: int| #[trigger] page_recorded(order, volume, size, cookie) <==> cookie
            == 0 by {
            let offset = cookie % len;
            vstd::arithmetic::div_mod::lemma_mod_bound(cookie, len);
            if 0 <= cookie && offset % size == 0 {
                lemma_page_in_volume(len, size, offset);
                lemma_word_of_zeros(order, volume.subrange(offset, offset + WORD_SIZE));
            }
        }
        assert(is_newest_page(order, volume, size, 0));
        assert(is_oldest_page(order, volume, size, 0));
        lemma_extremes(order, volume, size, 0, 0);
        LogView::<T>::lemma_recovered_wf(order, volume, base, buffer, circular, 0, 0);
        let page = page_at(volume, size, 0);
        if 2 * PAGE_HEADER_SIZE <= size {
            lemma_word_of_zeros(
                order,
                page.subrange(PAGE_HEADER_SIZE as int, 2 * PAGE_HEADER_SIZE),
            );
        }
        assert(used_len(order, page, PAGE_HEADER_SIZE as int) == PAGE_HEADER_SIZE);
        log.lemma_last_start_is(0);
        log.lemma_entry_after(volume, log.append);
        lemma_word_of_zeros(order, log.page->0.subrange(0, WORD_SIZE as int));
        assert forall|cookie: int| #[trigger]
            page_recorded(order, volume, size, cookie) <==> cookie % size == 0 && 0 <= cookie
            < size by {
            if cookie % size == 0 {
                lemma_boundary_order(size, cookie, 0);
            }
        }
        assert(log.pages_recorded(volume, log.last_start() + size));
        assert(log.entries(volume) =~= seq![]);
    }
}

} // verus!
