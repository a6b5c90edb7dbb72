//! What a log promises as a whole: entries come back in the order in which they
//! were appended, through page writes, syncs and recovery.

use crate::capsules::log_layout::{
    lemma_between_boundaries, lemma_boundary_order, lemma_next_boundary, lemma_page_in_volume,
    lemma_page_offset, lemma_page_offset_of_difference, lemma_page_start, overwrite, volume_ok,
    ENTRY_HEADER_SIZE, PAD_BYTE, PAGE_HEADER_SIZE,
};
use crate::capsules::log_view::{LogView, State};
use crate::capsules::storage_interface::StorageCookie;
use crate::capsules::word::{
    lemma_word_bytes_len, lemma_word_of_ones, lemma_word_roundtrip, word_bytes, WORD_SIZE,
};
use crate::return_code::ReturnCode;
use vstd::prelude::*;

verus! {

impl<T> LogView<T> {
    /// The log and the volume fit each other, and the current page is at hand.
    pub open spec fn stored(self, volume: Seq<u8>) -> bool {
        &&& volume_ok(self.volume_len, self.page_size)
        &&& volume.len() == self.volume_len <= usize::MAX
        &&& self.page is Some
        &&& self.page->0.len() == self.page_size
        &&& PAGE_HEADER_SIZE <= self.append
    }

    /// A whole entry stands at `cookie`: it lies in one page and before the append
    /// cookie.
    pub open spec fn entry_ok(self, volume: Seq<u8>, cookie: int) -> bool {
        let length = self.entry_len(volume, cookie);
        &&& self.valid_len(length)
        &&& cookie % self.page_size + ENTRY_HEADER_SIZE + length <= self.page_size
        &&& cookie + ENTRY_HEADER_SIZE + length <= self.append
    }

    /// Entries follow one another from `cookie` to the append cookie.
    pub open spec fn chained(self, volume: Seq<u8>, cookie: int) -> bool
        decreases self.append - cookie,
    {
        let entry = self.entry_after(volume, cookie);
        if cookie >= self.append {
            cookie == self.append
        } else if entry >= self.append {
            entry == self.append
        } else {
            let next = entry + ENTRY_HEADER_SIZE + self.entry_len(volume, entry);
            &&& cookie <= entry
            &&& self.entry_ok(volume, entry)
            &&& cookie < next
            &&& self.chained(volume, next)
        }
    }

    /// The entries that reading on from `cookie` comes to, in order.
    pub open spec fn entries_from(self, volume: Seq<u8>, cookie: int) -> Seq<Seq<u8>>
        decreases self.append - cookie,
    {
        let entry = self.entry_after(volume, cookie);
        let length = self.entry_len(volume, entry);
        let next = entry + ENTRY_HEADER_SIZE + length;
        if self.valid_len(length) && cookie <= entry && cookie < next <= self.append {
            seq![self.entry_data(volume, entry, length)] + self.entries_from(volume, next)
        } else {
            seq![]
        }
    }

    /// The cookies of the entries that reading on from `cookie` comes to, in order.
    pub open spec fn cookies_from(self, volume: Seq<u8>, cookie: int) -> Seq<int>
        decreases self.append - cookie,
    {
        let entry = self.entry_after(volume, cookie);
        let length = self.entry_len(volume, entry);
        let next = entry + ENTRY_HEADER_SIZE + length;
        if self.valid_len(length) && cookie <= entry && cookie < next <= self.append {
            seq![entry] + self.cookies_from(volume, next)
        } else {
            seq![]
        }
    }

    /// The entries that are still to be read.
    pub open spec fn unread(self, volume: Seq<u8>) -> Seq<Seq<u8>> {
        self.entries_from(volume, self.read)
    }

    /// All entries that the log holds.
    pub open spec fn entries(self, volume: Seq<u8>) -> Seq<Seq<u8>> {
        self.entries_from(volume, self.oldest)
    }

    /// What the last pages of the volume's size, the current one among them, take up of
    /// the volume below the oldest cookie is erased.
    pub open spec fn lap_erased(self, volume: Seq<u8>) -> bool {
        forall|x: int|
            0 <= x && self.last_start() - self.volume_len + self.page_size <= x < self.oldest
                - PAGE_HEADER_SIZE ==> #[trigger] flash_byte(volume, self.volume_len, x)
                == PAD_BYTE
    }

    /// The log holds whole entries, from the oldest on and from the read cookie on,
    /// and no more pages than the volume has room for beside the current page. The read
    /// cookie is not inside a page header, a log that is not circular is within the volume,
    /// and pages that were erased from the log are erased.
    pub open spec fn consistent(self, volume: Seq<u8>) -> bool {
        &&& self.wf()
        &&& self.stored(volume)
        &&& !self.circular ==> self.append <= self.volume_len
        &&& self.last_start() - self.volume_len <= self.oldest - PAGE_HEADER_SIZE
            <= self.last_start()
        &&& self.lap_erased(volume)
        &&& self.oldest - PAGE_HEADER_SIZE <= self.read <= self.append
        &&& self.read % self.page_size == 0 || self.read % self.page_size >= PAGE_HEADER_SIZE
        &&& self.chained(volume, self.oldest)
        &&& self.chained(volume, self.read)
        &&& self.chained(volume, self.last_start() + PAGE_HEADER_SIZE)
    }

    /// The volume once the flash controller has written the current page.
    pub open spec fn written(self, volume: Seq<u8>) -> Seq<u8> {
        overwrite(volume, self.last_start() % self.volume_len, self.page_to_flush())
    }

    /// A read of a consistent log comes to the first unread entry: it succeeds if the
    /// entry fits, moves on to the entry that follows, and loses none. Where nothing is
    /// left to read it says so.
    #[verifier::rlimit(40)]
    pub proof fn law_read(self, volume: Seq<u8>, buffer_len: int, length: int)
        requires
            self.consistent(volume),
            self.state == State::Idle,
            self.client is Some,
            length <= buffer_len,
        ensures
            self.read_in_bounds(volume, buffer_len, length),
            self.unread(volume).len() == 0 ==> self.read_error(volume, buffer_len, length) == Some(
                ReturnCode::FAIL,
            ),
            self.unread(volume).len() > 0 ==> {
                let entry = self.entry_after(volume, self.read);
                let data = self.unread(volume)[0];
                &&& self.read_error(volume, buffer_len, length) == (if data.len() <= length {
                    None
                } else {
                    Some(ReturnCode::ESIZE)
                })
                &&& self.entry_len(volume, entry) == data.len()
                &&& self.entry_data(volume, entry, data.len() as int) == data
                &&& self.after_read(volume).consistent(volume)
                &&& self.after_read(volume).unread(volume) == self.unread(volume).drop_first()
                &&& self.after_read(volume).entries(volume) == self.entries(volume)
            },
    {
        let entry = self.entry_after(volume, self.read);
        self.lemma_entry_after(volume, self.read);
        if entry < self.append {
            let len = self.entry_len(volume, entry);
            let after = self.after_read(volume);
            self.lemma_bytes_at(volume, entry, WORD_SIZE as int);
            lemma_small_step(self.page_size, entry, ENTRY_HEADER_SIZE as int);
            self.lemma_bytes_at(volume, entry + ENTRY_HEADER_SIZE, len);
            self.lemma_same_cookies(after, volume, self.oldest);
            self.lemma_same_cookies(after, volume, after.read);
            self.lemma_same_cookies(
                after,
                volume,
                self.last_start() + PAGE_HEADER_SIZE,
            );
            self.lemma_last_start();
            if entry != self.read {
                self.lemma_entry_at_page_start(volume, self.read);
            }
            lemma_step_in_page(self.page_size, entry, ENTRY_HEADER_SIZE + len);
            assert(self.unread(volume).drop_first() =~= self.entries_from(volume, after.read));
        }
    }

    /// An entry that is appended to the current page comes last: after it, the log is
    /// consistent and holds the entries that it held and the new one.
    pub proof fn law_append(self, volume: Seq<u8>, data: Seq<u8>)
        requires
            self.consistent(volume),
            self.append_error(data.len() as int, data.len() as int) is None,
            self.fits_rest(data.len() as int),
        ensures
            self.with_entry(data).consistent(volume),
            self.with_entry(data).unread(volume) == self.unread(volume).push(data),
            self.with_entry(data).entries(volume) == self.entries(volume).push(data),
    {
        self.lemma_entry_appended(volume, data);
    }

    proof fn lemma_entry_appended(self, volume: Seq<u8>, data: Seq<u8>)
        requires
            self.consistent(volume),
            0 < data.len(),
            self.fits_page(data.len() as int),
            self.fits_rest(data.len() as int),
            self.circular || self.append + ENTRY_HEADER_SIZE + data.len() <= self.volume_len,
        ensures
            self.with_entry(data).consistent(volume),
            self.with_entry(data).unread(volume) == self.unread(volume).push(data),
            self.with_entry(data).entries(volume) == self.entries(volume).push(data),
    {
        let after = self.with_entry(data);
        let start = self.last_start();
        self.lemma_last_start();
        self.lemma_with_entry_wf(data);
        self.lemma_appended_entry(volume, data);
        assert forall|x: int| 0 <= x < self.append implies #[trigger] self.byte_at(volume, x)
            == after.byte_at(volume, x) by {
            if self.in_last_page(x) {
                lemma_between_boundaries(self.page_size, start, x);
            }
        }
        self.lemma_transfer(volume, after, volume, self.read);
        self.lemma_transfer(volume, after, volume, self.oldest);
        self.lemma_transfer(volume, after, volume, start + PAGE_HEADER_SIZE);
        assert(self.unread(volume) + seq![data] =~= self.unread(volume).push(data));
        assert(self.entries(volume) + seq![data] =~= self.entries(volume).push(data));
    }

    /// An appended entry is found where the append cookie was.
    proof fn lemma_appended_entry(self, volume: Seq<u8>, data: Seq<u8>)
        requires
            self.wf(),
            self.stored(volume),
            0 < data.len(),
            self.fits_page(data.len() as int),
            self.fits_rest(data.len() as int),
        ensures
            self.with_entry(data).chained(volume, self.append),
            self.with_entry(data).entry_after(volume, self.append) == self.append,
            self.with_entry(data).entries_from(volume, self.append) == seq![data],
    {
        let after = self.with_entry(data);
        let size = self.page_size;
        let at = self.append;
        let offset = at % size;
        let header = word_bytes(self.order, data.len() as int);
        let n = data.len() as int;
        self.lemma_last_start();
        self.lemma_with_entry_wf(data);
        lemma_word_roundtrip(self.order, n);
        after.lemma_bytes_at(volume, at, WORD_SIZE as int);
        lemma_small_step(size, at, ENTRY_HEADER_SIZE as int);
        after.lemma_bytes_at(volume, at + ENTRY_HEADER_SIZE, n);
        assert forall|i: int| 0 <= i < ENTRY_HEADER_SIZE + n implies #[trigger] after.byte_at(
            volume,
            at + i,
        ) == (header + data)[i] by {
            lemma_small_step(size, at, i);
        }
        assert(after.bytes_at(volume, at, WORD_SIZE as int) =~= header);
        assert forall|i: int| 0 <= i < n implies #[trigger] after.byte_at(
            volume,
            at + ENTRY_HEADER_SIZE + i,
        ) == data[i] by {
            assert(after.byte_at(volume, at + (ENTRY_HEADER_SIZE + i)) == (header + data)[
            ENTRY_HEADER_SIZE + i]);
        }
        assert(after.entry_data(volume, at, n) =~= data);
        let next = after.append;
        after.lemma_entry_after(volume, next);
        assert(after.entries_from(volume, next) =~= seq![]);
        assert(after.entry_after(volume, at) == at);
        assert(after.chained(volume, next));
        assert(after.entry_ok(volume, at));
        assert(after.entries_from(volume, at) =~= seq![data] + seq![]);
        assert(seq![data] + seq![] =~= seq![data]);
    }

    /// Entries that follow one another lead past the end of a page to the first entry of
    /// the next page.
    #[verifier::rlimit(40)]
    proof fn lemma_chain_to_next_page(self, volume: Seq<u8>, cookie: int)
        requires
            self.stored(volume),
            0 <= cookie,
            self.chained(volume, cookie),
            cookie - cookie % self.page_size + self.page_size < self.append,
        ensures
            ({
                let next = cookie - cookie % self.page_size + self.page_size + PAGE_HEADER_SIZE;
                &&& next <= self.append
                &&& self.chained(volume, next)
                &&& next < self.append ==> self.entry_after(volume, next) == next
                &&& self.entries_from(volume, next).is_suffix_of(self.entries_from(volume, cookie))
            }),
        decreases self.append - cookie,
    {
        let size = self.page_size;
        let start = cookie - cookie % size;
        let end = start + size;
        let target = end + PAGE_HEADER_SIZE;
        let entry = self.entry_after(volume, cookie);
        lemma_page_start(size, cookie);
        lemma_next_boundary(size, start);
        lemma_between_boundaries(size, end, target);
        self.lemma_entry_after(volume, cookie);
        if cookie % size != 0 && entry != cookie {
            assert(entry == target);
            self.lemma_past_header(volume, cookie);
            let all = self.entries_from(volume, cookie);
            assert(all.subrange(0, all.len() as int) =~= all);
        } else {
            if cookie % size == 0 {
                lemma_between_boundaries(size, start, entry);
            } else {
                lemma_between_boundaries(size, start, cookie);
            }
            let next = entry + ENTRY_HEADER_SIZE + self.entry_len(volume, entry);
            assert(next <= end);
            if next < end {
                lemma_between_boundaries(size, start, next);
                self.lemma_chain_to_next_page(volume, next);
            } else {
                self.lemma_past_header(volume, next);
            }
            let tail = self.entries_from(volume, target);
            let rest = self.entries_from(volume, next);
            let all = self.entries_from(volume, cookie);
            assert(all =~= seq![all[0]] + rest);
            assert(rest.subrange(rest.len() - tail.len(), rest.len() as int) =~= tail);
            assert(all.subrange(all.len() - tail.len(), all.len() as int) =~= tail);
        }
    }

    /// Reading on from the end of a page or from past the next page header comes to the
    /// same entries.
    proof fn lemma_past_header(self, volume: Seq<u8>, cookie: int)
        requires
            self.stored(volume),
            0 <= cookie < self.append,
            self.chained(volume, cookie),
            self.entry_after(volume, cookie) != cookie,
        ensures
            self.entry_after(volume, cookie) <= self.append,
            self.chained(volume, self.entry_after(volume, cookie)),
            self.entry_after(volume, cookie) < self.append ==> self.entry_after(
                volume,
                self.entry_after(volume, cookie),
            ) == self.entry_after(volume, cookie),
            self.entries_from(volume, self.entry_after(volume, cookie)) == self.entries_from(
                volume,
                cookie,
            ),
    {
        let entry = self.entry_after(volume, cookie);
        self.lemma_entry_at_page_start(volume, cookie);
        self.lemma_entry_after(volume, cookie);
        self.lemma_entry_after(volume, entry);
        if entry < self.append {
            assert(self.entry_after(volume, entry) == entry);
        } else {
            assert(self.entries_from(volume, entry) =~= self.entries_from(volume, cookie));
        }
    }

    /// There are as many cookies as entries, and none below where they are looked for.
    proof fn lemma_cookies_from(self, volume: Seq<u8>, cookie: int)
        ensures
            self.cookies_from(volume, cookie).len() == self.entries_from(volume, cookie).len(),
            forall|i: int|
                0 <= i < self.cookies_from(volume, cookie).len() ==> cookie
                    <= #[trigger] self.cookies_from(volume, cookie)[i],
        decreases self.append - cookie,
    {
        let entry = self.entry_after(volume, cookie);
        let length = self.entry_len(volume, entry);
        let next = entry + ENTRY_HEADER_SIZE + length;
        if self.valid_len(length) && cookie <= entry && cookie < next <= self.append {
            self.lemma_cookies_from(volume, next);
            let rest = self.cookies_from(volume, next);
            let all = self.cookies_from(volume, cookie);
            assert forall|i: int| 0 <= i < all.len() implies cookie <= #[trigger] all[i] by {
                if i > 0 {
                    assert(all[i] == rest[i - 1]);
                }
            }
        }
    }

    /// Where an entry is looked for past a header or padding, the same entries are found
    /// from there on.
    proof fn lemma_cookies_past_header(self, volume: Seq<u8>, cookie: int)
        requires
            self.stored(volume),
            0 <= cookie < self.append,
            self.chained(volume, cookie),
            self.entry_after(volume, cookie) != cookie,
        ensures
            self.cookies_from(volume, self.entry_after(volume, cookie)) == self.cookies_from(
                volume,
                cookie,
            ),
    {
        let entry = self.entry_after(volume, cookie);
        self.lemma_past_header(volume, cookie);
        self.lemma_entry_after(volume, cookie);
        self.lemma_entry_after(volume, entry);
        if entry >= self.append {
            assert(self.cookies_from(volume, entry) =~= self.cookies_from(volume, cookie));
        }
    }

    /// The entries between a cookie and the next page lie in the page of the cookie.
    #[verifier::rlimit(40)]
    proof fn lemma_cookies_to_next_page(self, volume: Seq<u8>, cookie: int)
        requires
            self.stored(volume),
            0 <= cookie,
            self.chained(volume, cookie),
            cookie - cookie % self.page_size + self.page_size < self.append,
        ensures
            ({
                let start = cookie - cookie % self.page_size;
                let all = self.cookies_from(volume, cookie);
                let tail = self.cookies_from(volume, start + self.page_size + PAGE_HEADER_SIZE);
                let lost = all.len() - tail.len();
                &&& 0 <= lost
                &&& all.subrange(lost, all.len() as int) == tail
                &&& forall|i: int|
                    0 <= i < lost ==> start <= #[trigger] all[i] < start + self.page_size
            }),
        decreases self.append - cookie,
    {
        let size = self.page_size;
        let start = cookie - cookie % size;
        let end = start + size;
        let target = end + PAGE_HEADER_SIZE;
        let entry = self.entry_after(volume, cookie);
        let all = self.cookies_from(volume, cookie);
        let tail = self.cookies_from(volume, target);
        lemma_page_start(size, cookie);
        lemma_next_boundary(size, start);
        lemma_between_boundaries(size, end, target);
        self.lemma_entry_after(volume, cookie);
        if cookie % size != 0 && entry != cookie {
            self.lemma_cookies_past_header(volume, cookie);
            assert(all.subrange(0, all.len() as int) =~= tail);
        } else {
            if cookie % size == 0 {
                lemma_between_boundaries(size, start, entry);
            } else {
                lemma_between_boundaries(size, start, cookie);
            }
            let next = entry + ENTRY_HEADER_SIZE + self.entry_len(volume, entry);
            let rest = self.cookies_from(volume, next);
            assert(next <= end);
            if next < end {
                lemma_between_boundaries(size, start, next);
                self.lemma_cookies_to_next_page(volume, next);
            } else {
                self.lemma_cookies_past_header(volume, next);
                assert(rest.subrange(0, rest.len() as int) =~= tail);
            }
            let lost = all.len() - tail.len();
            assert(all =~= seq![entry] + rest);
            assert(all.subrange(lost, all.len() as int) =~= rest.subrange(
                lost - 1,
                rest.len() as int,
            ));
            assert forall|i: int| 0 <= i < lost implies start <= #[trigger] all[i] < end by {
                if i > 0 {
                    assert(all[i] == rest[i - 1]);
                }
            }
        }
    }

    /// Of the entries from a cookie on, a page write loses exactly those that lie in the page
    /// that it overwrites. They come first.
    proof fn lemma_lost_from(self, volume: Seq<u8>, cookie: int)
        requires
            self.consistent(volume),
            self.oldest - PAGE_HEADER_SIZE <= cookie <= self.append,
            self.chained(volume, cookie),
        ensures
            ({
                let first = self.last_start() - self.volume_len;
                let end = first + self.page_size;
                let kept = if cookie < end {
                    end + PAGE_HEADER_SIZE
                } else {
                    cookie
                };
                let before = self.cookies_from(volume, cookie);
                let after = self.cookies_from(volume, kept);
                let lost = before.len() - after.len();
                &&& 0 <= lost
                &&& before.subrange(lost, before.len() as int) == after
                &&& forall|i: int| 0 <= i < lost ==> first <= #[trigger] before[i] < end
                &&& forall|i: int| lost <= i < before.len() ==> end <= #[trigger] before[i]
                &&& before.len() == self.entries_from(volume, cookie).len()
                &&& after.len() == self.entries_from(volume, kept).len()
            }),
    {
        let size = self.page_size;
        let first = self.last_start() - self.volume_len;
        let end = first + size;
        let before = self.cookies_from(volume, cookie);
        self.lemma_last_start();
        lemma_page_start(size, self.oldest);
        lemma_page_offset_of_difference(self.volume_len, size, self.last_start());
        lemma_next_boundary(size, first);
        let kept = if cookie < end {
            end + PAGE_HEADER_SIZE
        } else {
            cookie
        };
        let after = self.cookies_from(volume, kept);
        if cookie < end {
            lemma_between_boundaries(size, first, cookie);
            self.lemma_cookies_to_next_page(volume, cookie);
        } else {
            assert(before.subrange(0, before.len() as int) =~= before);
        }
        self.lemma_cookies_from(volume, cookie);
        self.lemma_cookies_from(volume, kept);
        let lost = before.len() - after.len();
        assert forall|i: int| lost <= i < before.len() implies end <= #[trigger] before[i] by {
            assert(before[i] == after[i - lost]);
        }
    }

    /// When a page write overwrites a page, exactly the entries of that page are lost:
    /// whatever was unread, and whatever was held, of other pages still is, entry by entry
    /// at its cookie. The page that is overwritten lies a volume before the page that holds
    /// the last written byte.
    pub proof fn law_page_write_loses_one_page(self, volume: Seq<u8>, state: State)
        requires
            self.consistent(volume),
        ensures
            ({
                let last = self.append - 1;
                let first = last - last % self.page_size - self.volume_len;
                let end = first + self.page_size;
                let after = self.flushed(state);
                let unread = self.cookies_from(volume, self.read);
                let held = self.cookies_from(volume, self.oldest);
                let still_unread = self.cookies_from(volume, after.read);
                let still_held = self.cookies_from(volume, after.oldest);
                let lost = unread.len() - still_unread.len();
                let dropped = held.len() - still_held.len();
                &&& 0 <= lost
                &&& unread.subrange(lost, unread.len() as int) == still_unread
                &&& forall|i: int| 0 <= i < lost ==> first <= #[trigger] unread[i] < end
                &&& forall|i: int|
                    lost <= i < unread.len() ==> !(first <= #[trigger] unread[i] < end)
                &&& self.unread(volume).subrange(lost, unread.len() as int)
                    == self.entries_from(volume, after.read)
                &&& 0 <= dropped
                &&& held.subrange(dropped, held.len() as int) == still_held
                &&& forall|i: int| 0 <= i < dropped ==> first <= #[trigger] held[i] < end
                &&& forall|i: int|
                    dropped <= i < held.len() ==> !(first <= #[trigger] held[i] < end)
                &&& self.entries(volume).subrange(dropped, held.len() as int)
                    == self.entries_from(volume, after.oldest)
            }),
    {
        let size = self.page_size;
        let first = self.last_start() - self.volume_len;
        let end = first + size;
        let after = self.flushed(state);
        self.lemma_last_start();
        self.lemma_flushed_cookies(volume);
        self.lemma_lost_from(volume, self.read);
        self.lemma_lost_from(volume, self.oldest);
        lemma_page_start(size, self.oldest);
        lemma_page_offset_of_difference(self.volume_len, size, self.last_start());
        lemma_boundary_order(size, first, self.oldest - PAGE_HEADER_SIZE);
        assert(first <= self.read);
        assert(after.read == if self.read < end {
            end + PAGE_HEADER_SIZE
        } else {
            self.read
        });
        assert(after.oldest == if self.oldest < end {
            end + PAGE_HEADER_SIZE
        } else {
            self.oldest
        });
    }

    /// What writing the current page to flash does to the cookies: both move to the page
    /// after the overwritten one, if they are in it, and stand at whole entries there.
    pub proof fn lemma_flushed_cookies(self, volume: Seq<u8>)
        requires
            self.consistent(volume),
        ensures
            ({
                let next = self.last_start() - self.volume_len + self.page_size;
                let after = self.flushed(State::Sync);
                &&& next <= after.oldest - PAGE_HEADER_SIZE <= self.last_start()
                &&& after.oldest % self.page_size == PAGE_HEADER_SIZE
                &&& after.oldest - PAGE_HEADER_SIZE <= after.read <= self.append
                &&& self.chained(volume, after.read)
                &&& self.chained(volume, after.oldest)
                &&& self.entries_from(volume, after.read).is_suffix_of(self.unread(volume))
                &&& self.entries_from(volume, after.oldest).is_suffix_of(self.entries(volume))
            }),
    {
        let size = self.page_size;
        let first = self.last_start() - self.volume_len;
        let next = first + size;
        let unread = self.unread(volume);
        let entries = self.entries(volume);
        self.lemma_last_start();
        lemma_page_start(size, self.oldest);
        lemma_page_offset_of_difference(self.volume_len, size, self.last_start());
        lemma_next_boundary(size, first);
        lemma_between_boundaries(size, next, next + PAGE_HEADER_SIZE);
        assert(unread.subrange(0, unread.len() as int) =~= unread);
        assert(entries.subrange(0, entries.len() as int) =~= entries);
        if self.overwrites(self.oldest) {
            lemma_between_boundaries(size, first, self.oldest);
            self.lemma_chain_to_next_page(volume, self.oldest);
        } else {
            lemma_boundary_order(size, first, self.oldest - PAGE_HEADER_SIZE);
            lemma_boundary_order(size, self.oldest - PAGE_HEADER_SIZE, first);
        }
        if self.overwrites(self.read) {
            lemma_between_boundaries(size, first, self.read);
            self.lemma_chain_to_next_page(volume, self.read);
        }
    }

    /// A cookie of the lap before the current page lies outside of what the page is
    /// written to.
    proof fn lemma_outside_written(self, x: int)
        requires
            self.wf(),
            0 <= x,
            self.last_start() - self.volume_len + self.page_size <= x < self.last_start(),
        ensures
            0 <= x % self.volume_len < self.volume_len,
            x % self.volume_len < self.last_start() % self.volume_len || x % self.volume_len
                >= self.last_start() % self.volume_len + self.page_size,
    {
        let len = self.volume_len;
        let start = self.last_start();
        let slot = start % len;
        let back = start - x;
        self.lemma_last_start();
        vstd::arithmetic::div_mod::lemma_mod_bound(start, len);
        vstd::arithmetic::div_mod::lemma_mod_bound(x, len);
        vstd::arithmetic::div_mod::lemma_sub_mod_noop(start, back, len);
        vstd::arithmetic::div_mod::lemma_small_mod(back as nat, len as nat);
        // Going back from the page by less than the rest of the volume stays clear of it.
        if back <= slot {
            vstd::arithmetic::div_mod::lemma_small_mod((slot - back) as nat, len as nat);
            assert(x % len == slot - back);
        } else {
            vstd::arithmetic::div_mod::lemma_mod_add_multiples_vanish(slot - back, len);
            vstd::arithmetic::div_mod::lemma_small_mod((slot - back + len) as nat, len as nat);
            assert(x % len == slot - back + len);
        }
    }

    /// What the page write leaves as it is: the pages that are not overwritten.
    proof fn lemma_written(self, volume: Seq<u8>, x: int)
        requires
            self.wf(),
            self.stored(volume),
            0 <= x,
            self.last_start() - self.volume_len + self.page_size <= x < self.last_start()
                + self.page_size,
        ensures
            self.written(volume).len() == volume.len(),
            x < self.last_start() ==> self.written(volume)[x % self.volume_len] == volume[x
                % self.volume_len],
            x >= self.last_start() ==> self.written(volume)[x % self.volume_len]
                == self.page_to_flush()[x - self.last_start()],
    {
        let len = self.volume_len;
        let start = self.last_start();
        self.lemma_last_start();
        if x >= start {
            lemma_page_offset(len, self.page_size, start);
            vstd::arithmetic::div_mod::lemma_mod_bound(start, len);
            lemma_page_in_volume(len, self.page_size, start % len);
            lemma_small_step(len, start, x - start);
        } else {
            self.lemma_outside_written(x);
        }
    }

    /// The log once its current page is in flash and a new page is ready.
    spec fn advanced(self, pending_len: int) -> LogView<T> {
        LogView {
            pending_len,
            ..self.flushed(State::Idle).reset(self.page_to_flush())
        }
    }

    /// Moving on to a new page keeps the log consistent, and loses only the entries of
    /// the page that is overwritten.
    #[verifier::rlimit(40)]
    proof fn lemma_advanced(self, volume: Seq<u8>, pending_len: int)
        requires
            self.consistent(volume),
            self.state == State::Idle,
            !self.at_end(),
            self.append != self.last_start() + PAGE_HEADER_SIZE,
            self.room(),
        ensures
            ({
                let after = self.advanced(pending_len);
                let flushed = self.flushed(State::Idle);
                let new_volume = self.written(volume);
                &&& after.consistent(new_volume)
                &&& after.last_start() == self.last_start() + self.page_size
                &&& after.append == after.last_start() + PAGE_HEADER_SIZE
                &&& after.append % self.page_size == PAGE_HEADER_SIZE
                &&& after.unread(new_volume) == self.entries_from(volume, flushed.read)
                &&& after.entries(new_volume) == self.entries_from(volume, flushed.oldest)
                &&& !self.circular ==> after.last_start() + self.page_size <= self.volume_len
            }),
    {
        let size = self.page_size;
        let start = self.last_start();
        let page = self.page_to_flush();
        let flushed = self.flushed(State::Idle);
        let after = self.advanced(pending_len);
        let new_volume = self.written(volume);
        self.lemma_last_start();
        self.lemma_flushed_cookies(volume);
        flushed.lemma_last_start_is(start);
        flushed.lemma_last_start();
        flushed.lemma_reset(page);
        lemma_next_boundary(size, start);
        after.lemma_last_start_is(start + size);
        lemma_word_bytes_len(self.order, flushed.next_start());
        self.lemma_written(volume, start);
        assert forall|x: int| flushed.oldest - PAGE_HEADER_SIZE <= x < self.append implies
            #[trigger] self.byte_at(volume, x) == after.byte_at(new_volume, x) by {
            self.lemma_written(volume, x);
            if self.in_last_page(x) {
                lemma_between_boundaries(size, start, x);
            }
        }
        // What is left of the old page is padding, which leads to the new page.
        if self.append % size != 0 {
            self.lemma_written(volume, self.append);
            assert(after.byte_at(new_volume, self.append) == PAD_BYTE);
        }
        if size - self.append % size >= ENTRY_HEADER_SIZE && self.append % size != 0 {
            after.lemma_bytes_at(new_volume, self.append, WORD_SIZE as int);
            assert forall|i: int| 0 <= i < WORD_SIZE implies #[trigger] after.byte_at(
                new_volume,
                self.append + i,
            ) == PAD_BYTE by {
                self.lemma_written(volume, self.append + i);
            }
            lemma_word_of_ones(
                self.order,
                after.bytes_at(new_volume, self.append, WORD_SIZE as int),
            );
        }
        assert forall|x: int|
            0 <= x && after.last_start() - self.volume_len + size <= x < after.oldest
                - PAGE_HEADER_SIZE implies #[trigger] flash_byte(new_volume, self.volume_len, x)
            == PAD_BYTE by {
            self.lemma_written(volume, x);
            assert(flash_byte(volume, self.volume_len, x) == PAD_BYTE);
        }
        assert(after.entry_after(new_volume, self.append) == after.append);
        assert(after.chained(new_volume, self.append));
        assert(after.entries_from(new_volume, self.append) =~= seq![]);
        self.lemma_transfer(volume, after, new_volume, flushed.read);
        self.lemma_transfer(volume, after, new_volume, flushed.oldest);
        assert(after.unread(new_volume) =~= self.entries_from(volume, flushed.read));
        assert(after.entries(new_volume) =~= self.entries_from(volume, flushed.oldest));
    }

    /// An entry that does not fit the current page is appended once the page is written
    /// to flash: then the log is consistent and holds the new entry last, after the
    /// entries that it held. Of those, only entries of the oldest page may be lost, to a
    /// page write that overwrites them.
    #[verifier::rlimit(40)]
    pub proof fn law_append_on_new_page(
        self,
        volume: Seq<u8>,
        buffer: Seq<u8>,
        length: int,
    )
        requires
            self.consistent(volume),
            0 <= length,
            self.append_error(buffer.len() as int, length) is None,
            !self.fits_rest(length),
            self.room(),
        ensures
            ({
                let data = buffer.subrange(0, length);
                let waiting = LogView {
                    pending: Some(buffer),
                    pending_len: length,
                    ..self.flushed(State::Write)
                };
                let after = waiting.after_append_write(self.page_to_flush());
                let new_volume = self.written(volume);
                let unread = self.entries_from(volume, waiting.read);
                let entries = self.entries_from(volume, waiting.oldest);
                &&& after.consistent(new_volume)
                &&& after.unread(new_volume) == unread.push(data)
                &&& after.entries(new_volume) == entries.push(data)
                &&& unread.is_suffix_of(self.unread(volume))
                &&& entries.is_suffix_of(self.entries(volume))
                &&& !self.overwrites(self.oldest) ==> unread == self.unread(volume) && entries
                    == self.entries(volume)
            }),
    {
        let data = buffer.subrange(0, length);
        let page = self.page_to_flush();
        let waiting = LogView {
            pending: Some(buffer),
            pending_len: length,
            ..self.flushed(State::Write)
        };
        let after = waiting.after_append_write(page);
        let ready = self.advanced(length);
        self.lemma_last_start();
        self.lemma_flushed_for_append_wf(buffer, length);
        self.lemma_flushed_cookies(volume);
        self.lemma_advanced(volume, length);
        ready.lemma_entry_appended(self.written(volume), data);
        assert(after =~= ready.with_entry(data));
        if !self.overwrites(self.oldest) {
            self.lemma_read_kept();
        }
    }

    /// An append that had to begin a new page leaves the log idle, with a page that holds
    /// its own cookie, the length of the entry and the entry, and the append cookie after
    /// them. The page starts at the first page boundary from the old append cookie on.
    #[verifier::rlimit(40)]
    pub proof fn law_new_page(self, buffer: Seq<u8>, length: int)
        requires
            self.wf(),
            0 <= length,
            self.append_error(buffer.len() as int, length) is None,
            !self.fits_rest(length),
            self.room(),
        ensures
            ({
                let start = self.next_start();
                let waiting = LogView {
                    pending: Some(buffer),
                    pending_len: length,
                    ..self.flushed(State::Write)
                };
                let after = waiting.after_append_write(self.page_to_flush());
                let header = PAGE_HEADER_SIZE as int;
                let data = PAGE_HEADER_SIZE + ENTRY_HEADER_SIZE;
                &&& start % self.page_size == 0
                &&& self.append <= start < self.append + self.page_size
                &&& after.wf()
                &&& after.state == State::Idle
                &&& after.append == start + data + length
                &&& after.page->0.subrange(0, header) == word_bytes(self.order, start)
                &&& after.page->0.subrange(header, data) == word_bytes(self.order, length)
                &&& after.page->0.subrange(data, data + length) == buffer.subrange(0, length)
                &&& after.records_lost() == waiting.records_lost()
            }),
    {
        let start = self.next_start();
        let page = self.page_to_flush();
        let waiting = LogView {
            pending: Some(buffer),
            pending_len: length,
            ..self.flushed(State::Write)
        };
        let after = waiting.after_append_write(page);
        let header = PAGE_HEADER_SIZE as int;
        let data = PAGE_HEADER_SIZE + ENTRY_HEADER_SIZE;
        self.lemma_last_start();
        lemma_next_boundary(self.page_size, self.last_start());
        self.lemma_flushed_for_append_wf(buffer, length);
        waiting.lemma_last_start_is(self.last_start());
        waiting.lemma_last_start();
        waiting.lemma_reset(page);
        waiting.lemma_after_append_write_wf(page);
        lemma_word_roundtrip(self.order, start);
        lemma_word_roundtrip(self.order, length);
        if !self.at_end() {
            assert(after.page->0.subrange(0, header) =~= word_bytes(self.order, start));
            assert(after.page->0.subrange(header, data) =~= word_bytes(self.order, length));
            assert(after.page->0.subrange(data, data + length) =~= buffer.subrange(0, length));
        }
    }

    /// Two volumes differ at most in the page that the current page is written to.
    pub open spec fn differ_in_written_page(self, volume: Seq<u8>, other: Seq<u8>) -> bool {
        let slot = self.last_start() % self.volume_len;
        &&& other.len() == volume.len()
        &&& forall|i: int|
            0 <= i < volume.len() && !(slot <= i < slot + self.page_size) ==> #[trigger] other[i]
                == volume[i]
    }

    /// A page write that fails, whatever it leaves of the page in flash, leaves the log idle
    /// and consistent, with its page back and its append cookie where it was. It keeps its
    /// entries, but for those of the page that the write was to overwrite.
    #[verifier::rlimit(40)]
    pub proof fn law_failed_write(
        self,
        volume: Seq<u8>,
        new_volume: Seq<u8>,
        state: State,
        pending: Option<Seq<u8>>,
        pending_len: int,
    )
        requires
            self.consistent(volume),
            self.state == State::Idle,
            self.client is Some,
            self.differ_in_written_page(volume, new_volume),
        ensures
            ({
                let waiting = LogView { pending, pending_len, ..self.flushed(state) };
                let after = waiting.after_failed_write(self.page_to_flush());
                &&& after.consistent(new_volume)
                &&& after.state == State::Idle
                &&& after.append == self.append
                &&& after.unread(new_volume) == self.entries_from(volume, waiting.read)
                &&& after.entries(new_volume) == self.entries_from(volume, waiting.oldest)
                &&& after.unread(new_volume).is_suffix_of(self.unread(volume))
                &&& after.entries(new_volume).is_suffix_of(self.entries(volume))
                &&& !self.overwrites(self.oldest) ==> after.unread(new_volume) == self.unread(
                    volume,
                ) && after.entries(new_volume) == self.entries(volume)
            }),
    {
        let size = self.page_size;
        let start = self.last_start();
        let waiting = LogView { pending, pending_len, ..self.flushed(state) };
        let after = waiting.after_failed_write(self.page_to_flush());
        self.lemma_last_start();
        self.lemma_flushed_cookies(volume);
        self.lemma_flushed_wf();
        after.lemma_last_start_is(start);
        if !self.overwrites(self.oldest) {
            self.lemma_read_kept();
        }
        assert forall|x: int| waiting.oldest - PAGE_HEADER_SIZE <= x < self.append implies
            #[trigger] self.byte_at(volume, x) == after.byte_at(new_volume, x) by {
            if self.in_last_page(x) {
                lemma_between_boundaries(size, start, x);
            } else {
                self.lemma_outside_written(x);
            }
        }
        assert forall|x: int|
            0 <= x && start - self.volume_len + size <= x < after.oldest
                - PAGE_HEADER_SIZE implies #[trigger] flash_byte(new_volume, self.volume_len, x)
            == PAD_BYTE by {
            self.lemma_outside_written(x);
            assert(flash_byte(volume, self.volume_len, x) == PAD_BYTE);
        }
        after.lemma_entry_after(new_volume, self.append);
        assert(after.entries_from(new_volume, self.append) =~= seq![]);
        self.lemma_transfer(volume, after, new_volume, waiting.read);
        self.lemma_transfer(volume, after, new_volume, waiting.oldest);
        self.lemma_transfer(volume, after, new_volume, start + PAGE_HEADER_SIZE);
        assert(after.unread(new_volume) =~= self.entries_from(volume, waiting.read));
        assert(after.entries(new_volume) =~= self.entries_from(volume, waiting.oldest));
    }

    /// Where no page is overwritten, the read cookie stays.
    proof fn lemma_read_kept(self)
        requires
            self.wf(),
            self.oldest - PAGE_HEADER_SIZE <= self.read,
            self.last_start() - self.volume_len <= self.oldest - PAGE_HEADER_SIZE,
            !self.overwrites(self.oldest),
        ensures
            !self.overwrites(self.read),
    {
        let size = self.page_size;
        let first = self.last_start() - self.volume_len;
        self.lemma_last_start();
        lemma_page_start(size, self.oldest);
        lemma_page_offset_of_difference(self.volume_len, size, self.last_start());
        lemma_next_boundary(size, first);
        lemma_boundary_order(size, self.oldest - PAGE_HEADER_SIZE, first);
        lemma_boundary_order(size, first, self.oldest - PAGE_HEADER_SIZE);
    }

    /// A sync that completes keeps the log consistent and keeps its entries, but for those
    /// of a page that the written page overwrites.
    #[verifier::rlimit(40)]
    pub proof fn law_sync(self, volume: Seq<u8>)
        requires
            self.consistent(volume),
            self.state == State::Idle,
            self.client is Some,
            self.append % self.page_size == 0 ==> self.room(),
        ensures
            ({
                let waiting = self.flushed(State::Sync);
                let after = waiting.after_sync_write(self.page_to_flush());
                let new_volume = self.written(volume);
                &&& after.consistent(new_volume)
                &&& after.unread(new_volume) == self.entries_from(volume, waiting.read)
                &&& after.entries(new_volume) == self.entries_from(volume, waiting.oldest)
                &&& after.unread(new_volume).is_suffix_of(self.unread(volume))
                &&& after.entries(new_volume).is_suffix_of(self.entries(volume))
                &&& !self.overwrites(self.oldest) ==> after.unread(new_volume) == self.unread(
                    volume,
                ) && after.entries(new_volume) == self.entries(volume)
            }),
    {
        let size = self.page_size;
        let start = self.last_start();
        let page = self.page_to_flush();
        let waiting = self.flushed(State::Sync);
        let after = waiting.after_sync_write(page);
        let new_volume = self.written(volume);
        self.lemma_last_start();
        self.lemma_flushed_cookies(volume);
        if !self.overwrites(self.oldest) {
            self.lemma_read_kept();
        }
        if self.append % size == 0 && !self.at_end() {
            self.lemma_advanced(volume, self.pending_len);
            assert(after =~= self.advanced(self.pending_len));
        } else {
            self.lemma_flushed_wf();
            waiting.lemma_last_start_is(start);
            waiting.lemma_after_sync_write_wf(page);
            after.lemma_last_start_is(start);
            self.lemma_written(volume, start);
            assert forall|x: int| waiting.oldest - PAGE_HEADER_SIZE <= x < self.append implies
                #[trigger] self.byte_at(volume, x) == after.byte_at(new_volume, x) by {
                self.lemma_written(volume, x);
                if self.in_last_page(x) {
                    lemma_between_boundaries(size, start, x);
                }
            }
            assert forall|x: int|
                0 <= x && start - self.volume_len + size <= x < after.oldest
                    - PAGE_HEADER_SIZE implies #[trigger] flash_byte(
                new_volume,
                self.volume_len,
                x,
            ) == PAD_BYTE by {
                self.lemma_written(volume, x);
                assert(flash_byte(volume, self.volume_len, x) == PAD_BYTE);
            }
            after.lemma_entry_after(new_volume, self.append);
            assert(after.entries_from(new_volume, self.append) =~= seq![]);
            self.lemma_transfer(volume, after, new_volume, waiting.read);
            self.lemma_transfer(volume, after, new_volume, waiting.oldest);
            self.lemma_transfer(volume, after, new_volume, start + PAGE_HEADER_SIZE);
            assert(after.unread(new_volume) =~= self.entries_from(volume, waiting.read));
            assert(after.entries(new_volume) =~= self.entries_from(volume, waiting.oldest));
        }
    }

    /// Of entries `before`, whose cookies are `cookies`, exactly those in the page that the
    /// current page is written over are missing in `after`. That page lies a volume before the
    /// page that holds the last written byte.
    pub open spec fn lose_one_page(
        self,
        before: Seq<Seq<u8>>,
        cookies: Seq<int>,
        after: Seq<Seq<u8>>,
    ) -> bool {
        let last = self.append - 1;
        let first = last - last % self.page_size - self.volume_len;
        let lost = before.len() - after.len();
        &&& cookies.len() == before.len()
        &&& 0 <= lost
        &&& after == before.subrange(lost, before.len() as int)
        &&& forall|i: int|
            0 <= i < before.len() ==> (i < lost <==> first <= #[trigger] cookies[i] < first
                + self.page_size)
    }

    /// A log that goes past the end of its volume loses the oldest page and nothing else:
    /// every unread entry outside of the page that is overwritten is still unread, in order
    /// and before the new entry, and likewise every entry that is held.
    pub proof fn law_append_keeps_other_pages(self, volume: Seq<u8>, buffer: Seq<u8>, length: int)
        requires
            self.consistent(volume),
            0 <= length,
            self.append_error(buffer.len() as int, length) is None,
            !self.fits_rest(length),
            self.room(),
        ensures
            ({
                let waiting = LogView {
                    pending: Some(buffer),
                    pending_len: length,
                    ..self.flushed(State::Write)
                };
                let after = waiting.after_append_write(self.page_to_flush());
                let unread = after.unread(self.written(volume));
                let entries = after.entries(self.written(volume));
                &&& unread.len() > 0 && unread.last() == buffer.subrange(0, length)
                &&& entries.len() > 0 && entries.last() == buffer.subrange(0, length)
                &&& self.lose_one_page(
                    self.unread(volume),
                    self.cookies_from(volume, self.read),
                    unread.drop_last(),
                )
                &&& self.lose_one_page(
                    self.entries(volume),
                    self.cookies_from(volume, self.oldest),
                    entries.drop_last(),
                )
            }),
    {
        let waiting = LogView {
            pending: Some(buffer),
            pending_len: length,
            ..self.flushed(State::Write)
        };
        let after = waiting.after_append_write(self.page_to_flush());
        let unread = after.unread(self.written(volume));
        let entries = after.entries(self.written(volume));
        self.law_append_on_new_page(volume, buffer, length);
        self.lemma_lose_one_page(volume, State::Write);
        assert(unread.drop_last() =~= self.entries_from(volume, waiting.read));
        assert(entries.drop_last() =~= self.entries_from(volume, waiting.oldest));
    }

    /// A sync that overwrites a page loses the entries of that page and nothing else.
    pub proof fn law_sync_keeps_other_pages(self, volume: Seq<u8>)
        requires
            self.consistent(volume),
            self.state == State::Idle,
            self.client is Some,
            self.append % self.page_size == 0 ==> self.room(),
        ensures
            ({
                let after = self.flushed(State::Sync).after_sync_write(self.page_to_flush());
                &&& self.lose_one_page(
                    self.unread(volume),
                    self.cookies_from(volume, self.read),
                    after.unread(self.written(volume)),
                )
                &&& self.lose_one_page(
                    self.entries(volume),
                    self.cookies_from(volume, self.oldest),
                    after.entries(self.written(volume)),
                )
            }),
    {
        self.law_sync(volume);
        self.lemma_lose_one_page(volume, State::Sync);
    }

    /// A page write that fails, whatever it leaves of the page in flash, loses the entries of
    /// the page that it was to overwrite and nothing else.
    pub proof fn law_failed_write_keeps_other_pages(
        self,
        volume: Seq<u8>,
        new_volume: Seq<u8>,
        state: State,
        pending: Option<Seq<u8>>,
        pending_len: int,
    )
        requires
            self.consistent(volume),
            self.state == State::Idle,
            self.client is Some,
            self.differ_in_written_page(volume, new_volume),
        ensures
            ({
                let waiting = LogView { pending, pending_len, ..self.flushed(state) };
                let after = waiting.after_failed_write(self.page_to_flush());
                &&& self.lose_one_page(
                    self.unread(volume),
                    self.cookies_from(volume, self.read),
                    after.unread(new_volume),
                )
                &&& self.lose_one_page(
                    self.entries(volume),
                    self.cookies_from(volume, self.oldest),
                    after.entries(new_volume),
                )
            }),
    {
        self.law_failed_write(volume, new_volume, state, pending, pending_len);
        self.lemma_lose_one_page(volume, state);
    }

    proof fn lemma_lose_one_page(self, volume: Seq<u8>, state: State)
        requires
            self.consistent(volume),
        ensures
            self.lose_one_page(
                self.unread(volume),
                self.cookies_from(volume, self.read),
                self.entries_from(volume, self.flushed(state).read),
            ),
            self.lose_one_page(
                self.entries(volume),
                self.cookies_from(volume, self.oldest),
                self.entries_from(volume, self.flushed(state).oldest),
            ),
    {
        self.law_page_write_loses_one_page(volume, state);
        self.lemma_cookies_from(volume, self.read);
        self.lemma_cookies_from(volume, self.oldest);
        self.lemma_cookies_from(volume, self.flushed(state).read);
        self.lemma_cookies_from(volume, self.flushed(state).oldest);
    }

    /// Erasing the oldest page loses the entries of that page and no others: once the erase
    /// is given up, what the log holds is what it held from the next page on.
    pub proof fn law_partial_erase_keeps_other_pages(self, volume: Seq<u8>)
        requires
            self.consistent(volume),
            self.oldest - PAGE_HEADER_SIZE + self.page_size <= self.append - 1,
        ensures
            ({
                let after = self.after_erase().given_up_erase();
                let new_volume = self.without_oldest(volume);
                let held = self.cookies_from(volume, self.oldest);
                let lost = held.len() - after.entries(new_volume).len();
                &&& 0 <= lost
                &&& after.entries(new_volume) == self.entries(volume).subrange(
                    lost,
                    held.len() as int,
                )
                &&& forall|i: int|
                    0 <= i < held.len() ==> (i < lost <==> #[trigger] held[i] < self.oldest
                        - PAGE_HEADER_SIZE + self.page_size)
            }),
    {
        let size = self.page_size;
        let start = self.oldest - PAGE_HEADER_SIZE;
        let end = start + size;
        let erased = self.after_erase();
        let after = erased.given_up_erase();
        let new_volume = self.without_oldest(volume);
        self.lemma_last_start();
        lemma_page_start(size, self.oldest);
        lemma_page_start(size, self.append);
        lemma_between_boundaries(size, start, self.oldest);
        lemma_next_boundary(size, start);
        lemma_boundary_order(size, end, self.last_start());
        lemma_boundary_order(size, self.last_start(), self.append - self.append % size);
        self.lemma_partial_erase(volume);
        erased.lemma_same_cookies(after, new_volume, after.oldest);
        let held = self.cookies_from(volume, self.oldest);
        let tail = self.cookies_from(volume, end + PAGE_HEADER_SIZE);
        self.lemma_cookies_to_next_page(volume, self.oldest);
        self.lemma_cookies_from(volume, self.oldest);
        self.lemma_cookies_from(volume, end + PAGE_HEADER_SIZE);
        let lost = held.len() - tail.len();
        assert forall|i: int| lost <= i < held.len() implies end <= #[trigger] held[i] by {
            assert(held[i] == tail[i - lost]);
        }
    }

    /// Seeking to the beginning makes every entry of the log unread again.
    pub proof fn law_rewind(self, volume: Seq<u8>)
        requires
            self.consistent(volume),
        ensures
            self.rewound().consistent(volume),
            self.rewound().unread(volume) == self.entries(volume),
            self.rewound().entries(volume) == self.entries(volume),
    {
        let after = self.rewound();
        self.lemma_last_start();
        self.lemma_same_cookies(after, volume, self.oldest);
        self.lemma_same_cookies(after, volume, self.last_start() + PAGE_HEADER_SIZE);
    }

    /// Reading on from the cookie of an entry comes to that entry and those that follow it.
    proof fn lemma_from_entry(self, volume: Seq<u8>, cookie: int, k: int)
        requires
            self.stored(volume),
            0 <= cookie <= self.append,
            cookie % self.page_size == 0 || cookie % self.page_size >= PAGE_HEADER_SIZE,
            self.chained(volume, cookie),
            0 <= k < self.cookies_from(volume, cookie).len(),
        ensures
            ({
                let at = self.cookies_from(volume, cookie)[k];
                let entries = self.entries_from(volume, cookie);
                &&& cookie <= at < self.append
                &&& at % self.page_size >= PAGE_HEADER_SIZE
                &&& self.chained(volume, at)
                &&& entries.len() == self.cookies_from(volume, cookie).len()
                &&& self.entries_from(volume, at) == entries.subrange(k, entries.len() as int)
            }),
        decreases self.append - cookie,
    {
        let entry = self.entry_after(volume, cookie);
        let length = self.entry_len(volume, entry);
        let next = entry + ENTRY_HEADER_SIZE + length;
        let entries = self.entries_from(volume, cookie);
        self.lemma_cookies_from(volume, cookie);
        self.lemma_entry_after(volume, cookie);
        if entry != cookie {
            self.lemma_past_header(volume, cookie);
            self.lemma_entry_at_page_start(volume, cookie);
        }
        if k == 0 {
            assert(entries.subrange(0, entries.len() as int) =~= entries);
        } else {
            lemma_step_in_page(self.page_size, entry, ENTRY_HEADER_SIZE + length);
            self.lemma_from_entry(volume, next, k - 1);
            let rest = self.entries_from(volume, next);
            assert(self.cookies_from(volume, cookie)[k] == self.cookies_from(volume, next)[k - 1]);
            assert(entries.subrange(k, entries.len() as int) =~= rest.subrange(
                k - 1,
                rest.len() as int,
            ));
        }
    }

    /// Seeking to the cookie of an entry that the log holds succeeds, and makes that entry and
    /// all that follow it unread, and no others.
    pub proof fn law_seek_to_entry(self, volume: Seq<u8>, k: int)
        requires
            self.consistent(volume),
            self.client is Some,
            0 <= k < self.cookies_from(volume, self.oldest).len(),
        ensures
            ({
                let at = self.cookies_from(volume, self.oldest)[k];
                let (after, status) = self.sought(StorageCookie::Cookie(at as usize));
                let entries = self.entries(volume);
                &&& 0 <= at <= usize::MAX
                &&& status == ReturnCode::SUCCESS
                &&& after.consistent(volume)
                &&& after.entries(volume) == entries
                &&& after.unread(volume) == entries.subrange(k, entries.len() as int)
            }),
    {
        let at = self.cookies_from(volume, self.oldest)[k];
        self.lemma_last_start();
        self.lemma_from_entry(volume, self.oldest, k);
        let after = LogView { read: at, ..self };
        self.lemma_same_cookies(after, volume, self.oldest);
        self.lemma_same_cookies(after, volume, at);
        self.lemma_same_cookies(after, volume, self.last_start() + PAGE_HEADER_SIZE);
        assert(self.sought(StorageCookie::Cookie(at as usize)).0 == after);
    }

    /// Seeking back to the offset that a read started from is allowed, and undoes the read.
    pub proof fn law_seek_back(self, volume: Seq<u8>)
        requires
            self.consistent(volume),
            self.oldest <= self.read,
            self.unread(volume).len() > 0,
        ensures
            ({
                let after = self.after_read(volume);
                &&& after.oldest <= self.read <= after.append
                &&& self.read < after.read
                &&& (LogView { read: self.read, ..after }) == self
            }),
    {
    }

    /// An entry that is appended where nothing was left to read is what the next read
    /// gives.
    pub proof fn law_append_then_read(self, volume: Seq<u8>, data: Seq<u8>)
        requires
            self.consistent(volume),
            self.unread(volume).len() == 0,
            self.append_error(data.len() as int, data.len() as int) is None,
            self.fits_rest(data.len() as int),
        ensures
            ({
                let log = self.with_entry(data);
                let entry = log.entry_after(volume, log.read);
                &&& log.read_error(volume, data.len() as int, data.len() as int) is None
                &&& log.entry_len(volume, entry) == data.len()
                &&& log.entry_data(volume, entry, data.len() as int) == data
                &&& log.after_read(volume).unread(volume).len() == 0
            }),
    {
        let log = self.with_entry(data);
        self.law_append(volume, data);
        log.law_read(volume, data.len() as int, data.len() as int);
        assert(log.unread(volume)[0] == data);
    }

    /// A log that is not circular overwrites nothing, and its append cookie never goes
    /// beyond the end of the volume.
    pub proof fn law_linear_log_keeps_all(self, volume: Seq<u8>)
        requires
            self.consistent(volume),
            !self.circular,
        ensures
            self.append <= self.volume_len,
            forall|cookie: int| 0 <= cookie ==> !#[trigger] self.overwrites(cookie),
            forall|state: State|
                (#[trigger] self.flushed(state)).read == self.read && self.flushed(state).oldest
                    == self.oldest,
    {
        let size = self.page_size;
        let first = self.last_start() - self.volume_len;
        self.lemma_last_start();
        lemma_page_offset_of_difference(self.volume_len, size, self.last_start());
        lemma_boundary_order(size, first, -size);
    }

    /// Records are reported as lost from the moment at which a page write overwrites the
    /// oldest page, and not before.
    pub proof fn law_records_lost(self, state: State)
        requires
            self.wf(),
        ensures
            self.flushed(state).records_lost() <==> self.records_lost() || self.overwrites(
                self.oldest,
            ),
    {
        let size = self.page_size;
        let first = self.last_start() - self.volume_len;
        self.lemma_last_start();
        lemma_page_offset_of_difference(self.volume_len, size, self.last_start());
        lemma_boundary_order(size, first, -size);
    }

    /// The number of a page tells where the page lies in flash, if the volume starts on a
    /// page boundary.
    pub proof fn law_page_number(self, cookie: int)
        requires
            self.wf(),
            self.base % self.page_size == 0,
            0 <= cookie,
        ensures
            self.page_number(cookie) * self.page_size == self.base + cookie % self.volume_len
                - cookie % self.page_size,
            cookie % self.page_size == 0 ==> self.page_number(cookie) * self.page_size
                == self.base + cookie % self.volume_len,
    {
        let size = self.page_size;
        let offset = cookie % self.volume_len;
        lemma_page_offset(self.volume_len, size, cookie);
        vstd::arithmetic::div_mod::lemma_add_mod_noop(self.base, offset, size);
        vstd::arithmetic::div_mod::lemma_mod_twice(cookie, size);
        vstd::arithmetic::div_mod::lemma_fundamental_div_mod(self.base + offset, size);
        vstd::arithmetic::mul::lemma_mul_is_commutative(size, self.page_number(cookie));
    }

    /// Cookies of one page have one page number.
    proof fn lemma_page_number_of_page(self, a: int, b: int)
        requires
            self.wf(),
            self.base % self.page_size == 0,
            0 <= a,
            a - a % self.page_size <= b < a - a % self.page_size + self.page_size,
        ensures
            self.page_number(a) == self.page_number(b),
    {
        let size = self.page_size;
        let len = self.volume_len;
        let start = a - a % size;
        lemma_page_start(size, a);
        lemma_between_boundaries(size, start, b);
        lemma_page_offset(len, size, start);
        vstd::arithmetic::div_mod::lemma_mod_bound(start, len);
        lemma_page_in_volume(len, size, start % len);
        lemma_small_step(len, start, a - start);
        lemma_small_step(len, start, b - start);
        self.law_page_number(a);
        self.law_page_number(b);
        let na = self.page_number(a);
        let nb = self.page_number(b);
        assert(na == nb) by (nonlinear_arith)
            requires
                na * size == nb * size,
                size > 0,
        ;
    }

    /// The numbers of the pages that an erase erases, one after the other.
    pub open spec fn pages_to_erase(self) -> Seq<int>
        decreases self.append - (self.oldest - PAGE_HEADER_SIZE),
    {
        let first = seq![self.page_number(self.oldest)];
        if self.one_page_left() || self.page_size <= 0 || self.oldest - PAGE_HEADER_SIZE
            + self.page_size > self.append {
            first
        } else {
            first + self.after_erase().pages_to_erase()
        }
    }

    /// An erase erases every page of the log, from the oldest to the one that is being
    /// filled.
    pub proof fn law_erase_covers(self, cookie: int)
        requires
            self.wf(),
            self.base % self.page_size == 0,
            self.oldest - PAGE_HEADER_SIZE <= cookie <= self.append,
        ensures
            self.pages_to_erase().contains(self.page_number(cookie)),
        decreases self.append - (self.oldest - PAGE_HEADER_SIZE),
    {
        let size = self.page_size;
        let start = self.oldest - PAGE_HEADER_SIZE;
        let pages = self.pages_to_erase();
        lemma_page_start(size, self.oldest);
        lemma_page_start(size, self.append);
        lemma_between_boundaries(size, start, self.oldest);
        self.lemma_after_erase_wf();
        if cookie < start + size {
            self.lemma_page_number_of_page(self.oldest, cookie);
            assert(pages[0] == self.page_number(cookie));
        } else {
            let after = self.after_erase();
            after.law_erase_covers(cookie);
            assert(after.page_number(cookie) == self.page_number(cookie));
            let rest = after.pages_to_erase();
            let i = choose|i: int| 0 <= i < rest.len() && rest[i] == self.page_number(cookie);
            assert(pages[i + 1] == rest[i]);
        }
    }

    /// A log whose last page is erased is consistent, empty, and back at its first cookie:
    /// a read says that nothing is left to read.
    pub proof fn law_erased(self, volume: Seq<u8>, buffer_len: int, length: int)
        requires
            self.wf(),
            self.stored(volume),
            self.state == State::Idle,
            self.client is Some,
            self.one_page_left(),
            length <= buffer_len,
        ensures
            ({
                let log = self.after_erase();
                &&& log.consistent(volume)
                &&& log.entries(volume).len() == 0
                &&& log.unread(volume).len() == 0
                &&& log.read_error(volume, buffer_len, length) == Some(ReturnCode::FAIL)
                &&& !log.records_lost()
            }),
    {
        self.lemma_cleared(volume, buffer_len, length);
    }

    proof fn lemma_cleared(self, volume: Seq<u8>, buffer_len: int, length: int)
        requires
            self.wf(),
            self.stored(volume),
            self.state == State::Idle,
            self.client is Some,
            length <= buffer_len,
        ensures
            ({
                let log = self.cleared();
                &&& log.consistent(volume)
                &&& log.entries(volume).len() == 0
                &&& log.unread(volume).len() == 0
                &&& log.read_error(volume, buffer_len, length) == Some(ReturnCode::FAIL)
                &&& !log.records_lost()
            }),
    {
        let log = self.cleared();
        self.lemma_cleared_wf();
        vstd::arithmetic::div_mod::lemma_small_mod(0, self.page_size as nat);
        vstd::arithmetic::div_mod::lemma_small_mod(
            PAGE_HEADER_SIZE as nat,
            self.page_size as nat,
        );
        log.lemma_last_start_is(0);
        log.lemma_entry_after(volume, log.append);
        assert(log.entries(volume) =~= seq![]);
        log.law_read(volume, buffer_len, length);
    }

    /// The volume once the flash controller has erased the oldest page.
    pub open spec fn without_oldest(self, volume: Seq<u8>) -> Seq<u8> {
        overwrite(
            volume,
            (self.oldest - PAGE_HEADER_SIZE) % self.volume_len,
            Seq::new(self.page_size as nat, |i: int| PAD_BYTE),
        )
    }

    /// Erasing the oldest page leaves the other pages alone, and what is erased.
    pub proof fn lemma_without_oldest(self, volume: Seq<u8>)
        requires
            self.wf(),
            volume.len() == self.volume_len,
        ensures
            ({
                let start = self.oldest - PAGE_HEADER_SIZE;
                let new_volume = self.without_oldest(volume);
                &&& new_volume.len() == volume.len()
                &&& forall|x: int|
                    start <= x < start + self.volume_len ==> #[trigger] flash_byte(
                        new_volume,
                        self.volume_len,
                        x,
                    ) == (if x < start + self.page_size {
                        PAD_BYTE
                    } else {
                        flash_byte(volume, self.volume_len, x)
                    })
                &&& forall|i: int|
                    0 <= i < volume.len() && volume[i] == PAD_BYTE ==> #[trigger] new_volume[i]
                        == PAD_BYTE
            }),
    {
        let len = self.volume_len;
        let start = self.oldest - PAGE_HEADER_SIZE;
        let slot = start % len;
        let new_volume = self.without_oldest(volume);
        lemma_page_start(self.page_size, self.oldest);
        lemma_page_offset(len, self.page_size, start);
        vstd::arithmetic::div_mod::lemma_mod_bound(start, len);
        lemma_page_in_volume(len, self.page_size, slot);
        assert forall|x: int| start <= x < start + len implies #[trigger] flash_byte(
            new_volume,
            len,
            x,
        ) == (if x < start + self.page_size {
            PAD_BYTE
        } else {
            flash_byte(volume, len, x)
        }) by {
            let step = x - start;
            vstd::arithmetic::div_mod::lemma_mod_bound(x, len);
            if slot + step < len {
                lemma_small_step(len, start, step);
            } else {
                vstd::arithmetic::div_mod::lemma_add_mod_noop(start, step, len);
                vstd::arithmetic::div_mod::lemma_small_mod(step as nat, len as nat);
                vstd::arithmetic::div_mod::lemma_mod_sub_multiples_vanish(slot + step, len);
                vstd::arithmetic::div_mod::lemma_small_mod((slot + step - len) as nat, len as nat);
                assert(x % len == slot + step - len);
            }
        }
    }

    /// What is left of the log once its oldest page is erased.
    #[verifier::rlimit(40)]
    proof fn lemma_partial_erase(self, volume: Seq<u8>)
        requires
            self.consistent(volume),
            self.oldest - PAGE_HEADER_SIZE < self.last_start(),
        ensures
            ({
                let after = self.after_erase();
                let new_volume = self.without_oldest(volume);
                let end = self.oldest - PAGE_HEADER_SIZE + self.page_size;
                &&& after == (LogView { oldest: end + PAGE_HEADER_SIZE, ..self })
                &&& after.wf()
                &&& after.stored(new_volume)
                &&& after.oldest <= self.append
                &&& after.lap_erased(new_volume)
                &&& end % self.page_size == 0
                &&& end <= self.last_start()
                &&& after.last_start() == self.last_start()
                &&& after.chained(new_volume, after.oldest)
                &&& after.chained(new_volume, self.last_start() + PAGE_HEADER_SIZE)
                &&& after.entries(new_volume) == self.entries_from(volume, after.oldest)
                &&& after.entries(new_volume).is_suffix_of(self.entries(volume))
                &&& forall|x: int|
                    end <= x < self.append ==> #[trigger] self.byte_at(volume, x) == after.byte_at(
                        new_volume,
                        x,
                    )
                &&& after.entries_from(new_volume, self.append) == Seq::<Seq<u8>>::empty()
            }),
    {
        let size = self.page_size;
        let start = self.oldest - PAGE_HEADER_SIZE;
        let target = self.oldest + size;
        let after = self.after_erase();
        let new_volume = self.without_oldest(volume);
        self.lemma_last_start();
        lemma_page_start(size, self.oldest);
        lemma_between_boundaries(size, start, self.oldest);
        lemma_next_boundary(size, start);
        lemma_boundary_order(size, start + size, self.last_start());
        lemma_between_boundaries(size, start + size, target);
        self.lemma_after_erase_wf();
        lemma_page_start(size, self.append);
        lemma_boundary_order(size, self.last_start(), self.append - self.append % size);
        self.lemma_without_oldest(volume);
        assert forall|x: int| start + size <= x < self.append implies #[trigger] self.byte_at(
            volume,
            x,
        ) == after.byte_at(new_volume, x) by {
            if !self.in_last_page(x) {
                assert(flash_byte(new_volume, self.volume_len, x) == flash_byte(
                    volume,
                    self.volume_len,
                    x,
                ));
            }
        }
        assert forall|x: int|
            0 <= x && self.last_start() - self.volume_len + size <= x < start
                + size implies #[trigger] flash_byte(new_volume, self.volume_len, x)
            == PAD_BYTE by {
            if x < start {
                assert(flash_byte(volume, self.volume_len, x) == PAD_BYTE);
                vstd::arithmetic::div_mod::lemma_mod_bound(x, self.volume_len);
            }
        }
        assert(after.entries_from(new_volume, self.append) =~= seq![]) by {
            after.lemma_entry_after(new_volume, self.append);
        }
        self.lemma_chain_to_next_page(volume, self.oldest);
        self.lemma_transfer(volume, after, new_volume, target);
        self.lemma_transfer(volume, after, new_volume, self.last_start() + PAGE_HEADER_SIZE);
        assert(after.entries(new_volume) =~= self.entries_from(volume, target));
    }

    /// What is unread once an erase is given up.
    #[verifier::rlimit(40)]
    proof fn lemma_given_up_read(self, volume: Seq<u8>)
        requires
            self.consistent(volume),
            self.oldest - PAGE_HEADER_SIZE < self.last_start(),
        ensures
            ({
                let erased = self.after_erase();
                let read = erased.given_up_erase().read;
                let new_volume = self.without_oldest(volume);
                &&& erased.oldest <= read <= self.append
                &&& read % self.page_size == 0 || read % self.page_size >= PAGE_HEADER_SIZE
                &&& erased.chained(new_volume, read)
                &&& erased.entries_from(new_volume, read).is_suffix_of(self.unread(volume))
                &&& self.read >= erased.oldest - PAGE_HEADER_SIZE ==> erased.entries_from(
                    new_volume,
                    read,
                ) == self.unread(volume)
            }),
    {
        let size = self.page_size;
        let start = self.oldest - PAGE_HEADER_SIZE;
        let end = start + size;
        let erased = self.after_erase();
        let new_volume = self.without_oldest(volume);
        let unread = self.unread(volume);
        self.lemma_partial_erase(volume);
        lemma_page_start(size, self.oldest);
        lemma_between_boundaries(size, end, erased.oldest);
        assert(unread.subrange(0, unread.len() as int) =~= unread);
        if self.read >= erased.oldest {
            self.lemma_transfer(volume, erased, new_volume, self.read);
            assert(erased.unread(new_volume) =~= unread);
        } else if self.read >= end {
            // At the end of the erased page, the next entry is the first of the next page.
            lemma_between_boundaries(size, end, self.read);
            assert(self.entry_after(volume, self.read) == erased.oldest);
            self.lemma_past_header(volume, self.read);
        } else {
            lemma_between_boundaries(size, start, self.read);
            self.lemma_chain_to_next_page(volume, self.read);
        }
    }

    /// Giving up an erase once the page that is being filled was erased, and is full: the
    /// page is still at hand, and so are its entries.
    #[verifier::rlimit(40)]
    proof fn lemma_give_up_last_page(self, volume: Seq<u8>)
        requires
            self.consistent(volume),
            self.oldest - PAGE_HEADER_SIZE == self.last_start(),
            !self.one_page_left(),
        ensures
            ({
                let after = self.after_erase().given_up_erase();
                let new_volume = self.without_oldest(volume);
                &&& after.consistent(new_volume)
                &&& after.oldest == self.oldest
                &&& after.entries(new_volume) == self.entries(volume)
                &&& after.unread(new_volume) == self.unread(volume)
            }),
    {
        let size = self.page_size;
        let start = self.last_start();
        let after = self.after_erase().given_up_erase();
        let new_volume = self.without_oldest(volume);
        self.lemma_last_start();
        self.lemma_after_erase_wf();
        self.after_erase().lemma_given_up_erase_wf();
        self.lemma_without_oldest(volume);
        assert(after =~= (LogView { read: after.read, ..self }));
        assert forall|x: int| start <= x < self.append implies #[trigger] self.byte_at(volume, x)
            == after.byte_at(new_volume, x) by {}
        assert forall|x: int|
            0 <= x && start - self.volume_len + size <= x < start implies #[trigger] flash_byte(
            new_volume,
            self.volume_len,
            x,
        ) == PAD_BYTE by {
            assert(flash_byte(volume, self.volume_len, x) == PAD_BYTE);
            vstd::arithmetic::div_mod::lemma_mod_bound(x, self.volume_len);
        }
        assert(after.entries_from(new_volume, self.append) =~= seq![]) by {
            after.lemma_entry_after(new_volume, self.append);
        }
        if self.read < self.oldest {
            // At the start of the page, the next entry is its first.
            lemma_between_boundaries(size, start, self.read);
            assert(self.entry_after(volume, self.read) == self.oldest);
            self.lemma_past_header(volume, self.read);
        }
        lemma_between_boundaries(size, start, self.oldest);
        self.lemma_transfer(volume, after, new_volume, after.read);
        self.lemma_transfer(volume, after, new_volume, self.oldest);
        assert(after.entries(new_volume) =~= self.entries(volume));
        assert(after.unread(new_volume) =~= self.unread(volume));
    }

    /// A log that fails to be erased completely remains valid: once its oldest page is
    /// erased, it is consistent and holds the entries of the other pages, and what was
    /// unread of those is what is unread. The page that is being filled stays in the log.
    #[verifier::rlimit(40)]
    pub proof fn law_partial_erase(self, volume: Seq<u8>)
        requires
            self.consistent(volume),
            !self.one_page_left(),
        ensures
            ({
                let after = self.after_erase().given_up_erase();
                let new_volume = self.without_oldest(volume);
                &&& after.consistent(new_volume)
                &&& after.oldest <= after.read <= after.append
                &&& after.append == self.append
                &&& after.entries(new_volume).is_suffix_of(self.entries(volume))
                &&& after.unread(new_volume).is_suffix_of(self.unread(volume))
                &&& self.read >= after.oldest - PAGE_HEADER_SIZE ==> after.unread(new_volume)
                    == self.unread(volume)
            }),
    {
        let erased = self.after_erase();
        let after = erased.given_up_erase();
        let new_volume = self.without_oldest(volume);
        if self.oldest - PAGE_HEADER_SIZE < self.last_start() {
            self.lemma_partial_erase(volume);
            self.lemma_given_up_read(volume);
            erased.lemma_same_cookies(after, new_volume, after.read);
            erased.lemma_same_cookies(after, new_volume, after.oldest);
            erased.lemma_same_cookies(after, new_volume, self.last_start() + PAGE_HEADER_SIZE);
        } else {
            self.lemma_give_up_last_page(volume);
            let entries = self.entries(volume);
            let unread = self.unread(volume);
            assert(entries.subrange(0, entries.len() as int) =~= entries);
            assert(unread.subrange(0, unread.len() as int) =~= unread);
        }
    }

    /// The volume once every page of the log is erased.
    pub open spec fn erased_volume(self, volume: Seq<u8>) -> Seq<u8>
        decreases self.append - (self.oldest - PAGE_HEADER_SIZE),
    {
        let rest = self.without_oldest(volume);
        if self.one_page_left() || self.page_size <= 0 || self.oldest - PAGE_HEADER_SIZE
            + self.page_size > self.append {
            rest
        } else {
            self.after_erase().erased_volume(rest)
        }
    }

    /// The log once every page of it is erased.
    pub open spec fn erased_log(self) -> LogView<T>
        decreases self.append - (self.oldest - PAGE_HEADER_SIZE),
    {
        if self.one_page_left() || self.page_size <= 0 || self.oldest - PAGE_HEADER_SIZE
            + self.page_size > self.append {
            self.after_erase()
        } else {
            self.after_erase().erased_log()
        }
    }

    /// The first page that is left when the oldest one is not the last.
    pub proof fn lemma_next_to_erase(self)
        requires
            self.wf(),
            !self.one_page_left(),
        ensures
            self.oldest - PAGE_HEADER_SIZE + self.page_size <= self.append - self.append
                % self.page_size,
    {
        let size = self.page_size;
        let start = self.oldest - PAGE_HEADER_SIZE;
        let last = self.append - self.append % size;
        lemma_page_start(size, self.oldest);
        lemma_page_start(size, self.append);
        lemma_boundary_order(size, start, last);
        lemma_boundary_order(size, last, start);
    }

    /// Erasing every page erases what the log takes up of the volume, and leaves what is
    /// erased.
    proof fn lemma_erased_volume(self, volume: Seq<u8>)
        requires
            self.wf(),
            volume.len() == self.volume_len,
        ensures
            self.erased_log() == self.cleared(),
            self.erased_volume(volume).len() == volume.len(),
            forall|x: int|
                self.oldest - PAGE_HEADER_SIZE <= x < self.append - self.append % self.page_size
                    + self.page_size ==> #[trigger] flash_byte(
                    self.erased_volume(volume),
                    self.volume_len,
                    x,
                ) == PAD_BYTE,
            forall|i: int|
                0 <= i < volume.len() && volume[i] == PAD_BYTE ==> #[trigger] self.erased_volume(
                    volume,
                )[i] == PAD_BYTE,
        decreases self.append - (self.oldest - PAGE_HEADER_SIZE),
    {
        let rest = self.without_oldest(volume);
        let start = self.oldest - PAGE_HEADER_SIZE;
        self.lemma_without_oldest(volume);
        self.lemma_after_erase_wf();
        lemma_page_start(self.page_size, self.append);
        if !self.one_page_left() {
            let after = self.after_erase();
            let erased = after.erased_volume(rest);
            self.lemma_next_to_erase();
            after.lemma_erased_volume(rest);
            assert(after.cleared() == self.cleared());
            assert forall|x: int| start <= x < start + self.page_size implies #[trigger] flash_byte(
                erased,
                self.volume_len,
                x,
            ) == PAD_BYTE by {
                vstd::arithmetic::div_mod::lemma_mod_bound(x, self.volume_len);
                assert(flash_byte(rest, self.volume_len, x) == PAD_BYTE);
            }
        }
    }

    /// Erasing a log whose append cookie has come to the last page of the volume, or has
    /// wrapped around, erases the whole volume, and leaves an empty log at its first cookie:
    /// a read says that nothing is left to read, and no records count as lost.
    pub proof fn law_erase_whole_volume(self, volume: Seq<u8>, buffer_len: int, length: int)
        requires
            self.consistent(volume),
            self.state == State::Idle,
            self.client is Some,
            self.append - self.append % self.page_size + self.page_size >= self.volume_len,
            length <= buffer_len,
        ensures
            ({
                let log = self.erased_log();
                let new_volume = self.erased_volume(volume);
                &&& new_volume.len() == volume.len()
                &&& forall|i: int| 0 <= i < volume.len() ==> #[trigger] new_volume[i] == PAD_BYTE
                &&& log == self.cleared()
                &&& log.consistent(new_volume)
                &&& log.entries(new_volume).len() == 0
                &&& log.read_error(new_volume, buffer_len, length) == Some(ReturnCode::FAIL)
                &&& !log.records_lost()
            }),
    {
        let len = self.volume_len;
        let first = self.append - self.append % self.page_size + self.page_size - len;
        let new_volume = self.erased_volume(volume);
        self.lemma_last_start();
        self.lemma_erased_volume(volume);
        self.lemma_cleared(new_volume, buffer_len, length);
        lemma_page_start(self.page_size, self.append);
        lemma_boundary_order(
            self.page_size,
            self.last_start(),
            self.append - self.append % self.page_size,
        );
        assert forall|i: int| 0 <= i < volume.len() implies #[trigger] new_volume[i]
            == PAD_BYTE by {
            // The cookie of the last lap that lies at this byte.
            let x = first + (i - first) % len;
            vstd::arithmetic::div_mod::lemma_mod_bound(i - first, len);
            vstd::arithmetic::div_mod::lemma_add_mod_noop_right(first, i - first, len);
            vstd::arithmetic::div_mod::lemma_small_mod(i as nat, len as nat);
            assert(x % len == i);
            if x < self.oldest - PAGE_HEADER_SIZE {
                assert(flash_byte(volume, len, x) == PAD_BYTE);
            } else {
                assert(flash_byte(new_volume, len, x) == PAD_BYTE);
            }
        }
    }

    /// Which client a log has does not matter to its entries.
    pub proof fn law_set_client(self, client: T, volume: Seq<u8>)
        requires
            self.consistent(volume),
        ensures
            ({
                let after = LogView { client: Some(client), ..self };
                &&& after.consistent(volume)
                &&& after.unread(volume) == self.unread(volume)
                &&& after.entries(volume) == self.entries(volume)
            }),
    {
        let after = LogView { client: Some(client), ..self };
        self.lemma_same_cookies(after, volume, self.oldest);
        self.lemma_same_cookies(after, volume, self.read);
        self.lemma_same_cookies(after, volume, self.last_start() + PAGE_HEADER_SIZE);
    }

    /// Only the append cookie and the bytes decide which entries follow.
    pub proof fn lemma_same_cookies(
        self,
        other: LogView<T>,
        volume: Seq<u8>,
        cookie: int,
    )
        requires
            other.order == self.order,
            other.append == self.append,
            other.page == self.page,
            other.page_size == self.page_size,
        ensures
            other.chained(volume, cookie) == self.chained(volume, cookie),
            other.entries_from(volume, cookie) == self.entries_from(volume, cookie),
        decreases self.append - cookie,
    {
        let entry = self.entry_after(volume, cookie);
        let next = entry + ENTRY_HEADER_SIZE + self.entry_len(volume, entry);
        assert(other.entry_after(volume, cookie) == entry);
        assert(other.entry_len(volume, entry) == self.entry_len(volume, entry));
        if cookie < next <= self.append {
            self.lemma_same_cookies(other, volume, next);
        }
    }

    /// Bytes of one page are found one by one where they are found together.
    pub proof fn lemma_bytes_at(self, volume: Seq<u8>, cookie: int, n: int)
        requires
            self.stored(volume),
            0 <= cookie,
            0 <= n,
            cookie % self.page_size + n <= self.page_size,
        ensures
            self.bytes_in_bounds(volume, cookie, n),
            self.bytes_at(volume, cookie, n) == Seq::new(
                n as nat,
                |i: int| self.byte_at(volume, cookie + i),
            ),
    {
        let size = self.page_size;
        let len = self.volume_len;
        let start = cookie - cookie % size;
        let offset = self.offset_at(volume, cookie);
        let buffer = self.buffer_at(volume, cookie);
        lemma_page_start(size, cookie);
        lemma_page_start(size, self.append - 1);
        vstd::arithmetic::div_mod::lemma_mod_bound(cookie, size);
        vstd::arithmetic::div_mod::lemma_mod_bound(cookie, len);
        lemma_page_offset(len, size, cookie);
        lemma_page_start(size, cookie % len);
        lemma_page_in_volume(len, size, cookie % len - cookie % size);
        lemma_boundary_order(size, start, self.last_start());
        lemma_boundary_order(size, self.last_start(), start);
        assert forall|i: int| 0 <= i < n implies #[trigger] self.byte_at(volume, cookie + i)
            == buffer[offset + i] by {
            let x = cookie + i;
            assert(self.in_last_page(x) == self.in_last_page(cookie));
            if self.in_last_page(cookie) {
                lemma_small_step(size, cookie, i);
            } else {
                lemma_small_step(len, cookie, i);
            }
        }
        assert(self.bytes_at(volume, cookie, n) =~= Seq::new(
            n as nat,
            |i: int| self.byte_at(volume, cookie + i),
        ));
    }

    /// The entry that follows `cookie` does not start before it.
    pub proof fn lemma_entry_after(self, volume: Seq<u8>, cookie: int)
        requires
            self.stored(volume),
        ensures
            cookie <= self.entry_after(volume, cookie),
    {
        vstd::arithmetic::div_mod::lemma_mod_bound(cookie, self.page_size);
    }

    /// A chain of entries is carried over to a log that holds the same bytes and goes
    /// on where the chain ends.
    #[verifier::rlimit(40)]
    pub proof fn lemma_transfer(
        self,
        volume: Seq<u8>,
        other: LogView<T>,
        other_volume: Seq<u8>,
        cookie: int,
    )
        requires
            self.stored(volume),
            other.stored(other_volume),
            self.order == other.order,
            self.page_size == other.page_size,
            self.append <= other.append,
            0 <= cookie,
            self.chained(volume, cookie),
            forall|x: int|
                cookie <= x < self.append ==> #[trigger] self.byte_at(volume, x) == other.byte_at(
                    other_volume,
                    x,
                ),
            other.chained(other_volume, self.append),
            self.append % self.page_size == PAGE_HEADER_SIZE ==> other.append == self.append
                || other.entry_after(other_volume, self.append) == self.append,
        ensures
            other.chained(other_volume, cookie),
            other.entries_from(other_volume, cookie) == self.entries_from(volume, cookie)
                + other.entries_from(other_volume, self.append),
        decreases self.append - cookie,
    {
        let rest = other.entries_from(other_volume, self.append);
        self.lemma_entry_after(volume, cookie);
        if cookie == self.append {
            assert(self.entries_from(volume, cookie) =~= seq![]);
            assert(other.entries_from(other_volume, cookie) =~= seq![] + rest);
        } else {
            let entry = self.entry_after(volume, cookie);
            assert(self.byte_at(volume, cookie) == other.byte_at(other_volume, cookie));
            if cookie % self.page_size != 0 && self.page_size - cookie % self.page_size
                >= ENTRY_HEADER_SIZE {
                // The word that tells padding from an entry lies before the append cookie.
                self.lemma_bytes_at(volume, cookie, WORD_SIZE as int);
                other.lemma_bytes_at(other_volume, cookie, WORD_SIZE as int);
                assert(cookie + WORD_SIZE <= self.append);
                assert(self.bytes_at(volume, cookie, WORD_SIZE as int) =~= other.bytes_at(
                    other_volume,
                    cookie,
                    WORD_SIZE as int,
                ));
            }
            assert(other.entry_after(other_volume, cookie) == entry);
            if entry == self.append {
                self.lemma_entry_at_page_start(volume, cookie);
                assert(self.entries_from(volume, cookie) =~= seq![]);
                assert(other.entries_from(other_volume, cookie) =~= rest);
                assert(seq![] + rest =~= rest);
            } else {
                let length = self.entry_len(volume, entry);
                let next = entry + ENTRY_HEADER_SIZE + length;
                self.lemma_bytes_at(volume, entry, WORD_SIZE as int);
                other.lemma_bytes_at(other_volume, entry, WORD_SIZE as int);
                assert(self.bytes_at(volume, entry, WORD_SIZE as int) =~= other.bytes_at(
                    other_volume,
                    entry,
                    WORD_SIZE as int,
                ));
                lemma_small_step(self.page_size, entry, ENTRY_HEADER_SIZE as int);
                self.lemma_bytes_at(volume, entry + ENTRY_HEADER_SIZE, length);
                other.lemma_bytes_at(other_volume, entry + ENTRY_HEADER_SIZE, length);
                assert(self.entry_data(volume, entry, length) =~= other.entry_data(
                    other_volume,
                    entry,
                    length,
                ));
                self.lemma_transfer(volume, other, other_volume, next);
                let data = seq![self.entry_data(volume, entry, length)];
                assert(data + (self.entries_from(volume, next) + rest) =~= (data
                    + self.entries_from(volume, next)) + rest);
            }
        }
    }

    /// Skipping leads to the first byte past a page header.
    proof fn lemma_entry_at_page_start(self, volume: Seq<u8>, cookie: int)
        requires
            self.stored(volume),
            0 <= cookie,
            self.entry_after(volume, cookie) != cookie,
        ensures
            self.entry_after(volume, cookie) % self.page_size == PAGE_HEADER_SIZE,
    {
        let size = self.page_size;
        let entry = self.entry_after(volume, cookie);
        let start = entry - PAGE_HEADER_SIZE;
        lemma_page_start(size, cookie);
        lemma_next_boundary(size, cookie - cookie % size);
        lemma_between_boundaries(size, start, entry);
    }
}

/// The byte of the volume that `cookie` lies at.
pub open spec fn flash_byte(volume: Seq<u8>, volume_len: int, cookie: int) -> u8 {
    volume[cookie % volume_len]
}

/// A step within a page ends in the page, or at its end.
proof fn lemma_step_in_page(page_size: int, x: int, step: int)
    requires
        0 < page_size,
        0 <= step,
        x % page_size + step <= page_size,
    ensures
        (x + step) % page_size == 0 || (x + step) % page_size == x % page_size + step,
{
    if x % page_size + step < page_size {
        lemma_small_step(page_size, x, step);
    } else {
        lemma_page_start(page_size, x);
        lemma_next_boundary(page_size, x - x % page_size);
        assert(x + step == x - x % page_size + page_size);
    }
}

/// Adding less than what is missing to the next multiple adds to the remainder.
pub proof fn lemma_small_step(modulus: int, x: int, step: int)
    requires
        0 < modulus,
        0 <= step,
        x % modulus + step < modulus,
    ensures
        (x + step) % modulus == x % modulus + step,
{
    vstd::arithmetic::div_mod::lemma_mod_bound(x, modulus);
    vstd::arithmetic::div_mod::lemma_add_mod_noop(x, step, modulus);
    vstd::arithmetic::div_mod::lemma_small_mod(step as nat, modulus as nat);
    vstd::arithmetic::div_mod::lemma_small_mod((x % modulus + step) as nat, modulus as nat);
}

} // verus!
