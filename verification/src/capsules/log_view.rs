//! The state of a log, and what each of its operations makes of it.

use crate::capsules::log_layout::{
    capacity_of, newest_page, oldest_page, overwrite, padded, page_at, used_len, volume_ok,
    ENTRY_HEADER_SIZE, PAD_BYTE, PAGE_HEADER_SIZE,
};
use crate::capsules::storage_interface::StorageCookie;
use crate::capsules::word::{word_bytes, word_value, ByteOrder, WORD_SIZE};
use crate::return_code::ReturnCode;
use vstd::prelude::*;

verus! {

/// The operation that a log is busy with.
#[derive(Clone, Copy, Debug, PartialEq, Eq, Structural)]
pub enum State {
    Idle,
    Write,
    Sync,
}

/// State of a log whose client is known by a `T`.
#[verifier::ext_equal]
pub struct LogView<T> {
    /// Byte order of the words in the volume.
    pub order: ByteOrder,
    /// Address of the volume.
    pub base: int,
    /// Length of the volume.
    pub volume_len: int,
    /// Capacity of log in bytes.
    pub capacity: int,
    /// Size of a flash page.
    pub page_size: int,
    /// Whether or not the log is circular.
    pub circular: bool,
    /// Client using the log.
    pub client: Option<T>,
    /// Current operation being executed, if asynchronous.
    pub state: State,
    /// Cookie within log to read from.
    pub read: int,
    /// Cookie within log to append to.
    pub append: int,
    /// Oldest cookie still in log.
    pub oldest: int,
    /// The page that is being filled, unless the flash controller has it.
    pub page: Option<Seq<u8>>,
    /// Client-provided buffer to write from.
    pub pending: Option<Seq<u8>>,
    /// Length of data to write from the buffer.
    pub pending_len: int,
}

impl<T> LogView<T> {
    /// Cookie of the first byte of the page that holds the last written byte. The
    /// page is not flushed yet when the append cookie reaches its end.
    pub open spec fn last_start(self) -> int {
        (self.append - 1) - (self.append - 1) % self.page_size
    }

    /// An entry of `length` bytes fits an empty page.
    pub open spec fn fits_page(self, length: int) -> bool {
        PAGE_HEADER_SIZE + ENTRY_HEADER_SIZE + length <= self.page_size
    }

    /// An entry of `length` bytes fits what is left of the current page.
    pub open spec fn fits_rest(self, length: int) -> bool {
        &&& self.append % self.page_size != 0
        &&& ENTRY_HEADER_SIZE + length <= self.page_size - self.append % self.page_size
    }

    /// What every operation keeps.
    pub open spec fn wf(self) -> bool {
        &&& volume_ok(self.volume_len, self.page_size)
        &&& 0 <= self.base && self.base + self.volume_len <= usize::MAX
        &&& self.capacity == capacity_of(self.volume_len, self.page_size)
        &&& PAGE_HEADER_SIZE <= self.append
        &&& self.last_start() + PAGE_HEADER_SIZE <= self.append
        &&& self.last_start() + self.page_size + PAGE_HEADER_SIZE <= usize::MAX
        &&& 0 <= self.read <= usize::MAX
        &&& PAGE_HEADER_SIZE <= self.oldest
        &&& self.oldest % self.page_size == PAGE_HEADER_SIZE
        &&& self.oldest - PAGE_HEADER_SIZE <= self.append
        &&& self.page matches Some(page) ==> page.len() == self.page_size
        &&& self.state != State::Idle ==> self.page is None && self.client is Some
        &&& self.state == State::Write <==> self.pending is Some
        &&& self.pending matches Some(buffer) ==> {
            &&& 0 < self.pending_len <= buffer.len()
            &&& self.fits_page(self.pending_len)
            &&& !self.at_end() || self.fits_rest(self.pending_len)
        }
    }

    /// The cookies of the page that follows the current one fit a word.
    pub open spec fn room(self) -> bool {
        self.last_start() + 2 * self.page_size + PAGE_HEADER_SIZE <= usize::MAX
    }

    /// Whether a new page is begun once the current one is written to flash.
    pub open spec fn begins_page(self) -> bool {
        self.state == State::Write || self.append % self.page_size == 0
    }

    /// Number of the flash page that contains `cookie`.
    pub open spec fn page_number(self, cookie: int) -> int {
        (self.base + cookie % self.volume_len) / self.page_size
    }

    /// Whether or not records may have been previously lost.
    pub open spec fn records_lost(self) -> bool {
        self.oldest != PAGE_HEADER_SIZE
    }

    /// Whether `cookie` lies in the page that is being filled.
    pub open spec fn in_last_page(self, cookie: int) -> bool {
        self.last_start() <= cookie < self.last_start() + self.page_size
    }

    /// The storage that holds the byte at `cookie`.
    pub open spec fn buffer_at(self, volume: Seq<u8>, cookie: int) -> Seq<u8> {
        if self.in_last_page(cookie) {
            self.page->0
        } else {
            volume
        }
    }

    /// Where `cookie` lies in the storage that holds it.
    pub open spec fn offset_at(self, volume: Seq<u8>, cookie: int) -> int {
        cookie % (self.buffer_at(volume, cookie).len() as int)
    }

    /// The byte at `cookie`.
    pub open spec fn byte_at(self, volume: Seq<u8>, cookie: int) -> u8 {
        self.buffer_at(volume, cookie)[self.offset_at(volume, cookie)]
    }

    /// The `n` bytes from `cookie` on lie within the storage that holds `cookie`.
    pub open spec fn bytes_in_bounds(self, volume: Seq<u8>, cookie: int, n: int) -> bool {
        self.offset_at(volume, cookie) + n <= self.buffer_at(volume, cookie).len()
    }

    /// The `n` bytes from `cookie` on.
    pub open spec fn bytes_at(self, volume: Seq<u8>, cookie: int, n: int) -> Seq<u8> {
        let offset = self.offset_at(volume, cookie);
        self.buffer_at(volume, cookie).subrange(offset, offset + n)
    }

    /// Whether an entry stands at `cookie` that fits what is left of the page.
    pub open spec fn entry_fits(self, volume: Seq<u8>, cookie: int) -> bool {
        let rest = self.page_size - cookie % self.page_size;
        &&& ENTRY_HEADER_SIZE <= rest
        &&& self.valid_len(self.entry_len(volume, cookie))
        &&& ENTRY_HEADER_SIZE + self.entry_len(volume, cookie) <= rest
    }

    /// Whether what is left of a page from `cookie` on is padding: it starts with the
    /// padding byte, which is not the first byte of an entry.
    pub open spec fn padding_at(self, volume: Seq<u8>, cookie: int) -> bool {
        &&& self.byte_at(volume, cookie) == PAD_BYTE
        &&& !self.entry_fits(volume, cookie)
    }

    /// Where the entry that follows `cookie` would start: past the page header at
    /// the start of a page, past the next page header where the page is padded.
    pub open spec fn entry_after(self, volume: Seq<u8>, cookie: int) -> int {
        if cookie % self.page_size == 0 {
            cookie + PAGE_HEADER_SIZE
        } else if self.padding_at(volume, cookie) {
            cookie + self.page_size - cookie % self.page_size + PAGE_HEADER_SIZE
        } else {
            cookie
        }
    }

    /// The entry length that stands at `cookie`.
    pub open spec fn entry_len(self, volume: Seq<u8>, cookie: int) -> int {
        word_value(self.order, self.bytes_at(volume, cookie, WORD_SIZE as int))
    }

    /// The data of an entry of `length` bytes whose header is at `cookie`.
    pub open spec fn entry_data(self, volume: Seq<u8>, cookie: int, length: int) -> Seq<u8> {
        self.bytes_at(volume, cookie + ENTRY_HEADER_SIZE, length)
    }

    /// A length that an entry header may hold.
    pub open spec fn valid_len(self, length: int) -> bool {
        0 < length && self.fits_page(length)
    }

    /// The entry header and the entry that a read of up to `length` bytes into a buffer of
    /// `buffer_len` bytes comes to lie within the storage that holds them, unless the read
    /// is refused before.
    pub open spec fn read_in_bounds(self, volume: Seq<u8>, buffer_len: int, length: int) -> bool {
        let entry = self.entry_after(volume, self.read);
        &&& volume.len() == self.volume_len
        &&& self.state == State::Idle && length <= buffer_len && self.read <= self.append
            && self.client is Some && self.page is Some && entry < self.append ==> {
            &&& self.bytes_in_bounds(volume, entry, WORD_SIZE as int)
            &&& self.valid_len(self.entry_len(volume, entry)) && self.entry_len(volume, entry)
                <= length ==> {
                &&& entry + ENTRY_HEADER_SIZE + self.entry_len(volume, entry) <= usize::MAX
                &&& self.bytes_in_bounds(
                    volume,
                    entry + ENTRY_HEADER_SIZE,
                    self.entry_len(volume, entry),
                )
            }
        }
    }

    /// Why a read of up to `length` bytes into a buffer of `buffer_len` bytes is
    /// refused, if it is.
    pub open spec fn read_error(self, volume: Seq<u8>, buffer_len: int, length: int) -> Option<
        ReturnCode,
    > {
        let entry = self.entry_after(volume, self.read);
        if self.state != State::Idle {
            Some(ReturnCode::EBUSY)
        } else if buffer_len < length {
            Some(ReturnCode::EINVAL)
        } else if self.read > self.append {
            Some(ReturnCode::ECANCEL)
        } else if self.client is None || self.page is None {
            Some(ReturnCode::ERESERVE)
        } else if entry >= self.append {
            Some(ReturnCode::FAIL)
        } else if !self.valid_len(self.entry_len(volume, entry)) {
            Some(ReturnCode::FAIL)
        } else if self.entry_len(volume, entry) > length {
            Some(ReturnCode::ESIZE)
        } else {
            None
        }
    }

    /// The log after a read that succeeds.
    pub open spec fn after_read(self, volume: Seq<u8>) -> LogView<T> {
        let entry = self.entry_after(volume, self.read);
        LogView {
            read: entry + ENTRY_HEADER_SIZE + self.entry_len(volume, entry),
            ..self
        }
    }

    /// The log with the read cookie at the oldest entry.
    pub open spec fn rewound(self) -> LogView<T> {
        LogView { read: self.oldest, ..self }
    }

    /// The log once it was asked to seek to `cookie`, and the answer: the read cookie moves to
    /// the oldest entry, or to a cookie that is in the log.
    pub open spec fn sought(self, cookie: StorageCookie) -> (LogView<T>, ReturnCode) {
        let status = if self.client is Some {
            ReturnCode::SUCCESS
        } else {
            ReturnCode::ERESERVE
        };
        match cookie {
            StorageCookie::SeekBeginning => (self.rewound(), status),
            StorageCookie::Cookie(at) => if self.oldest <= at <= self.append {
                (LogView { read: at as int, ..self }, status)
            } else {
                (self, ReturnCode::EINVAL)
            },
        }
    }

    /// Why appending `length` bytes of a buffer of `buffer_len` bytes is refused,
    /// if it is.
    pub open spec fn append_error(self, buffer_len: int, length: int) -> Option<ReturnCode> {
        if self.state != State::Idle {
            Some(ReturnCode::EBUSY)
        } else if length == 0 || buffer_len < length {
            Some(ReturnCode::EINVAL)
        } else if !self.fits_page(length) {
            Some(ReturnCode::ESIZE)
        } else if !self.circular && self.append + ENTRY_HEADER_SIZE + length >= self.volume_len {
            Some(ReturnCode::FAIL)
        } else if self.client is None || self.page is None {
            Some(ReturnCode::ERESERVE)
        } else {
            None
        }
    }

    /// The log with `data` appended to the current page.
    pub open spec fn with_entry(self, data: Seq<u8>) -> LogView<T> {
        LogView {
            append: self.append + ENTRY_HEADER_SIZE + data.len(),
            page: Some(
                overwrite(
                    self.page->0,
                    self.append % self.page_size,
                    word_bytes(self.order, data.len() as int) + data,
                ),
            ),
            ..self
        }
    }

    /// The current page as it is written to flash: padded to its end.
    pub open spec fn page_to_flush(self) -> Seq<u8> {
        padded(self.page->0, self.append - self.last_start())
    }

    /// Whether writing the current page to flash overwrites `cookie`.
    pub open spec fn overwrites(self, cookie: int) -> bool {
        let start = self.last_start() - self.volume_len;
        start <= cookie < start + self.page_size
    }

    /// The log once its current page is on its way to flash, for the operation
    /// `state`: the cookies that the page overwrites move to the next page.
    pub open spec fn flushed(self, state: State) -> LogView<T> {
        let next = self.last_start() - self.volume_len + self.page_size + PAGE_HEADER_SIZE;
        LogView {
            state,
            page: None,
            read: if self.overwrites(self.read) {
                next
            } else {
                self.read
            },
            oldest: if self.overwrites(self.oldest) {
                next
            } else {
                self.oldest
            },
            ..self
        }
    }

    /// Whether the end of a log that is not circular has been reached.
    pub open spec fn at_end(self) -> bool {
        !self.circular && self.volume_len - self.append < self.page_size
    }

    /// Cookie of the first page boundary that is not below the append cookie.
    pub open spec fn next_start(self) -> int {
        if self.append % self.page_size == 0 {
            self.append
        } else {
            self.append + self.page_size - self.append % self.page_size
        }
    }

    /// The log with `page` made ready for new data, unless the log is at its end.
    pub open spec fn reset(self, page: Seq<u8>) -> LogView<T> {
        if self.at_end() {
            LogView { page: Some(page), ..self }
        } else {
            LogView {
                page: Some(overwrite(page, 0, word_bytes(self.order, self.next_start()))),
                append: self.next_start() + PAGE_HEADER_SIZE,
                ..self
            }
        }
    }

    /// The log once the write of `page` for an append has completed.
    pub open spec fn after_append_write(self, page: Seq<u8>) -> LogView<T> {
        LogView {
            state: State::Idle,
            pending: None,
            ..self.reset(page).with_entry(self.pending->0.subrange(0, self.pending_len))
        }
    }

    /// The log once the write of `page` for a sync has completed.
    pub open spec fn after_sync_write(self, page: Seq<u8>) -> LogView<T> {
        let log = if self.append % self.page_size == 0 {
            self.reset(page)
        } else {
            LogView { page: Some(page), ..self }
        };
        LogView { state: State::Idle, ..log }
    }

    /// The log once the write of `page` has failed.
    pub open spec fn after_failed_write(self, page: Seq<u8>) -> LogView<T> {
        LogView { state: State::Idle, page: Some(page), pending: None, ..self }
    }

    /// Whether the oldest page is the page that the append cookie points to.
    pub open spec fn one_page_left(self) -> bool {
        self.oldest - PAGE_HEADER_SIZE == self.append - self.append % self.page_size
    }

    /// The log once all of it is erased: back at its first cookie, with the header of the
    /// first page in the current page.
    pub open spec fn cleared(self) -> LogView<T> {
        LogView {
            read: PAGE_HEADER_SIZE as int,
            append: PAGE_HEADER_SIZE as int,
            oldest: PAGE_HEADER_SIZE as int,
            page: match self.page {
                Some(page) => Some(overwrite(page, 0, word_bytes(self.order, 0))),
                None => None,
            },
            ..self
        }
    }

    /// The log once its oldest page is erased.
    pub open spec fn after_erase(self) -> LogView<T> {
        if self.one_page_left() {
            self.cleared()
        } else {
            LogView { oldest: self.oldest + self.page_size, ..self }
        }
    }

    /// The log once an erase is given up: the read cookie leaves the pages that are erased.
    /// The page that is being filled stays in the log, since it is still at hand.
    pub open spec fn given_up_erase(self) -> LogView<T> {
        let last = self.last_start() + PAGE_HEADER_SIZE;
        let oldest = if self.oldest > last {
            last
        } else {
            self.oldest
        };
        LogView {
            oldest,
            read: if self.read < oldest {
                oldest
            } else {
                self.read
            },
            ..self
        }
    }

    /// The log that is recovered from a volume with the help of the buffer `page`.
    pub open spec fn recovered(
        order: ByteOrder,
        volume: Seq<u8>,
        base: int,
        page: Seq<u8>,
        circular: bool,
    ) -> LogView<T> {
        let page_size = page.len() as int;
        let oldest = oldest_page(order, volume, page_size);
        let newest = newest_page(order, volume, page_size);
        let last = page_at(volume, page_size, newest);
        let used = used_len(order, last, PAGE_HEADER_SIZE as int);
        let log = LogView {
            order,
            base,
            volume_len: volume.len() as int,
            capacity: capacity_of(volume.len() as int, page_size),
            page_size,
            circular,
            client: None,
            state: State::Idle,
            read: oldest + PAGE_HEADER_SIZE,
            append: newest + used,
            oldest: oldest + PAGE_HEADER_SIZE,
            page: Some(last),
            pending: None,
            pending_len: 0,
        };
        if used == page_size && !log.at_end() {
            log.reset(page)
        } else {
            log
        }
    }
}

} // verus!
