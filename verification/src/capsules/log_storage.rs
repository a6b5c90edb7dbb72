//! A log on flash that entries are appended to and read from.
//!
//! Entries are collected in a page buffer, which is written to flash when it is
//! full or on a sync. A circular log overwrites its oldest page once it has filled
//! the volume.

use crate::capsules::log_layout::{
    capacity_of, is_newest_page, lemma_boundary_order, lemma_extremes,
    lemma_page_offset_of_difference, lemma_page_start, overwrite, padded, page_at, page_recorded,
    recoverable, scan_pages, volume_ok, walk_page, ENTRY_HEADER_SIZE, PAD_BYTE, PAGE_HEADER_SIZE,
};
use crate::capsules::log_view::{LogView, State};
use crate::capsules::storage_interface::{
    AppendDone, AppendStep, EraseStep, FlashError, HasClient, LogRead, LogReadClient, LogWrite,
    LogWriteClient, PageWrite, ReadDone, StorageCookie, StorageLen, WriteStep,
};
use crate::capsules::word::{
    lemma_word_bytes_len, read_word, word_bytes, write_word, ByteOrder, WORD_SIZE,
};
use crate::return_code::ReturnCode;
use vstd::prelude::*;
use vstd::slice::slice_subrange;

verus! {

/// A log on a volume of flash pages.
pub struct LogStorage<'a, C: LogReadClient + LogWriteClient> {
    /// Address of the underlying storage volume.
    volume_base: usize,
    /// Length of the underlying storage volume.
    volume_len: usize,
    /// Byte order of the words in the volume.
    order: ByteOrder,
    /// Capacity of log in bytes.
    capacity: StorageLen,
    /// Buffer for a flash page.
    pagebuffer: Option<Vec<u8>>,
    /// Size of a flash page.
    page_size: usize,
    /// Whether or not the log is circular.
    circular: bool,
    /// Client using the log.
    client: Option<&'a C>,
    /// Current operation being executed, if asynchronous.
    state: State,
    /// Cookie within log to read from.
    read_cookie: usize,
    /// Cookie within log to append to.
    append_cookie: usize,
    /// Oldest cookie still in log.
    oldest_cookie: usize,
    /// Client-provided buffer to write from.
    buffer: Option<Vec<u8>>,
    /// Length of data to write from buffer.
    length: StorageLen,
}

/// Copies `data` into `buffer` from `at` on.
fn copy_into(buffer: &mut Vec<u8>, at: usize, data: &[u8])
    requires
        at + data@.len() <= old(buffer)@.len(),
    ensures
        final(buffer)@ == overwrite(old(buffer)@, at as int, data@),
{
    let len: usize = data.len();
    let end: usize = buffer.len();
    let mut i: usize = 0;
    assert(buffer@ =~= overwrite(old(buffer)@, at as int, data@.take(0)));
    while i < len
        invariant
            i <= len == data@.len(),
            at + len <= old(buffer)@.len() == end,
            buffer@ == overwrite(old(buffer)@, at as int, data@.take(i as int)),
        decreases len - i,
    {
        buffer.set(at + i, data[i]);
        i = i + 1;
        assert(buffer@ =~= overwrite(old(buffer)@, at as int, data@.take(i as int)));
    }
    assert(data@.take(len as int) =~= data@);
}

/// The bytes of an optional buffer.
spec fn optional_bytes(buffer: Option<Vec<u8>>) -> Option<Seq<u8>> {
    match buffer {
        Some(bytes) => Some(bytes@),
        None => None,
    }
}

impl<'a, C: LogReadClient + LogWriteClient> View for LogStorage<'a, C> {
    type V = LogView<&'a C>;

    closed spec fn view(&self) -> LogView<&'a C> {
        LogView {
            order: self.order,
            base: self.volume_base as int,
            volume_len: self.volume_len as int,
            capacity: self.capacity as int,
            page_size: self.page_size as int,
            circular: self.circular,
            client: self.client,
            state: self.state,
            read: self.read_cookie as int,
            append: self.append_cookie as int,
            oldest: self.oldest_cookie as int,
            page: optional_bytes(self.pagebuffer),
            pending: optional_bytes(self.buffer),
            pending_len: self.length as int,
        }
    }
}

impl<'a, C: LogReadClient + LogWriteClient> LogStorage<'a, C> {
    /// What every operation keeps.
    pub open spec fn inv(&self) -> bool {
        self@.wf()
    }

    /// Whether a log with pages of `page_size` bytes can be recovered from a volume whose bytes
    /// are `volume`, with words in the byte order `order`, and whose address is `volume_base`.
    pub fn is_recoverable(
        volume: &[u8],
        volume_base: usize,
        page_size: usize,
        order: ByteOrder,
    ) -> (ok: bool)
        ensures
            ok == {
                &&& volume_ok(volume@.len() as int, page_size as int)
                &&& volume_base + volume@.len() <= usize::MAX
                &&& recoverable(order, volume@, page_size as int)
            },
    {
        let len: usize = volume.len();
        if page_size <= PAGE_HEADER_SIZE || page_size > len || len % page_size != 0 || len
            > usize::MAX - volume_base {
            return false;
        }
        match scan_pages(order, volume, page_size) {
            None => false,
            Some((_oldest, newest)) => {
                newest <= usize::MAX - PAGE_HEADER_SIZE && page_size <= (usize::MAX
                    - PAGE_HEADER_SIZE - newest) / 2
            },
        }
    }

    /// Creates a log on a volume whose bytes are `volume` and whose address is `volume_base`,
    /// as it is found in the volume. `pagebuffer` is a buffer for one page, and `order` the byte
    /// order of the machine.
    pub fn new(
        volume: &[u8],
        volume_base: usize,
        pagebuffer: Vec<u8>,
        circular: bool,
        order: ByteOrder,
    ) -> (log: LogStorage<'a, C>)
        requires
            volume_ok(volume@.len() as int, pagebuffer@.len() as int),
            volume_base + volume@.len() <= usize::MAX,
            recoverable(order, volume@, pagebuffer@.len() as int),
        ensures
            log.inv(),
            log@ == LogView::<&'a C>::recovered(
                order,
                volume@,
                volume_base as int,
                pagebuffer@,
                circular,
            ),
    {
        let page_size: usize = pagebuffer.len();
        let volume_len: usize = volume.len();
        proof {
            vstd::arithmetic::div_mod::lemma_fundamental_div_mod(
                volume_len as int,
                page_size as int,
            );
            vstd::arithmetic::div_mod::lemma_div_pos_is_pos(volume_len as int, page_size as int);
            vstd::arithmetic::mul::lemma_mul_inequality(
                PAGE_HEADER_SIZE as int,
                page_size as int,
                volume_len as int / page_size as int,
            );
        }
        let capacity: usize = volume_len - PAGE_HEADER_SIZE * (volume_len / page_size);
        let mut log = LogStorage {
            volume_base,
            volume_len,
            order,
            capacity,
            pagebuffer: None,
            page_size,
            circular,
            client: None,
            state: State::Idle,
            read_cookie: PAGE_HEADER_SIZE,
            append_cookie: PAGE_HEADER_SIZE,
            oldest_cookie: PAGE_HEADER_SIZE,
            buffer: None,
            length: 0,
        };
        log.reconstruct(volume, pagebuffer);
        log
    }

    /// Reconstructs a log from flash.
    fn reconstruct(&mut self, volume: &[u8], pagebuffer: Vec<u8>)
        requires
            volume@.len() == old(self).volume_len,
            pagebuffer@.len() == old(self).page_size,
            volume_ok(volume@.len() as int, pagebuffer@.len() as int),
            old(self).volume_base + volume@.len() <= usize::MAX,
            recoverable(old(self).order, volume@, pagebuffer@.len() as int),
            old(self).capacity == capacity_of(volume@.len() as int, pagebuffer@.len() as int),
            old(self).client is None,
            old(self).buffer is None,
            old(self).length == 0,
            old(self).state == State::Idle,
        ensures
            final(self)@.wf(),
            final(self)@ == LogView::<&'a C>::recovered(
                old(self).order,
                volume@,
                old(self).volume_base as int,
                pagebuffer@,
                old(self).circular,
            ),
    {
        let ghost size = pagebuffer@.len() as int;
        let page_size: usize = self.page_size;
        proof {
            let witness = choose|cookie: int| #[trigger]
                is_newest_page(self.order, volume@, size, cookie) && cookie + 2 * size
                    + PAGE_HEADER_SIZE <= usize::MAX;
            assert(page_recorded(self.order, volume@, size, witness));
        }

        // Read page headers, get oldest and newest cookies.
        let (oldest_cookie, newest_cookie) = scan_pages(self.order, volume, page_size).unwrap();
        let newest_offset: usize = newest_cookie % self.volume_len;
        proof {
            lemma_extremes(self.order, volume@, size, oldest_cookie as int, newest_cookie as int);
            LogView::<&'a C>::lemma_recovered_wf(
                self.order,
                volume@,
                self.volume_base as int,
                pagebuffer@,
                self.circular,
                oldest_cookie as int,
                newest_cookie as int,
            );
        }

        // Walk entries in last (newest) page to calculate last page length.
        let last_page_len: usize = walk_page(self.order, volume, page_size, newest_offset);

        // Set cookies.
        self.oldest_cookie = oldest_cookie + PAGE_HEADER_SIZE;
        self.read_cookie = oldest_cookie + PAGE_HEADER_SIZE;
        self.append_cookie = newest_cookie + last_page_len;

        // Populate page buffer.
        let mut page = pagebuffer;
        if last_page_len == page_size && !self.is_at_end() {
            // Last page full, reset pagebuffer for next page.
            self.reset_pagebuffer(&mut page);
        } else {
            // Copy last page into pagebuffer.
            copy_into(
                &mut page,
                0,
                slice_subrange(volume, newest_offset, newest_offset + page_size),
            );
            assert(page@ =~= page_at(volume@, size, newest_cookie as int));
        }
        self.pagebuffer = Some(page);
    }

    /// Returns the page number of the page containing a cookie.
    fn page_number(&self, cookie: usize) -> (number: usize)
        requires
            self@.wf(),
        ensures
            number == self@.page_number(cookie as int),
    {
        proof {
            vstd::arithmetic::div_mod::lemma_mod_bound(cookie as int, self.volume_len as int);
        }
        (self.volume_base + cookie % self.volume_len) / self.page_size
    }

    /// Whether or not records may have been previously lost.
    fn records_lost(&self) -> (lost: bool)
        ensures
            lost == self@.records_lost(),
    {
        self.oldest_cookie != PAGE_HEADER_SIZE
    }

    /// Cookie of the first byte of the page that is being filled.
    fn last_start(&self) -> (start: usize)
        requires
            self@.wf(),
        ensures
            start == self@.last_start(),
            start % self.page_size == 0,
            start <= self.append_cookie - 1 < start + self.page_size,
    {
        // Subtract 1 from append cookie to get cookie of last byte written. This is needed
        // because the pagebuffer always contains the last written byte, but not necessarily the
        // append cookie (i.e. the pagebuffer isn't flushed yet when
        // append_cookie % page_size == 0).
        let last: usize = self.append_cookie - 1;
        proof {
            lemma_page_start(self.page_size as int, last as int);
        }
        last - last % self.page_size
    }

    /// Gets the buffer containing the given cookie.
    fn get_buffer<'b>(&self, cookie: usize, volume: &'b [u8], pagebuffer: &'b [u8]) -> (buffer:
        &'b [u8])
        requires
            self@.wf(),
            volume@.len() == self@.volume_len,
            self@.page == Some(pagebuffer@),
        ensures
            buffer@ == self@.buffer_at(volume@, cookie as int),
            buffer@.len() >= self@.page_size,
    {
        let start: usize = self.last_start();
        if cookie >= start && cookie - start < self.page_size {
            pagebuffer
        } else {
            volume
        }
    }

    /// Gets a `num_bytes` long slice of bytes starting from a cookie.
    fn get_bytes<'b>(
        &self,
        cookie: usize,
        num_bytes: usize,
        volume: &'b [u8],
        pagebuffer: &'b [u8],
    ) -> (bytes: &'b [u8])
        requires
            self@.wf(),
            volume@.len() == self@.volume_len,
            self@.page == Some(pagebuffer@),
            self@.bytes_in_bounds(volume@, cookie as int, num_bytes as int),
        ensures
            bytes@ == self@.bytes_at(volume@, cookie as int, num_bytes as int),
    {
        let buffer = self.get_buffer(cookie, volume, pagebuffer);
        let len: usize = buffer.len();
        proof {
            vstd::arithmetic::div_mod::lemma_mod_bound(cookie as int, buffer@.len() as int);
        }
        let offset: usize = cookie % len;
        slice_subrange(buffer, offset, offset + num_bytes)
    }

    /// Gets the word that starts at a cookie.
    fn get_word(&self, cookie: usize, volume: &[u8], pagebuffer: &[u8]) -> (word: usize)
        requires
            self@.wf(),
            volume@.len() == self@.volume_len,
            self@.page == Some(pagebuffer@),
            self@.bytes_in_bounds(volume@, cookie as int, WORD_SIZE as int),
        ensures
            word == self@.entry_len(volume@, cookie as int),
    {
        let bytes = self.get_bytes(cookie, WORD_SIZE, volume, pagebuffer);
        assert(bytes@.subrange(0, WORD_SIZE as int) =~= bytes@);
        read_word(self.order, bytes, 0)
    }

    /// Gets the byte pointed to by a cookie.
    fn get_byte(&self, cookie: usize, volume: &[u8], pagebuffer: &[u8]) -> (byte: u8)
        requires
            self@.wf(),
            volume@.len() == self@.volume_len,
            self@.page == Some(pagebuffer@),
        ensures
            byte == self@.byte_at(volume@, cookie as int),
    {
        let buffer = self.get_buffer(cookie, volume, pagebuffer);
        proof {
            vstd::arithmetic::div_mod::lemma_mod_bound(cookie as int, buffer@.len() as int);
        }
        buffer[cookie % buffer.len()]
    }

    /// Whether what is left of a page from a cookie on is padding.
    fn is_padding(&self, cookie: usize, volume: &[u8], pagebuffer: &[u8]) -> (padding: bool)
        requires
            self@.wf(),
            volume@.len() == self@.volume_len,
            self@.page == Some(pagebuffer@),
        ensures
            padding == self@.padding_at(volume@, cookie as int),
    {
        if self.get_byte(cookie, volume, pagebuffer) != PAD_BYTE {
            return false;
        }
        // The header of an entry can start like padding.
        let rest: usize = self.page_size - cookie % self.page_size;
        if rest < ENTRY_HEADER_SIZE {
            return true;
        }
        proof {
            self@.lemma_bytes_at(volume@, cookie as int, WORD_SIZE as int);
        }
        let length: usize = self.get_word(cookie, volume, pagebuffer);
        length == 0 || self.page_size - PAGE_HEADER_SIZE < ENTRY_HEADER_SIZE || length
            > self.page_size - PAGE_HEADER_SIZE - ENTRY_HEADER_SIZE || length > rest
            - ENTRY_HEADER_SIZE
    }

    /// Returns the cookie of the next entry to read or an error if no entry could be retrieved.
    /// ReturnCodes used:
    ///     * FAIL: reached end of log, nothing to read.
    ///     * ERESERVE: internal pagebuffer missing.
    fn get_next_entry(&self, volume: &[u8]) -> (result: Result<usize, ReturnCode>)
        requires
            self@.wf(),
            volume@.len() == self@.volume_len,
            self@.read <= self@.append,
        ensures
            match result {
                Ok(entry) => self@.page is Some && entry == self@.entry_after(
                    volume@,
                    self@.read,
                ) < self@.append,
                Err(ReturnCode::ERESERVE) => self@.page is None,
                Err(ReturnCode::FAIL) => self@.page is Some && self@.entry_after(
                    volume@,
                    self@.read,
                ) >= self@.append,
                Err(_) => false,
            },
    {
        match &self.pagebuffer {
            None => Err(ReturnCode::ERESERVE),
            Some(pagebuffer) => {
                let start: usize = self.last_start();
                let mut entry_cookie: usize = self.read_cookie;
                proof {
                    let size = self.page_size as int;
                    lemma_page_start(size, entry_cookie as int);
                    lemma_boundary_order(
                        size,
                        entry_cookie - entry_cookie as int % size,
                        start as int,
                    );
                }

                // Skip page header if at start of page or skip padded bytes if at end of page.
                if entry_cookie % self.page_size == 0 {
                    entry_cookie = entry_cookie + PAGE_HEADER_SIZE;
                } else if self.is_padding(entry_cookie, volume, pagebuffer.as_slice()) {
                    entry_cookie = entry_cookie + (self.page_size - entry_cookie % self.page_size)
                        + PAGE_HEADER_SIZE;
                }

                // Check if end of log was reached and return.
                if entry_cookie >= self.append_cookie {
                    Err(ReturnCode::FAIL)
                } else {
                    Ok(entry_cookie)
                }
            },
        }
    }

    /// Reads and returns the contents of an entry header at the given cookie. Fails if the header
    /// data is invalid.
    /// ReturnCodes used:
    ///     * FAIL: entry header invalid.
    ///     * ERESERVE: internal pagebuffer missing.
    fn read_entry_header(&self, entry_cookie: usize, volume: &[u8]) -> (result: Result<
        usize,
        ReturnCode,
    >)
        requires
            self@.wf(),
            volume@.len() == self@.volume_len,
            self@.page is Some ==> self@.bytes_in_bounds(
                volume@,
                entry_cookie as int,
                WORD_SIZE as int,
            ),
        ensures
            match result {
                Ok(length) => {
                    &&& self@.page is Some
                    &&& length == self@.entry_len(volume@, entry_cookie as int)
                    &&& self@.valid_len(length as int)
                },
                Err(ReturnCode::ERESERVE) => self@.page is None,
                Err(ReturnCode::FAIL) => self@.page is Some && !self@.valid_len(
                    self@.entry_len(volume@, entry_cookie as int),
                ),
                Err(_) => false,
            },
    {
        match &self.pagebuffer {
            None => Err(ReturnCode::ERESERVE),
            Some(pagebuffer) => {
                // Get length.
                let length: usize = self.get_word(entry_cookie, volume, pagebuffer.as_slice());

                // Return length of next entry.
                if length == 0 || self.page_size - PAGE_HEADER_SIZE < ENTRY_HEADER_SIZE || length
                    > self.page_size - PAGE_HEADER_SIZE - ENTRY_HEADER_SIZE {
                    Err(ReturnCode::FAIL)
                } else {
                    Ok(length)
                }
            },
        }
    }

    /// Reads the next entry into a buffer. Returns the number of bytes read on success, or an
    /// error otherwise.
    /// ReturnCodes used:
    ///     * FAIL: reached end of log, nothing to read.
    ///     * ERESERVE: internal pagebuffer missing, log is presumably broken.
    ///     * ESIZE: buffer not large enough to contain entry being read.
    fn read_entry(&mut self, volume: &[u8], buffer: &mut Vec<u8>, length: usize) -> (result: Result<
        usize,
        ReturnCode,
    >)
        requires
            old(self).inv(),
            old(self)@.state == State::Idle,
            old(self)@.client is Some,
            old(self)@.read <= old(self)@.append,
            old(self)@.read_in_bounds(volume@, length as int, length as int),
            length <= old(buffer)@.len(),
        ensures
            final(self).inv(),
            match result {
                Ok(bytes_read) => {
                    let entry = old(self)@.entry_after(volume@, old(self)@.read);
                    &&& old(self)@.read_error(volume@, length as int, length as int) is None
                    &&& bytes_read == old(self)@.entry_len(volume@, entry)
                    &&& final(buffer)@ == overwrite(
                        old(buffer)@,
                        0,
                        old(self)@.entry_data(volume@, entry, bytes_read as int),
                    )
                    &&& final(self)@ == old(self)@.after_read(volume@)
                },
                Err(code) => {
                    &&& old(self)@.read_error(volume@, length as int, length as int) == Some(code)
                    &&& final(buffer)@ == old(buffer)@
                    &&& final(self)@ == old(self)@
                },
            },
    {
        // Get next entry to read. Immediately returns FAIL in event of failure.
        let entry_cookie: usize = match self.get_next_entry(volume) {
            Ok(entry_cookie) => entry_cookie,
            Err(code) => {
                return Err(code);
            },
        };
        let entry_length: usize = match self.read_entry_header(entry_cookie, volume) {
            Ok(entry_length) => entry_length,
            Err(code) => {
                return Err(code);
            },
        };

        // Ensure buffer is large enough to hold log entry.
        if entry_length > length {
            return Err(ReturnCode::ESIZE);
        }
        proof {
            self@.lemma_last_start();
        }
        let data_cookie: usize = entry_cookie + ENTRY_HEADER_SIZE;

        // Copy data into client buffer.
        let pagebuffer = self.pagebuffer.as_ref().unwrap();
        let data = self.get_bytes(data_cookie, entry_length, volume, pagebuffer.as_slice());
        copy_into(buffer, 0, data);

        // Update read cookie and return number of bytes read.
        self.read_cookie = data_cookie + entry_length;
        Ok(entry_length)
    }

    /// Writes an entry header at the given offset within a page.
    fn write_entry_header(&self, length: usize, offset: usize, pagebuffer: &mut Vec<u8>)
        requires
            offset + ENTRY_HEADER_SIZE <= old(pagebuffer)@.len(),
        ensures
            final(pagebuffer)@ == overwrite(
                old(pagebuffer)@,
                offset as int,
                word_bytes(self.order, length as int),
            ),
    {
        let header = write_word(self.order, length);
        copy_into(pagebuffer, offset, header.as_slice());
    }

    /// Appends data from a buffer onto the end of the log. Requires that there is enough space
    /// remaining in the page for the entry (including metadata).
    fn append_entry(&mut self, buffer: Vec<u8>, length: usize, mut pagebuffer: Vec<u8>) -> (done:
        AppendDone)
        requires
            volume_ok(old(self).volume_len as int, old(self).page_size as int),
            pagebuffer@.len() == old(self)@.page_size,
            length <= buffer@.len(),
            old(self)@.fits_rest(length as int),
            old(self).append_cookie + ENTRY_HEADER_SIZE + length <= usize::MAX,
        ensures
            done.buffer == buffer,
            done.length == length,
            done.records_lost == old(self)@.records_lost(),
            done.error == ReturnCode::SUCCESS,
            final(self)@ == (LogView {
                state: State::Idle,
                ..(LogView { page: Some(pagebuffer@), ..old(self)@ }).with_entry(
                    buffer@.subrange(0, length as int),
                )
            }),
    {
        // Offset within page to append to.
        let append_cookie: usize = self.append_cookie;
        let page_offset: usize = append_cookie % self.page_size;
        let ghost page = pagebuffer@;
        let ghost data = buffer@.subrange(0, length as int);

        // Write entry header to pagebuffer.
        self.write_entry_header(length, page_offset, &mut pagebuffer);
        let ghost header = word_bytes(self.order, length as int);
        assert(header.len() == ENTRY_HEADER_SIZE) by {
            lemma_word_bytes_len(self.order, length as int);
        }

        // Copy data to pagebuffer.
        copy_into(
            &mut pagebuffer,
            page_offset + ENTRY_HEADER_SIZE,
            slice_subrange(buffer.as_slice(), 0, length),
        );
        assert(pagebuffer@ =~= overwrite(page, page_offset as int, header + data));

        // Increment append offset by number of bytes appended.
        self.append_cookie = append_cookie + ENTRY_HEADER_SIZE + length;

        // Replace pagebuffer and callback client.
        self.pagebuffer = Some(pagebuffer);
        self.state = State::Idle;
        AppendDone {
            buffer,
            length,
            records_lost: self.records_lost(),
            error: ReturnCode::SUCCESS,
        }
    }

    /// Starts to flush the pagebuffer to flash, for the operation `state`.
    fn flush_pagebuffer(&mut self, state: State, mut pagebuffer: Vec<u8>) -> (write: PageWrite)
        requires
            old(self)@.wf(),
            pagebuffer@.len() == old(self)@.page_size,
        ensures
            write.page_number == old(self)@.page_number(old(self)@.last_start()),
            write.page@ == padded(pagebuffer@, old(self)@.append - old(self)@.last_start()),
            final(self)@ == old(self)@.flushed(state),
    {
        let start: usize = self.last_start();

        // Pad end of page.
        let ghost page = pagebuffer@;
        let used: usize = self.append_cookie - start;
        let mut offset: usize = used;
        assert(pagebuffer@ =~= Seq::new(
            page.len(),
            |i: int|
                if used <= i < offset {
                    PAD_BYTE
                } else {
                    page[i]
                },
        ));
        while offset < self.page_size
            invariant
                used <= offset <= self.page_size,
                page.len() == self.page_size,
                pagebuffer@ == Seq::new(
                    page.len(),
                    |i: int|
                        if used <= i < offset {
                            PAD_BYTE
                        } else {
                            page[i]
                        },
                ),
            decreases self.page_size - offset,
        {
            pagebuffer.set(offset, PAD_BYTE);
            offset = offset + 1;
            assert(pagebuffer@ =~= Seq::new(
                page.len(),
                |i: int|
                    if used <= i < offset {
                        PAD_BYTE
                    } else {
                        page[i]
                    },
            ));
        }
        assert(pagebuffer@ =~= padded(page, used as int));

        // Get flash page to write to.
        let page_number: usize = self.page_number(start);

        // Advance read and oldest cookies, if within flash page being overwritten.
        if start >= self.volume_len {
            let overwritten: usize = start - self.volume_len;
            let next: usize = overwritten + self.page_size + PAGE_HEADER_SIZE;
            if overwritten <= self.read_cookie && self.read_cookie - overwritten < self.page_size {
                // Move read cookie to start of next page.
                self.read_cookie = next;
            }
            if overwritten <= self.oldest_cookie && self.oldest_cookie - overwritten
                < self.page_size {
                self.oldest_cookie = next;
            }
        } else {
            proof {
                let size = self.page_size as int;
                lemma_page_offset_of_difference(self.volume_len as int, size, start as int);
                lemma_boundary_order(size, start - self.volume_len, -size);
            }
        }
        self.state = state;
        self.pagebuffer = None;
        PageWrite { page_number, page: pagebuffer }
    }

    /// Whether the end of a log that is not circular has been reached.
    fn is_at_end(&self) -> (end: bool)
        ensures
            end == self@.at_end(),
    {
        !self.circular && (self.append_cookie > self.volume_len || self.volume_len
            - self.append_cookie < self.page_size)
    }

    /// Resets the pagebuffer so that new data can be written. Note that this also increments the
    /// append cookie to point to the start of writable data in this new page. Does not reset
    /// pagebuffer or modify append cookie if the end of a non-circular log is reached.
    fn reset_pagebuffer(&mut self, pagebuffer: &mut Vec<u8>)
        requires
            volume_ok(old(self).volume_len as int, old(self).page_size as int),
            old(pagebuffer)@.len() == old(self)@.page_size,
            old(self).append_cookie + old(self).page_size + PAGE_HEADER_SIZE <= usize::MAX,
        ensures
            Some(final(pagebuffer)@) == old(self)@.reset(old(pagebuffer)@).page,
            final(self)@ == (LogView {
                page: old(self)@.page,
                ..old(self)@.reset(old(pagebuffer)@)
            }),
    {
        // Make sure end of non-circular log has not been reached.
        let mut append_cookie: usize = self.append_cookie;
        if self.is_at_end() {
            return ;
        }

        // Increment append cookie to point at start of next page.
        if append_cookie % self.page_size != 0 {
            append_cookie = append_cookie + (self.page_size - append_cookie % self.page_size);
        }

        // Write page header to pagebuffer.
        let cookie_bytes = write_word(self.order, append_cookie);
        copy_into(pagebuffer, 0, cookie_bytes.as_slice());

        // Note: this is the only place where the append cookie can cross page boundaries.
        self.append_cookie = append_cookie + PAGE_HEADER_SIZE;
    }

    /// Whether `num_bytes` bytes from a cookie on lie within the buffer that holds it.
    fn has_bytes(&self, cookie: usize, num_bytes: usize, volume: &[u8], pagebuffer: &[u8]) -> (ok:
        bool)
        requires
            self@.wf(),
            volume@.len() == self@.volume_len,
            self@.page == Some(pagebuffer@),
        ensures
            ok == self@.bytes_in_bounds(volume@, cookie as int, num_bytes as int),
    {
        let buffer = self.get_buffer(cookie, volume, pagebuffer);
        let len: usize = buffer.len();
        proof {
            vstd::arithmetic::div_mod::lemma_mod_bound(cookie as int, buffer@.len() as int);
        }
        num_bytes <= len - cookie % len
    }

    /// Whether the entry header and the entry that a read of up to `length` bytes into a buffer
    /// of `buffer_len` bytes comes to lie within the storage that holds them, unless the read is
    /// refused before. They always do unless the read cookie was set to a position that is not
    /// the start of an entry, or the volume holds no log.
    pub fn is_read_in_bounds(&self, volume: &[u8], buffer_len: usize, length: usize) -> (ok: bool)
        requires
            self.inv(),
            volume@.len() == self@.volume_len,
        ensures
            ok == self@.read_in_bounds(volume@, buffer_len as int, length as int),
    {
        if self.state != State::Idle || buffer_len < length || self.client.is_none()
            || self.pagebuffer.is_none() || self.read_cookie > self.append_cookie {
            return true;
        }
        let entry_cookie: usize = match self.get_next_entry(volume) {
            Ok(entry_cookie) => entry_cookie,
            Err(_) => {
                return true;
            },
        };
        proof {
            self@.lemma_last_start();
        }
        let pagebuffer = self.pagebuffer.as_ref().unwrap();
        if !self.has_bytes(entry_cookie, WORD_SIZE, volume, pagebuffer.as_slice()) {
            return false;
        }
        match self.read_entry_header(entry_cookie, volume) {
            Ok(entry_length) => entry_length > length || (entry_length <= usize::MAX
                - ENTRY_HEADER_SIZE - entry_cookie && self.has_bytes(
                entry_cookie + ENTRY_HEADER_SIZE,
                entry_length,
                volume,
                pagebuffer.as_slice(),
            )),
            Err(_) => true,
        }
    }

    /// Client that the log calls back.
    pub fn client(&self) -> (client: Option<&'a C>)
        ensures
            client == self@.client,
    {
        self.client
    }

    /// The operation that the log is busy with.
    pub fn state(&self) -> (state: State)
        ensures
            state == self@.state,
    {
        self.state
    }

    /// Whether a page of `page_len` bytes can be what the flash controller has dealt with for
    /// the log, and the cookies of a page that is then begun fit a word.
    pub fn is_write_expected(&self, page_len: usize, error: FlashError) -> (expected: bool)
        requires
            self.inv(),
        ensures
            expected == {
                &&& self@.state != State::Idle
                &&& page_len == self@.page_size
                &&& error == FlashError::CommandComplete && self@.begins_page() ==> self@.room()
            },
    {
        let begins: bool = error == FlashError::CommandComplete && (self.state == State::Write
            || self.append_cookie % self.page_size == 0);
        let start: usize = self.last_start();
        let room: bool = start <= usize::MAX - PAGE_HEADER_SIZE && self.page_size <= (usize::MAX
            - PAGE_HEADER_SIZE - start) / 2;
        self.state != State::Idle && page_len == self.page_size && (!begins || room)
    }

    /// Answers an append that is waiting for a page write, given whether the flash controller
    /// accepted the write. If it did not, the page is lost and the append is refused.
    pub fn append_started(&mut self, code: ReturnCode) -> (result: Result<
        (),
        (ReturnCode, Vec<u8>),
    >)
        requires
            old(self).inv(),
            old(self)@.state == State::Write,
        ensures
            final(self).inv(),
            match result {
                Ok(()) => code == ReturnCode::SUCCESS && final(self)@ == old(self)@,
                Err((error, buffer)) => {
                    &&& code != ReturnCode::SUCCESS
                    &&& error == code
                    &&& Some(buffer@) == old(self)@.pending
                    &&& final(self)@ == (LogView {
                        state: State::Idle,
                        pending: None,
                        ..old(self)@
                    })
                },
            },
    {
        if code == ReturnCode::SUCCESS {
            return Ok(());
        }
        self.state = State::Idle;
        Err((code, self.buffer.take().unwrap()))
    }

    /// Answers a sync, given whether the flash controller accepted the page write. If it did
    /// not, the page is lost.
    pub fn sync_started(&mut self, code: ReturnCode) -> (status: ReturnCode)
        requires
            old(self).inv(),
            old(self)@.state == State::Sync,
        ensures
            final(self).inv(),
            status == code,
            final(self)@ == (if code == ReturnCode::SUCCESS {
                old(self)@
            } else {
                LogView { state: State::Idle, ..old(self)@ }
            }),
    {
        if code != ReturnCode::SUCCESS {
            self.state = State::Idle;
        }
        code
    }

    /// Takes the page back from the flash controller once its write has completed.
    pub fn write_complete(&mut self, pagebuffer: Vec<u8>, error: FlashError) -> (step: WriteStep)
        requires
            old(self).inv(),
            old(self)@.state != State::Idle,
            pagebuffer@.len() == old(self)@.page_size,
            error == FlashError::CommandComplete && old(self)@.begins_page() ==> old(self)@.room(),
        ensures
            final(self).inv(),
            match (error, old(self)@.state) {
                (FlashError::CommandComplete, State::Write) => {
                    &&& step matches WriteStep::Append(done)
                    &&& Some(done.buffer@) == old(self)@.pending
                    &&& done.length == old(self)@.pending_len
                    &&& done.records_lost == old(self)@.records_lost()
                    &&& done.error == ReturnCode::SUCCESS
                    &&& final(self)@ == old(self)@.after_append_write(pagebuffer@)
                },
                (FlashError::FlashError, State::Write) => {
                    &&& step matches WriteStep::Append(done)
                    &&& Some(done.buffer@) == old(self)@.pending
                    &&& done.length == 0
                    &&& done.records_lost == false
                    &&& done.error == ReturnCode::FAIL
                    &&& final(self)@ == old(self)@.after_failed_write(pagebuffer@)
                },
                (FlashError::CommandComplete, _) => {
                    &&& step == WriteStep::Sync(ReturnCode::SUCCESS)
                    &&& final(self)@ == old(self)@.after_sync_write(pagebuffer@)
                },
                (FlashError::FlashError, _) => {
                    &&& step == WriteStep::Sync(ReturnCode::FAIL)
                    &&& final(self)@ == old(self)@.after_failed_write(pagebuffer@)
                },
            },
    {
        proof {
            self@.lemma_last_start();
            if error == FlashError::CommandComplete {
                if self@.state == State::Write {
                    self@.lemma_after_append_write_wf(pagebuffer@);
                } else {
                    self@.lemma_after_sync_write_wf(pagebuffer@);
                }
            }
        }
        let mut page = pagebuffer;
        match error {
            FlashError::CommandComplete => {
                match self.buffer.take() {
                    Some(buffer) => {
                        // Reset pagebuffer and finish writing on the new page.
                        self.reset_pagebuffer(&mut page);
                        WriteStep::Append(self.append_entry(buffer, self.length, page))
                    },
                    None => {
                        // Reset pagebuffer if synced page was full.
                        if self.append_cookie % self.page_size == 0 {
                            self.reset_pagebuffer(&mut page);
                        }
                        self.pagebuffer = Some(page);
                        self.state = State::Idle;
                        WriteStep::Sync(ReturnCode::SUCCESS)
                    },
                }
            },
            FlashError::FlashError => {
                // Make client callback with FAIL return code.
                self.pagebuffer = Some(page);
                self.state = State::Idle;
                match self.buffer.take() {
                    Some(buffer) => WriteStep::Append(
                        AppendDone {
                            buffer,
                            length: 0,
                            records_lost: false,
                            error: ReturnCode::FAIL,
                        },
                    ),
                    None => WriteStep::Sync(ReturnCode::FAIL),
                }
            },
        }
    }

    /// Goes on with an erase once the flash controller has erased the oldest page.
    pub fn erase_complete(&mut self, error: FlashError) -> (step: EraseStep)
        requires
            old(self).inv(),
            error == FlashError::CommandComplete,
        ensures
            final(self).inv(),
            final(self)@ == old(self)@.after_erase(),
            step == EraseStep::Done <==> old(self)@.one_page_left(),
            step matches EraseStep::Next(page_number) ==> page_number
                == final(self)@.page_number(final(self)@.oldest),
    {
        proof {
            self@.lemma_after_erase_wf();
            lemma_page_start(self@.page_size, self@.append);
        }
        let append_start: usize = self.append_cookie - self.append_cookie % self.page_size;
        if self.oldest_cookie - PAGE_HEADER_SIZE == append_start {
            // Erased all pages. Reset cookies and page header, and callback client.
            if let Some(page) = self.pagebuffer.take() {
                let mut page = page;
                let cookie_bytes = write_word(self.order, 0);
                copy_into(&mut page, 0, cookie_bytes.as_slice());
                self.pagebuffer = Some(page);
            }
            self.read_cookie = PAGE_HEADER_SIZE;
            self.append_cookie = PAGE_HEADER_SIZE;
            self.oldest_cookie = PAGE_HEADER_SIZE;
            EraseStep::Done
        } else {
            // Not done, erase next page.
            self.oldest_cookie = self.oldest_cookie + self.page_size;
            EraseStep::Next(self.page_number(self.oldest_cookie))
        }
    }

    /// Takes note of whether the flash controller accepted to erase a further page. If it was
    /// busy the erase is given up, the read cookie leaves the pages that are erased, and the
    /// client's `erase_done` is to be called with the code that is handed back. The page that is
    /// being filled stays in the log.
    pub fn erase_started(&mut self, code: ReturnCode) -> (done: Option<ReturnCode>)
        requires
            old(self).inv(),
        ensures
            final(self).inv(),
            done == (if code == ReturnCode::EBUSY {
                Some(ReturnCode::EBUSY)
            } else {
                None
            }),
            final(self)@ == (if code == ReturnCode::EBUSY {
                old(self)@.given_up_erase()
            } else {
                old(self)@
            }),
    {
        // Abort and alert client if flash driver is busy.
        if code == ReturnCode::EBUSY {
            proof {
                self@.lemma_given_up_erase_wf();
            }
            let last: usize = self.last_start() + PAGE_HEADER_SIZE;
            if self.oldest_cookie > last {
                self.oldest_cookie = last;
            }
            if self.read_cookie < self.oldest_cookie {
                self.read_cookie = self.oldest_cookie;
            }
            Some(ReturnCode::EBUSY)
        } else {
            None
        }
    }
}

impl<'a, C: LogReadClient + LogWriteClient> HasClient<'a, C> for LogStorage<'a, C> {
    open spec fn client_view(&self) -> Option<&'a C> {
        self@.client
    }

    fn set_client(&mut self, client: &'a C)
        ensures
            final(self)@ == (LogView { client: Some(client), ..old(self)@ }),
            old(self).inv() ==> final(self).inv(),
    {
        self.client = Some(client);
    }
}

impl<'a, C: LogReadClient + LogWriteClient> LogRead for LogStorage<'a, C> {
    open spec fn read_inv(&self) -> bool {
        self.inv()
    }

    open spec fn read_in_bounds(
        &self,
        volume: Seq<u8>,
        buffer_len: nat,
        length: StorageLen,
    ) -> bool {
        self@.read_in_bounds(volume, buffer_len as int, length as int)
    }

    /// Read a log entry into a buffer, if there are any remaining. Updates the read cookie to
    /// point at the next entry when done.
    /// Returns:
    ///     * Ok with the arguments of the client's `read_done` on success.
    ///     * Err((ReturnCode, buffer)) on failure.
    /// ReturnCodes used:
    ///     * FAIL: reached end of log, nothing to read.
    ///     * EBUSY: log busy with another operation, try again later.
    ///     * EINVAL: provided client buffer is too small.
    ///     * ECANCEL: invalid internal state, read cookie was reset to SeekBeginning.
    ///     * ERESERVE: client or internal pagebuffer missing.
    ///     * ESIZE: buffer not large enough to contain entry being read.
    /// ReturnCodes used in read_done callback:
    ///     * SUCCESS: read succeeded.
    fn read(&mut self, volume: &[u8], buffer: Vec<u8>, length: usize) -> (result: Result<
        ReadDone,
        (ReturnCode, Vec<u8>),
    >)
        ensures
            final(self).inv(),
            match result {
                Ok(done) => {
                    let entry = old(self)@.entry_after(volume@, old(self)@.read);
                    &&& old(self)@.read_error(volume@, buffer@.len() as int, length as int) is None
                    &&& done.length == old(self)@.entry_len(volume@, entry)
                    &&& done.buffer@ == overwrite(
                        buffer@,
                        0,
                        old(self)@.entry_data(volume@, entry, done.length as int),
                    )
                    &&& done.error == ReturnCode::SUCCESS
                    &&& final(self)@ == old(self)@.after_read(volume@)
                },
                Err((code, returned)) => {
                    &&& old(self)@.read_error(volume@, buffer@.len() as int, length as int) == Some(
                        code,
                    )
                    &&& returned@ == buffer@
                    &&& final(self)@ == (if code == ReturnCode::ECANCEL {
                        old(self)@.rewound()
                    } else {
                        old(self)@
                    })
                },
            },
    {
        // Check for failure cases.
        if self.state != State::Idle {
            // Log busy, try reading again later.
            return Err((ReturnCode::EBUSY, buffer));
        } else if buffer.len() < length {
            // Client buffer too small for provided length.
            return Err((ReturnCode::EINVAL, buffer));
        } else if self.read_cookie > self.append_cookie {
            // Read cookie beyond append cookie, must be invalid.
            self.read_cookie = self.oldest_cookie;
            return Err((ReturnCode::ECANCEL, buffer));
        } else if self.client.is_none() {
            // No client for callback.
            return Err((ReturnCode::ERESERVE, buffer));
        }
        // Try reading next entry.

        let mut target = buffer;
        match self.read_entry(volume, &mut target, length) {
            Ok(bytes_read) => Ok(
                ReadDone { buffer: target, length: bytes_read, error: ReturnCode::SUCCESS },
            ),
            Err(return_code) => Err((return_code, target)),
        }
    }

    /// Get cookie representing current read offset.
    fn current_read_offset(&self) -> (cookie: StorageCookie)
        ensures
            cookie matches StorageCookie::Cookie(at) && at == self@.read,
    {
        StorageCookie::Cookie(self.read_cookie)
    }

    /// Seek to a new read cookie. The client's `seek_done` is to be called on success.
    /// ReturnCodes used:
    ///     * SUCCESS: seek succeeded.
    ///     * EINVAL: cookie not valid seek position within current log.
    ///     * ERESERVE: no log client set.
    fn seek(&mut self, cookie: StorageCookie) -> (status: ReturnCode)
        ensures
            final(self).inv(),
            (final(self)@, status) == old(self)@.sought(cookie),
            match cookie {
                StorageCookie::SeekBeginning => {
                    &&& final(self)@ == old(self)@.rewound()
                    &&& status == (if old(self)@.client is Some {
                        ReturnCode::SUCCESS
                    } else {
                        ReturnCode::ERESERVE
                    })
                },
                StorageCookie::Cookie(at) => {
                    if old(self)@.oldest <= at <= old(self)@.append {
                        &&& final(self)@ == (LogView { read: at as int, ..old(self)@ })
                        &&& status == (if old(self)@.client is Some {
                            ReturnCode::SUCCESS
                        } else {
                            ReturnCode::ERESERVE
                        })
                    } else {
                        &&& final(self)@ == old(self)@
                        &&& status == ReturnCode::EINVAL
                    }
                },
            },
    {
        match cookie {
            StorageCookie::SeekBeginning => {
                self.read_cookie = self.oldest_cookie;
            },
            StorageCookie::Cookie(at) => {
                if at <= self.append_cookie && at >= self.oldest_cookie {
                    self.read_cookie = at;
                } else {
                    return ReturnCode::EINVAL;
                }
            },
        }

        // Make client callback on success.
        if self.client.is_none() {
            ReturnCode::ERESERVE
        } else {
            ReturnCode::SUCCESS
        }
    }

    /// Get approximate log capacity in bytes.
    fn get_size(&self) -> (size: StorageLen)
        ensures
            size == capacity_of(self@.volume_len, self@.page_size),
    {
        self.capacity
    }
}

impl<'a, C: LogReadClient + LogWriteClient> LogWrite for LogStorage<'a, C> {
    open spec fn write_inv(&self) -> bool {
        self.inv()
    }

    /// Appends an entry onto the end of the log. Entry must fit within a page (including log
    /// metadata).
    /// Returns:
    ///     * Ok with what is to be done next on success.
    ///     * Err((ReturnCode, buffer)) on failure.
    /// ReturnCodes used:
    ///     * FAIL: end of non-circular log reached, cannot append any more entries.
    ///     * EBUSY: log busy with another operation, try again later.
    ///     * EINVAL: provided client buffer is too small.
    ///     * ERESERVE: client or internal pagebuffer missing.
    ///     * ESIZE: entry too large to append to log.
    /// ReturnCodes used in append_done callback:
    ///     * SUCCESS: append succeeded.
    ///     * FAIL: write failed due to flash error.
    fn append(&mut self, buffer: Vec<u8>, length: usize) -> (result: Result<
        AppendStep,
        (ReturnCode, Vec<u8>),
    >)
        ensures
            final(self).inv(),
            match result {
                Ok(AppendStep::Done(done)) => {
                    &&& old(self)@.append_error(buffer@.len() as int, length as int) is None
                    &&& old(self)@.fits_rest(length as int)
                    &&& done.buffer@ == buffer@
                    &&& done.length == length
                    &&& done.records_lost == old(self)@.records_lost()
                    &&& done.error == ReturnCode::SUCCESS
                    &&& final(self)@ == old(self)@.with_entry(buffer@.subrange(0, length as int))
                },
                Ok(AppendStep::Flush(write)) => {
                    &&& old(self)@.append_error(buffer@.len() as int, length as int) is None
                    &&& !old(self)@.fits_rest(length as int)
                    &&& write.page_number == old(self)@.page_number(old(self)@.last_start())
                    &&& write.page@ == old(self)@.page_to_flush()
                    &&& final(self)@ == (LogView {
                        pending: Some(buffer@),
                        pending_len: length as int,
                        ..old(self)@.flushed(State::Write)
                    })
                },
                Err((code, returned)) => {
                    &&& old(self)@.append_error(buffer@.len() as int, length as int) == Some(code)
                    &&& returned@ == buffer@
                    &&& final(self)@ == old(self)@
                },
            },
    {
        let buffer_len: usize = buffer.len();

        // Check for failure cases.
        if self.state != State::Idle {
            // Busy with another operation.
            return Err((ReturnCode::EBUSY, buffer));
        } else if length == 0 || buffer_len < length {
            // Invalid length provided.
            return Err((ReturnCode::EINVAL, buffer));
        } else if self.page_size - PAGE_HEADER_SIZE < ENTRY_HEADER_SIZE || length > self.page_size
            - PAGE_HEADER_SIZE - ENTRY_HEADER_SIZE {
            // Entry too big, won't fit within a single page.
            return Err((ReturnCode::ESIZE, buffer));
        }
        let entry_size: usize = length + ENTRY_HEADER_SIZE;
        if !self.circular && (self.append_cookie >= self.volume_len || entry_size >= self.volume_len
            - self.append_cookie) {
            // End of non-circular log has been reached.
            return Err((ReturnCode::FAIL, buffer));
        } else if self.client.is_none() {
            // No client for callback.
            return Err((ReturnCode::ERESERVE, buffer));
        }
        let ghost before = self@;
        let ghost data = buffer@.subrange(0, length as int);

        // Perform append.
        match self.pagebuffer.take() {
            Some(pagebuffer) => {
                // Check if previous page needs to be flushed and new entry will fit within space
                // remaining in current page.
                let used: usize = self.append_cookie % self.page_size;
                if used != 0 && entry_size <= self.page_size - used {
                    // Entry fits, append it.
                    proof {
                        before.lemma_with_entry_wf(data);
                    }
                    Ok(AppendStep::Done(self.append_entry(buffer, length, pagebuffer)))
                } else {
                    // Need to sync pagebuffer first, then append to new page.
                    proof {
                        before.lemma_flushed_for_append_wf(buffer@, length as int);
                    }
                    let write = self.flush_pagebuffer(State::Write, pagebuffer);
                    self.buffer = Some(buffer);
                    self.length = length;
                    Ok(AppendStep::Flush(write))
                }
            },
            None => Err((ReturnCode::ERESERVE, buffer)),
        }
    }

    /// Get cookie representing current append offset.
    fn current_append_offset(&self) -> (cookie: StorageCookie)
        ensures
            cookie matches StorageCookie::Cookie(at) && at == self@.append,
    {
        StorageCookie::Cookie(self.append_cookie)
    }

    /// Sync log to storage.
    /// ReturnCodes used:
    ///     * SUCCESS: flush started successfully.
    ///     * FAIL: flash driver not configured.
    ///     * EBUSY: flash driver busy.
    ///     * ERESERVE: no log client set.
    /// ReturnCodes used in sync_done callback:
    ///     * SUCCESS: append succeeded.
    ///     * FAIL: write failed due to flash error.
    fn sync(&mut self) -> (result: Result<PageWrite, ReturnCode>)
        ensures
            final(self).inv(),
            match result {
                Ok(write) => {
                    &&& old(self)@.client is Some
                    &&& old(self)@.page is Some
                    &&& write.page_number == old(self)@.page_number(old(self)@.last_start())
                    &&& write.page@ == old(self)@.page_to_flush()
                    &&& final(self)@ == old(self)@.flushed(State::Sync)
                },
                Err(code) => {
                    &&& old(self)@.client is None || old(self)@.page is None
                    &&& code == ReturnCode::ERESERVE
                    &&& final(self)@ == old(self)@
                },
            },
    {
        if self.client.is_none() {
            // No client for callback.
            return Err(ReturnCode::ERESERVE);
        }
        let ghost before = self@;
        match self.pagebuffer.take() {
            Some(pagebuffer) => {
                proof {
                    before.lemma_flushed_wf();
                }
                Ok(self.flush_pagebuffer(State::Sync, pagebuffer))
            },
            None => Err(ReturnCode::ERESERVE),
        }
    }

    /// Erase the entire log.
    fn erase(&self) -> (page_number: usize)
        ensures
            page_number == self@.page_number(self@.oldest),
    {
        // Uses oldest cookie to keep track of which page to erase. Thus, the oldest pages will be
        // erased first and the log will remain in a valid state even if it fails to be erased
        // completely.
        self.page_number(self.oldest_cookie)
    }
}

} // verus!
