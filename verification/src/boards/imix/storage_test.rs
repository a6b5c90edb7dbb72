//! Exercise of log storage on the imix board.
//!
//! Runs through a list of operations that read, write, sync and seek, and checks
//! what comes back. The exercise is driven by events: what the log answered, what it
//! called back with, and the alarm. It reacts with at most one request to the log, and
//! says whether to set the alarm.

use crate::capsules::log_layout::{ENTRY_HEADER_SIZE, PAGE_HEADER_SIZE};
use crate::capsules::storage_interface::{StorageCookie, StorageLen};
use crate::capsules::word::{be_bytes, same_bytes, write_u64_be, WORD_SIZE};
use crate::return_code::ReturnCode;
use vstd::prelude::*;

verus! {

/// Length of buffer to actually use.
pub const BUFFER_LEN: usize = 8;

/// Length of the buffer for an entry that is too large for a page.
pub const DUMMY_LEN: usize = 520;

/// Size of a flash page.
pub const PAGE_SIZE: usize = 512;

/// Time to wait in between storage operations.
pub const WAIT_MS: u32 = 2;

/// Magic number to write to log storage (+ offset).
pub const MAGIC: u64 = 0x0102030405060708;

/// Number of entries to write per write operation.
pub const ENTRIES_PER_WRITE: u64 = 120;

/// Highest number of entries that the exercise can count.
pub const VALUE_LIMIT: u64 = 0xFFFF_FFFF_FFFF_FFFF - MAGIC;

/// The exercise's current state.
#[derive(Clone, Copy, Debug, PartialEq, Eq, Structural)]
pub enum TestState {
    /// Running through test operations.
    Operate,
    /// Erasing log and restarting test.
    Erase,
    /// Cleaning up test after all operations complete.
    CleanUp,
}

/// A single operation within the exercise.
#[derive(Clone, Copy, Debug, PartialEq, Eq, Structural)]
pub enum TestOp {
    Read,
    BadRead,
    Write,
    BadWrite,
    Sync,
    Seek(StorageCookie),
    BadSeek(StorageCookie),
}

/// The request that the exercise made last.
#[derive(Clone, Copy, Debug, PartialEq, Eq, Structural)]
pub enum Step {
    Idle,
    Read,
    BadReadTooLong,
    BadReadTooShort,
    Write,
    BadWriteEmpty,
    BadWriteTooLong,
    BadWriteTooLarge,
    Sync,
    Seek,
    BadSeek,
    Erase,
    ErasedRead,
}

/// What the exercise found wrong.
#[derive(Clone, Copy, Debug, PartialEq, Eq, Structural)]
pub enum TestFailure {
    /// The buffer is not at hand.
    NoBuffer,
    /// A read failed with this code.
    ReadFailed(ReturnCode),
    /// A read gave this many bytes.
    WrongLength(usize),
    /// A read gave other bytes than were written.
    WrongValue,
    /// A read that must fail succeeded.
    ReadSucceeded,
    /// A request that must fail failed with this code.
    WrongError(ReturnCode),
    /// A write failed with this code.
    WriteFailed(ReturnCode),
    /// A write that must fail succeeded.
    WriteSucceeded,
    /// A sync failed with this code.
    SyncFailed(ReturnCode),
    /// A seek failed with this code.
    SeekFailed(ReturnCode),
    /// A seek that must fail succeeded.
    SeekSucceeded,
    /// A request that failed moved an offset of the log.
    OffsetMoved,
    /// An erase failed with this code.
    EraseFailed(ReturnCode),
    /// The erased log does not hold the erased value at this byte.
    NotErased(usize),
}

/// A request of the exercise.
#[derive(Debug)]
pub enum Request<B> {
    /// Read an entry from the log.
    Read { buffer: B, length: StorageLen },
    /// Append an entry to the log.
    Append { buffer: B, length: StorageLen },
    /// Sync the log.
    Sync,
    /// Seek to a new read position.
    Seek(StorageCookie),
    /// Erase the log.
    Erase,
    /// Report that the exercise succeeded.
    Succeed,
    /// Stop, and report what went wrong.
    Fail(TestFailure),
}

/// What the exercise does upon an event.
#[derive(Debug)]
pub struct Reaction<B> {
    /// Set the alarm, to go on later.
    pub set_alarm: bool,
    pub request: Option<Request<B>>,
}

/// Offsets of the log at the time of an event.
#[derive(Clone, Copy, Debug, PartialEq, Eq, Structural)]
pub struct Offsets {
    pub read: StorageCookie,
    pub append: StorageCookie,
}

/// A request, with the bytes of its buffer.
pub open spec fn request_view(request: Request<Vec<u8>>) -> Request<Seq<u8>> {
    match request {
        Request::Read { buffer, length } => Request::Read { buffer: buffer@, length },
        Request::Append { buffer, length } => Request::Append { buffer: buffer@, length },
        Request::Sync => Request::Sync,
        Request::Seek(cookie) => Request::Seek(cookie),
        Request::Erase => Request::Erase,
        Request::Succeed => Request::Succeed,
        Request::Fail(failure) => Request::Fail(failure),
    }
}

/// A reaction, with the bytes of its buffer.
pub open spec fn reaction_view(reaction: Reaction<Vec<u8>>) -> Reaction<Seq<u8>> {
    Reaction {
        set_alarm: reaction.set_alarm,
        request: match reaction.request {
            Some(request) => Some(request_view(request)),
            None => None,
        },
    }
}

/// Number of entries that come before a cookie, in a log that holds nothing but entries
/// of the exercise.
pub open spec fn test_value(cookie: StorageCookie) -> int {
    match cookie {
        StorageCookie::Cookie(at) => {
            let entry_size = ENTRY_HEADER_SIZE + BUFFER_LEN;
            let entries_per_page = (PAGE_SIZE - PAGE_HEADER_SIZE) / entry_size;
            let used = at as int % PAGE_SIZE as int - PAGE_HEADER_SIZE;
            (at as int / PAGE_SIZE as int) * entries_per_page + (if used >= 0 {
                used / entry_size
            } else {
                0
            })
        },
        StorageCookie::SeekBeginning => 0,
    }
}

pub fn cookie_to_test_value(cookie: StorageCookie) -> (value: u64)
    ensures
        value == test_value(cookie),
        value <= VALUE_LIMIT,
{
    match cookie {
        StorageCookie::Cookie(at) => {
            let pages_written: usize = at / PAGE_SIZE;
            let entry_size: usize = ENTRY_HEADER_SIZE + BUFFER_LEN;
            let entries_per_page: usize = (PAGE_SIZE - PAGE_HEADER_SIZE) / entry_size;
            let entries_last_page: usize = if at % PAGE_SIZE >= PAGE_HEADER_SIZE {
                (at % PAGE_SIZE - PAGE_HEADER_SIZE) / entry_size
            } else {
                0
            };
            proof {
                let space = PAGE_SIZE - PAGE_HEADER_SIZE;
                let used = at as int % PAGE_SIZE as int - PAGE_HEADER_SIZE;
                assert(entries_per_page <= 42 && entries_last_page <= 42) by {
                    vstd::arithmetic::div_mod::lemma_div_is_ordered_by_denominator(
                        space,
                        12,
                        entry_size as int,
                    );
                    if used >= 0 {
                        vstd::arithmetic::div_mod::lemma_div_is_ordered_by_denominator(
                            used,
                            12,
                            entry_size as int,
                        );
                    }
                }
                assert(pages_written * entries_per_page <= pages_written * 42)
                    by (nonlinear_arith)
                    requires
                        entries_per_page <= 42,
                ;
            }
            (pages_written * entries_per_page + entries_last_page) as u64
        },
        StorageCookie::SeekBeginning => 0,
    }
}

/// The cookie after an entry that is appended at `at`, to the page if it fits, or else to
/// the next page.
pub open spec fn next_entry_end(at: usize) -> int {
    let entry_size = ENTRY_HEADER_SIZE + BUFFER_LEN;
    let offset = at as int % PAGE_SIZE as int;
    if offset + entry_size <= PAGE_SIZE {
        at + entry_size
    } else {
        at - offset + PAGE_SIZE + PAGE_HEADER_SIZE + entry_size
    }
}

/// Each entry counts: in a log of entries of the exercise, the cookie after an entry has a
/// value one above the cookie before it, whether the entry fits the page or goes to the
/// next one.
pub proof fn law_test_value_counts(at: usize)
    requires
        at as int % PAGE_SIZE as int >= PAGE_HEADER_SIZE,
        (at as int % PAGE_SIZE as int - PAGE_HEADER_SIZE) % (ENTRY_HEADER_SIZE + BUFFER_LEN) == 0,
        at as int % PAGE_SIZE as int + ENTRY_HEADER_SIZE + BUFFER_LEN > PAGE_SIZE ==> next_entry_end(
            at,
        ) <= usize::MAX,
    ensures
        test_value(StorageCookie::Cookie(next_entry_end(at) as usize)) == test_value(
            StorageCookie::Cookie(at),
        ) + 1,
{
    let size = ENTRY_HEADER_SIZE + BUFFER_LEN;
    let space = PAGE_SIZE - PAGE_HEADER_SIZE;
    let pages = at as int / PAGE_SIZE as int;
    let offset = at as int % PAGE_SIZE as int;
    let count = (offset - PAGE_HEADER_SIZE) / size;
    vstd::arithmetic::div_mod::lemma_fundamental_div_mod(offset - PAGE_HEADER_SIZE, size);
    vstd::arithmetic::mul::lemma_mul_is_commutative(size, count);
    vstd::arithmetic::mul::lemma_mul_is_distributive_add_other_way(size, count, 1);
    if offset + size <= PAGE_SIZE {
        vstd::arithmetic::div_mod::lemma_fundamental_div_mod_converse(
            offset + size - PAGE_HEADER_SIZE,
            size,
            count + 1,
            0,
        );
        assert(offset + size < PAGE_SIZE) by {
            if WORD_SIZE == 4 {
                assert(size == 12);
            } else {
                assert(size == 16);
            }
        }
        // The cookie space is a whole number of pages.
        assert(at + size <= usize::MAX) by {
            assert(usize::MAX == 0xFFFF_FFFF || usize::MAX == 0xFFFF_FFFF_FFFF_FFFF);
        }
    } else {
        vstd::arithmetic::div_mod::lemma_fundamental_div_mod_converse(
            space,
            size,
            count,
            space - count * size,
        );
        vstd::arithmetic::div_mod::lemma_fundamental_div_mod_converse(size, size, 1, 0);
        vstd::arithmetic::mul::lemma_mul_is_distributive_add_other_way(space / size, pages, 1);
    }
}

/// The value of a cookie never falls as the cookie grows.
pub proof fn law_test_value_grows(at: usize, later: usize)
    requires
        at <= later,
    ensures
        test_value(StorageCookie::Cookie(at)) <= test_value(StorageCookie::Cookie(later)),
{
    let size = ENTRY_HEADER_SIZE + BUFFER_LEN;
    let space = PAGE_SIZE - PAGE_HEADER_SIZE;
    let per_page = space / size;
    let pages = at as int / PAGE_SIZE as int;
    let later_pages = later as int / PAGE_SIZE as int;
    let used = at as int % PAGE_SIZE as int - PAGE_HEADER_SIZE;
    let later_used = later as int % PAGE_SIZE as int - PAGE_HEADER_SIZE;
    vstd::arithmetic::div_mod::lemma_div_pos_is_pos(space, size);
    if used >= 0 {
        vstd::arithmetic::div_mod::lemma_div_pos_is_pos(used, size);
        vstd::arithmetic::div_mod::lemma_div_is_ordered(used, space, size);
    }
    if later_used >= 0 {
        vstd::arithmetic::div_mod::lemma_div_pos_is_pos(later_used, size);
    }
    if pages == later_pages {
        if used >= 0 {
            vstd::arithmetic::div_mod::lemma_div_is_ordered(used, later_used, size);
        }
    } else {
        vstd::arithmetic::mul::lemma_mul_inequality(pages + 1, later_pages, per_page);
        vstd::arithmetic::mul::lemma_mul_is_distributive_add_other_way(per_page, pages, 1);
    }
}

/// The alarm value at which to go on after a wait that starts at `now`, for an alarm that
/// ticks `frequency` times a second.
pub fn wait_tics(now: u32, frequency: u32) -> (tics: u32)
    requires
        WAIT_MS * frequency <= u32::MAX,
    ensures
        tics == (now + WAIT_MS * frequency / 1000) % 0x1_0000_0000,
        tics == (now + 2 * frequency / 1000) % 0x1_0000_0000,
{
    let interval: u32 = WAIT_MS * frequency / 1000;
    now.wrapping_add(interval)
}

/// State of the exercise.
#[verifier::ext_equal]
pub struct TestView {
    pub buffer: Option<Seq<u8>>,
    pub state: TestState,
    pub ops: Seq<TestOp>,
    pub op_index: int,
    pub op_start: bool,
    pub read_val: int,
    pub write_val: int,
    pub step: Step,
    pub original_offset: StorageCookie,
}

/// What an event leads to: the new state and the reaction.
pub type Turn = (TestView, Reaction<Seq<u8>>);

/// The bytes of the `value`-th entry.
pub open spec fn entry_bytes(value: int) -> Seq<u8> {
    be_bytes(MAGIC + value, 8)
}

/// A run of zero bytes.
pub open spec fn zero_bytes(n: nat) -> Seq<u8> {
    Seq::new(n, |i: int| 0u8)
}

impl TestView {
    /// What every event keeps.
    pub open spec fn wf(self) -> bool {
        &&& 0 <= self.op_index <= self.ops.len()
        &&& 0 <= self.read_val <= VALUE_LIMIT
        &&& 0 <= self.write_val <= VALUE_LIMIT
        &&& self.buffer matches Some(buffer) ==> buffer.len() == BUFFER_LEN
    }

    /// Make a request.
    pub open spec fn ask(self, step: Step, request: Request<Seq<u8>>) -> Turn {
        (TestView { step, ..self }, Reaction { set_alarm: false, request: Some(request) })
    }

    /// Stop because of a failure.
    pub open spec fn fail(self, failure: TestFailure) -> Turn {
        (self, Reaction { set_alarm: false, request: Some(Request::Fail(failure)) })
    }

    /// Go on when the alarm fires.
    pub open spec fn wait(self) -> Turn {
        (self, Reaction { set_alarm: true, request: None })
    }

    /// Do nothing.
    pub open spec fn stay(self) -> Turn {
        (self, Reaction { set_alarm: false, request: None })
    }

    /// Move on to the next operation.
    pub open spec fn next_op(self) -> TestView {
        TestView { op_index: self.op_index + 1, op_start: true, ..self }
    }

    /// The state with the buffer given back.
    pub open spec fn with_buffer(self, buffer: Seq<u8>) -> TestView {
        TestView { buffer: Some(buffer), ..self }
    }

    /// The state with the buffer handed out.
    pub open spec fn without_buffer(self) -> TestView {
        TestView { buffer: None, ..self }
    }

    /// Read an entry. The entry to expect is counted up to the log's read offset first, if
    /// an earlier operation has moved it.
    pub open spec fn read(self, offsets: Offsets) -> Turn {
        let log = TestView {
            read_val: if self.op_start && self.read_val < test_value(offsets.read) {
                test_value(offsets.read)
            } else {
                self.read_val
            },
            ..self
        };
        if self.buffer is Some {
            log.without_buffer().ask(
                Step::Read,
                Request::Read { buffer: zero_bytes(BUFFER_LEN as nat), length: BUFFER_LEN },
            )
        } else {
            log.fail(TestFailure::NoBuffer)
        }
    }

    /// Read more than the buffer holds, which must fail.
    pub open spec fn bad_read(self) -> Turn {
        match self.buffer {
            Some(buffer) => self.without_buffer().ask(
                Step::BadReadTooLong,
                Request::Read { buffer, length: (BUFFER_LEN + 1) as usize },
            ),
            None => self.fail(TestFailure::NoBuffer),
        }
    }

    /// Write an entry.
    pub open spec fn write(self) -> Turn {
        if self.buffer is Some {
            self.without_buffer().ask(
                Step::Write,
                Request::Append { buffer: entry_bytes(self.write_val), length: BUFFER_LEN },
            )
        } else {
            self.fail(TestFailure::NoBuffer)
        }
    }

    /// Write an entry of no bytes, which must fail.
    pub open spec fn bad_write(self, offsets: Offsets) -> Turn {
        let log = TestView { original_offset: offsets.append, ..self };
        match self.buffer {
            Some(buffer) => log.without_buffer().ask(
                Step::BadWriteEmpty,
                Request::Append { buffer, length: 0 },
            ),
            None => log.fail(TestFailure::NoBuffer),
        }
    }

    /// Seek to a position that is not in the log, which must fail.
    pub open spec fn bad_seek(self, cookie: StorageCookie, offsets: Offsets) -> Turn {
        (TestView { original_offset: offsets.read, ..self }).ask(
            Step::BadSeek,
            Request::Seek(cookie),
        )
    }

    /// Whether the last request is a write that must fail.
    pub open spec fn in_bad_write(self) -> bool {
        self.step == Step::BadWriteEmpty || self.step == Step::BadWriteTooLong || self.step
            == Step::BadWriteTooLarge
    }

    /// Whether the last request is a read that must fail.
    pub open spec fn in_bad_read(self) -> bool {
        self.step == Step::BadReadTooLong || self.step == Step::BadReadTooShort || self.step
            == Step::ErasedRead
    }

    /// Go on with the current operation.
    pub open spec fn run(self, offsets: Offsets) -> Turn {
        match self.state {
            TestState::Operate => {
                if self.op_index == self.ops.len() {
                    (TestView { state: TestState::CleanUp, ..self }).ask(
                        Step::Seek,
                        Request::Seek(StorageCookie::SeekBeginning),
                    )
                } else {
                    match self.ops[self.op_index] {
                        TestOp::Read => self.read(offsets),
                        TestOp::BadRead => self.bad_read(),
                        TestOp::Write => self.write(),
                        TestOp::BadWrite => self.bad_write(offsets),
                        TestOp::Sync => self.ask(Step::Sync, Request::Sync),
                        TestOp::Seek(cookie) => self.ask(Step::Seek, Request::Seek(cookie)),
                        TestOp::BadSeek(cookie) => self.bad_seek(cookie, offsets),
                    }
                }
            },
            TestState::Erase => self.ask(Step::Erase, Request::Erase),
            TestState::CleanUp => self.ask(self.step, Request::Succeed),
        }
    }

    /// The log refused a read.
    pub open spec fn read_refused(
        self,
        code: ReturnCode,
        buffer: Seq<u8>,
        offsets: Offsets,
    ) -> Turn {
        let log = self.with_buffer(buffer);
        match self.step {
            Step::BadReadTooLong => {
                if code == ReturnCode::EINVAL {
                    // Ensure failure if buffer is too small to hold entry.
                    self.without_buffer().ask(
                        Step::BadReadTooShort,
                        Request::Read { buffer, length: (BUFFER_LEN - 1) as usize },
                    )
                } else {
                    log.fail(TestFailure::WrongError(code))
                }
            },
            Step::BadReadTooShort => {
                let expected = if self.read_val == self.write_val {
                    ReturnCode::FAIL
                } else {
                    ReturnCode::ESIZE
                };
                if code == expected {
                    log.next_op().run(offsets)
                } else {
                    log.fail(TestFailure::WrongError(code))
                }
            },
            Step::ErasedRead => {
                let again = TestView { state: TestState::Operate, ..log };
                if code == ReturnCode::FAIL {
                    again.run(offsets)
                } else if code == ReturnCode::EBUSY {
                    let (next, reaction) = again.run(offsets);
                    (next, Reaction { set_alarm: true, ..reaction })
                } else {
                    log.fail(TestFailure::ReadFailed(code))
                }
            },
            _ => {
                if code == ReturnCode::FAIL {
                    // No more entries, start writing again.
                    log.next_op().run(offsets)
                } else if code == ReturnCode::EBUSY {
                    log.wait()
                } else {
                    log.fail(TestFailure::ReadFailed(code))
                }
            },
        }
    }

    /// The log has read an entry.
    pub open spec fn read_done(self, buffer: Seq<u8>, length: usize, error: ReturnCode) -> Turn {
        let log = self.with_buffer(buffer);
        if self.in_bad_read() {
            log.fail(TestFailure::ReadSucceeded)
        } else if error != ReturnCode::SUCCESS {
            log.fail(TestFailure::ReadFailed(error))
        } else if length != BUFFER_LEN {
            log.fail(TestFailure::WrongLength(length))
        } else if buffer != entry_bytes(self.read_val) {
            log.fail(TestFailure::WrongValue)
        } else {
            (TestView { read_val: self.read_val + 1, op_start: false, ..log }).wait()
        }
    }

    /// The log refused to append.
    pub open spec fn append_refused(
        self,
        code: ReturnCode,
        buffer: Seq<u8>,
        offsets: Offsets,
    ) -> Turn {
        let log = self.with_buffer(buffer);
        match self.step {
            Step::BadWriteEmpty => {
                if code == ReturnCode::EINVAL {
                    // Ensure failure if proposed entry length is greater than buffer length.
                    self.without_buffer().ask(
                        Step::BadWriteTooLong,
                        Request::Append { buffer, length: (BUFFER_LEN + 1) as usize },
                    )
                } else {
                    log.fail(TestFailure::WrongError(code))
                }
            },
            Step::BadWriteTooLong => {
                if code == ReturnCode::EINVAL {
                    // Ensure failure if entry is too large to fit within a single flash page.
                    log.ask(
                        Step::BadWriteTooLarge,
                        Request::Append {
                            buffer: zero_bytes(DUMMY_LEN as nat),
                            length: DUMMY_LEN,
                        },
                    )
                } else {
                    log.fail(TestFailure::WrongError(code))
                }
            },
            Step::BadWriteTooLarge => {
                if code != ReturnCode::ESIZE {
                    self.fail(TestFailure::WrongError(code))
                } else if offsets.append != self.original_offset {
                    // Make sure that append offset was not changed by failed writes.
                    self.fail(TestFailure::OffsetMoved)
                } else {
                    self.next_op().run(offsets)
                }
            },
            _ => {
                if code == ReturnCode::EBUSY {
                    log.wait()
                } else {
                    log.fail(TestFailure::WriteFailed(code))
                }
            },
        }
    }

    /// The log has appended an entry. It may have been asked to before the button was
    /// pressed.
    pub open spec fn append_done(self, buffer: Seq<u8>) -> Turn {
        if self.in_bad_write() {
            self.fail(TestFailure::WriteSucceeded)
        } else {
            let log = TestView { op_start: false, ..self.with_buffer(buffer) };
            // Stop writing after `ENTRIES_PER_WRITE` entries have been written.
            let next = if (self.write_val + 1) % (ENTRIES_PER_WRITE as int) == 0 {
                log.next_op()
            } else {
                log
            };
            (TestView { write_val: self.write_val + 1, ..next }).wait()
        }
    }

    /// The log has synced.
    pub open spec fn sync_done(self, error: ReturnCode, offsets: Offsets) -> Turn {
        if error == ReturnCode::SUCCESS {
            self.next_op().run(offsets)
        } else {
            self.fail(TestFailure::SyncFailed(error))
        }
    }

    /// The log refused to seek.
    pub open spec fn seek_refused(self, code: ReturnCode, offsets: Offsets) -> Turn {
        if self.step == Step::BadSeek {
            if code != ReturnCode::EINVAL {
                self.fail(TestFailure::WrongError(code))
            } else if offsets.read != self.original_offset {
                // Make sure that read offset was not changed by failed seek.
                self.fail(TestFailure::OffsetMoved)
            } else {
                self.next_op().run(offsets)
            }
        } else if self.state == TestState::CleanUp {
            self.stay()
        } else {
            self.fail(TestFailure::SeekFailed(code))
        }
    }

    /// The log has moved its read offset.
    pub open spec fn seek_done(self, error: ReturnCode, offsets: Offsets) -> Turn {
        let log = TestView { read_val: test_value(offsets.read), ..self };
        if error != ReturnCode::SUCCESS {
            self.fail(TestFailure::SeekFailed(error))
        } else if self.step == Step::BadSeek {
            log.fail(TestFailure::SeekSucceeded)
        } else if self.state == TestState::Operate {
            log.next_op().run(offsets)
        } else {
            log.run(offsets)
        }
    }

    /// The flash controller refused to erase, or the log gave up an erase.
    pub open spec fn erase_refused(self, code: ReturnCode) -> Turn {
        if code == ReturnCode::EBUSY {
            self.wait()
        } else {
            self.fail(TestFailure::EraseFailed(code))
        }
    }

    /// The state at the start of the list of operations, for an empty log.
    pub open spec fn restarted(self) -> TestView {
        TestView { op_index: 0, op_start: true, read_val: 0, write_val: 0, ..self }
    }

    /// The log is erased, and its volume now holds `volume`.
    pub open spec fn erased(self, volume: Seq<u8>, offsets: Offsets) -> Turn {
        let log = self.restarted();
        if first_unerased(volume, 0) < volume.len() {
            log.fail(TestFailure::NotErased(first_unerased(volume, 0) as usize))
        } else {
            match self.buffer {
                // Make sure that a read on an empty log fails normally.
                Some(buffer) => log.without_buffer().ask(
                    Step::ErasedRead,
                    Request::Read { buffer, length: BUFFER_LEN },
                ),
                None => (TestView { state: TestState::Operate, ..log }).run(offsets),
            }
        }
    }
}

/// The first byte from `from` on that does not hold the erased value.
pub open spec fn first_unerased(volume: Seq<u8>, from: int) -> int
    decreases volume.len() - from,
{
    if from < 0 || from >= volume.len() || volume[from] != 0xFF {
        from
    } else {
        first_unerased(volume, from + 1)
    }
}

/// The exercise.
pub struct LogStorageTest {
    buffer: Option<Vec<u8>>,
    state: TestState,
    ops: Vec<TestOp>,
    op_index: usize,
    op_start: bool,
    read_val: u64,
    write_val: u64,
    step: Step,
    original_offset: StorageCookie,
}

impl View for LogStorageTest {
    type V = TestView;

    closed spec fn view(&self) -> TestView {
        TestView {
            buffer: match self.buffer {
                Some(buffer) => Some(buffer@),
                None => None,
            },
            state: self.state,
            ops: self.ops@,
            op_index: self.op_index as int,
            op_start: self.op_start,
            read_val: self.read_val as int,
            write_val: self.write_val as int,
            step: self.step,
            original_offset: self.original_offset,
        }
    }
}

/// A buffer of `n` zero bytes.
fn zeros(n: usize) -> (buffer: Vec<u8>)
    ensures
        buffer@ == zero_bytes(n as nat),
{
    let buffer: Vec<u8> = vec![0u8; n];
    assert(buffer@ =~= zero_bytes(n as nat));
    buffer
}

fn ask(request: Request<Vec<u8>>) -> (reaction: Reaction<Vec<u8>>)
    ensures
        reaction == (Reaction { set_alarm: false, request: Some(request) }),
{
    Reaction { set_alarm: false, request: Some(request) }
}

fn fail(failure: TestFailure) -> (reaction: Reaction<Vec<u8>>)
    ensures
        reaction == (Reaction {
            set_alarm: false,
            request: Some(Request::<Vec<u8>>::Fail(failure)),
        }),
{
    ask(Request::Fail(failure))
}

fn wait() -> (reaction: Reaction<Vec<u8>>)
    ensures
        reaction == (Reaction { set_alarm: true, request: None::<Request<Vec<u8>>> }),
{
    Reaction { set_alarm: true, request: None }
}

/// The operations of the exercise.
pub fn test_ops() -> (ops: Vec<TestOp>)
    ensures
        ops@ == seq![
            TestOp::BadRead,
            TestOp::Read,
            TestOp::BadWrite,
            TestOp::Write,
            TestOp::Read,
            TestOp::BadWrite,
            TestOp::Write,
            TestOp::Read,
            TestOp::Seek(StorageCookie::SeekBeginning),
            TestOp::Read,
            TestOp::Seek(StorageCookie::SeekBeginning),
            TestOp::Write,
            TestOp::BadRead,
            TestOp::Read,
            TestOp::Write,
            TestOp::Sync,
            TestOp::Read,
            TestOp::Write,
            TestOp::BadSeek(StorageCookie::Cookie(0)),
            TestOp::BadSeek(StorageCookie::Cookie(usize::MAX)),
            TestOp::Read,
            TestOp::BadWrite,
            TestOp::Read,
            TestOp::Sync,
        ],
{
    let ops: Vec<TestOp> = vec![
        // Read back any existing entries.
        TestOp::BadRead,
        TestOp::Read,
        // Write multiple pages, but don't fill log.
        TestOp::BadWrite,
        TestOp::Write,
        TestOp::Read,
        TestOp::BadWrite,
        TestOp::Write,
        TestOp::Read,
        // Seek to beginning and re-verify entire log.
        TestOp::Seek(StorageCookie::SeekBeginning),
        TestOp::Read,
        // Write multiple pages, over-filling log and overwriting oldest entries.
        TestOp::Seek(StorageCookie::SeekBeginning),
        TestOp::Write,
        // Read offset should be incremented since it was invalidated by previous write.
        TestOp::BadRead,
        TestOp::Read,
        // Write multiple pages and sync. Read offset should be invalidated due to sync
        // clobbering previous read offset.
        TestOp::Write,
        TestOp::Sync,
        TestOp::Read,
        // Try bad seeks, should fail and not change read cookie.
        TestOp::Write,
        TestOp::BadSeek(StorageCookie::Cookie(0)),
        TestOp::BadSeek(StorageCookie::Cookie(usize::MAX)),
        TestOp::Read,
        // Try bad write, nothing should change.
        TestOp::BadWrite,
        TestOp::Read,
        // Sync log before finishing test so that all changes persist for next test iteration.
        TestOp::Sync,
    ];
    ops
}

impl LogStorageTest {
    /// The exercise `ops` on a log with the given offsets.
    pub fn new(buffer: Vec<u8>, ops: Vec<TestOp>, offsets: Offsets) -> (test: LogStorageTest)
        requires
            buffer@.len() == BUFFER_LEN,
        ensures
            test@.wf(),
            test@ == (TestView {
                buffer: Some(buffer@),
                state: TestState::Operate,
                ops: ops@,
                op_index: 0,
                op_start: true,
                read_val: test_value(offsets.read),
                write_val: test_value(offsets.append),
                step: Step::Idle,
                original_offset: StorageCookie::SeekBeginning,
            }),
    {
        // Recover test state.
        let read_val: u64 = cookie_to_test_value(offsets.read);
        let write_val: u64 = cookie_to_test_value(offsets.append);
        LogStorageTest {
            buffer: Some(buffer),
            state: TestState::Operate,
            ops,
            op_index: 0,
            op_start: true,
            read_val,
            write_val,
            step: Step::Idle,
            original_offset: StorageCookie::SeekBeginning,
        }
    }

    /// Goes on with the current operation. Called at the start and when the alarm fires.
    pub fn run(&mut self, offsets: Offsets) -> (reaction: Reaction<Vec<u8>>)
        requires
            old(self)@.wf(),
        ensures
            final(self)@.wf(),
            (final(self)@, reaction_view(reaction)) == old(self)@.run(offsets),
    {
        match self.state {
            TestState::Operate => {
                let op_index: usize = self.op_index;
                if op_index == self.ops.len() {
                    self.state = TestState::CleanUp;
                    self.step = Step::Seek;
                    return ask(Request::Seek(StorageCookie::SeekBeginning));
                }
                match self.ops[op_index] {
                    TestOp::Read => self.read(offsets),
                    TestOp::BadRead => self.bad_read(),
                    TestOp::Write => self.write(),
                    TestOp::BadWrite => self.bad_write(offsets),
                    TestOp::Sync => self.sync(),
                    TestOp::Seek(cookie) => self.seek(cookie),
                    TestOp::BadSeek(cookie) => self.bad_seek(cookie, offsets),
                }
            },
            TestState::Erase => self.erase(),
            TestState::CleanUp => ask(Request::Succeed),
        }
    }

    fn next_op(&mut self)
        requires
            old(self)@.op_index < old(self)@.ops.len(),
        ensures
            final(self)@ == old(self)@.next_op(),
    {
        assert(self.ops@.len() == self.ops.len());
        self.op_index = self.op_index + 1;
        self.op_start = true;
    }

    fn erase(&mut self) -> (reaction: Reaction<Vec<u8>>)
        ensures
            (final(self)@, reaction_view(reaction)) == old(self)@.ask(Step::Erase, Request::Erase),
    {
        self.step = Step::Erase;
        ask(Request::Erase)
    }

    fn read(&mut self, offsets: Offsets) -> (reaction: Reaction<Vec<u8>>)
        requires
            old(self)@.wf(),
        ensures
            final(self)@.wf(),
            (final(self)@, reaction_view(reaction)) == old(self)@.read(offsets),
    {
        // Update read value if clobbered by previous operation.
        if self.op_start {
            let next_read_val: u64 = cookie_to_test_value(offsets.read);
            if self.read_val < next_read_val {
                self.read_val = next_read_val;
            }
        }
        match self.buffer.take() {
            None => fail(TestFailure::NoBuffer),
            Some(_buffer) => {
                // Clear buffer first to make debugging more sane.
                self.step = Step::Read;
                ask(Request::Read { buffer: zeros(BUFFER_LEN), length: BUFFER_LEN })
            },
        }
    }

    fn bad_read(&mut self) -> (reaction: Reaction<Vec<u8>>)
        requires
            old(self)@.wf(),
        ensures
            final(self)@.wf(),
            (final(self)@, reaction_view(reaction)) == old(self)@.bad_read(),
    {
        // Ensure failure if buffer is smaller than provided max read length.
        match self.buffer.take() {
            None => fail(TestFailure::NoBuffer),
            Some(buffer) => {
                self.step = Step::BadReadTooLong;
                ask(Request::Read { buffer, length: BUFFER_LEN + 1 })
            },
        }
    }

    fn write(&mut self) -> (reaction: Reaction<Vec<u8>>)
        requires
            old(self)@.wf(),
        ensures
            final(self)@.wf(),
            (final(self)@, reaction_view(reaction)) == old(self)@.write(),
    {
        match self.buffer.take() {
            None => fail(TestFailure::NoBuffer),
            Some(_buffer) => {
                self.step = Step::Write;
                let buffer = write_u64_be(MAGIC + self.write_val);
                ask(Request::Append { buffer, length: BUFFER_LEN })
            },
        }
    }

    fn bad_write(&mut self, offsets: Offsets) -> (reaction: Reaction<Vec<u8>>)
        requires
            old(self)@.wf(),
        ensures
            final(self)@.wf(),
            (final(self)@, reaction_view(reaction)) == old(self)@.bad_write(offsets),
    {
        self.original_offset = offsets.append;

        // Ensure failure if entry length is 0.
        match self.buffer.take() {
            None => fail(TestFailure::NoBuffer),
            Some(buffer) => {
                self.step = Step::BadWriteEmpty;
                ask(Request::Append { buffer, length: 0 })
            },
        }
    }

    fn sync(&mut self) -> (reaction: Reaction<Vec<u8>>)
        ensures
            (final(self)@, reaction_view(reaction)) == old(self)@.ask(Step::Sync, Request::Sync),
    {
        self.step = Step::Sync;
        ask(Request::Sync)
    }

    fn seek(&mut self, cookie: StorageCookie) -> (reaction: Reaction<Vec<u8>>)
        ensures
            (final(self)@, reaction_view(reaction)) == old(self)@.ask(
                Step::Seek,
                Request::Seek(cookie),
            ),
    {
        self.step = Step::Seek;
        ask(Request::Seek(cookie))
    }

    fn bad_seek(&mut self, cookie: StorageCookie, offsets: Offsets) -> (reaction: Reaction<Vec<u8>>)
        ensures
            (final(self)@, reaction_view(reaction)) == old(self)@.bad_seek(cookie, offsets),
    {
        self.original_offset = offsets.read;
        self.step = Step::BadSeek;
        ask(Request::Seek(cookie))
    }

    /// Whether an operation is under way.
    pub open spec fn operating(&self) -> bool {
        &&& self@.wf()
        &&& self@.op_index < self@.ops.len()
    }

    /// Whether an operation is under way.
    pub fn is_operating(&self) -> (operating: bool)
        requires
            self@.wf(),
        ensures
            operating == self.operating(),
    {
        self.op_index < self.ops.len()
    }

    /// The request that the exercise made last.
    pub fn step(&self) -> (step: Step)
        ensures
            step == self@.step,
    {
        self.step
    }

    /// The exercise's current state.
    pub fn state(&self) -> (state: TestState)
        ensures
            state == self@.state,
    {
        self.state
    }

    /// Whether the last request is a write that must fail.
    pub fn is_bad_write(&self) -> (bad: bool)
        ensures
            bad == self@.in_bad_write(),
    {
        match self.step {
            Step::BadWriteEmpty | Step::BadWriteTooLong | Step::BadWriteTooLarge => true,
            _ => false,
        }
    }

    /// Whether the last request is a read that must fail.
    pub fn is_bad_read(&self) -> (bad: bool)
        ensures
            bad == self@.in_bad_read(),
    {
        match self.step {
            Step::BadReadTooLong | Step::BadReadTooShort | Step::ErasedRead => true,
            _ => false,
        }
    }

    /// Whether a further entry that is read can be counted.
    pub fn can_count_read(&self) -> (ok: bool)
        ensures
            ok == (self@.read_val < VALUE_LIMIT),
    {
        self.read_val < VALUE_LIMIT
    }

    /// Whether a further entry that is written can be counted.
    pub fn can_count_write(&self) -> (ok: bool)
        ensures
            ok == (self@.write_val < VALUE_LIMIT),
    {
        self.write_val < VALUE_LIMIT
    }

    /// The log refused a read.
    pub fn read_refused(&mut self, code: ReturnCode, buffer: Vec<u8>, offsets: Offsets) -> (reaction:
        Reaction<Vec<u8>>)
        requires
            old(self)@.wf(),
            old(self)@.step != Step::ErasedRead ==> old(self).operating(),
            buffer@.len() == BUFFER_LEN,
        ensures
            final(self)@.wf(),
            (final(self)@, reaction_view(reaction)) == old(self)@.read_refused(
                code,
                buffer@,
                offsets,
            ),
    {
        match self.step {
            Step::BadReadTooLong => {
                if code == ReturnCode::EINVAL {
                    // Ensure failure if buffer is too small to hold entry.
                    self.buffer = None;
                    self.step = Step::BadReadTooShort;
                    ask(Request::Read { buffer, length: BUFFER_LEN - 1 })
                } else {
                    self.buffer = Some(buffer);
                    fail(TestFailure::WrongError(code))
                }
            },
            Step::BadReadTooShort => {
                self.buffer = Some(buffer);
                let expected: ReturnCode = if self.read_val == self.write_val {
                    ReturnCode::FAIL
                } else {
                    ReturnCode::ESIZE
                };
                if code == expected {
                    self.next_op();
                    self.run(offsets)
                } else {
                    fail(TestFailure::WrongError(code))
                }
            },
            Step::ErasedRead => {
                self.buffer = Some(buffer);
                if code == ReturnCode::FAIL {
                    // Move to next operation.
                    self.state = TestState::Operate;
                    self.run(offsets)
                } else if code == ReturnCode::EBUSY {
                    self.state = TestState::Operate;
                    let reaction = self.run(offsets);
                    Reaction { set_alarm: true, request: reaction.request }
                } else {
                    fail(TestFailure::ReadFailed(code))
                }
            },
            _ => {
                self.buffer = Some(buffer);
                if code == ReturnCode::FAIL {
                    // No more entries, start writing again.
                    self.next_op();
                    self.run(offsets)
                } else if code == ReturnCode::EBUSY {
                    wait()
                } else {
                    fail(TestFailure::ReadFailed(code))
                }
            },
        }
    }

    /// The log has read an entry.
    pub fn read_done(&mut self, buffer: Vec<u8>, length: StorageLen, error: ReturnCode) -> (reaction:
        Reaction<Vec<u8>>)
        requires
            old(self)@.wf(),
            old(self)@.read_val < VALUE_LIMIT,
            buffer@.len() == BUFFER_LEN,
        ensures
            final(self)@.wf(),
            (final(self)@, reaction_view(reaction)) == old(self)@.read_done(
                buffer@,
                length,
                error,
            ),
    {
        let expected = write_u64_be(MAGIC + self.read_val);
        let same: bool = same_bytes(buffer.as_slice(), expected.as_slice());
        self.buffer = Some(buffer);
        if self.is_bad_read() {
            fail(TestFailure::ReadSucceeded)
        } else if error != ReturnCode::SUCCESS {
            fail(TestFailure::ReadFailed(error))
        } else if length != BUFFER_LEN {
            // Verify correct number of bytes were read.
            fail(TestFailure::WrongLength(length))
        } else if !same {
            // Verify correct value was read.
            fail(TestFailure::WrongValue)
        } else {
            self.read_val = self.read_val + 1;
            self.op_start = false;
            wait()
        }
    }

    /// The log refused to append.
    pub fn append_refused(&mut self, code: ReturnCode, buffer: Vec<u8>, offsets: Offsets) -> (reaction:
        Reaction<Vec<u8>>)
        requires
            old(self).operating(),
            old(self)@.step != Step::BadWriteTooLarge ==> buffer@.len() == BUFFER_LEN,
        ensures
            final(self)@.wf(),
            (final(self)@, reaction_view(reaction)) == old(self)@.append_refused(
                code,
                buffer@,
                offsets,
            ),
    {
        match self.step {
            Step::BadWriteEmpty => {
                if code == ReturnCode::EINVAL {
                    // Ensure failure if proposed entry length is greater than buffer length.
                    self.buffer = None;
                    self.step = Step::BadWriteTooLong;
                    ask(Request::Append { buffer, length: BUFFER_LEN + 1 })
                } else {
                    self.buffer = Some(buffer);
                    fail(TestFailure::WrongError(code))
                }
            },
            Step::BadWriteTooLong => {
                self.buffer = Some(buffer);
                if code == ReturnCode::EINVAL {
                    // Ensure failure if entry is too large to fit within a single flash page.
                    self.step = Step::BadWriteTooLarge;
                    ask(Request::Append { buffer: zeros(DUMMY_LEN), length: DUMMY_LEN })
                } else {
                    fail(TestFailure::WrongError(code))
                }
            },
            Step::BadWriteTooLarge => {
                if code != ReturnCode::ESIZE {
                    fail(TestFailure::WrongError(code))
                } else if offsets.append != self.original_offset {
                    // Make sure that append offset was not changed by failed writes.
                    fail(TestFailure::OffsetMoved)
                } else {
                    self.next_op();
                    self.run(offsets)
                }
            },
            _ => {
                self.buffer = Some(buffer);
                if code == ReturnCode::EBUSY {
                    wait()
                } else {
                    fail(TestFailure::WriteFailed(code))
                }
            },
        }
    }

    /// The log has appended an entry.
    pub fn append_done(&mut self, buffer: Vec<u8>) -> (reaction: Reaction<Vec<u8>>)
        requires
            old(self).operating(),
            old(self)@.write_val < VALUE_LIMIT,
            buffer@.len() == BUFFER_LEN || old(self)@.in_bad_write(),
        ensures
            final(self)@.wf(),
            (final(self)@, reaction_view(reaction)) == old(self)@.append_done(buffer@),
    {
        if self.is_bad_write() {
            return fail(TestFailure::WriteSucceeded);
        }
        self.buffer = Some(buffer);
        self.op_start = false;

        // Stop writing after `ENTRIES_PER_WRITE` entries have been written.
        if (self.write_val + 1) % ENTRIES_PER_WRITE == 0 {
            self.next_op();
        }
        self.write_val = self.write_val + 1;
        wait()
    }

    /// The flash controller refused to sync the log.
    pub fn sync_refused(&mut self, code: ReturnCode) -> (reaction: Reaction<Vec<u8>>)
        requires
            old(self)@.wf(),
        ensures
            (final(self)@, reaction_view(reaction)) == old(self)@.fail(
                TestFailure::SyncFailed(code),
            ),
    {
        fail(TestFailure::SyncFailed(code))
    }

    /// The log has synced.
    pub fn sync_done(&mut self, error: ReturnCode, offsets: Offsets) -> (reaction: Reaction<
        Vec<u8>,
    >)
        requires
            old(self).operating(),
        ensures
            final(self)@.wf(),
            (final(self)@, reaction_view(reaction)) == old(self)@.sync_done(error, offsets),
    {
        if error == ReturnCode::SUCCESS {
            self.next_op();
            self.run(offsets)
        } else {
            fail(TestFailure::SyncFailed(error))
        }
    }

    /// The log refused to seek.
    pub fn seek_refused(&mut self, code: ReturnCode, offsets: Offsets) -> (reaction: Reaction<
        Vec<u8>,
    >)
        requires
            old(self)@.wf(),
            old(self)@.step == Step::BadSeek ==> old(self).operating(),
        ensures
            final(self)@.wf(),
            (final(self)@, reaction_view(reaction)) == old(self)@.seek_refused(code, offsets),
    {
        if self.step == Step::BadSeek {
            // Make sure seek fails with EINVAL.
            if code != ReturnCode::EINVAL {
                fail(TestFailure::WrongError(code))
            } else if offsets.read != self.original_offset {
                // Make sure that read offset was not changed by failed seek.
                fail(TestFailure::OffsetMoved)
            } else {
                self.next_op();
                self.run(offsets)
            }
        } else if self.state == TestState::CleanUp {
            Reaction { set_alarm: false, request: None }
        } else {
            fail(TestFailure::SeekFailed(code))
        }
    }

    /// The log has moved its read offset.
    pub fn seek_done(&mut self, error: ReturnCode, offsets: Offsets) -> (reaction: Reaction<
        Vec<u8>,
    >)
        requires
            old(self)@.wf(),
            old(self)@.state == TestState::Operate ==> old(self).operating(),
        ensures
            final(self)@.wf(),
            (final(self)@, reaction_view(reaction)) == old(self)@.seek_done(error, offsets),
    {
        if error != ReturnCode::SUCCESS {
            return fail(TestFailure::SeekFailed(error));
        }
        self.read_val = cookie_to_test_value(offsets.read);
        if self.step == Step::BadSeek {
            return fail(TestFailure::SeekSucceeded);
        }
        if self.state == TestState::Operate {
            self.next_op();
        }
        self.run(offsets)
    }

    /// The button was pressed: erase the log and start over.
    pub fn button_pressed(&mut self) -> (reaction: Reaction<Vec<u8>>)
        requires
            old(self)@.wf(),
        ensures
            final(self)@.wf(),
            (final(self)@, reaction_view(reaction)) == (TestView {
                state: TestState::Erase,
                ..old(self)@
            }).ask(Step::Erase, Request::Erase),
    {
        // Erase log.
        self.state = TestState::Erase;
        self.erase()
    }

    /// The flash controller refused to erase a page of the log.
    pub fn erase_refused(&mut self, code: ReturnCode) -> (reaction: Reaction<Vec<u8>>)
        requires
            old(self)@.wf(),
        ensures
            final(self)@.wf(),
            (final(self)@, reaction_view(reaction)) == old(self)@.erase_refused(code),
    {
        if code == ReturnCode::EBUSY {
            // Flash busy, try again.
            wait()
        } else {
            fail(TestFailure::EraseFailed(code))
        }
    }

    /// The log is done with an erase, and its volume now holds `volume`.
    pub fn erase_done(&mut self, error: ReturnCode, volume: &[u8], offsets: Offsets) -> (reaction:
        Reaction<Vec<u8>>)
        requires
            old(self)@.wf(),
        ensures
            final(self)@.wf(),
            (final(self)@, reaction_view(reaction)) == (if error == ReturnCode::SUCCESS {
                old(self)@.erased(volume@, offsets)
            } else {
                old(self)@.erase_refused(error)
            }),
    {
        if error != ReturnCode::SUCCESS {
            return self.erase_refused(error);
        }
        // Reset test state.

        self.op_index = 0;
        self.op_start = true;
        self.read_val = 0;
        self.write_val = 0;

        // Make sure that flash has been erased.
        let end: usize = volume.len();
        let mut i: usize = 0;
        while i < end
            invariant
                i <= end == volume@.len(),
                error == ReturnCode::SUCCESS,
                first_unerased(volume@, 0) == first_unerased(volume@, i as int),
                self@ == old(self)@.restarted(),
                old(self)@.wf(),
            decreases end - i,
        {
            if volume[i] != 0xFF {
                assert(first_unerased(volume@, i as int) == i);
                return fail(TestFailure::NotErased(i));
            }
            i = i + 1;
        }

        // Make sure that a read on an empty log fails normally.
        match self.buffer.take() {
            Some(buffer) => {
                self.step = Step::ErasedRead;
                ask(Request::Read { buffer, length: BUFFER_LEN })
            },
            None => {
                self.state = TestState::Operate;
                self.run(offsets)
            },
        }
    }
}

} // verus!
