//! What the exercise of log storage checks, and how it goes on.

use crate::boards::imix::storage_test::{
    entry_bytes, first_unerased, request_view, test_value, Offsets, Request, Step, TestFailure,
    TestOp, TestState, TestView, Turn, PAGE_SIZE,
};
use crate::capsules::storage_interface::StorageCookie;
use crate::capsules::word::{be_bytes, law_be_bytes_tell_apart, law_be_digits, WORD_SIZE};
use crate::return_code::ReturnCode;
use vstd::arithmetic::power::pow;
use vstd::prelude::*;

verus! {

/// The exercise stops and reports a failure.
pub open spec fn fails(turn: Turn) -> bool {
    turn.1.request matches Some(Request::Fail(_))
}

/// The exercise stops and reports this failure.
pub open spec fn fails_with(turn: Turn, failure: TestFailure) -> bool {
    turn.1.request == Some(Request::<Seq<u8>>::Fail(failure)) && !turn.1.set_alarm
}

/// The exercise waits for the alarm and requests nothing.
pub open spec fn waits(turn: Turn) -> bool {
    turn.1.set_alarm && turn.1.request is None
}

/// The exercise makes this request at once.
pub open spec fn requests(turn: Turn, request: Request<Seq<u8>>) -> bool {
    turn.1.request == Some(request) && !turn.1.set_alarm
}

/// The exercise has moved on from the current operation to the next one, and goes on with it.
pub open spec fn moves_on(
    before: TestView,
    buffer: Option<Seq<u8>>,
    offsets: Offsets,
    turn: Turn,
) -> bool {
    let next = TestView { buffer, op_index: before.op_index + 1, op_start: true, ..before };
    turn == next.run(offsets)
}

impl TestView {
    /// What the exercise appends is the eight bytes of its magic number plus the number of
    /// entries written before, most significant byte first.
    pub proof fn law_entry_in_numbers(self, i: nat)
        requires
            self.wf(),
            self.buffer is Some,
            i < 8,
        ensures
            match self.write().1.request {
                Some(Request::Append { buffer, length }) => {
                    &&& length == 8
                    &&& buffer.len() == 8
                    &&& buffer[7 - i] == (0x0102030405060708 + self.write_val) / pow(256, i) % 256
                },
                _ => false,
            },
    {
        law_be_digits(0x0102030405060708 + self.write_val, 8, i);
    }

    /// Whatever was written as entry of another number is told apart from this one.
    pub proof fn law_entries_differ(self, other: TestView)
        requires
            self.wf(),
            other.wf(),
            self.buffer is Some,
            other.buffer is Some,
            self.write_val != other.write_val,
        ensures
            self.write().1.request != other.write().1.request,
    {
        let a = 0x0102030405060708 + self.write_val;
        let b = 0x0102030405060708 + other.write_val;
        assert(pow(256, 8) == 0x1_0000_0000_0000_0000) by {
            reveal(pow);
            reveal_with_fuel(pow, 9);
        }
        if entry_bytes(self.write_val) == entry_bytes(other.write_val) {
            law_be_bytes_tell_apart(a, b, 8);
        }
    }

    /// A read that is done is answered by a failure, unless it was to succeed, did, and gave
    /// all of the eight bytes that the write of the same number appended. Whatever exercise
    /// `writer` wrote the entry, it is the count that decides.
    pub proof fn law_read_accepts_what_was_written(
        self,
        writer: TestView,
        buffer: Seq<u8>,
        length: usize,
        error: ReturnCode,
    )
        requires
            writer.write_val == self.read_val,
            writer.buffer is Some,
        ensures
            ({
                let turn = self.read_done(buffer, length, error);
                let accepted = self.step != Step::BadReadTooLong && self.step
                    != Step::BadReadTooShort && self.step != Step::ErasedRead && error
                    == ReturnCode::SUCCESS && requests(
                    writer.write(),
                    Request::Append { buffer, length },
                );
                &&& !fails(turn) <==> accepted
                &&& accepted ==> length == 8 && waits(turn) && turn.0 == (TestView {
                    buffer: Some(buffer),
                    read_val: self.read_val + 1,
                    op_start: false,
                    ..self
                })
            }),
    {
    }

    /// For one read count at most one buffer is accepted: every byte of it is checked.
    pub proof fn law_one_buffer_is_accepted(
        self,
        buffer: Seq<u8>,
        other: Seq<u8>,
        length: usize,
        other_length: usize,
        error: ReturnCode,
    )
        requires
            !fails(self.read_done(buffer, length, error)),
            !fails(self.read_done(other, other_length, error)),
        ensures
            length == 8,
            other_length == 8,
            buffer.len() == 8,
            buffer == other,
    {
        lemma_entry_len(0x0102030405060708 + self.read_val);
    }

    /// Each byte of a buffer that is accepted is a digit of the magic number plus the read
    /// count, most significant first.
    pub proof fn law_accepted_in_numbers(
        self,
        buffer: Seq<u8>,
        length: usize,
        error: ReturnCode,
        i: nat,
    )
        requires
            self.wf(),
            !fails(self.read_done(buffer, length, error)),
            i < 8,
        ensures
            buffer.len() == 8,
            buffer[7 - i] == (0x0102030405060708 + self.read_val) / pow(256, i) % 256,
    {
        law_be_digits(0x0102030405060708 + self.read_val, 8, i);
    }

    /// What a read that is done fails with: a read that must fail succeeded, it failed, it gave
    /// a wrong number of bytes, or it gave wrong bytes.
    pub proof fn law_read_failures(self, buffer: Seq<u8>, length: usize, error: ReturnCode)
        ensures
            ({
                let turn = self.read_done(buffer, length, error);
                let must_fail = self.step == Step::BadReadTooLong || self.step
                    == Step::BadReadTooShort || self.step == Step::ErasedRead;
                &&& must_fail <==> fails_with(turn, TestFailure::ReadSucceeded)
                &&& !must_fail && error != ReturnCode::SUCCESS ==> fails_with(
                    turn,
                    TestFailure::ReadFailed(error),
                )
                &&& !must_fail && error == ReturnCode::SUCCESS && length != 8 ==> fails_with(
                    turn,
                    TestFailure::WrongLength(length),
                )
                &&& fails_with(turn, TestFailure::WrongValue) ==> !must_fail && error
                    == ReturnCode::SUCCESS && length == 8
                &&& fails(turn) ==> turn.0 == (TestView { buffer: Some(buffer), ..self })
            }),
    {
    }

    /// Each write counts, and every 120th entry ends the operation. A write that must fail is
    /// a failure when it is done.
    pub proof fn law_writes_are_counted(self, buffer: Seq<u8>)
        ensures
            ({
                let turn = self.append_done(buffer);
                let must_fail = self.step == Step::BadWriteEmpty || self.step
                    == Step::BadWriteTooLong || self.step == Step::BadWriteTooLarge;
                let last = (self.write_val + 1) % 120 == 0;
                &&& must_fail ==> fails_with(turn, TestFailure::WriteSucceeded) && turn.0 == self
                &&& !must_fail ==> waits(turn) && turn.0 == (TestView {
                    buffer: Some(buffer),
                    write_val: self.write_val + 1,
                    op_index: if last {
                        self.op_index + 1
                    } else {
                        self.op_index
                    },
                    op_start: last,
                    ..self
                })
            }),
    {
    }

    /// An operation that goes on keeps what it does not have to do with: the operations, the
    /// place in them, and the count of writes. It reads no entry that comes before those that
    /// the log has dropped, and counts reads down for none.
    pub proof fn law_run_keeps(self, offsets: Offsets)
        ensures
            ({
                let turn = self.run(offsets);
                &&& turn.0.ops == self.ops && turn.0.op_index == self.op_index && turn.0.op_start
                    == self.op_start && turn.0.write_val == self.write_val
                &&& turn.0.read_val >= self.read_val
                &&& turn.0.read_val == self.read_val || turn.0.read_val == test_value(offsets.read)
                &&& turn.0.buffer == self.buffer || turn.0.buffer is None
                &&& turn.0.state == self.state || turn.0.state == TestState::CleanUp
                &&& !turn.1.set_alarm
                &&& turn.1.request is Some
            }),
    {
    }

    /// What an operation asks of the log. Reads and writes are of eight bytes; a bad read is of
    /// more bytes than its buffer has, and a bad write of none; seeks are to where the
    /// operation says. After the last operation the exercise seeks to the beginning, and then
    /// it has succeeded.
    pub proof fn law_requests(self, offsets: Offsets)
        requires
            self.wf(),
            self.buffer is Some,
        ensures
            ({
                let turn = self.run(offsets);
                let op = self.ops[self.op_index];
                let operating = self.state == TestState::Operate && self.op_index < self.ops.len();
                &&& operating ==> match op {
                    TestOp::Read => {
                        &&& turn.1.request matches Some(Request::Read { buffer, length })
                        &&& length == 8 && buffer.len() == 8
                        &&& forall|i: int| 0 <= i < 8 ==> buffer[i] == 0
                        &&& turn.0.step == Step::Read && turn.0.buffer is None
                        &&& self.op_start ==> turn.0.read_val >= test_value(offsets.read)
                        &&& !self.op_start ==> turn.0.read_val == self.read_val
                    },
                    TestOp::BadRead => {
                        &&& requests(turn, Request::Read { buffer: self.buffer->0, length: 9 })
                        &&& self.buffer->0.len() < 9
                        &&& turn.0.step == Step::BadReadTooLong && turn.0.buffer is None
                    },
                    TestOp::Write => {
                        &&& turn.1.request matches Some(Request::Append { buffer, length })
                        &&& length == 8 && buffer.len() == 8
                        &&& turn.0.step == Step::Write && turn.0.buffer is None
                    },
                    TestOp::BadWrite => {
                        &&& requests(turn, Request::Append { buffer: self.buffer->0, length: 0 })
                        &&& turn.0.step == Step::BadWriteEmpty && turn.0.buffer is None
                        &&& turn.0.original_offset == offsets.append
                    },
                    TestOp::Sync => requests(turn, Request::Sync) && turn.0.step == Step::Sync,
                    TestOp::Seek(cookie) => requests(turn, Request::Seek(cookie)) && turn.0.step
                        == Step::Seek,
                    TestOp::BadSeek(cookie) => {
                        &&& requests(turn, Request::Seek(cookie)) && turn.0.step == Step::BadSeek
                        &&& turn.0.original_offset == offsets.read
                    },
                }
                &&& operating ==> turn.0.state == TestState::Operate
                &&& self.state == TestState::Operate && self.op_index == self.ops.len() ==> {
                    &&& requests(turn, Request::Seek(StorageCookie::SeekBeginning))
                    &&& turn.0.state == TestState::CleanUp && turn.0.step == Step::Seek
                }
                &&& self.state == TestState::Erase ==> requests(turn, Request::Erase)
                    && turn.0.step == Step::Erase
                &&& self.state == TestState::CleanUp ==> requests(turn, Request::Succeed)
                    && turn.0 == self
            }),
    {
        lemma_entry_len(0x0102030405060708 + self.write_val);
    }

    /// Without its buffer the exercise fails where an operation needs it.
    pub proof fn law_buffer_is_needed(self, offsets: Offsets)
        requires
            self.wf(),
            self.buffer is None,
            self.state == TestState::Operate,
            self.op_index < self.ops.len(),
        ensures
            fails_with(self.run(offsets), TestFailure::NoBuffer) <==> {
                let op = self.ops[self.op_index];
                op is Read || op is BadRead || op is Write || op is BadWrite
            },
    {
    }

    /// How the exercise goes on when a read is refused. A read of too many bytes must be
    /// refused as invalid, and is followed by one of fewer bytes than an entry has: that must
    /// be refused for its size, or because nothing is left to read where all entries have been
    /// read. A read of an entry, or of the erased log, is refused where nothing is left to
    /// read, and is tried later while the log is busy. Any other code is a failure.
    pub proof fn law_refused_reads(self, code: ReturnCode, buffer: Seq<u8>, offsets: Offsets)
        ensures
            ({
                let turn = self.read_refused(code, buffer, offsets);
                match self.step {
                    Step::BadReadTooLong => {
                        &&& code == ReturnCode::EINVAL ==> requests(
                            turn,
                            Request::Read { buffer, length: 7 },
                        ) && turn.0 == (TestView {
                            buffer: None,
                            step: Step::BadReadTooShort,
                            ..self
                        })
                        &&& code != ReturnCode::EINVAL ==> fails_with(
                            turn,
                            TestFailure::WrongError(code),
                        )
                    },
                    Step::BadReadTooShort => {
                        let empty = self.read_val == self.write_val;
                        if empty && code == ReturnCode::FAIL || !empty && code
                            == ReturnCode::ESIZE {
                            moves_on(self, Some(buffer), offsets, turn)
                        } else {
                            fails_with(turn, TestFailure::WrongError(code))
                        }
                    },
                    Step::ErasedRead => {
                        let again = TestView {
                            buffer: Some(buffer),
                            state: TestState::Operate,
                            ..self
                        };
                        if code == ReturnCode::FAIL || code == ReturnCode::EBUSY {
                            &&& turn.0 == again.run(offsets).0
                            &&& turn.1.request == again.run(offsets).1.request
                            &&& turn.1.set_alarm <==> code == ReturnCode::EBUSY
                        } else {
                            fails_with(turn, TestFailure::ReadFailed(code))
                        }
                    },
                    _ => if code == ReturnCode::FAIL {
                        moves_on(self, Some(buffer), offsets, turn)
                    } else if code == ReturnCode::EBUSY {
                        waits(turn) && turn.0 == (TestView { buffer: Some(buffer), ..self })
                    } else {
                        fails_with(turn, TestFailure::ReadFailed(code))
                    },
                }
            }),
    {
        (TestView { buffer: Some(buffer), state: TestState::Operate, ..self }).law_run_keeps(
            offsets,
        );
    }

    /// How the exercise goes on when an append is refused. An append of nothing must be refused
    /// as invalid, and is followed by one of more bytes than the buffer has, which must be too,
    /// and by one of more bytes than a page has, which must be refused for its size. None of
    /// them may have moved the append offset. An append of an entry is tried later while the
    /// log is busy. Any other code is a failure.
    pub proof fn law_refused_appends(self, code: ReturnCode, buffer: Seq<u8>, offsets: Offsets)
        ensures
            ({
                let turn = self.append_refused(code, buffer, offsets);
                match self.step {
                    Step::BadWriteEmpty => {
                        &&& code == ReturnCode::EINVAL ==> requests(
                            turn,
                            Request::Append { buffer, length: 9 },
                        ) && turn.0 == (TestView {
                            buffer: None,
                            step: Step::BadWriteTooLong,
                            ..self
                        })
                        &&& code != ReturnCode::EINVAL ==> fails_with(
                            turn,
                            TestFailure::WrongError(code),
                        )
                    },
                    Step::BadWriteTooLong => if code == ReturnCode::EINVAL {
                        &&& turn.1.request matches Some(Request::Append { buffer: large, length })
                        &&& length == 520 && large.len() == 520
                        &&& turn.0 == (TestView {
                            buffer: Some(buffer),
                            step: Step::BadWriteTooLarge,
                            ..self
                        })
                    } else {
                        fails_with(turn, TestFailure::WrongError(code))
                    },
                    Step::BadWriteTooLarge => {
                        &&& code != ReturnCode::ESIZE ==> fails_with(
                            turn,
                            TestFailure::WrongError(code),
                        )
                        &&& code == ReturnCode::ESIZE && offsets.append != self.original_offset
                            ==> fails_with(turn, TestFailure::OffsetMoved)
                        &&& code == ReturnCode::ESIZE && offsets.append == self.original_offset
                            ==> moves_on(self, self.buffer, offsets, turn)
                    },
                    _ => if code == ReturnCode::EBUSY {
                        waits(turn) && turn.0 == (TestView { buffer: Some(buffer), ..self })
                    } else {
                        fails_with(turn, TestFailure::WriteFailed(code))
                    },
                }
            }),
    {
    }

    /// A sync that succeeds ends the operation, and any other is a failure.
    pub proof fn law_syncs(self, error: ReturnCode, offsets: Offsets)
        ensures
            error == ReturnCode::SUCCESS ==> moves_on(
                self,
                self.buffer,
                offsets,
                self.sync_done(error, offsets),
            ),
            error != ReturnCode::SUCCESS ==> fails_with(
                self.sync_done(error, offsets),
                TestFailure::SyncFailed(error),
            ),
    {
    }

    /// A seek that is done has the exercise expect the entry that the read offset is at, and
    /// ends the operation; one that must be refused is a failure when it is done, and must be
    /// refused as invalid without moving the read offset.
    pub proof fn law_seeks(self, code: ReturnCode, offsets: Offsets)
        ensures
            ({
                let done = self.seek_done(code, offsets);
                let refused = self.seek_refused(code, offsets);
                let counted = TestView { read_val: test_value(offsets.read), ..self };
                let bad = self.step == Step::BadSeek;
                &&& code != ReturnCode::SUCCESS ==> fails_with(done, TestFailure::SeekFailed(code))
                &&& code == ReturnCode::SUCCESS && bad ==> fails_with(
                    done,
                    TestFailure::SeekSucceeded,
                )
                &&& code == ReturnCode::SUCCESS && !bad && self.state == TestState::Operate
                    ==> moves_on(counted, self.buffer, offsets, done)
                &&& code == ReturnCode::SUCCESS && !bad && self.state != TestState::Operate ==> done
                    == counted.run(offsets)
                &&& bad && code != ReturnCode::EINVAL ==> fails_with(
                    refused,
                    TestFailure::WrongError(code),
                )
                &&& bad && code == ReturnCode::EINVAL && offsets.read != self.original_offset
                    ==> fails_with(refused, TestFailure::OffsetMoved)
                &&& bad && code == ReturnCode::EINVAL && offsets.read == self.original_offset
                    ==> moves_on(self, self.buffer, offsets, refused)
                &&& !bad && self.state == TestState::CleanUp ==> refused.0 == self
                    && refused.1.request is None && !refused.1.set_alarm
                &&& !bad && self.state != TestState::CleanUp ==> fails_with(
                    refused,
                    TestFailure::SeekFailed(code),
                )
            }),
    {
    }

    /// An erased log passes exactly if every byte of its volume reads as erased flash does;
    /// otherwise the first byte that does not is reported. The exercise starts again from the
    /// first operation and the first entry, and makes sure first that a read finds nothing.
    pub proof fn law_erased_volume(self, volume: Seq<u8>, offsets: Offsets)
        requires
            volume.len() <= usize::MAX,
        ensures
            ({
                let turn = self.erased(volume, offsets);
                let clean = forall|i: int| 0 <= i < volume.len() ==> volume[i] == 0xFF;
                let start = TestView {
                    op_index: 0,
                    op_start: true,
                    read_val: 0,
                    write_val: 0,
                    ..self
                };
                &&& clean ==> match self.buffer {
                    Some(buffer) => requests(turn, Request::Read { buffer, length: 8 }) && turn.0
                        == (TestView { buffer: None, step: Step::ErasedRead, ..start }),
                    None => turn == (TestView { state: TestState::Operate, ..start }).run(offsets),
                }
                &&& !clean ==> {
                    &&& turn.0 == start
                    &&& turn.1.request matches Some(Request::Fail(TestFailure::NotErased(at)))
                    &&& at < volume.len() && volume[at as int] != 0xFF
                    &&& forall|i: int| 0 <= i < at ==> volume[i] == 0xFF
                }
            }),
    {
        lemma_first_unerased(volume, 0);
    }

    /// An erase is tried later while the log is busy, and fails for any other code.
    pub proof fn law_refused_erase(self, code: ReturnCode)
        ensures
            code == ReturnCode::EBUSY ==> waits(self.erase_refused(code)) && self.erase_refused(
                code,
            ).0 == self,
            code != ReturnCode::EBUSY ==> fails_with(
                self.erase_refused(code),
                TestFailure::EraseFailed(code),
            ),
    {
    }
}

proof fn lemma_entry_len(value: int)
    ensures
        be_bytes(value, 8).len() == 8,
{
    reveal_with_fuel(be_bytes, 9);
}

proof fn lemma_first_unerased(volume: Seq<u8>, from: int)
    requires
        0 <= from <= volume.len(),
    ensures
        ({
            let at = first_unerased(volume, from);
            &&& from <= at <= volume.len()
            &&& at < volume.len() ==> volume[at] != 0xFF
            &&& forall|i: int| from <= i < at ==> volume[i] == 0xFF
        }),
    decreases volume.len() - from,
{
    if from < volume.len() && volume[from] == 0xFF {
        lemma_first_unerased(volume, from + 1);
    }
}

/// Nothing comes before the first entry of a log, nor within the header of its first page.
pub proof fn law_test_value_starts(at: usize)
    requires
        at <= WORD_SIZE,
    ensures
        test_value(StorageCookie::Cookie(at)) == 0,
        test_value(StorageCookie::SeekBeginning) == 0,
{
    let size = WORD_SIZE + 8;
    vstd::arithmetic::div_mod::lemma_basic_div(0, size);
    assert(at as int / PAGE_SIZE as int == 0 && at as int % PAGE_SIZE as int == at);
    vstd::arithmetic::mul::lemma_mul_basics((PAGE_SIZE - WORD_SIZE) / size);
}

/// A request is seen with the bytes of its buffer, and no two requests look alike that differ
/// in kind, length or bytes.
pub proof fn law_request_view(request: Request<Vec<u8>>, other: Request<Vec<u8>>)
    requires
        request_view(request) == request_view(other),
    ensures
        match (request, other) {
            (Request::Read { buffer, length }, Request::Read { buffer: b, length: n }) => buffer@
                == b@ && length == n,
            (Request::Append { buffer, length }, Request::Append { buffer: b, length: n }) => {
                buffer@ == b@ && length == n
            },
            (Request::Sync, Request::Sync) => true,
            (Request::Seek(cookie), Request::Seek(c)) => cookie == c,
            (Request::Erase, Request::Erase) => true,
            (Request::Succeed, Request::Succeed) => true,
            (Request::Fail(failure), Request::Fail(f)) => failure == f,
            _ => false,
        },
{
}

} // verus!
