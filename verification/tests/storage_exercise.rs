use tock_drivers::boards::imix::storage_test::{
    cookie_to_test_value, test_ops, wait_tics, LogStorageTest, Offsets, Reaction, Request, Step,
    TestFailure, TestOp, TestState, BUFFER_LEN, ENTRIES_PER_WRITE, MAGIC, PAGE_SIZE,
};
use tock_drivers::capsules::log_layout::{ENTRY_HEADER_SIZE, PAGE_HEADER_SIZE};
use tock_drivers::capsules::log_storage::LogStorage;
use tock_drivers::capsules::storage_interface::{
    AppendStep, EraseStep, FlashError, HasClient, LogRead, LogReadClient, LogWrite,
    LogWriteClient, StorageCookie, WriteStep,
};
use tock_drivers::capsules::word::ByteOrder;
use tock_drivers::return_code::ReturnCode;

const BASE: usize = 0x4000;

struct Client;

impl LogReadClient for Client {
    fn read_done(&self, _buffer: Vec<u8>, _length: usize, _error: ReturnCode) {}

    fn seek_done(&self, _error: ReturnCode) {}
}

impl LogWriteClient for Client {
    fn append_done(&self, _buffer: Vec<u8>, _length: usize, _lost: bool, _error: ReturnCode) {}

    fn erase_done(&self, _error: ReturnCode) {}

    fn sync_done(&self, _error: ReturnCode) {}
}

fn offsets(log: &LogStorage<Client>) -> Offsets {
    Offsets {
        read: log.current_read_offset(),
        append: log.current_append_offset(),
    }
}

fn write_page(volume: &mut [u8], page_number: usize, page: &[u8]) {
    let offset = page_number * PAGE_SIZE - BASE;
    volume[offset..offset + PAGE_SIZE].copy_from_slice(page);
}

fn erase_page(volume: &mut [u8], page_number: usize) {
    write_page(volume, page_number, &[0xFF; PAGE_SIZE]);
}

/// Performs one request on the log and hands the answer to the exercise.
fn perform(
    request: Request<Vec<u8>>,
    test: &mut LogStorageTest,
    log: &mut LogStorage<Client>,
    volume: &mut [u8],
) -> Reaction<Vec<u8>> {
    match request {
        Request::Read { buffer, length } => {
            assert!(log.is_read_in_bounds(volume, buffer.len(), length));
            match log.read(volume, buffer, length) {
                Ok(done) => {
                    assert!(test.can_count_read());
                    test.read_done(done.buffer, done.length, done.error)
                }
                Err((error, buffer)) => test.read_refused(error, buffer, offsets(log)),
            }
        }
        Request::Append { buffer, length } => match log.append(buffer, length) {
            Ok(AppendStep::Done(done)) => {
                assert!(test.can_count_write());
                test.append_done(done.buffer)
            }
            Ok(AppendStep::Flush(write)) => {
                assert!(log.append_started(ReturnCode::SUCCESS).is_ok());
                write_page(volume, write.page_number, &write.page);
                match log.write_complete(write.page, FlashError::CommandComplete) {
                    WriteStep::Append(done) => test.append_done(done.buffer),
                    WriteStep::Sync(error) => test.sync_done(error, offsets(log)),
                }
            }
            Err((error, buffer)) => test.append_refused(error, buffer, offsets(log)),
        },
        Request::Sync => match log.sync() {
            Ok(write) => {
                log.sync_started(ReturnCode::SUCCESS);
                write_page(volume, write.page_number, &write.page);
                match log.write_complete(write.page, FlashError::CommandComplete) {
                    WriteStep::Sync(error) => test.sync_done(error, offsets(log)),
                    WriteStep::Append(done) => test.append_done(done.buffer),
                }
            }
            Err(error) => test.sync_refused(error),
        },
        Request::Seek(cookie) => match log.seek(cookie) {
            ReturnCode::SUCCESS => test.seek_done(ReturnCode::SUCCESS, offsets(log)),
            error => test.seek_refused(error, offsets(log)),
        },
        Request::Erase => {
            let page_number = log.erase();
            erase_page(volume, page_number);
            while let EraseStep::Next(page_number) = log.erase_complete(FlashError::CommandComplete)
            {
                assert_eq!(log.erase_started(ReturnCode::SUCCESS), None);
                erase_page(volume, page_number);
            }
            test.erase_done(ReturnCode::SUCCESS, volume, offsets(log))
        }
        Request::Succeed => panic!("already done"),
        Request::Fail(failure) => panic!("{:?}", failure),
    }
}

/// Runs the exercise from a reaction until it reports.
fn drive(
    first: Reaction<Vec<u8>>,
    test: &mut LogStorageTest,
    log: &mut LogStorage<Client>,
    volume: &mut [u8],
) -> Result<(), TestFailure> {
    let mut reaction = first;
    let mut steps = 0;
    loop {
        steps += 1;
        assert!(steps < 10000);
        reaction = match reaction.request {
            Some(Request::Succeed) => return Ok(()),
            Some(Request::Fail(failure)) => return Err(failure),
            Some(request) => perform(request, test, log, volume),
            // The alarm fires.
            None => {
                assert!(reaction.set_alarm);
                test.run(offsets(log))
            }
        };
    }
}

fn run_on(volume: &mut Vec<u8>) -> (Offsets, Offsets) {
    let client = Client;
    let mut log: LogStorage<Client> = LogStorage::new(
        volume,
        BASE,
        vec![0; PAGE_SIZE],
        true,
        ByteOrder::LittleEndian,
    );
    log.set_client(&client);
    let before = offsets(&log);
    let mut test = LogStorageTest::new(vec![0; BUFFER_LEN], test_ops(), before);
    let first = test.run(before);
    assert_eq!(drive(first, &mut test, &mut log, volume), Ok(()));
    assert_eq!(test.state(), TestState::CleanUp);
    (before, offsets(&log))
}

#[test]
fn exercise_succeeds_on_a_blank_volume() {
    let mut volume = vec![0; 2048];
    let (_, end) = run_on(&mut volume);
    // Five write operations.
    assert_eq!(cookie_to_test_value(end.append), 5 * ENTRIES_PER_WRITE);
}

#[test]
fn exercise_goes_on_where_it_ended() {
    let mut volume = vec![0; 2048];
    let (_, end) = run_on(&mut volume);
    let (start, again) = run_on(&mut volume);
    assert_eq!(start.append, end.append);
    assert_eq!(start.read, end.read);
    assert_eq!(cookie_to_test_value(again.append), 10 * ENTRIES_PER_WRITE);
}

#[test]
fn button_erases_and_starts_over() {
    let mut volume = vec![0; 2048];
    let client = Client;
    let mut log: LogStorage<Client> = LogStorage::new(
        &volume,
        BASE,
        vec![0; PAGE_SIZE],
        true,
        ByteOrder::LittleEndian,
    );
    log.set_client(&client);
    let start = offsets(&log);
    let mut test = LogStorageTest::new(vec![0; BUFFER_LEN], test_ops(), start);
    let first = test.run(start);
    assert_eq!(drive(first, &mut test, &mut log, &mut volume), Ok(()));
    let pressed = test.button_pressed();
    assert_eq!(test.state(), TestState::Erase);
    assert!(matches!(pressed.request, Some(Request::Erase)));
    assert_eq!(drive(pressed, &mut test, &mut log, &mut volume), Ok(()));
    assert_eq!(
        cookie_to_test_value(log.current_append_offset()),
        5 * ENTRIES_PER_WRITE
    );
    // The exercise can be resumed from the volume.
    let (start, _) = run_on(&mut volume);
    assert_eq!(start.append, log.current_append_offset());
}

#[test]
fn append_that_ends_after_the_button_is_counted() {
    let start = at(PAGE_HEADER_SIZE, PAGE_HEADER_SIZE);
    let mut test = fresh(vec![TestOp::Write]);
    let buffer = match test.run(start).request {
        Some(Request::Append { buffer, .. }) => buffer,
        other => panic!("{:?}", other),
    };
    test.button_pressed();
    assert!(test.erase_refused(ReturnCode::EBUSY).set_alarm);
    let reaction = test.append_done(buffer);
    assert!(reaction.set_alarm);
    assert!(reaction.request.is_none());
    assert!(matches!(test.run(start).request, Some(Request::Erase)));
}

fn fresh(ops: Vec<TestOp>) -> LogStorageTest {
    let start = StorageCookie::Cookie(PAGE_HEADER_SIZE);
    LogStorageTest::new(
        vec![0; BUFFER_LEN],
        ops,
        Offsets {
            read: start,
            append: start,
        },
    )
}

fn at(read: usize, append: usize) -> Offsets {
    Offsets {
        read: StorageCookie::Cookie(read),
        append: StorageCookie::Cookie(append),
    }
}

fn failure(reaction: Reaction<Vec<u8>>) -> TestFailure {
    match reaction.request {
        Some(Request::Fail(failure)) => failure,
        other => panic!("{:?}", other),
    }
}

#[test]
fn cookies_count_entries() {
    let entry = ENTRY_HEADER_SIZE + BUFFER_LEN;
    let per_page = (PAGE_SIZE - PAGE_HEADER_SIZE) / entry;
    assert_eq!(cookie_to_test_value(StorageCookie::SeekBeginning), 0);
    assert_eq!(cookie_to_test_value(StorageCookie::Cookie(0)), 0);
    assert_eq!(
        cookie_to_test_value(StorageCookie::Cookie(PAGE_HEADER_SIZE)),
        0
    );
    assert_eq!(
        cookie_to_test_value(StorageCookie::Cookie(PAGE_HEADER_SIZE + entry)),
        1
    );
    assert_eq!(
        cookie_to_test_value(StorageCookie::Cookie(PAGE_SIZE + PAGE_HEADER_SIZE)),
        per_page as u64
    );
    assert_eq!(
        cookie_to_test_value(StorageCookie::Cookie(
            3 * PAGE_SIZE + PAGE_HEADER_SIZE + 2 * entry
        )),
        3 * per_page as u64 + 2
    );
}

#[test]
fn values_never_fall() {
    let mut last = 0;
    for cookie in 0..3 * PAGE_SIZE {
        let value = cookie_to_test_value(StorageCookie::Cookie(cookie));
        assert!(value >= last && value <= last + 1);
        last = value;
    }
}

#[test]
fn waits_two_milliseconds() {
    assert_eq!(wait_tics(100, 16_000), 132);
    assert_eq!(wait_tics(u32::MAX, 16_000), 31);
}

#[test]
fn writes_count_up_from_the_magic_number() {
    let mut test = fresh(vec![TestOp::Write]);
    let start = at(PAGE_HEADER_SIZE, PAGE_HEADER_SIZE);
    for i in 0..ENTRIES_PER_WRITE {
        match test.run(start).request {
            Some(Request::Append { buffer, length }) => {
                assert_eq!(buffer, (MAGIC + i).to_be_bytes().to_vec());
                assert_eq!(length, BUFFER_LEN);
                assert!(test.is_operating());
                assert!(test.append_done(buffer).set_alarm);
            }
            other => panic!("{:?}", other),
        }
    }
    assert!(!test.is_operating());
    assert!(matches!(
        test.run(start).request,
        Some(Request::Seek(StorageCookie::SeekBeginning))
    ));
}

#[test]
fn read_failures_are_found() {
    let start = at(PAGE_HEADER_SIZE, PAGE_HEADER_SIZE);
    let good = MAGIC.to_be_bytes().to_vec();

    let mut test = fresh(vec![TestOp::Read]);
    test.run(start);
    assert_eq!(test.step(), Step::Read);
    assert_eq!(
        failure(test.read_done(vec![0; BUFFER_LEN], BUFFER_LEN, ReturnCode::SUCCESS)),
        TestFailure::WrongValue
    );
    let mut test = fresh(vec![TestOp::Read]);
    test.run(start);
    assert_eq!(
        failure(test.read_done(good.clone(), 7, ReturnCode::SUCCESS)),
        TestFailure::WrongLength(7)
    );
    let mut test = fresh(vec![TestOp::Read]);
    test.run(start);
    assert_eq!(
        failure(test.read_done(good.clone(), BUFFER_LEN, ReturnCode::FAIL)),
        TestFailure::ReadFailed(ReturnCode::FAIL)
    );
    let mut test = fresh(vec![TestOp::Read]);
    test.run(start);
    assert_eq!(
        failure(test.read_refused(ReturnCode::ECANCEL, good.clone(), start)),
        TestFailure::ReadFailed(ReturnCode::ECANCEL)
    );
    let mut test = fresh(vec![TestOp::Read]);
    test.run(start);
    assert!(test.read_done(good.clone(), BUFFER_LEN, ReturnCode::SUCCESS).set_alarm);
    // The buffer is needed for a read.
    let mut test = fresh(vec![TestOp::Read]);
    test.run(start);
    assert_eq!(failure(test.run(start)), TestFailure::NoBuffer);
    // A read waits while the log is busy.
    let mut test = fresh(vec![TestOp::Read]);
    test.run(start);
    assert!(test.read_refused(ReturnCode::EBUSY, good, start).set_alarm);
}

#[test]
fn read_counts_up_to_a_moved_offset() {
    let mut test = fresh(vec![TestOp::Read]);
    let moved = at(PAGE_SIZE + PAGE_HEADER_SIZE, 2 * PAGE_SIZE);
    test.run(moved);
    let value = cookie_to_test_value(moved.read);
    assert!(value > 0);
    assert!(
        test.read_done(
            (MAGIC + value).to_be_bytes().to_vec(),
            BUFFER_LEN,
            ReturnCode::SUCCESS
        )
        .set_alarm
    );
}

#[test]
fn bad_requests_must_fail() {
    let start = at(PAGE_HEADER_SIZE, PAGE_HEADER_SIZE);
    let buffer = vec![0; BUFFER_LEN];

    let mut test = fresh(vec![TestOp::BadRead]);
    match test.run(start).request {
        Some(Request::Read { length, .. }) => assert_eq!(length, BUFFER_LEN + 1),
        other => panic!("{:?}", other),
    }
    assert_eq!(
        failure(test.read_done(buffer.clone(), BUFFER_LEN, ReturnCode::SUCCESS)),
        TestFailure::ReadSucceeded
    );
    let mut test = fresh(vec![TestOp::BadRead]);
    test.run(start);
    assert_eq!(
        failure(test.read_refused(ReturnCode::ESIZE, buffer.clone(), start)),
        TestFailure::WrongError(ReturnCode::ESIZE)
    );
    let mut test = fresh(vec![TestOp::BadRead]);
    test.run(start);
    match test.read_refused(ReturnCode::EINVAL, buffer.clone(), start).request {
        Some(Request::Read { length, .. }) => assert_eq!(length, BUFFER_LEN - 1),
        other => panic!("{:?}", other),
    }
    // With nothing to read, the read must fail for that reason.
    assert_eq!(
        failure(test.read_refused(ReturnCode::ESIZE, buffer.clone(), start)),
        TestFailure::WrongError(ReturnCode::ESIZE)
    );

    let mut test = fresh(vec![TestOp::BadWrite]);
    match test.run(start).request {
        Some(Request::Append { length, .. }) => assert_eq!(length, 0),
        other => panic!("{:?}", other),
    }
    match test.append_refused(ReturnCode::EINVAL, buffer.clone(), start).request {
        Some(Request::Append { length, .. }) => assert_eq!(length, BUFFER_LEN + 1),
        other => panic!("{:?}", other),
    }
    let large = match test.append_refused(ReturnCode::EINVAL, buffer.clone(), start).request {
        Some(Request::Append { buffer, length }) => {
            assert_eq!(buffer, vec![0; 520]);
            assert_eq!(length, 520);
            buffer
        }
        other => panic!("{:?}", other),
    };
    let moved = at(PAGE_HEADER_SIZE, PAGE_HEADER_SIZE + 1);
    assert_eq!(
        failure(test.append_refused(ReturnCode::ESIZE, large, moved)),
        TestFailure::OffsetMoved
    );
    let mut test = fresh(vec![TestOp::BadWrite]);
    test.run(start);
    assert_eq!(
        failure(test.append_done(buffer.clone())),
        TestFailure::WriteSucceeded
    );
    let mut test = fresh(vec![TestOp::Write]);
    test.run(start);
    assert_eq!(
        failure(test.append_refused(ReturnCode::FAIL, buffer.clone(), start)),
        TestFailure::WriteFailed(ReturnCode::FAIL)
    );

    let bad_seek = TestOp::BadSeek(StorageCookie::Cookie(0));
    let mut test = fresh(vec![bad_seek]);
    test.run(start);
    assert_eq!(
        failure(test.seek_done(ReturnCode::SUCCESS, start)),
        TestFailure::SeekSucceeded
    );
    let mut test = fresh(vec![bad_seek]);
    test.run(start);
    assert_eq!(
        failure(test.seek_refused(ReturnCode::ERESERVE, start)),
        TestFailure::WrongError(ReturnCode::ERESERVE)
    );
    let mut test = fresh(vec![bad_seek]);
    test.run(start);
    assert_eq!(
        failure(test.seek_refused(ReturnCode::EINVAL, at(0, PAGE_HEADER_SIZE))),
        TestFailure::OffsetMoved
    );
}

#[test]
fn other_failures_are_found() {
    let start = at(PAGE_HEADER_SIZE, PAGE_HEADER_SIZE);
    let mut test = fresh(vec![TestOp::Sync]);
    test.run(start);
    assert_eq!(
        failure(test.sync_refused(ReturnCode::EBUSY)),
        TestFailure::SyncFailed(ReturnCode::EBUSY)
    );
    assert_eq!(
        failure(test.sync_done(ReturnCode::FAIL, start)),
        TestFailure::SyncFailed(ReturnCode::FAIL)
    );
    let mut test = fresh(vec![TestOp::Seek(StorageCookie::SeekBeginning)]);
    test.run(start);
    assert_eq!(
        failure(test.seek_refused(ReturnCode::ERESERVE, start)),
        TestFailure::SeekFailed(ReturnCode::ERESERVE)
    );
    assert_eq!(
        failure(test.seek_done(ReturnCode::FAIL, start)),
        TestFailure::SeekFailed(ReturnCode::FAIL)
    );
    let mut test = fresh(Vec::new());
    test.button_pressed();
    assert!(test.erase_refused(ReturnCode::EBUSY).set_alarm);
    assert_eq!(
        failure(test.erase_refused(ReturnCode::FAIL)),
        TestFailure::EraseFailed(ReturnCode::FAIL)
    );
    assert!(test.erase_done(ReturnCode::EBUSY, &[0xFF], start).set_alarm);
    assert_eq!(
        failure(test.erase_done(ReturnCode::SUCCESS, &[0xFF, 0xFF, 0, 1], start)),
        TestFailure::NotErased(2)
    );
    match test.erase_done(ReturnCode::SUCCESS, &[0xFF, 0xFF], start).request {
        Some(Request::Read { length, .. }) => assert_eq!(length, BUFFER_LEN),
        other => panic!("{:?}", other),
    }
    // The empty log gave an entry.
    assert_eq!(
        failure(test.read_done(vec![0; BUFFER_LEN], BUFFER_LEN, ReturnCode::SUCCESS)),
        TestFailure::ReadSucceeded
    );
}
