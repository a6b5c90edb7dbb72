//! Interfaces of log storage.
//!
//! A log is driven by events: the caller hands it requests and what the flash
//! controller reported, and the log hands back what is to be done next, be it a
//! page to write or a call to make to its client.

use crate::return_code::ReturnCode;
use vstd::prelude::*;

verus! {

/// A position in a log.
#[derive(Clone, Copy, Debug, PartialEq, Eq, Structural)]
pub enum StorageCookie {
    /// The oldest entry that the log still holds.
    SeekBeginning,
    /// A position that the log handed out.
    Cookie(usize),
}

/// A number of bytes in storage.
pub type StorageLen = usize;

/// Arguments of a client's `read_done` call.
#[derive(Debug)]
pub struct ReadDone {
    pub buffer: Vec<u8>,
    pub length: StorageLen,
    pub error: ReturnCode,
}

/// Arguments of a client's `append_done` call.
#[derive(Debug)]
pub struct AppendDone {
    pub buffer: Vec<u8>,
    pub length: StorageLen,
    pub records_lost: bool,
    pub error: ReturnCode,
}

/// A page that the flash controller is to write.
#[derive(Debug)]
pub struct PageWrite {
    pub page_number: usize,
    pub page: Vec<u8>,
}

/// What an accepted append leads to.
#[derive(Debug)]
pub enum AppendStep {
    /// The entry was appended: make the `append_done` call.
    Done(AppendDone),
    /// A page has to be written first: start the write, and report whether the
    /// flash controller accepted it.
    Flush(PageWrite),
}

/// What a completed page write leads to.
#[derive(Debug)]
pub enum WriteStep {
    /// Make the `append_done` call.
    Append(AppendDone),
    /// Make the `sync_done` call with this code.
    Sync(ReturnCode),
}

/// What a completed page erase leads to.
#[derive(Clone, Copy, Debug, PartialEq, Eq, Structural)]
pub enum EraseStep {
    /// The log is erased: make the `erase_done` call, if there is a client.
    Done,
    /// Erase the page with this number next, and report whether the flash
    /// controller accepted it.
    Next(usize),
}

/// Outcome that the flash controller reports of an operation.
#[derive(Clone, Copy, Debug, PartialEq, Eq, Structural)]
pub enum FlashError {
    /// Success.
    CommandComplete,
    /// The operation failed.
    FlashError,
}

pub trait HasClient<'a, C> {
    /// The client that was set last.
    spec fn client_view(&self) -> Option<&'a C>;

    /// Set the client for a storage interface. The client will be called when
    /// operations complete.
    fn set_client(&mut self, client: &'a C)
        ensures
            final(self).client_view() == Some(client),
    ;
}

/// An interface for reading from log storage.
pub trait LogRead {
    /// Whether the log is in a state in which it can be used.
    spec fn read_inv(&self) -> bool;

    /// Whether the entry header and the entry that a read comes to lie within the
    /// storage that holds them, unless the read is refused before.
    spec fn read_in_bounds(
        &self,
        volume: Seq<u8>,
        buffer_len: nat,
        length: StorageLen,
    ) -> bool;

    /// Read log data starting from the current read position.
    fn read(&mut self, volume: &[u8], buffer: Vec<u8>, length: StorageLen) -> (result: Result<
        ReadDone,
        (ReturnCode, Vec<u8>),
    >)
        requires
            old(self).read_inv(),
            old(self).read_in_bounds(volume@, buffer@.len(), length),
    ;

    /// Get cookie representing current read position.
    fn current_read_offset(&self) -> (cookie: StorageCookie)
        requires
            self.read_inv(),
    ;

    /// Seek to a new read position. On success the client's `seek_done` is to be
    /// called.
    fn seek(&mut self, cookie: StorageCookie) -> (status: ReturnCode)
        requires
            old(self).read_inv(),
    ;

    /// Get approximate log capacity in bytes.
    fn get_size(&self) -> (size: StorageLen)
        requires
            self.read_inv(),
    ;
}

/// Receive callbacks from `LogRead`.
pub trait LogReadClient {
    fn read_done(&self, buffer: Vec<u8>, length: StorageLen, error: ReturnCode);

    fn seek_done(&self, error: ReturnCode);
}

/// An interface for writing to log storage.
pub trait LogWrite {
    /// Whether the log is in a state in which it can be used.
    spec fn write_inv(&self) -> bool;

    /// Append bytes to the end of the log.
    fn append(&mut self, buffer: Vec<u8>, length: StorageLen) -> (result: Result<
        AppendStep,
        (ReturnCode, Vec<u8>),
    >)
        requires
            old(self).write_inv(),
    ;

    /// Get cookie representing current append position.
    fn current_append_offset(&self) -> (cookie: StorageCookie)
        requires
            self.write_inv(),
    ;

    /// Erase the entire log. Gives the number of the flash page to erase first.
    fn erase(&self) -> (page_number: usize)
        requires
            self.write_inv(),
    ;

    /// Sync log to storage. Gives the page to write.
    fn sync(&mut self) -> (result: Result<PageWrite, ReturnCode>)
        requires
            old(self).write_inv(),
    ;
}

/// Receive callbacks from `LogWrite`.
pub trait LogWriteClient {
    fn append_done(
        &self,
        buffer: Vec<u8>,
        length: StorageLen,
        records_lost: bool,
        error: ReturnCode,
    );

    fn erase_done(&self, error: ReturnCode);

    fn sync_done(&self, error: ReturnCode);
}

} // verus!
