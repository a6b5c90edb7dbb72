//! Storage of blocks on flash. No operation is supported yet.

use crate::return_code::ReturnCode;
use vstd::prelude::*;

verus! {

/// Block storage on a flash device.
pub struct BlockStorage<'a, F> {
    pub flash: &'a F,
}

impl<'a, F> BlockStorage<'a, F> {
    pub fn new(flash: &'a F) -> (storage: BlockStorage<'a, F>)
        ensures
            storage.flash == flash,
    {
        BlockStorage { flash }
    }

    pub fn read(addr: usize, buf: &mut [u8], len: usize) -> (result: ReturnCode)
        ensures
            result == ReturnCode::ENOSUPPORT,
            final(buf)@ == old(buf)@,
    {
        ReturnCode::ENOSUPPORT
    }

    pub fn write(addr: usize, buf: &mut [u8], len: usize) -> (result: ReturnCode)
        ensures
            result == ReturnCode::ENOSUPPORT,
            final(buf)@ == old(buf)@,
    {
        ReturnCode::ENOSUPPORT
    }

    pub fn erase() -> (result: ReturnCode)
        ensures
            result == ReturnCode::ENOSUPPORT,
    {
        ReturnCode::ENOSUPPORT
    }

    pub fn sync() -> (result: ReturnCode)
        ensures
            result == ReturnCode::ENOSUPPORT,
    {
        ReturnCode::ENOSUPPORT
    }

    pub fn compute_crc(addr: usize, len: usize, crc: u16) -> (result: ReturnCode)
        ensures
            result == ReturnCode::ENOSUPPORT,
    {
        ReturnCode::ENOSUPPORT
    }

    pub fn get_size() -> (size: usize)
        ensures
            size == 0,
    {
        0
    }
}

/// What block storage calls when an operation has completed.
pub trait BlockStorageClient {
    fn read_complete(&self, read_buffer: Vec<u8>, error: ReturnCode);

    fn write_complete(&self, write_buffer: Vec<u8>, error: ReturnCode);

    fn erase_complete(&self, error: ReturnCode);

    fn sync_complete(&self, error: ReturnCode);

    fn compute_crc_complete(&self, crc: u16, error: ReturnCode);
}

} // verus!
