//! The spooled buffer: a store of bytes that is written, rewound and then read back, and that
//! moves from memory to a temporary file once it grows beyond a ceiling.
//!
//! The store itself is `tempfile::SpooledTempFile`. What this module states of it is believed,
//! not proved; what it builds on that is proved.

use std::io::{Read, Seek, SeekFrom, Write};
use vstd::prelude::*;

verus! {

/// The ceiling up to which a spooled buffer stays in memory: 32 MiB.
pub const MAX_ASSET_MEM: usize = 32 * 1024 * 1024;

/// `tempfile::SpooledTempFile`, of which nothing is known but what is stated below.
#[verifier::external_type_specification]
#[verifier::external_body]
pub struct ExSpooledTempFile(tempfile::SpooledTempFile);

/// `std::io::Error`, which is only carried through.
#[verifier::external_type_specification]
#[verifier::external_body]
pub struct ExIoError(std::io::Error);

/// The bytes that a spooled file holds, from its start to its end.
pub uninterp spec fn spooled_bytes(file: tempfile::SpooledTempFile) -> Seq<u8>;

/// The place in a spooled file at which the next read or write happens.
pub uninterp spec fn spooled_pos(file: tempfile::SpooledTempFile) -> nat;

/// Whether a spooled file has moved to disk.
pub uninterp spec fn spooled_rolled(file: tempfile::SpooledTempFile) -> bool;

/// The ceiling that a spooled file was made with.
pub uninterp spec fn spooled_limit(file: tempfile::SpooledTempFile) -> nat;

/// `tempfile::spooled_tempfile`: a new spooled file with the ceiling `limit`. It is empty and
/// in memory, and its place is its start.
#[verifier::external_body]
fn spooled_tempfile(limit: usize) -> (file: tempfile::SpooledTempFile)
    ensures
        spooled_bytes(file) == Seq::<u8>::empty(),
        spooled_pos(file) == 0,
        !spooled_rolled(file),
        spooled_limit(file) == limit,
{
    tempfile::spooled_tempfile(limit)
}

/// `Write::write_all` on a spooled file. Where it succeeds on a file whose place is its end,
/// the file holds `data` after what it held, and its place is its new end. A write that is
/// not empty moves a file in memory to disk where its place and the length of `data` together
/// exceed the ceiling, and only then.
#[verifier::external_body]
fn spooled_write_all(file: &mut tempfile::SpooledTempFile, data: &[u8]) -> (done: Result<
    (),
    std::io::Error,
>)
    ensures
        spooled_limit(*final(file)) == spooled_limit(*old(file)),
        done is Ok && spooled_pos(*old(file)) == spooled_bytes(*old(file)).len() ==> {
            &&& spooled_bytes(*final(file)) == spooled_bytes(*old(file)) + data@
            &&& spooled_pos(*final(file)) == spooled_bytes(*final(file)).len()
            &&& spooled_rolled(*final(file)) == (spooled_rolled(*old(file)) || (data@.len() > 0
                && spooled_pos(*old(file)) + data@.len() > spooled_limit(*old(file))))
        },
{
    file.write_all(data)
}

/// `Seek::seek` on a spooled file, to its start. Where it succeeds, the place of the file is
/// its start, and nothing else has changed.
#[verifier::external_body]
fn spooled_rewind(file: &mut tempfile::SpooledTempFile) -> (done: Result<(), std::io::Error>)
    ensures
        spooled_limit(*final(file)) == spooled_limit(*old(file)),
        done is Ok ==> {
            &&& spooled_bytes(*final(file)) == spooled_bytes(*old(file))
            &&& spooled_pos(*final(file)) == 0
            &&& spooled_rolled(*final(file)) == spooled_rolled(*old(file))
        },
{
    file.seek(SeekFrom::Start(0)).map(|_| ())
}

/// `Read::read` on a spooled file, into a buffer of `limit` bytes. Where it succeeds on a
/// file whose place is within it, it hands out the bytes that follow the place, at most
/// `limit` of them, and moves the place behind them. It hands out none only where `limit` is
/// zero or the place is the end.
#[verifier::external_body]
fn spooled_read(file: &mut tempfile::SpooledTempFile, limit: usize) -> (got: Result<
    Vec<u8>,
    std::io::Error,
>)
    ensures
        spooled_limit(*final(file)) == spooled_limit(*old(file)),
        got is Ok && spooled_pos(*old(file)) <= spooled_bytes(*old(file)).len() ==> {
            let data = got->Ok_0@;
            let pos = spooled_pos(*old(file)) as int;
            &&& data.len() <= limit
            &&& pos + data.len() <= spooled_bytes(*old(file)).len()
            &&& data == spooled_bytes(*old(file)).subrange(pos, pos + data.len())
            &&& data.len() == 0 ==> limit == 0 || pos == spooled_bytes(*old(file)).len()
            &&& spooled_bytes(*final(file)) == spooled_bytes(*old(file))
            &&& spooled_pos(*final(file)) == pos + data.len()
            &&& spooled_rolled(*final(file)) == spooled_rolled(*old(file))
        },
{
    let mut buffer = vec![0u8; limit];
    let n = file.read(&mut buffer)?;
    buffer.truncate(n);
    Ok(buffer)
}

/// `Read::read_to_end` on a spooled file. Where it succeeds on a file whose place is within
/// it, it hands out all the bytes that follow the place, and the place is the end.
#[verifier::external_body]
fn spooled_read_to_end(file: &mut tempfile::SpooledTempFile) -> (got: Result<
    Vec<u8>,
    std::io::Error,
>)
    ensures
        spooled_limit(*final(file)) == spooled_limit(*old(file)),
        got is Ok && spooled_pos(*old(file)) <= spooled_bytes(*old(file)).len() ==> {
            &&& got->Ok_0@ == spooled_bytes(*old(file)).skip(spooled_pos(*old(file)) as int)
            &&& spooled_bytes(*final(file)) == spooled_bytes(*old(file))
            &&& spooled_pos(*final(file)) == spooled_bytes(*old(file)).len()
            &&& spooled_rolled(*final(file)) == spooled_rolled(*old(file))
        },
{
    let mut buffer = Vec::new();
    file.read_to_end(&mut buffer)?;
    Ok(buffer)
}

/// `SpooledTempFile::is_rolled`: whether the file has moved to disk.
#[verifier::external_body]
fn spooled_is_rolled(file: &tempfile::SpooledTempFile) -> (rolled: bool)
    ensures
        rolled == spooled_rolled(*file),
{
    file.is_rolled()
}

/// What went wrong with a spooled buffer.
#[derive(Debug)]
pub enum SpoolError {
    /// The bytes could not be written.
    Write(std::io::Error),
    /// The buffer could not be rewound.
    Seek(std::io::Error),
    /// The bytes could not be read.
    Read(std::io::Error),
}

/// A spooled buffer: bytes that are written one after the other, and read back from the
/// start once the buffer has been rewound.
pub struct SpooledBuffer {
    file: tempfile::SpooledTempFile,
}

impl View for SpooledBuffer {
    type V = Seq<u8>;

    /// The bytes that the buffer holds.
    closed spec fn view(&self) -> Seq<u8> {
        spooled_bytes(self.file)
    }
}

impl SpooledBuffer {
    /// The place at which the next read or write happens.
    pub closed spec fn position(&self) -> nat {
        spooled_pos(self.file)
    }

    /// Whether the buffer has moved from memory to a temporary file.
    pub closed spec fn spilled(&self) -> bool {
        spooled_rolled(self.file)
    }

    /// The ceiling up to which the buffer stays in memory.
    pub closed spec fn ceiling(&self) -> nat {
        spooled_limit(self.file)
    }

    /// Whether the place of the buffer is its end, as it is while the buffer is written.
    pub open spec fn at_end(&self) -> bool {
        self.position() == self@.len()
    }

    /// An empty buffer, in memory, with the ceiling [`MAX_ASSET_MEM`].
    pub fn new() -> (buffer: Self)
        ensures
            buffer@ == Seq::<u8>::empty(),
            buffer.position() == 0,
            !buffer.spilled(),
            buffer.ceiling() == MAX_ASSET_MEM,
    {
        SpooledBuffer { file: spooled_tempfile(MAX_ASSET_MEM) }
    }

    /// Writes `data` behind what the buffer holds. The buffer moves to a temporary file when
    /// it grows beyond its ceiling, and keeps all its bytes in their order.
    pub fn write(&mut self, data: &[u8]) -> (done: Result<(), SpoolError>)
        ensures
            final(self).ceiling() == old(self).ceiling(),
            done is Ok && old(self).at_end() ==> {
                &&& final(self)@ == old(self)@ + data@
                &&& final(self).at_end()
                &&& final(self).spilled() == (old(self).spilled() || (data@.len() > 0 && old(
                    self,
                )@.len() + data@.len() > old(self).ceiling()))
            },
            done is Err ==> done->Err_0 is Write,
    {
        match spooled_write_all(&mut self.file, data) {
            Ok(()) => Ok(()),
            Err(error) => Err(SpoolError::Write(error)),
        }
    }

    /// Moves the place of the buffer to its start, for reading.
    pub fn rewind(&mut self) -> (done: Result<(), SpoolError>)
        ensures
            final(self).ceiling() == old(self).ceiling(),
            done is Ok ==> {
                &&& final(self)@ == old(self)@
                &&& final(self).position() == 0
                &&& final(self).spilled() == old(self).spilled()
            },
            done is Err ==> done->Err_0 is Seek,
    {
        match spooled_rewind(&mut self.file) {
            Ok(()) => Ok(()),
            Err(error) => Err(SpoolError::Seek(error)),
        }
    }

    /// Reads the bytes that follow the place of the buffer, at most `limit` of them, and moves
    /// the place behind them. With a `limit` above zero it hands out no byte only at the end.
    pub fn read(&mut self, limit: usize) -> (got: Result<Vec<u8>, SpoolError>)
        ensures
            final(self).ceiling() == old(self).ceiling(),
            got is Ok && old(self).position() <= old(self)@.len() ==> {
                let data = got->Ok_0@;
                let pos = old(self).position() as int;
                &&& data.len() <= limit
                &&& pos + data.len() <= old(self)@.len()
                &&& data == old(self)@.subrange(pos, pos + data.len())
                &&& data.len() == 0 ==> limit == 0 || pos == old(self)@.len()
                &&& final(self)@ == old(self)@
                &&& final(self).position() == pos + data.len()
                &&& final(self).spilled() == old(self).spilled()
            },
            got is Err ==> got->Err_0 is Read,
    {
        match spooled_read(&mut self.file, limit) {
            Ok(data) => Ok(data),
            Err(error) => Err(SpoolError::Read(error)),
        }
    }

    /// Reads all the bytes that follow the place of the buffer.
    pub fn read_to_end(&mut self) -> (got: Result<Vec<u8>, SpoolError>)
        ensures
            final(self).ceiling() == old(self).ceiling(),
            got is Ok && old(self).position() <= old(self)@.len() ==> {
                &&& got->Ok_0@ == old(self)@.skip(old(self).position() as int)
                &&& final(self)@ == old(self)@
                &&& final(self).at_end()
                &&& final(self).spilled() == old(self).spilled()
            },
            got is Err ==> got->Err_0 is Read,
    {
        match spooled_read_to_end(&mut self.file) {
            Ok(data) => Ok(data),
            Err(error) => Err(SpoolError::Read(error)),
        }
    }

    /// Whether the buffer has moved from memory to a temporary file.
    pub fn is_spilled(&self) -> (spilled: bool)
        ensures
            spilled == self.spilled(),
    {
        spooled_is_rolled(&self.file)
    }

    /// A buffer that holds `data` and is ready to be read from its start. It is in memory
    /// where `data` fits under the ceiling, and in a temporary file where it does not.
    pub fn holding(data: &[u8]) -> (made: Result<SpooledBuffer, SpoolError>)
        ensures
            made is Ok ==> {
                &&& made->Ok_0@ == data@
                &&& made->Ok_0.position() == 0
                &&& made->Ok_0.spilled() == (data@.len() > MAX_ASSET_MEM)
            },
            made is Err ==> made->Err_0 is Write || made->Err_0 is Seek,
    {
        let mut buffer = SpooledBuffer::new();
        match buffer.write(data) {
            Ok(()) => {},
            Err(error) => {
                return Err(error);
            },
        }
        match buffer.rewind() {
            Ok(()) => {},
            Err(error) => {
                return Err(error);
            },
        }
        assert(buffer@ =~= data@);
        Ok(buffer)
    }
}

} // verus!
