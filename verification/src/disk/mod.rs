//! Raw disk access: the reader interface that every scanner reads through,
//! and an in-memory disk image.
pub mod paths;
pub mod stub;

use vstd::prelude::*;

verus! {

/// Why a disk could not be opened or read.
#[derive(Debug)]
pub struct DiskError {
    pub message: String,
}

/// A drive that can be scanned.
#[derive(Clone, Debug)]
pub struct DriveInfo {
    pub path: String,
    pub label: String,
    pub size: u64,
    pub filesystem: String,
    pub removable: bool,
}

/// Whether `got` is what a read at `offset` of the disk `disk` may give back:
/// nothing, or the disk's bytes from `offset` on.
pub open spec fn read_back(disk: Seq<u8>, offset: int, got: Seq<u8>) -> bool {
    got.len() == 0 || (0 <= offset && offset + got.len() <= disk.len() && got == disk.subrange(
        offset,
        offset + got.len(),
    ))
}

/// Whether `b` is what reading a sector of `len` bytes at the start of
/// `disk` into a zeroed buffer leaves there: a prefix read from the disk,
/// zeros after it.
pub open spec fn sector_read(disk: Seq<u8>, b: Seq<u8>, len: int) -> bool {
    &&& b.len() == len
    &&& exists|k: int| 0 <= k <= len && #[trigger] read_back(disk, 0, b.take(k)) && forall|j: int| k <= j < len ==> b[j] == 0
}

/// The boot sector that a whole read of 512 bytes at the start of `disk`
/// leaves in a zeroed buffer: the disk's first bytes, zeros past its end.
pub open spec fn boot_sector(disk: Seq<u8>) -> Seq<u8> {
    Seq::new(512, |j: int| if j < disk.len() { disk[j] } else { 0u8 })
}

/// A whole read of 512 bytes at the start of the disk into a zeroed buffer
/// leaves the boot sector there.
pub proof fn lemma_whole_boot_sector(disk: Seq<u8>, b: Seq<u8>, n: int)
    requires
        b.len() == 512,
        n == whole_len(disk.len() as int, 0, 512),
        read_back(disk, 0, b.take(n)),
        forall|j: int| n <= j < 512 ==> b[j] == 0,
    ensures
        b == boot_sector(disk),
{
    assert forall|j: int| 0 <= j < 512 implies b[j] == boot_sector(disk)[j] by {
        if j < n {
            assert(b[j] == b.take(n)[j]);
        }
    }
    assert(b =~= boot_sector(disk));
}

/// How many bytes a whole read of `buf_len` bytes at `offset` gives on a
/// disk of `len` bytes: what the disk holds from `offset` on, at most
/// `buf_len`.
pub open spec fn whole_len(len: int, offset: int, buf_len: int) -> int {
    if offset >= len {
        0
    } else if buf_len <= len - offset {
        buf_len
    } else {
        len - offset
    }
}

/// What a whole read of `buf_len` bytes at `offset` of `disk` gives.
pub open spec fn whole_read(disk: Seq<u8>, offset: int, buf_len: int) -> Seq<u8> {
    if offset >= disk.len() {
        seq![]
    } else {
        disk.subrange(offset, offset + whole_len(disk.len() as int, offset, buf_len))
    }
}

/// Random-access reads of a raw disk. `contents` is the disk's bytes; a read
/// leaves them as they are.
pub trait DiskReader {
    /// The bytes of the disk. A reader that does not say what they are has
    /// some bytes that nothing here knows.
    open spec fn contents(&self) -> Seq<u8> {
        vstd::pervasive::arbitrary()
    }

    /// Whether every read succeeds and fills as much of the buffer as the
    /// disk holds from the offset on, as reading an image in memory does. A
    /// reader that does not say so promises nothing of the kind.
    open spec fn reads_whole(&self) -> bool {
        false
    }

    /// Reads at `offset` into the front of `buf` and says how many bytes it
    /// filled: those bytes are the disk's, and the rest of `buf` is left as
    /// it was. A read may fill fewer bytes than `buf` holds, except on a
    /// reader that reads whole.
    fn read_at(&mut self, offset: u64, buf: &mut Vec<u8>) -> (r: Result<usize, DiskError>)
        ensures
            final(self).contents() == old(self).contents(),
            final(self).reads_whole() == old(self).reads_whole(),
            old(self).reads_whole() ==> old(self).contents().len() <= u64::MAX,
            old(self).reads_whole() ==> (r matches Ok(n) && n == whole_len(
                old(self).contents().len() as int,
                offset as int,
                old(buf)@.len() as int,
            )),
            final(buf)@.len() == old(buf)@.len(),
            r matches Ok(n) ==> {
                &&& n <= old(buf)@.len()
                &&& read_back(old(self).contents(), offset as int, final(buf)@.take(n as int))
                &&& final(buf)@.skip(n as int) == old(buf)@.skip(n as int)
            },
    ;

    /// The size of the disk in bytes, as the device reports it; on a reader
    /// that reads whole, the length of its contents.
    fn size(&self) -> (s: u64)
        ensures
            self.reads_whole() ==> s == self.contents().len(),
    ;

    /// The size of a sector in bytes, as the device reports it.
    fn sector_size(&self) -> u32;
}

/// A disk held in memory, as a disk image is.
pub struct MemDisk(pub Vec<u8>);

impl DiskReader for MemDisk {
    open spec fn contents(&self) -> Seq<u8> {
        self.0@
    }

    open spec fn reads_whole(&self) -> bool {
        true
    }

    fn read_at(&mut self, offset: u64, buf: &mut Vec<u8>) -> (r: Result<usize, DiskError>)
        ensures
            r matches Ok(n) && n == if offset >= old(self).0@.len() { 0 } else {
                vstd::math::min(old(buf)@.len() as int, old(self).0@.len() - offset)
            },
    {
        let len = self.0.len();
        if offset >= len as u64 {
            return Ok(0);
        }
        let start = offset as usize;
        let avail = len - start;
        let n = if buf.len() < avail { buf.len() } else { avail };
        let mut i: usize = 0;
        while i < n
            invariant
                i <= n,
                n <= buf@.len(),
                start + n <= self.0@.len(),
                len == self.0@.len(),
                start == offset,
                buf@.len() == old(buf)@.len(),
                forall|k: int| 0 <= k < i ==> buf@[k] == self.0@[start + k],
                forall|k: int| n <= k < buf@.len() ==> buf@[k] == old(buf)@[k],
            decreases n - i,
        {
            buf.set(i, self.0[start + i]);
            i = i + 1;
        }
        assert(buf@.take(n as int) =~= self.0@.subrange(offset as int, offset + n));
        assert(buf@.skip(n as int) =~= old(buf)@.skip(n as int));
        Ok(n)
    }

    fn size(&self) -> (s: u64)
        ensures
            s == self.0@.len(),
    {
        self.0.len() as u64
    }

    fn sector_size(&self) -> (s: u32)
        ensures
            s == 512,
    {
        512
    }
}

} // verus!
