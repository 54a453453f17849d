//! A disk image, as sectors that can be read and written.

use vstd::prelude::*;
use crate::device::BLOCK_SIZE;

verus! {

/// Why an operation on a volume failed.
#[derive(Debug, Clone, Copy, PartialEq, Eq, Structural)]
pub enum DiskError {
    /// The image ends before the sector does.
    UnexpectedEnd,
    InvalidName,
    DiskFull,
    NoFreeSlot,
    NotFormatted,
}

/// The text that tells a user what went wrong.
pub open spec fn error_text(e: DiskError) -> Seq<char> {
    match e {
        DiskError::UnexpectedEnd => "failed to fill whole buffer"@,
        DiskError::InvalidName => "Filename must be 1 to 21 bytes"@,
        DiskError::DiskFull => "No free clusters available (Disk Full)"@,
        DiskError::NoFreeSlot => "No free directory slots left"@,
        DiskError::NotFormatted => "Disk is not formatted with KAGFAT16"@,
    }
}

impl DiskError {
    /// The text that tells a user what went wrong.
    pub fn message(self) -> (s: &'static str)
        ensures
            s@ == error_text(self),
    {
        match self {
            DiskError::UnexpectedEnd => "failed to fill whole buffer",
            DiskError::InvalidName => "Filename must be 1 to 21 bytes",
            DiskError::DiskFull => "No free clusters available (Disk Full)",
            DiskError::NoFreeSlot => "No free directory slots left",
            DiskError::NotFormatted => "Disk is not formatted with KAGFAT16",
        }
    }
}

pub type DiskResult<T> = Result<T, DiskError>;

/// One write that was carried out.
pub struct DiskWrite {
    pub offset: u64,
    pub data: Vec<u8>,
}

/// A disk image, and the writes that were made to it since it was loaded.
pub struct Disk {
    pub image: Vec<u8>,
    pub writes: Vec<DiskWrite>,
}

/// The mathematical value of a [`Disk`].
#[verifier::ext_equal]
pub struct DiskState {
    pub bytes: Seq<u8>,
    pub writes: Seq<(u64, Seq<u8>)>,
}

impl View for Disk {
    type V = DiskState;

    open spec fn view(&self) -> DiskState {
        DiskState {
            bytes: self.image@,
            writes: self.writes@.map_values(|w: DiskWrite| (w.offset, w.data@)),
        }
    }
}

/// The image `bytes` with `data` written at `offset`; a gap behind the old end
/// is filled with zero bytes.
pub open spec fn overwrite(bytes: Seq<u8>, offset: int, data: Seq<u8>) -> Seq<u8> {
    Seq::new(
        if bytes.len() >= offset + data.len() {
            bytes.len()
        } else {
            (offset + data.len()) as nat
        },
        |i: int|
            if offset <= i < offset + data.len() {
                data[i - offset]
            } else if i < bytes.len() {
                bytes[i]
            } else {
                0
            },
    )
}

impl DiskState {
    /// The sector `lba` lies inside the image.
    pub open spec fn readable(self, lba: int) -> bool {
        (lba + 1) * BLOCK_SIZE <= self.bytes.len()
    }

    /// The sector `lba`.
    pub open spec fn sector(self, lba: int) -> Seq<u8> {
        self.bytes.subrange(lba * BLOCK_SIZE, (lba + 1) * BLOCK_SIZE)
    }

    /// The state after `data` was written from the sector `lba` on.
    pub open spec fn write(self, lba: int, data: Seq<u8>) -> DiskState {
        DiskState {
            bytes: overwrite(self.bytes, lba * BLOCK_SIZE, data),
            writes: self.writes.push(((lba * BLOCK_SIZE) as u64, data)),
        }
    }
}

impl Disk {
    /// A disk that holds `image`.
    pub fn new(image: Vec<u8>) -> (d: Disk)
        ensures
            d@ == (DiskState { bytes: image@, writes: Seq::empty() }),
    {
        let d = Disk { image, writes: Vec::new() };
        assert(d@.writes == Seq::<(u64, Seq<u8>)>::empty());
        d
    }

    /// Reads the sector `lba`.
    pub fn read_block(&self, lba: u64, buf: &mut [u8; 512]) -> (r: DiskResult<()>)
        requires
            lba * BLOCK_SIZE <= u64::MAX,
        ensures
            r == (if self@.readable(lba as int) {
                Ok(())
            } else {
                Err(DiskError::UnexpectedEnd)
            }),
            r is Ok ==> final(buf)@ == self@.sector(lba as int),
    {
        let start: u64 = lba * BLOCK_SIZE as u64;
        let len: u64 = self.image.len() as u64;
        if start > len || len - start < BLOCK_SIZE as u64 {
            return Err(DiskError::UnexpectedEnd);
        }
        let from: usize = start as usize;
        let mut i: usize = 0;
        while i < BLOCK_SIZE
            invariant
                i <= BLOCK_SIZE,
                from == lba * BLOCK_SIZE,
                from + BLOCK_SIZE <= self.image.len(),
                forall|j: int| 0 <= j < i ==> buf@[j] == self.image@[from + j],
            decreases BLOCK_SIZE - i,
        {
            buf[i] = self.image[from + i];
            i += 1;
        }
        assert(buf@ =~= self@.sector(lba as int));
        Ok(())
    }

    /// Writes `buf` from the sector `lba` on.
    pub fn write_blocks(&mut self, lba: u64, buf: &[u8])
        requires
            lba * BLOCK_SIZE + buf@.len() <= usize::MAX,
        ensures
            final(self)@ == old(self)@.write(lba as int, buf@),
    {
        let offset: usize = lba as usize * BLOCK_SIZE;
        assert(buf.len() == buf@.len());
        let end: usize = offset + buf.len();
        let ghost bytes = self.image@;
        while self.image.len() < end
            invariant
                bytes.len() <= self.image@.len(),
                self.image@.len() <= end || self.image@.len() == bytes.len(),
                forall|j: int|
                    0 <= j < self.image@.len() ==> self.image@[j] == (if j < bytes.len() {
                        bytes[j]
                    } else {
                        0
                    }),
                self.writes == old(self).writes,
            decreases end - self.image.len(),
        {
            self.image.push(0);
        }
        let ghost grown = self.image@;
        let mut i: usize = 0;
        while i < buf.len()
            invariant
                i <= buf@.len(),
                end == offset + buf@.len() <= self.image@.len(),
                self.image@.len() == grown.len(),
                forall|j: int|
                    0 <= j < self.image@.len() ==> self.image@[j] == (if offset <= j < offset + i {
                        buf@[j - offset]
                    } else {
                        grown[j]
                    }),
                self.writes == old(self).writes,
            decreases buf@.len() - i,
        {
            self.image.set(offset + i, buf[i]);
            i += 1;
        }
        assert(self.image@ =~= overwrite(bytes, offset as int, buf@));
        let mut data: Vec<u8> = Vec::new();
        data.extend_from_slice(buf);
        assert(data@ =~= buf@);
        let ghost before = self.writes@;
        self.writes.push(DiskWrite { offset: offset as u64, data });
        assert(self@.writes =~= old(self)@.writes.push((offset as u64, buf@)));
    }

    /// Writes the sector `lba`.
    pub fn write_block(&mut self, lba: u64, buf: &[u8; 512])
        requires
            lba * BLOCK_SIZE + BLOCK_SIZE <= usize::MAX,
        ensures
            final(self)@ == old(self)@.write(lba as int, buf@),
    {
        self.write_blocks(lba, buf);
    }
}

/// What a user is told of each error.
pub proof fn law_error_texts()
    ensures
        error_text(DiskError::InvalidName) == "Filename must be 1 to 21 bytes"@,
        error_text(DiskError::DiskFull) == "No free clusters available (Disk Full)"@,
        error_text(DiskError::NoFreeSlot) == "No free directory slots left"@,
        error_text(DiskError::NotFormatted) == "Disk is not formatted with KAGFAT16"@,
        error_text(DiskError::UnexpectedEnd) == "failed to fill whole buffer"@,
{
}

} // verus!
