//! The block device under the file system: one NVMe namespace.
//!
//! A [`BlockDevice`] holds what the controller reports (whether a namespace is
//! active, which sectors transfer without a fault) together with the sector
//! contents, and records every write command in the order in which it was
//! issued, so that the record can be carried out on the hardware.

use vstd::prelude::*;
use crate::fs::{FsError, FsResult};

verus! {

/// Bytes per sector.
pub const BLOCK_SIZE: usize = 512;

/// One sector of the namespace.
#[derive(Clone, Copy)]
pub struct Sector {
    pub data: [u8; 512],
    /// The controller reports a failure for every transfer of this sector.
    pub defective: bool,
}

/// One write command: `data` went to the sectors from `lba` on.
pub struct WriteCommand {
    pub lba: u64,
    pub data: Vec<u8>,
}

/// An NVMe namespace.
pub struct BlockDevice {
    /// Identifier of the active namespace; `None` until the controller is up.
    pub nsid: Option<u32>,
    pub sectors: Vec<Sector>,
    /// The write commands issued so far, oldest first.
    pub log: Vec<WriteCommand>,
}

/// The mathematical state of a [`BlockDevice`].
#[verifier::ext_equal]
pub struct DeviceState {
    /// The active namespace.
    pub nsid: Option<u32>,
    /// The contents of each sector.
    pub blocks: Seq<Seq<u8>>,
    /// Which sectors transfer without a fault.
    pub good: Seq<bool>,
    /// The write commands so far: first sector and bytes.
    pub log: Seq<(u64, Seq<u8>)>,
}

impl DeviceState {
    /// Every sector has its flag and exactly one sector's worth of bytes.
    pub open spec fn wf(self) -> bool {
        &&& self.blocks.len() == self.good.len()
        &&& forall|i: int|
            0 <= i < self.blocks.len() ==> (#[trigger] self.blocks[i]).len() == BLOCK_SIZE
    }

    /// A namespace is active.
    pub open spec fn ready(self) -> bool {
        self.nsid is Some
    }

    /// The sectors `lba .. lba + n` exist and transfer without a fault.
    pub open spec fn reachable(self, lba: int, n: int) -> bool {
        &&& 0 <= lba
        &&& lba + n <= self.blocks.len()
        &&& forall|i: int| lba <= i < lba + n ==> #[trigger] self.good[i]
    }

    /// How a transfer of the sectors `lba .. lba + n` ends.
    pub open spec fn status(self, lba: int, n: int) -> FsResult<()> {
        if !self.ready() {
            Err(FsError::NotReady)
        } else if !self.reachable(lba, n) {
            Err(FsError::DeviceError)
        } else {
            Ok(())
        }
    }

    /// The bytes of the sectors `lba .. lba + n`.
    pub open spec fn bytes(self, lba: int, n: int) -> Seq<u8> {
        Seq::new(
            (n * BLOCK_SIZE) as nat,
            |i: int| self.blocks[lba + i / (BLOCK_SIZE as int)][i % (BLOCK_SIZE as int)],
        )
    }

    /// The state after the sector `lba` was overwritten with `data`.
    pub open spec fn write(self, lba: int, data: Seq<u8>) -> DeviceState {
        DeviceState {
            blocks: self.blocks.update(lba, data),
            log: self.log.push((lba as u64, data)),
            ..self
        }
    }

    /// The state after the `n` sectors from `lba` on were overwritten with
    /// `data` by one command.
    pub open spec fn write_run(self, lba: int, n: int, data: Seq<u8>) -> DeviceState {
        DeviceState {
            blocks: Seq::new(
                self.blocks.len(),
                |b: int|
                    if lba <= b < lba + n {
                        data.subrange((b - lba) * BLOCK_SIZE, (b - lba + 1) * BLOCK_SIZE)
                    } else {
                        self.blocks[b]
                    },
            ),
            log: self.log.push((lba as u64, data)),
            ..self
        }
    }
}

impl View for BlockDevice {
    type V = DeviceState;

    open spec fn view(&self) -> DeviceState {
        DeviceState {
            nsid: self.nsid,
            blocks: self.sectors@.map_values(|s: Sector| s.data@),
            good: self.sectors@.map_values(|s: Sector| !s.defective),
            log: self.log@.map_values(|w: WriteCommand| (w.lba, w.data@)),
        }
    }
}

impl Clone for WriteCommand {
    fn clone(&self) -> (w: WriteCommand)
        ensures
            w.lba == self.lba,
            w.data@ == self.data@,
    {
        let mut data: Vec<u8> = Vec::new();
        data.extend_from_slice(self.data.as_slice());
        assert(data@ =~= self.data@);
        WriteCommand { lba: self.lba, data }
    }
}

impl Clone for BlockDevice {
    fn clone(&self) -> (d: BlockDevice)
        ensures
            d@ == self@,
    {
        let mut sectors: Vec<Sector> = Vec::new();
        let mut i: usize = 0;
        while i < self.sectors.len()
            invariant
                i <= self.sectors@.len(),
                sectors@ == self.sectors@.take(i as int),
            decreases self.sectors@.len() - i,
        {
            sectors.push(self.sectors[i]);
            i += 1;
            assert(sectors@ =~= self.sectors@.take(i as int));
        }
        assert(sectors@ =~= self.sectors@);
        let mut log: Vec<WriteCommand> = Vec::new();
        let mut k: usize = 0;
        while k < self.log.len()
            invariant
                k <= self.log@.len(),
                log@.len() == k,
                forall|j: int|
                    0 <= j < k ==> (#[trigger] log@[j]).lba == self.log@[j].lba && log@[j].data@
                        == self.log@[j].data@,
            decreases self.log@.len() - k,
        {
            log.push(self.log[k].clone());
            k += 1;
        }
        let d = BlockDevice { nsid: self.nsid, sectors, log };
        assert(d@.log =~= self@.log);
        d
    }
}

/// A device always holds whole sectors.
pub proof fn law_whole_sectors(dev: &BlockDevice)
    ensures
        dev@.wf(),
{
}

impl BlockDevice {
    /// Whether the controller transfers the sectors `lba .. lba + count` without
    /// a failure.
    fn reachable(&self, lba: u64, count: u32) -> (ok: bool)
        ensures
            ok == self@.reachable(lba as int, count as int),
    {
        let len: u64 = self.sectors.len() as u64;
        if lba > len || count as u64 > len - lba {
            return false;
        }
        let mut i: u64 = lba;
        while i < lba + count as u64
            invariant
                lba + count <= len == self.sectors.len(),
                lba <= i <= lba + count,
                forall|j: int| lba <= j < i ==> #[trigger] self@.good[j],
            decreases lba + count - i,
        {
            if self.sectors[i as usize].defective {
                assert(!self@.good[i as int]);
                return false;
            }
            i += 1;
        }
        true
    }

    /// Transfers the sectors `lba .. lba + count` into `buffer`.
    ///
    /// An empty buffer stands for the absence of one.
    pub fn read_run(&self, lba: u64, count: u32, buffer: &mut [u8]) -> (r: FsResult<()>)
        requires
            old(buffer)@.len() == 0 || old(buffer)@.len() >= count * BLOCK_SIZE,
        ensures
            r == (if count == 0 || old(buffer)@.len() == 0 {
                Err(FsError::InvalidArgument)
            } else {
                self@.status(lba as int, count as int)
            }),
            final(buffer)@ == (if r is Ok {
                crate::le::splice(old(buffer)@, 0, self@.bytes(lba as int, count as int))
            } else {
                old(buffer)@
            }),
    {
        if count == 0 || buffer.len() == 0 {
            return Err(FsError::InvalidArgument);
        }
        if self.nsid.is_none() {
            return Err(FsError::NotReady);
        }
        if !self.reachable(lba, count) {
            return Err(FsError::DeviceError);
        }
        let ghost before = buffer@;
        let total: usize = count as usize * BLOCK_SIZE;
        assert(buffer.len() == buffer@.len());
        let mut i: usize = 0;
        while i < total
            invariant
                total == count * BLOCK_SIZE,
                i <= total <= buffer@.len() == before.len(),
                lba + count <= self.sectors.len(),
                buffer@ == crate::le::splice(
                    before,
                    0,
                    self@.bytes(lba as int, count as int).subrange(0, i as int),
                ),
            decreases total - i,
        {
            let s: usize = lba as usize + i / BLOCK_SIZE;
            assert(i / BLOCK_SIZE < count);
            buffer[i] = self.sectors[s].data[i % BLOCK_SIZE];
            i += 1;
        }
        assert(self@.bytes(lba as int, count as int).subrange(0, total as int) == self@.bytes(
            lba as int,
            count as int,
        ));
        Ok(())
    }

    /// Transfers the first `count` sectors' worth of `buffer` to the sectors
    /// from `lba` on. A command that fails leaves the namespace as it was.
    ///
    /// An empty buffer stands for the absence of one.
    pub fn write_run(&mut self, lba: u64, count: u32, buffer: &[u8]) -> (r: FsResult<()>)
        requires
            buffer@.len() == 0 || buffer@.len() >= count * BLOCK_SIZE,
        ensures
            r == (if count == 0 || buffer@.len() == 0 {
                Err(FsError::InvalidArgument)
            } else {
                old(self)@.status(lba as int, count as int)
            }),
            final(self)@ == (if r is Ok {
                old(self)@.write_run(
                    lba as int,
                    count as int,
                    buffer@.subrange(0, count * BLOCK_SIZE),
                )
            } else {
                old(self)@
            }),
    {
        if count == 0 || buffer.len() == 0 {
            return Err(FsError::InvalidArgument);
        }
        if self.nsid.is_none() {
            return Err(FsError::NotReady);
        }
        if !self.reachable(lba, count) {
            return Err(FsError::DeviceError);
        }
        let ghost before = self@;
        let ghost data = buffer@.subrange(0, count * BLOCK_SIZE);
        assert(buffer.len() == buffer@.len());
        let mut copy: Vec<u8> = Vec::new();
        let mut b: u32 = 0;
        while b < count
            invariant
                b <= count,
                lba + count <= self.sectors.len() == before.blocks.len(),
                buffer@.len() >= count * BLOCK_SIZE,
                buffer@.len() <= usize::MAX,
                data == buffer@.subrange(0, count * BLOCK_SIZE),
                copy@ == data.subrange(0, b * BLOCK_SIZE),
                self@.blocks == before.write_run(lba as int, b as int, data).blocks,
                self@.good == before.good,
                self@.log == before.log,
                self@.nsid == before.nsid,
            decreases count - b,
        {
            let base: usize = b as usize * BLOCK_SIZE;
            let mut sector: [u8; 512] = [0u8; 512];
            let mut j: usize = 0;
            while j < BLOCK_SIZE
                invariant
                    b < count,
                    j <= BLOCK_SIZE,
                    base == b * BLOCK_SIZE,
                    buffer@.len() >= count * BLOCK_SIZE,
                    buffer@.len() <= usize::MAX,
                    data == buffer@.subrange(0, count * BLOCK_SIZE),
                    copy@ == data.subrange(0, base + j),
                    forall|k: int| 0 <= k < j ==> #[trigger] sector@[k] == data[base + k],
                decreases BLOCK_SIZE - j,
            {
                let byte: u8 = buffer[base + j];
                sector[j] = byte;
                copy.push(byte);
                j += 1;
            }
            assert(sector@ == data.subrange(b * BLOCK_SIZE, (b + 1) * BLOCK_SIZE));
            let s: usize = lba as usize + b as usize;
            let flag: bool = self.sectors[s].defective;
            let ghost prior = self@.blocks;
            self.sectors[s] = Sector { data: sector, defective: flag };
            b += 1;
            assert(self@.blocks == prior.update(s as int, sector@));
            assert(self@.good == before.good);
            assert(self@.blocks == before.write_run(lba as int, b as int, data).blocks);
        }
        assert(copy@ == data);
        self.log.push(WriteCommand { lba, data: copy });
        Ok(())
    }
}

} // verus!
