//! The last commands, in a ring.

use vstd::prelude::*;

verus! {

/// Bytes of a command that are remembered.
pub const MAX_CMD_LEN: usize = 64;

/// Commands that are remembered.
pub const HISTORY_SIZE: usize = 10;

#[derive(Clone, Copy)]
struct Slot {
    bytes: [u8; 64],
    len: usize,
}

/// The last commands.
pub struct History {
    slots: [Slot; 10],
    count: usize,
    start: usize,
}

/// As much of a command as is remembered.
pub open spec fn remembered(cmd: Seq<u8>) -> Seq<u8> {
    if cmd.len() <= MAX_CMD_LEN {
        cmd
    } else {
        cmd.take(MAX_CMD_LEN as int)
    }
}

/// `h` with one more command; the oldest one is forgotten where there is no
/// room for it.
pub open spec fn with_command(h: Seq<Seq<u8>>, cmd: Seq<u8>) -> Seq<Seq<u8>> {
    if h.len() < HISTORY_SIZE {
        h.push(remembered(cmd))
    } else {
        h.drop_first().push(remembered(cmd))
    }
}

/// The slot of command `i`, counted from the oldest, in a ring that begins at
/// `start`.
spec fn slot_index(start: int, i: int) -> int {
    (start + i) % 10
}

impl View for History {
    type V = Seq<Seq<u8>>;

    /// The commands, oldest first.
    closed spec fn view(&self) -> Seq<Seq<u8>> {
        Seq::new(
            self.count as nat,
            |i: int|
                {
                    let s = self.slots@[slot_index(self.start as int, i)];
                    s.bytes@.take(s.len as int)
                },
        )
    }
}

impl History {
    /// The ring is in order.
    pub closed spec fn wf(&self) -> bool {
        &&& self.count <= HISTORY_SIZE
        &&& self.start < HISTORY_SIZE
        &&& self.count < HISTORY_SIZE ==> self.start == 0
        &&& forall|i: int|
            0 <= i < HISTORY_SIZE ==> (#[trigger] self.slots@[i]).len <= MAX_CMD_LEN
    }

    /// No command yet.
    pub fn new() -> (h: History)
        ensures
            h.wf(),
            h@ == Seq::<Seq<u8>>::empty(),
    {
        let h = History {
            slots: [Slot { bytes: [0u8; 64], len: 0 }; 10],
            count: 0,
            start: 0,
        };
        assert(h@ =~= Seq::<Seq<u8>>::empty());
        h
    }

    /// How many commands there are.
    pub fn len(&self) -> (n: usize)
        requires
            self.wf(),
        ensures
            n == self@.len(),
            n <= HISTORY_SIZE,
    {
        self.count
    }

    /// Remembers a command.
    pub fn add_history(&mut self, cmd: &[u8])
        requires
            old(self).wf(),
        ensures
            final(self).wf(),
            final(self)@ == with_command(old(self)@, cmd@),
    {
        let idx: usize = (self.start + self.count) % HISTORY_SIZE;
        let len: usize = if cmd.len() <= MAX_CMD_LEN {
            cmd.len()
        } else {
            MAX_CMD_LEN
        };
        let mut bytes: [u8; 64] = self.slots[idx].bytes;
        let mut i: usize = 0;
        while i < len
            invariant
                i <= len <= MAX_CMD_LEN,
                len <= cmd@.len(),
                forall|k: int| 0 <= k < i ==> bytes@[k] == cmd@[k],
            decreases len - i,
        {
            bytes[i] = cmd[i];
            i += 1;
        }
        assert(bytes@.take(len as int) =~= remembered(cmd@));
        let ghost before = *self;
        self.slots[idx] = Slot { bytes, len };
        if self.count < HISTORY_SIZE {
            self.count = self.count + 1;
        } else {
            self.start = (self.start + 1) % HISTORY_SIZE;
        }
        proof {
            let want = with_command(before@, cmd@);
            assert(self@.len() == want.len());
            assert forall|k: int| 0 <= k < want.len() implies self@[k] == want[k] by {
                if k < want.len() - 1 {
                    let shift = if before.count < HISTORY_SIZE {
                        0int
                    } else {
                        1int
                    };
                    assert(want[k] == before@[k + shift]);
                    assert(slot_index(self.start as int, k) == slot_index(
                        before.start as int,
                        k + shift,
                    ));
                    assert(slot_index(before.start as int, k + shift) != idx);
                } else {
                    assert(slot_index(self.start as int, k) == idx);
                }
            }
            assert(self@ =~= want);
        }
    }

    /// The command that came `offset_from_newest` commands before the last.
    pub fn get_history(&self, offset_from_newest: usize) -> (r: Option<&[u8]>)
        requires
            self.wf(),
        ensures
            match r {
                Some(s) => offset_from_newest < self@.len() && s@ == self@[self@.len() - 1
                    - offset_from_newest],
                None => offset_from_newest >= self@.len(),
            },
    {
        if offset_from_newest >= self.count {
            return None;
        }
        let target: usize = (self.start + self.count - 1 - offset_from_newest) % HISTORY_SIZE;
        assert(target == slot_index(self.start as int, self.count - 1 - offset_from_newest));
        let n: usize = self.slots[target].len;
        let s = vstd::slice::slice_subrange(&self.slots[target].bytes, 0, n);
        assert(s@ =~= self.slots@[target as int].bytes@.take(n as int));
        Some(s)
    }
}

/// The newest command is the one that was added last, and the ones before it
/// move back by one.
pub proof fn law_newest(h: Seq<Seq<u8>>, cmd: Seq<u8>, k: int)
    requires
        h.len() <= HISTORY_SIZE,
        0 < k < with_command(h, cmd).len(),
    ensures
        with_command(h, cmd).len() <= HISTORY_SIZE,
        with_command(h, cmd).last() == remembered(cmd),
        with_command(h, cmd)[with_command(h, cmd).len() - 1 - k] == h[h.len() - k],
{
}

/// Of a command the first 64 bytes are remembered.
pub proof fn law_remembered(cmd: Seq<u8>, i: int)
    requires
        0 <= i < cmd.len(),
    ensures
        cmd.len() <= 64 ==> remembered(cmd).len() == cmd.len(),
        cmd.len() > 64 ==> remembered(cmd).len() == 64,
        i < 64 ==> remembered(cmd)[i] == cmd[i],
{
}

/// Ten commands are remembered. Up to then none is forgotten; from then on each
/// new one takes the place of the oldest.
pub proof fn law_forgotten(h: Seq<Seq<u8>>, cmd: Seq<u8>)
    requires
        h.len() <= 10,
    ensures
        h.len() < 10 ==> with_command(h, cmd) == h + seq![remembered(cmd)],
        h.len() == 10 ==> with_command(h, cmd) == h.skip(1) + seq![remembered(cmd)],
{
    if h.len() < 10 {
        assert(with_command(h, cmd) =~= h + seq![remembered(cmd)]);
    } else {
        assert(with_command(h, cmd) =~= h.skip(1) + seq![remembered(cmd)]);
    }
}

} // verus!
