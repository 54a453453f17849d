//! A lock that keeps interrupts off while it is held.

use vstd::prelude::*;

verus! {

/// The flag in RFLAGS that lets interrupts in.
pub const RFLAGS_INTERRUPT: u64 = 0x200;

/// Interrupts were let in when RFLAGS was read.
pub open spec fn interrupts_on(rflags: u64) -> bool {
    rflags & RFLAGS_INTERRUPT != 0
}

/// Whether interrupts were let in when RFLAGS was read.
pub fn interrupts_enabled(rflags: u64) -> (on: bool)
    ensures
        on == interrupts_on(rflags),
{
    rflags & RFLAGS_INTERRUPT != 0
}

/// A value and the lock that guards it. Whoever holds the lock runs with
/// interrupts off.
pub struct InterruptSpinlock<T> {
    locked: bool,
    data: T,
}

/// The right to the value, and whether interrupts come back on when it ends.
pub struct InterruptSpinlockGuard {
    interrupts_enabled: bool,
}

impl InterruptSpinlockGuard {
    /// Interrupts come back on when the lock is given back.
    pub closed spec fn restores_interrupts(&self) -> bool {
        self.interrupts_enabled
    }
}

impl<T> InterruptSpinlock<T> {
    /// Somebody holds the lock.
    pub closed spec fn is_locked(&self) -> bool {
        self.locked
    }

    /// The value.
    pub closed spec fn value(&self) -> T {
        self.data
    }

    /// A lock that nobody holds.
    pub fn new(data: T) -> (lock: InterruptSpinlock<T>)
        ensures
            !lock.is_locked(),
            lock.value() == data,
    {
        InterruptSpinlock { locked: false, data }
    }

    /// Takes the lock with interrupts off; `rflags` is what they were before.
    /// A lock that is held would be waited for.
    pub fn lock(&mut self, rflags: u64) -> (guard: InterruptSpinlockGuard)
        requires
            !old(self).is_locked(),
        ensures
            final(self).is_locked(),
            final(self).value() == old(self).value(),
            guard.restores_interrupts() == interrupts_on(rflags),
    {
        self.locked = true;
        InterruptSpinlockGuard { interrupts_enabled: interrupts_enabled(rflags) }
    }

    /// Takes the lock if nobody holds it. The second result tells whether
    /// interrupts have to be let in again because it was not taken.
    pub fn try_lock(&mut self, rflags: u64) -> (r: (Option<InterruptSpinlockGuard>, bool))
        ensures
            final(self).is_locked(),
            final(self).value() == old(self).value(),
            r.0 is Some == !old(self).is_locked(),
            r.0 matches Some(guard) ==> guard.restores_interrupts() == interrupts_on(rflags),
            r.1 == (old(self).is_locked() && interrupts_on(rflags)),
    {
        let enabled: bool = interrupts_enabled(rflags);
        if self.locked {
            (None, enabled)
        } else {
            self.locked = true;
            (Some(InterruptSpinlockGuard { interrupts_enabled: enabled }), false)
        }
    }

    /// Opens the lock, whoever holds it.
    pub fn force_unlock(&mut self)
        ensures
            !final(self).is_locked(),
            final(self).value() == old(self).value(),
    {
        self.locked = false;
    }

    /// Takes the lock even from someone who holds it: for fault handlers, whose
    /// interrupted holder does not come back.
    pub fn seize(&mut self, rflags: u64) -> (guard: InterruptSpinlockGuard)
        ensures
            final(self).is_locked(),
            final(self).value() == old(self).value(),
            guard.restores_interrupts() == interrupts_on(rflags),
    {
        match self.try_lock(rflags) {
            (Some(guard), _) => guard,
            (None, _) => {
                self.force_unlock();
                self.lock(rflags)
            },
        }
    }

    /// Gives the lock back; the result tells whether interrupts are let in
    /// again.
    pub fn unlock(&mut self, guard: InterruptSpinlockGuard) -> (enable: bool)
        ensures
            !final(self).is_locked(),
            final(self).value() == old(self).value(),
            enable == guard.restores_interrupts(),
    {
        self.locked = false;
        guard.interrupts_enabled
    }

    /// The value, for whoever holds the lock.
    pub fn get(&self, guard: &InterruptSpinlockGuard) -> (data: &T)
        ensures
            *data == self.value(),
    {
        &self.data
    }

    /// The value, to change it, for whoever holds the lock.
    pub fn get_mut(&mut self, guard: &InterruptSpinlockGuard) -> (data: &mut T)
        ensures
            *data == old(self).value(),
            final(self).value() == *final(data),
            final(self).is_locked() == old(self).is_locked(),
    {
        &mut self.data
    }
}

/// Bit nine of RFLAGS, and no other, lets interrupts in.
pub proof fn law_interrupt_flag(rflags: u64)
    ensures
        interrupts_on(rflags) <==> rflags / 512 % 2 == 1,
{
    assert((rflags & 0x200 != 0) <==> rflags / 512 % 2 == 1) by (bit_vector);
}

} // verus!
