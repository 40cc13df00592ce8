use vstd::prelude::*;

verus! {

/// The key after `k`, wrapping after `u32::MAX`.
pub open spec fn next_key(k: u32) -> u32 {
    if k == u32::MAX {
        0
    } else {
        (k + 1) as u32
    }
}

/// A ticket-keyed mutual exclusion lock. `flag` is the key of the holder, 0 when free;
/// each attempt draws the next key.
pub struct SpinLock {
    flag: u32,
    next: u32,
}

/// Proof of one attempt on a `SpinLock`: its key, 0 when the attempt failed or the
/// guard was released.
pub struct SpinLockGuard {
    flag: u32,
}

impl SpinLockGuard {
    pub closed spec fn spec_flag(&self) -> u32 {
        self.flag
    }

    pub fn is_locked(&self) -> (r: bool)
        ensures
            r == (self.spec_flag() != 0),
    {
        self.flag != 0
    }

    /// Releases the lock that this guard holds.
    pub fn unlock(&mut self, lock: &mut SpinLock)
        requires
            old(lock).spec_flag() == old(self).spec_flag(),
        ensures
            final(lock).spec_flag() == 0,
            final(lock).spec_next() == old(lock).spec_next(),
            final(self).spec_flag() == 0,
    {
        lock.flag = 0;
        self.flag = 0;
    }
}

impl SpinLock {
    /// The key of the holder, 0 when free.
    pub closed spec fn spec_flag(&self) -> u32 {
        self.flag
    }

    /// The key the next attempt draws.
    pub closed spec fn spec_next(&self) -> u32 {
        self.next
    }

    pub fn new() -> (r: SpinLock)
        ensures
            r.spec_flag() == 0,
            r.spec_next() == 1,
    {
        SpinLock { flag: 0, next: 1 }
    }

    /// Takes the lock, which must be free: a held lock would never be released to
    /// this caller.
    pub fn lock(&mut self) -> (r: SpinLockGuard)
        requires
            old(self).spec_flag() == 0,
        ensures
            r.spec_flag() == old(self).spec_next(),
            final(self).spec_flag() == old(self).spec_next(),
            final(self).spec_next() == next_key(old(self).spec_next()),
    {
        let key = self.next;
        self.next = self.next.wrapping_add(1);
        self.flag = key;
        SpinLockGuard { flag: key }
    }

    /// Takes the lock if it is free; the guard tells whether it did.
    pub fn try_lock(&mut self) -> (r: SpinLockGuard)
        ensures
            final(self).spec_next() == next_key(old(self).spec_next()),
            old(self).spec_flag() == 0 ==> r.spec_flag() == old(self).spec_next()
                && final(self).spec_flag() == old(self).spec_next(),
            old(self).spec_flag() != 0 ==> r.spec_flag() == 0 && final(self).spec_flag() == old(
                self).spec_flag(),
    {
        let key = self.next;
        self.next = self.next.wrapping_add(1);
        if self.flag == 0 {
            self.flag = key;
            SpinLockGuard { flag: key }
        } else {
            SpinLockGuard { flag: 0 }
        }
    }
}

} // verus!
