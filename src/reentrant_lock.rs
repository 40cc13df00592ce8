use vstd::prelude::*;

use crate::spin_lock::next_key;

verus! {

/// A per-thread handle on a `ReentrantLock`: its own read and write lease counts and
/// the two keys it takes the lock with.
pub struct ReentrantToken {
    reading: u32,
    reading_flag: u32,
    writing: u32,
    writing_flag: u32,
}

/// The layout lock: readers share it; one token at a time may write, and may read
/// and write again while it does.
pub struct ReentrantLock {
    reading: u32,
    flag: u32,
    next: u32,
}

/// One read lease taken through a token, or a failed attempt.
pub struct ReentrantLockReadGuard {
    locked: bool,
}

/// One write lease taken through a token, or a failed attempt.
pub struct ReentrantLockWriteGuard {
    locked: bool,
}

impl ReentrantLockReadGuard {
    pub closed spec fn spec_locked(&self) -> bool {
        self.locked
    }

    pub fn is_locked(&self) -> (r: bool)
        ensures
            r == self.spec_locked(),
    {
        self.locked
    }

    /// Gives the lease back, if this guard holds one.
    pub fn unlock(&mut self, lock: &mut ReentrantLock, token: &mut ReentrantToken)
        requires
            old(self).spec_locked() ==> old(lock).spec_reading() > 0 && old(token).spec_reading()
                > 0,
        ensures
            !final(self).spec_locked(),
            old(self).spec_locked() ==> final(lock).spec_reading() == old(lock).spec_reading() - 1
                && final(token).spec_reading() == old(token).spec_reading() - 1,
            !old(self).spec_locked() ==> final(lock).spec_reading() == old(lock).spec_reading()
                && *final(token) == *old(token),
            final(lock).spec_flag() == old(lock).spec_flag(),
            final(lock).spec_next() == old(lock).spec_next(),
            final(token).spec_writing() == old(token).spec_writing(),
            final(token).spec_keys() == old(token).spec_keys(),
    {
        if self.locked {
            token.unlock_read(lock);
            self.locked = false;
        }
    }
}

impl ReentrantLockWriteGuard {
    pub closed spec fn spec_locked(&self) -> bool {
        self.locked
    }

    pub fn is_locked(&self) -> (r: bool)
        ensures
            r == self.spec_locked(),
    {
        self.locked
    }

    /// Gives the lease back, if this guard holds one.
    pub fn unlock(&mut self, lock: &mut ReentrantLock, token: &mut ReentrantToken)
        requires
            old(self).spec_locked() ==> old(token).can_unlock_write(*old(lock)),
        ensures
            !final(self).spec_locked(),
            old(self).spec_locked() ==> old(token).unlocked_write(*old(lock), *final(token), *final(
                lock)),
            !old(self).spec_locked() ==> *final(lock) == *old(lock) && *final(token) == *old(token),
    {
        if self.locked {
            self.locked = false;
            token.unlock_write(lock);
        }
    }
}

impl ReentrantToken {
    /// Read leases held through this token.
    pub closed spec fn spec_reading(&self) -> u32 {
        self.reading
    }

    /// Write leases held through this token.
    pub closed spec fn spec_writing(&self) -> u32 {
        self.writing
    }

    /// The keys for reading and writing.
    pub closed spec fn spec_keys(&self) -> (u32, u32) {
        (self.reading_flag, self.writing_flag)
    }

    /// The token holds a lease already, so a read is granted at once.
    pub open spec fn holds_lease(&self) -> bool {
        self.spec_reading() > 0 || self.spec_writing() > 0
    }

    /// The token reads without writing: it may not start to write.
    pub open spec fn reads_only(&self) -> bool {
        self.spec_reading() > 0 && self.spec_writing() == 0
    }

    /// Giving a write lease back does not leave reads behind, and the last one is
    /// released by the key that took the lock.
    pub open spec fn can_unlock_write(&self, lock: ReentrantLock) -> bool {
        &&& self.spec_writing() > 0
        &&& !(self.spec_writing() == 1 && self.spec_reading() > 0)
        &&& self.spec_writing() == 1 ==> lock.spec_flag() == self.spec_keys().1
    }

    /// What giving a write lease back changes.
    pub open spec fn unlocked_write(
        &self,
        lock: ReentrantLock,
        token_after: ReentrantToken,
        lock_after: ReentrantLock,
    ) -> bool {
        &&& token_after.spec_writing() == self.spec_writing() - 1
        &&& token_after.spec_reading() == self.spec_reading()
        &&& token_after.spec_keys() == self.spec_keys()
        &&& lock_after.spec_reading() == lock.spec_reading()
        &&& lock_after.spec_next() == lock.spec_next()
        &&& lock_after.spec_flag() == if self.spec_writing() == 1 {
            0
        } else {
            lock.spec_flag()
        }
    }

    /// A token with no lease, drawing its two keys from `lock`.
    pub fn new(lock: &mut ReentrantLock) -> (r: ReentrantToken)
        ensures
            r.spec_reading() == 0,
            r.spec_writing() == 0,
            r.spec_keys() == (old(lock).spec_next(), next_key(old(lock).spec_next())),
            final(lock).spec_next() == next_key(next_key(old(lock).spec_next())),
            final(lock).spec_flag() == old(lock).spec_flag(),
            final(lock).spec_reading() == old(lock).spec_reading(),
    {
        let reading_flag = lock.gain_flag();
        let writing_flag = lock.gain_flag();
        ReentrantToken { reading: 0, reading_flag, writing: 0, writing_flag }
    }

    pub fn lock_read(&mut self, lock: &mut ReentrantLock) -> (r: ReentrantLockReadGuard)
        requires
            old(self).holds_lease() || old(lock).spec_flag() == 0,
            old(lock).spec_reading() < u32::MAX,
            old(self).spec_reading() < u32::MAX,
        ensures
            r.spec_locked(),
            final(lock).spec_reading() == old(lock).spec_reading() + 1,
            final(self).spec_reading() == old(self).spec_reading() + 1,
            final(lock).spec_flag() == old(lock).spec_flag(),
            final(lock).spec_next() == old(lock).spec_next(),
            final(self).spec_writing() == old(self).spec_writing(),
            final(self).spec_keys() == old(self).spec_keys(),
    {
        lock.lock_read(self)
    }

    pub fn try_lock_read(&mut self, lock: &mut ReentrantLock) -> (r: ReentrantLockReadGuard)
        requires
            old(lock).spec_reading() < u32::MAX,
            old(self).spec_reading() < u32::MAX,
        ensures
            r.spec_locked() == (old(self).holds_lease() || old(lock).spec_flag() == 0),
            r.spec_locked() ==> final(lock).spec_reading() == old(lock).spec_reading() + 1
                && final(self).spec_reading() == old(self).spec_reading() + 1,
            !r.spec_locked() ==> final(lock).spec_reading() == old(lock).spec_reading()
                && final(self).spec_reading() == old(self).spec_reading(),
            final(lock).spec_flag() == old(lock).spec_flag(),
            final(lock).spec_next() == old(lock).spec_next(),
            final(self).spec_writing() == old(self).spec_writing(),
            final(self).spec_keys() == old(self).spec_keys(),
    {
        lock.try_lock_read(self)
    }

    pub fn unlock_read(&mut self, lock: &mut ReentrantLock)
        requires
            old(lock).spec_reading() > 0,
            old(self).spec_reading() > 0,
        ensures
            final(lock).spec_reading() == old(lock).spec_reading() - 1,
            final(self).spec_reading() == old(self).spec_reading() - 1,
            final(lock).spec_flag() == old(lock).spec_flag(),
            final(lock).spec_next() == old(lock).spec_next(),
            final(self).spec_writing() == old(self).spec_writing(),
            final(self).spec_keys() == old(self).spec_keys(),
    {
        lock.unlock_read(self)
    }

    pub fn lock_write(&mut self, lock: &mut ReentrantLock) -> (r: ReentrantLockWriteGuard)
        requires
            !old(self).reads_only(),
            old(self).spec_writing() > 0 || (old(lock).spec_flag() == 0 && old(lock).spec_reading()
                == 0),
            old(self).spec_writing() < u32::MAX,
        ensures
            r.spec_locked(),
            final(self).spec_writing() == old(self).spec_writing() + 1,
            final(self).spec_reading() == old(self).spec_reading(),
            final(self).spec_keys() == old(self).spec_keys(),
            final(lock).spec_reading() == old(lock).spec_reading(),
            final(lock).spec_next() == old(lock).spec_next(),
            final(lock).spec_flag() == if old(self).spec_writing() > 0 {
                old(lock).spec_flag()
            } else {
                old(self).spec_keys().1
            },
    {
        lock.lock_write(self)
    }

    pub fn try_lock_write(&mut self, lock: &mut ReentrantLock) -> (r: ReentrantLockWriteGuard)
        requires
            old(self).spec_writing() < u32::MAX,
        ensures
            r.spec_locked() == (!old(self).reads_only() && (old(self).spec_writing() > 0 || (old(
                lock).spec_flag() == 0 && old(lock).spec_reading() == 0))),
            final(self).spec_writing() == old(self).spec_writing() + if r.spec_locked() {
                1int
            } else {
                0int
            },
            final(self).spec_reading() == old(self).spec_reading(),
            final(self).spec_keys() == old(self).spec_keys(),
            final(lock).spec_reading() == old(lock).spec_reading(),
            final(lock).spec_next() == old(lock).spec_next(),
            final(lock).spec_flag() == if r.spec_locked() && old(self).spec_writing() == 0 {
                old(self).spec_keys().1
            } else {
                old(lock).spec_flag()
            },
    {
        lock.try_lock_write(self)
    }

    pub fn unlock_write(&mut self, lock: &mut ReentrantLock)
        requires
            old(self).can_unlock_write(*old(lock)),
        ensures
            old(self).unlocked_write(*old(lock), *final(self), *final(lock)),
    {
        lock.unlock_write(self)
    }
}

impl ReentrantLock {
    /// Read leases out, over all tokens.
    pub closed spec fn spec_reading(&self) -> u32 {
        self.reading
    }

    /// The writing key of the token that writes, 0 when none does.
    pub closed spec fn spec_flag(&self) -> u32 {
        self.flag
    }

    /// The key handed to the next token.
    pub closed spec fn spec_next(&self) -> u32 {
        self.next
    }

    pub fn new() -> (r: ReentrantLock)
        ensures
            r.spec_reading() == 0,
            r.spec_flag() == 0,
            r.spec_next() == 1,
    {
        ReentrantLock { reading: 0, flag: 0, next: 1 }
    }

    /// A fresh key.
    pub fn gain_flag(&mut self) -> (r: u32)
        ensures
            r == old(self).spec_next(),
            final(self).spec_next() == next_key(r),
            final(self).spec_flag() == old(self).spec_flag(),
            final(self).spec_reading() == old(self).spec_reading(),
    {
        let key = self.next;
        self.next = self.next.wrapping_add(1);
        key
    }

    /// A read lease for `token`: granted at once when the token holds a lease,
    /// otherwise when no token writes (one that does would never release the lock
    /// to this caller).
    pub fn lock_read(&mut self, token: &mut ReentrantToken) -> (r: ReentrantLockReadGuard)
        requires
            old(token).holds_lease() || old(self).spec_flag() == 0,
            old(self).spec_reading() < u32::MAX,
            old(token).spec_reading() < u32::MAX,
        ensures
            r.spec_locked(),
            final(self).spec_reading() == old(self).spec_reading() + 1,
            final(token).spec_reading() == old(token).spec_reading() + 1,
            final(self).spec_flag() == old(self).spec_flag(),
            final(self).spec_next() == old(self).spec_next(),
            final(token).spec_writing() == old(token).spec_writing(),
            final(token).spec_keys() == old(token).spec_keys(),
    {
        self.reading = self.reading + 1;
        token.reading = token.reading + 1;
        ReentrantLockReadGuard { locked: true }
    }

    /// A read lease for `token`, if one can be granted now.
    pub fn try_lock_read(&mut self, token: &mut ReentrantToken) -> (r: ReentrantLockReadGuard)
        requires
            old(self).spec_reading() < u32::MAX,
            old(token).spec_reading() < u32::MAX,
        ensures
            r.spec_locked() == (old(token).holds_lease() || old(self).spec_flag() == 0),
            r.spec_locked() ==> final(self).spec_reading() == old(self).spec_reading() + 1
                && final(token).spec_reading() == old(token).spec_reading() + 1,
            !r.spec_locked() ==> final(self).spec_reading() == old(self).spec_reading()
                && final(token).spec_reading() == old(token).spec_reading(),
            final(self).spec_flag() == old(self).spec_flag(),
            final(self).spec_next() == old(self).spec_next(),
            final(token).spec_writing() == old(token).spec_writing(),
            final(token).spec_keys() == old(token).spec_keys(),
    {
        if token.reading > 0 || token.writing > 0 || self.flag == 0 {
            self.reading = self.reading + 1;
            token.reading = token.reading + 1;
            ReentrantLockReadGuard { locked: true }
        } else {
            ReentrantLockReadGuard { locked: false }
        }
    }

    pub fn unlock_read(&mut self, token: &mut ReentrantToken)
        requires
            old(self).spec_reading() > 0,
            old(token).spec_reading() > 0,
        ensures
            final(self).spec_reading() == old(self).spec_reading() - 1,
            final(token).spec_reading() == old(token).spec_reading() - 1,
            final(self).spec_flag() == old(self).spec_flag(),
            final(self).spec_next() == old(self).spec_next(),
            final(token).spec_writing() == old(token).spec_writing(),
            final(token).spec_keys() == old(token).spec_keys(),
    {
        self.reading = self.reading - 1;
        token.reading = token.reading - 1;
    }

    /// A write lease for `token`: granted at once when it writes already; a token
    /// that only reads may not start to write; otherwise the lock must be free of
    /// writers and readers, as it would never be released to this caller.
    pub fn lock_write(&mut self, token: &mut ReentrantToken) -> (r: ReentrantLockWriteGuard)
        requires
            !old(token).reads_only(),
            old(token).spec_writing() > 0 || (old(self).spec_flag() == 0 && old(self).spec_reading()
                == 0),
            old(token).spec_writing() < u32::MAX,
        ensures
            r.spec_locked(),
            final(token).spec_writing() == old(token).spec_writing() + 1,
            final(token).spec_reading() == old(token).spec_reading(),
            final(token).spec_keys() == old(token).spec_keys(),
            final(self).spec_reading() == old(self).spec_reading(),
            final(self).spec_next() == old(self).spec_next(),
            final(self).spec_flag() == if old(token).spec_writing() > 0 {
                old(self).spec_flag()
            } else {
                old(token).spec_keys().1
            },
    {
        if token.writing == 0 {
            self.flag = token.writing_flag;
        }
        token.writing = token.writing + 1;
        ReentrantLockWriteGuard { locked: true }
    }

    /// A write lease for `token`, if one can be granted now.
    pub fn try_lock_write(&mut self, token: &mut ReentrantToken) -> (r: ReentrantLockWriteGuard)
        requires
            old(token).spec_writing() < u32::MAX,
        ensures
            r.spec_locked() == (!old(token).reads_only() && (old(token).spec_writing() > 0 || (old(
                self).spec_flag() == 0 && old(self).spec_reading() == 0))),
            final(token).spec_writing() == old(token).spec_writing() + if r.spec_locked() {
                1int
            } else {
                0int
            },
            final(token).spec_reading() == old(token).spec_reading(),
            final(token).spec_keys() == old(token).spec_keys(),
            final(self).spec_reading() == old(self).spec_reading(),
            final(self).spec_next() == old(self).spec_next(),
            final(self).spec_flag() == if r.spec_locked() && old(token).spec_writing() == 0 {
                old(token).spec_keys().1
            } else {
                old(self).spec_flag()
            },
    {
        if token.reading > 0 && token.writing == 0 {
            return ReentrantLockWriteGuard { locked: false };
        }
        if token.writing > 0 {
            token.writing = token.writing + 1;
            return ReentrantLockWriteGuard { locked: true };
        }
        if self.flag == 0 && self.reading == 0 {
            self.flag = token.writing_flag;
            token.writing = token.writing + 1;
            return ReentrantLockWriteGuard { locked: true };
        }
        ReentrantLockWriteGuard { locked: false }
    }

    /// Gives one write lease of `token` back; the last one frees the lock.
    pub fn unlock_write(&mut self, token: &mut ReentrantToken)
        requires
            old(token).can_unlock_write(*old(self)),
        ensures
            old(token).unlocked_write(*old(self), *final(token), *final(self)),
    {
        token.writing = token.writing - 1;
        if token.writing == 0 {
            self.flag = 0;
        }
    }
}

} // verus!
