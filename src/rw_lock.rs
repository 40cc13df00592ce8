use vstd::prelude::*;

use crate::spin_lock::next_key;

verus! {

/// A readers-writer lock: readers may share it; a writer holds `flag` and waits for
/// every reader to leave.
pub struct RwLock {
    reading: u32,
    flag: u32,
    next: u32,
}

/// Proof of one read attempt: its key, 0 when the attempt failed or was released.
pub struct RwLockReadGuard {
    flag: u32,
}

/// Proof of one write attempt: its key, 0 when the attempt failed or was released.
pub struct RwLockWriteGuard {
    flag: u32,
}

impl RwLockReadGuard {
    pub closed spec fn spec_flag(&self) -> u32 {
        self.flag
    }

    pub fn is_locked(&self) -> (r: bool)
        ensures
            r == (self.spec_flag() != 0),
    {
        self.flag != 0
    }

    /// Gives the read lease back, if this guard holds one.
    pub fn unlock(&mut self, lock: &mut RwLock)
        requires
            old(self).spec_flag() != 0 ==> old(lock).spec_reading() > 0,
        ensures
            final(self).spec_flag() == 0,
            final(lock).spec_flag() == old(lock).spec_flag(),
            final(lock).spec_next() == old(lock).spec_next(),
            final(lock).spec_reading() == if old(self).spec_flag() != 0 {
                (old(lock).spec_reading() - 1) as u32
            } else {
                old(lock).spec_reading()
            },
    {
        if self.flag != 0 {
            lock.reading = lock.reading - 1;
        }
        self.flag = 0;
    }
}

impl RwLockWriteGuard {
    pub closed spec fn spec_flag(&self) -> u32 {
        self.flag
    }

    pub fn is_locked(&self) -> (r: bool)
        ensures
            r == (self.spec_flag() != 0),
    {
        self.flag != 0
    }

    /// Gives the write lease back, if this guard holds one.
    pub fn unlock(&mut self, lock: &mut RwLock)
        requires
            old(self).spec_flag() != 0 ==> old(lock).spec_flag() == old(self).spec_flag(),
        ensures
            final(self).spec_flag() == 0,
            final(lock).spec_reading() == old(lock).spec_reading(),
            final(lock).spec_next() == old(lock).spec_next(),
            final(lock).spec_flag() == if old(self).spec_flag() != 0 {
                0
            } else {
                old(lock).spec_flag()
            },
    {
        if self.flag != 0 {
            lock.flag = 0;
        }
        self.flag = 0;
    }
}

impl RwLock {
    /// How many read leases are out.
    pub closed spec fn spec_reading(&self) -> u32 {
        self.reading
    }

    /// The key of the writer, 0 when no writer holds the lock.
    pub closed spec fn spec_flag(&self) -> u32 {
        self.flag
    }

    /// The key the next attempt draws.
    pub closed spec fn spec_next(&self) -> u32 {
        self.next
    }

    pub fn new() -> (r: RwLock)
        ensures
            r.spec_reading() == 0,
            r.spec_flag() == 0,
            r.spec_next() == 1,
    {
        RwLock { reading: 0, flag: 0, next: 1 }
    }

    /// Takes a read lease; no writer may hold the lock, as it would never be
    /// released to this caller.
    pub fn lock_read(&mut self) -> (r: RwLockReadGuard)
        requires
            old(self).spec_flag() == 0,
            old(self).spec_reading() < u32::MAX,
        ensures
            r.spec_flag() == old(self).spec_next(),
            final(self).spec_reading() == old(self).spec_reading() + 1,
            final(self).spec_flag() == 0,
            final(self).spec_next() == next_key(old(self).spec_next()),
    {
        let key = self.next;
        self.next = self.next.wrapping_add(1);
        self.reading = self.reading + 1;
        RwLockReadGuard { flag: key }
    }

    /// Takes a read lease if no writer holds the lock.
    pub fn try_lock_read(&mut self) -> (r: RwLockReadGuard)
        requires
            old(self).spec_reading() < u32::MAX,
        ensures
            final(self).spec_next() == next_key(old(self).spec_next()),
            final(self).spec_flag() == old(self).spec_flag(),
            old(self).spec_flag() == 0 ==> r.spec_flag() == old(self).spec_next() && final(
                self).spec_reading() == old(self).spec_reading() + 1,
            old(self).spec_flag() != 0 ==> r.spec_flag() == 0 && final(self).spec_reading() == old(
                self).spec_reading(),
    {
        let key = self.next;
        self.next = self.next.wrapping_add(1);
        if self.flag == 0 {
            self.reading = self.reading + 1;
            RwLockReadGuard { flag: key }
        } else {
            RwLockReadGuard { flag: 0 }
        }
    }

    /// Takes the write lease; the lock must be free of writers and readers, as it
    /// would never be released to this caller.
    pub fn lock_write(&mut self) -> (r: RwLockWriteGuard)
        requires
            old(self).spec_flag() == 0,
            old(self).spec_reading() == 0,
        ensures
            r.spec_flag() == old(self).spec_next(),
            final(self).spec_flag() == old(self).spec_next(),
            final(self).spec_reading() == 0,
            final(self).spec_next() == next_key(old(self).spec_next()),
    {
        let key = self.next;
        self.next = self.next.wrapping_add(1);
        self.flag = key;
        RwLockWriteGuard { flag: key }
    }

    /// Takes the write lease if the lock is free of writers and readers.
    pub fn try_lock_write(&mut self) -> (r: RwLockWriteGuard)
        ensures
            final(self).spec_next() == next_key(old(self).spec_next()),
            final(self).spec_reading() == old(self).spec_reading(),
            old(self).spec_flag() == 0 && old(self).spec_reading() == 0 ==> r.spec_flag() == old(
                self).spec_next() && final(self).spec_flag() == old(self).spec_next(),
            !(old(self).spec_flag() == 0 && old(self).spec_reading() == 0) ==> r.spec_flag() == 0
                && final(self).spec_flag() == old(self).spec_flag(),
    {
        let key = self.next;
        self.next = self.next.wrapping_add(1);
        if self.flag == 0 && self.reading == 0 {
            self.flag = key;
            RwLockWriteGuard { flag: key }
        } else {
            RwLockWriteGuard { flag: 0 }
        }
    }
}

} // verus!
