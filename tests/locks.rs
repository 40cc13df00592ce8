use rogic_memory::ReentrantLock;
use rogic_memory::ReentrantToken;
use rogic_memory::RwLock;
use rogic_memory::SpinLock;

#[test]
fn spin_lock_test_lock() {
    let mut lock = SpinLock::new();

    {
        let mut guard = lock.lock();
        assert!(guard.is_locked());
        assert!(!lock.try_lock().is_locked());
        guard.unlock(&mut lock);
    }

    {
        let mut guard = lock.try_lock();
        assert!(guard.is_locked());
        guard.unlock(&mut lock);
    }
}

#[test]
fn rw_lock_test_lock() {
    let mut lock = RwLock::new();

    {
        let mut guard = lock.lock_write();
        let mut guard_2 = lock.try_lock_write();
        let mut guard_3 = lock.try_lock_read();
        assert!(guard.is_locked());
        assert!(!guard_2.is_locked());
        assert!(!guard_3.is_locked());
        guard_3.unlock(&mut lock);
        guard_2.unlock(&mut lock);
        guard.unlock(&mut lock);
    }

    {
        let mut guard = lock.lock_read();
        let mut guard_2 = lock.lock_read();
        let mut guard_3 = lock.try_lock_read();
        let mut guard_4 = lock.try_lock_write();
        assert!(guard.is_locked());
        assert!(guard_2.is_locked());
        assert!(guard_3.is_locked());
        assert!(!guard_4.is_locked());
        guard_4.unlock(&mut lock);
        guard_3.unlock(&mut lock);
        guard_2.unlock(&mut lock);
        guard.unlock(&mut lock);
    }
}

#[test]
fn reentrant_lock_test_lock() {
    let mut lock = ReentrantLock::new();

    let mut token = ReentrantToken::new(&mut lock);
    let mut token_2 = ReentrantToken::new(&mut lock);

    {
        let mut guard = token.lock_write(&mut lock);
        let mut guard_2 = token.try_lock_write(&mut lock);
        let mut guard_3 = token.try_lock_read(&mut lock);
        assert!(guard.is_locked());
        assert!(guard_2.is_locked());
        assert!(guard_3.is_locked());
        guard_3.unlock(&mut lock, &mut token);
        guard_2.unlock(&mut lock, &mut token);
        guard.unlock(&mut lock, &mut token);
    }

    {
        let mut guard = token.lock_read(&mut lock);
        let mut guard_2 = token.lock_read(&mut lock);
        let mut guard_3 = token.try_lock_read(&mut lock);
        let mut guard_4 = token.try_lock_write(&mut lock);
        assert!(guard.is_locked());
        assert!(guard_2.is_locked());
        assert!(guard_3.is_locked());
        assert!(!guard_4.is_locked());
        guard_4.unlock(&mut lock, &mut token);
        guard_3.unlock(&mut lock, &mut token);
        guard_2.unlock(&mut lock, &mut token);
        guard.unlock(&mut lock, &mut token);
    }

    {
        let mut guard = token.lock_write(&mut lock);
        let mut guard_2 = token_2.try_lock_write(&mut lock);
        let mut guard_3 = token_2.try_lock_read(&mut lock);
        assert!(guard.is_locked());
        assert!(!guard_2.is_locked());
        assert!(!guard_3.is_locked());
        guard_3.unlock(&mut lock, &mut token_2);
        guard_2.unlock(&mut lock, &mut token_2);
        guard.unlock(&mut lock, &mut token);
    }

    {
        let mut guard = token.lock_read(&mut lock);
        let mut guard_2 = token_2.lock_read(&mut lock);
        let mut guard_3 = token_2.try_lock_read(&mut lock);
        let mut guard_4 = token.try_lock_write(&mut lock);
        let mut guard_5 = token_2.try_lock_write(&mut lock);
        assert!(guard.is_locked());
        assert!(guard_2.is_locked());
        assert!(guard_3.is_locked());
        assert!(!guard_4.is_locked());
        assert!(!guard_5.is_locked());
        guard_5.unlock(&mut lock, &mut token_2);
        guard_4.unlock(&mut lock, &mut token);
        guard_3.unlock(&mut lock, &mut token_2);
        guard_2.unlock(&mut lock, &mut token_2);
        guard.unlock(&mut lock, &mut token);
    }
}

#[test]
fn reentrant_lock_is_free_after_all_leases_return() {
    let mut lock = ReentrantLock::new();
    let mut token = ReentrantToken::new(&mut lock);
    let mut token_2 = ReentrantToken::new(&mut lock);
    let mut guard = token.lock_write(&mut lock);
    guard.unlock(&mut lock, &mut token);
    let guard_2 = token_2.try_lock_write(&mut lock);
    assert!(guard_2.is_locked());
}
