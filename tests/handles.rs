use genref::heap::{Heap, Weak};
use std::cell::Cell;
use std::rc::Rc;

#[test]
fn strong_reading() {
    let mut h = Heap::new();
    let s = h.allocate(1u32);

    let p = h.try_borrow(&s).unwrap();
    let q = h.try_borrow(&s).unwrap();

    assert_eq!(*h.get(&p), *h.get(&q));

    assert!(h.try_borrow_mut(&s).is_none());
}

#[test]
fn strong_writing() {
    let mut h = Heap::new();
    let s = h.allocate(1u32);

    let p = h.try_borrow_mut(&s).unwrap();
    assert_eq!(*h.get_written(&p), 1);
    assert!(h.try_borrow(&s).is_none());

    h.set(&p, 2);
    h.release_write(p);

    let q = h.try_borrow(&s).unwrap();
    assert_eq!(*h.get(&q), 2);
}

#[test]
fn weak_reading() {
    let mut h = Heap::new();
    let _s = h.allocate(1u32);
    let s = h.alias(&_s);

    let p = h.try_read(&s).unwrap();
    let q = h.try_read(&s).unwrap();

    assert_eq!(*h.get(&p), *h.get(&q));

    assert!(h.try_write(&s).is_none());
}

#[test]
fn weak_writing() {
    let mut h = Heap::new();
    let _s = h.allocate(1u32);
    let s = h.alias(&_s);

    let p = h.try_write(&s).unwrap();
    assert_eq!(*h.get_written(&p), 1);
    assert!(h.try_read(&s).is_none());

    h.set(&p, 2);
    h.release_write(p);

    let q = h.try_read(&s).unwrap();
    assert_eq!(*h.get(&q), 2);
}

#[test]
fn shared_access() {
    let mut h = Heap::new();
    let s = h.allocate(1);
    let w = h.alias(&s);

    let p = h.try_borrow(&s).unwrap();
    let q = h.try_read(&w).unwrap();

    assert_eq!(*h.get(&p), *h.get(&q));
}

#[test]
fn exclusive_access() {
    let mut h = Heap::new();
    let s = h.allocate(1);
    let w = h.alias(&s);

    {
        let p = h.try_borrow(&s).unwrap();
        let q = h.try_read(&w).unwrap();
        h.release_read(p);
        h.release_read(q);
    }

    {
        let p = h.try_read(&w).unwrap();
        let q = h.try_borrow(&s).unwrap();
        h.release_read(p);
        h.release_read(q);
    }

    {
        let p = h.try_borrow_mut(&s).unwrap();
        assert!(h.try_read(&w).is_none());
        h.release_write(p);
    }

    {
        let p = h.try_write(&w).unwrap();
        assert!(h.try_borrow(&s).is_none());
        h.release_write(p);
    }

    {
        let p = h.try_borrow(&s).unwrap();
        assert!(h.try_write(&w).is_none());
        h.release_read(p);
    }

    {
        let p = h.try_read(&w).unwrap();
        assert!(h.try_borrow_mut(&s).is_none());
        h.release_read(p);
    }
}

#[test]
fn read_mutate_drop_then_alias_fails() {
    let mut h = Heap::new();
    let s = h.allocate(42u32);
    let w = h.alias(&s);

    let g = h.try_read(&w).unwrap();
    assert_eq!(*h.get(&g), 42);
    h.release_read(g);

    let x = h.try_borrow_mut(&s).unwrap();
    h.set(&x, 43);
    h.release_write(x);

    let g = h.try_read(&w).unwrap();
    assert_eq!(*h.get(&g), 43);
    h.release_read(g);

    h.drop_strong(s);
    assert!(h.try_read(&w).is_none());
    assert!(!h.is_valid(&w));
}

struct Noisy(Rc<Cell<u32>>);

impl Drop for Noisy {
    fn drop(&mut self) {
        self.0.set(self.0.get() + 1);
    }
}

#[test]
fn drop_waits_for_last_guard() {
    let drops = Rc::new(Cell::new(0));
    let mut h = Heap::new();
    let s = h.allocate(Noisy(drops.clone()));

    let g = h.try_borrow(&s).unwrap();
    h.drop_strong(s);
    assert_eq!(drops.get(), 0);
    assert_eq!(h.stats().bound_objects(), 1);

    h.release_read(g);
    assert_eq!(drops.get(), 1);
    assert_eq!(h.stats().bound_objects(), 0);
    assert_eq!(h.stats().free_objects(), 1);
}

#[test]
fn drop_without_guard_is_immediate() {
    let drops = Rc::new(Cell::new(0));
    let mut h = Heap::new();
    let s = h.allocate(Noisy(drops.clone()));
    let w = h.alias(&s);
    h.drop_strong(s);
    assert_eq!(drops.get(), 1);
    assert!(!h.is_valid(&w));
}

#[test]
fn alias_of_recycled_slot_stays_invalid() {
    let mut h = Heap::new();
    let s = h.allocate(1u32);
    let w = h.alias(&s);
    h.drop_strong(s);
    let t = h.allocate(2u32);
    let v = h.alias(&t);
    assert!(!h.is_valid(&w));
    assert!(h.is_valid(&v));
    assert!(h.try_read(&w).is_none());
}

#[test]
fn into_inner_needs_no_lock() {
    let mut h = Heap::new();
    let s = h.allocate(7u32);
    let w = h.alias(&s);
    let g = h.try_borrow(&s).unwrap();
    let s = match h.try_into_inner(s) {
        Ok(_) => panic!("taken while read"),
        Err(s) => s,
    };
    h.release_read(g);
    assert!(matches!(h.try_into_inner(s), Ok(7)));
    assert!(!h.is_valid(&w));
}

#[test]
fn reading_upgrades_when_alone() {
    let mut h = Heap::new();
    let s = h.allocate(1u32);
    let p = h.try_borrow(&s).unwrap();
    let q = h.clone_reading(&p);
    let p = match h.try_upgrade(p) {
        Ok(_) => panic!("upgraded beside another reader"),
        Err(p) => p,
    };
    h.release_read(q);
    let w = match h.try_upgrade(p) {
        Ok(w) => w,
        Err(_) => panic!("sole reader could not upgrade"),
    };
    assert!(h.try_borrow(&s).is_none());
    let r = h.downgrade(w);
    assert_eq!(*h.get(&r), 1);
    assert!(h.try_borrow(&s).is_some());
}

#[test]
fn dangling_alias_is_invalid() {
    let mut h = Heap::new();
    let _s = h.allocate(1u32);
    let w = Weak::dangling();
    assert!(!h.is_valid(&w));
    assert!(h.try_read(&w).is_none());
}
