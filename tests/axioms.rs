use genref::axioms::Axioms;

#[test]
fn unallocated_segfaults_cleanly() {
    Axioms::mmap().segfault();
}

#[test]
fn malloc_then_free() {
    let a = Axioms::mmap().malloc();
    assert_eq!(a.unique, 1);
    a.free().segfault();
}

#[test]
fn reuse_after_deinit() {
    Axioms::mmap().malloc().deinit().reinit().free().segfault();
}

#[test]
fn decay_then_promote() {
    let a = Axioms::mmap().malloc().decay();
    assert_eq!(a.owned, 1);
    assert_eq!(a.unique, 0);
    a.promote().free().segfault();
}

#[test]
fn invalidate_moves_aliases() {
    let a = Axioms::mmap().malloc().decay().alias(100).invalidate();
    assert_eq!(a.valid_weak, 0);
    assert_eq!(a.invalid_weak, 100);
    a.leak();
}

#[test]
fn dropping_owned_is_safe() {
    Axioms::drop_owned();
}
