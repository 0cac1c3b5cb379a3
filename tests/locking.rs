use genref::ledger::{Domains, Ledger};
use genref::lock::{AccessState, RawLocalCounter};
use genref::pool::GenerationLayout;

fn layout() -> GenerationLayout {
    GenerationLayout::of::<u32>()
}

#[test]
fn local_locking() {
    let mut l = Ledger::new();
    let x = l.allocate(layout());

    assert!(l.try_lock_shared(x));
    assert!(l.try_lock_shared(x));
    assert!(!l.try_lock_exclusive(x));
    l.unlock_shared(x);
    l.unlock_shared(x);

    assert!(l.try_lock_exclusive(x));
    assert!(!l.try_lock_shared(x));
    assert!(!l.try_lock_exclusive(x));
    l.unlock_exclusive(x);

    assert!(l.try_lock_shared(x));
    assert!(l.try_shared_into_exclusive(x));
    assert!(!l.try_lock_shared(x));
    assert!(!l.try_lock_exclusive(x));
    l.unlock_exclusive(x);

    assert!(l.try_lock_exclusive(x));
    l.downgrade(x);
    assert!(l.try_lock_shared(x));
    l.unlock_shared(x);
}

#[test]
fn lock_state_transfers() {
    let mut shared = Ledger::new();

    let mut local = Ledger::new();
    let l = local.allocate(layout());
    local.try_lock_shared(l);
    let g = local.globalize(l, &mut shared);
    assert!(!shared.try_lock_exclusive(g));
    assert!(shared.try_lock_upgradable(g));
    assert!(shared.try_lock_shared(g));

    let l = local.allocate(layout());
    local.try_lock_upgradable(l);
    let g = local.globalize(l, &mut shared);
    assert!(!shared.try_lock_exclusive(g));
    assert!(!shared.try_lock_upgradable(g));
    assert!(shared.try_lock_shared(g));

    let l = local.allocate(layout());
    local.try_lock_exclusive(l);
    let g = local.globalize(l, &mut shared);
    assert!(!shared.try_lock_exclusive(g));
    assert!(!shared.try_lock_upgradable(g));
    assert!(!shared.try_lock_shared(g));
}

#[test]
fn globalize_memoizes() {
    let mut shared = Ledger::new();
    let mut local = Ledger::new();
    let l = local.allocate(layout());

    let g1 = local.globalize(l, &mut shared);
    let g2 = local.globalize(l, &mut shared);

    assert_eq!(g1, g2);
    assert_eq!(shared.allocations(), 32);
}

#[test]
fn promotion_keeps_generation() {
    let mut shared = Ledger::new();
    let mut local = Ledger::new();
    let l = local.allocate(layout());
    local.free(l, layout());
    let l2 = local.allocate(layout());
    assert_eq!(l, l2);
    assert_eq!(local.count(l2), 2);
    let g = local.globalize(l2, &mut shared);
    assert_eq!(shared.count(g), 2);
}

#[test]
fn exclusive_excludes_shared_and_back() {
    let mut c = RawLocalCounter::new();
    assert!(c.try_lock_exclusive());
    assert!(!c.try_lock_shared());
    assert!(!c.try_lock_upgradable());
    c.unlock_exclusive();
    assert!(c.try_lock_shared());
    assert!(!c.try_lock_exclusive());
    assert_eq!(c.access, 2);
}

#[test]
fn upgrade_only_when_sole_holder() {
    let mut c = RawLocalCounter::new();
    assert!(c.try_lock_upgradable());
    assert!(c.try_lock_shared());
    assert_eq!(c.access, 3);
    assert!(!c.try_upgrade());
    assert_eq!(c.access, 3);
    c.unlock_shared();
    assert!(c.try_upgrade());
    assert_eq!(c.access, -1);
}

#[test]
fn second_upgradable_fails() {
    let mut c = RawLocalCounter::new();
    assert!(c.try_lock_upgradable());
    assert!(!c.try_lock_upgradable());
    c.unlock_upgradable();
    assert_eq!(c.access, 0);
}

#[test]
fn shared_into_exclusive_needs_single_reader() {
    let mut c = RawLocalCounter::new();
    assert!(c.try_lock_shared());
    assert!(c.try_lock_shared());
    assert!(!c.try_shared_into_exclusive());
    assert_eq!(c.access, 4);
    c.unlock_shared();
    assert!(c.try_shared_into_exclusive());
    assert_eq!(c.access, -1);
}

#[test]
fn shared_count_saturates() {
    let mut c = RawLocalCounter::new();
    c.access = i32::MAX - 1;
    assert!(!c.try_lock_shared());
    assert_eq!(c.access, i32::MAX - 1);
}

#[test]
fn decode_lock_words() {
    assert!(matches!(AccessState::new(0), AccessState::Unlocked));
    assert!(matches!(AccessState::new(-1), AccessState::Writer));
    assert!(matches!(AccessState::new(5), AccessState::Readers { normal: 2, upgrade: true }));
    assert!(matches!(AccessState::new(4), AccessState::Readers { normal: 2, upgrade: false }));
}

#[test]
fn inflict_replays_lock_word() {
    let mut target = RawLocalCounter::new();
    AccessState::new(7).inflict(&mut target);
    assert_eq!(target.access, 7);
    let mut target = RawLocalCounter::new();
    AccessState::new(-1).inflict(&mut target);
    assert_eq!(target.access, -1);
}

#[test]
fn bump_saturates_at_retirement() {
    let mut c = RawLocalCounter::new();
    c.bump();
    assert_eq!(c.count(), 2);
    c.counter = u32::MAX;
    c.bump();
    assert_eq!(c.count(), u32::MAX);
    assert!(c.is_end_of_life());
}

#[test]
fn globalized_local_redirects() {
    let mut d = Domains::new();

    let l = d.allocate(layout());
    let g = d.globalize(l);
    d.try_lock_shared(l);
    assert!(d.shared.try_lock_upgradable(g));
    assert!(!d.shared.try_lock_exclusive(g));

    let l = d.allocate(layout());
    let g = d.globalize(l);
    d.try_lock_exclusive(l);
    assert!(!d.shared.try_lock_shared(g));
    assert!(!d.shared.try_lock_upgradable(g));
    assert!(!d.shared.try_lock_exclusive(g));

    let l = d.allocate(layout());
    let g = d.globalize(l);
    d.try_lock_upgradable(l);
    assert!(d.shared.try_lock_shared(g));
    assert!(!d.shared.try_lock_upgradable(g));
    assert!(!d.shared.try_lock_exclusive(g));

    let l = d.allocate(layout());
    let g = d.globalize(l);
    d.try_lock_exclusive(l);
    assert!(!d.shared.try_lock_shared(g));
    assert!(!d.shared.try_lock_upgradable(g));
    assert!(!d.shared.try_lock_exclusive(g));
}

#[test]
fn unpromoted_counter_stays_local() {
    let mut d = Domains::new();
    let l = d.allocate(layout());
    assert!(d.try_lock_exclusive(l));
    assert!(!d.local.try_lock_shared(l));
    d.unlock_exclusive(l);
    assert!(d.try_lock_shared(l));
    d.unlock_shared(l);
    assert_eq!(d.shared.allocations(), 0);
}
