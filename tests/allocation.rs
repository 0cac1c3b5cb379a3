use genref::arena::CounterArena;
use genref::ledger::Ledger;
use genref::pool::{FreeListPool, GenerationLayout, LocalFreeListPool, LayoutTable};
use genref::shared::{next_count, GlobalCounter};

fn layout() -> GenerationLayout {
    GenerationLayout::of::<u32>()
}

#[test]
fn local_allocation_single() {
    let mut l = Ledger::new();
    for _ in 0..100 {
        let g = l.allocate(layout());
        l.free(g, layout());
    }
    assert_eq!(l.free_list_size(layout()), 1);
}

#[test]
fn local_allocation_multi() {
    let mut l = Ledger::new();
    let mut v = Vec::new();
    for _ in 0..100 {
        v.push(l.allocate(layout()))
    }
    for g in v.drain(..) {
        l.free(g, layout())
    }
    for _ in 0..100 {
        v.push(l.allocate(layout()))
    }
    for g in v.drain(..) {
        l.free(g, layout())
    }
    assert_eq!(l.free_list_size(layout()), 100);
}

#[test]
fn two_workers_interleaved() {
    let mut shared = Ledger::new();
    let mut a = Vec::new();
    let mut b = Vec::new();
    for round in 0..2 {
        for k in 0..100 {
            a.push(shared.allocate(layout()));
            if round == 1 || k % 2 == 0 {
                b.push(shared.allocate(layout()));
            }
        }
        for k in 0..100 {
            shared.free(a[k], layout());
            if k < b.len() {
                shared.free(b[k], layout());
            }
        }
        a.clear();
        b.clear();
    }
    let n = shared.free_list_size(layout());
    assert!((100..=200).contains(&n));
}

#[test]
fn recycling_mints_nothing() {
    let mut l = Ledger::new();
    let mut v = Vec::new();
    for _ in 0..40 {
        v.push(l.allocate(layout()));
    }
    let minted = l.allocations();
    assert_eq!(minted, 80);
    for g in v.drain(..) {
        l.free(g, layout());
    }
    for _ in 0..40 {
        v.push(l.allocate(layout()));
    }
    assert_eq!(l.allocations(), minted);
    assert_eq!(l.free_list_size(layout()), 0);
}

#[test]
fn layouts_do_not_share_counters() {
    let mut l = Ledger::new();
    let a = l.allocate(GenerationLayout::of::<u8>());
    l.free(a, GenerationLayout::of::<u8>());
    let b = l.allocate(GenerationLayout::of::<u64>());
    assert_ne!(a, b);
    assert_eq!(l.free_list_size(GenerationLayout::of::<u8>()), 1);
}

#[test]
fn retired_counter_is_not_reused() {
    let mut l = Ledger::new();
    let a = l.allocate(layout());
    l.arena.counters[a].counter = u32::MAX - 1;
    l.free(a, layout());
    assert_eq!(l.count(a), u32::MAX);
    assert_eq!(l.free_list_size(layout()), 0);
    let b = l.allocate(layout());
    assert_ne!(a, b);
}

#[test]
fn arena_batches_grow_by_half() {
    let mut a = CounterArena::new();
    assert_eq!(a.fresh(), 0);
    assert_eq!(a.allocations(), 32);
    for _ in 1..32 {
        a.fresh();
    }
    assert_eq!(a.fresh(), 32);
    assert_eq!(a.allocations(), 80);
    assert_eq!(a.batch, 72);
    assert_eq!(CounterArena::grow(2097152), 2097152);
    assert_eq!(CounterArena::grow(2000000), 2097152);
}

#[test]
fn request_takes_a_batch_from_global() {
    let mut global = FreeListPool::new();
    for i in 0..50 {
        global.free(layout(), i);
    }
    let mut local = LocalFreeListPool::new();
    let got = local.reallocate(layout(), &mut global);
    assert_eq!(got, Some(49));
    assert_eq!(global.len_of(layout()), 18);
    assert_eq!(local.pool.len_of(layout()), 31);
    assert_eq!(local.request_sizes.lookup(layout()), Some(18));
}

#[test]
fn request_stops_when_global_is_empty() {
    let mut global = FreeListPool::new();
    let mut local = LocalFreeListPool::new();
    assert_eq!(local.request(layout(), &mut global), None);
    assert_eq!(local.request_sizes.lookup(layout()), Some(0));
    global.free(layout(), 7);
    assert_eq!(local.request(layout(), &mut global), None);
    genref::pool::reset_request_behavior(&mut local);
    assert_eq!(local.request_sizes.lookup(layout()), Some(32));
    assert_eq!(local.request(layout(), &mut global), Some(7));
}

#[test]
fn teardown_hands_free_counters_to_global() {
    let arena = CounterArena::new();
    let mut global = FreeListPool::new();
    let mut local = LocalFreeListPool::new();
    local.free(layout(), 3);
    local.free(GenerationLayout::of::<u8>(), 4);
    let purged = local.teardown(&arena, &mut global);
    assert!(purged.is_empty());
    assert_eq!(global.len_of(layout()), 1);
    assert_eq!(global.len_of(GenerationLayout::of::<u8>()), 1);
    assert_eq!(local.pool.len_of(layout()), 0);
}

#[test]
fn pool_request_moves_most_recent() {
    let mut pool = FreeListPool::new();
    for i in 0..5 {
        pool.free(layout(), i);
    }
    let mut target = vec![100];
    assert_eq!(pool.request(layout(), 2, &mut target), 3);
    assert_eq!(target, vec![100, 3, 4]);
    assert_eq!(pool.reallocate(layout()), Some(2));
}

#[test]
fn layout_table_counts() {
    let mut t = LayoutTable::new();
    t.increment(layout());
    t.increment(layout());
    t.set(GenerationLayout::of::<u8>(), 0);
    assert_eq!(t.lookup(layout()), Some(2));
    t.reset_zeros(9);
    assert_eq!(t.lookup(GenerationLayout::of::<u8>()), Some(9));
    assert_eq!(t.lookup(GenerationLayout::of::<u64>()), None);
}

#[test]
fn shared_counter_steps() {
    assert_eq!(next_count(0), None);
    assert_eq!(next_count(u32::MAX), None);
    assert_eq!(next_count(5), Some(6));
    let c = GlobalCounter::new();
    assert_eq!(c.count(), 1);
    c.bump();
    assert_eq!(c.count(), 2);
    assert!(c.set_gen(10));
    assert!(!c.set_gen(4));
    assert_eq!(c.count(), 10);
}
