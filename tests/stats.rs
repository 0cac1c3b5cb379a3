use genref::pool::{global_stats, thread_local_stats, FreeListPool, GenerationLayout, LocalFreeListPool};
use genref::stats::Stats;

#[test]
fn sums_by_layout() {
    let a = GenerationLayout { size: 8, align: 8 };
    let b = GenerationLayout { size: 2, align: 1 };
    let s = Stats { by_layout: vec![(a, 3), (b, 5)], drop_queue_info: vec![(a, 2)], guards: 1 };
    assert_eq!(s.free_objects(), 8);
    assert_eq!(s.free_heap_size(), 34);
    assert_eq!(s.bound_objects(), 2);
    assert_eq!(s.bound_heap_size(), 16);
    let later = std::mem::size_of::<genref::pool::DropLater>();
    assert_eq!(s.overhead_size(), 2 * later + 8 * std::mem::size_of::<usize>());
}

#[test]
fn pool_stats() {
    let l = GenerationLayout::of::<u64>();
    assert_eq!(l.size(), 8);
    assert_eq!(l.align(), 8);
    let mut global = FreeListPool::new();
    global.free(l, 1);
    global.free(l, 2);
    let g = global_stats(&global);
    assert_eq!(g.free_objects(), 2);
    assert_eq!(g.free_heap_size(), 16);
    assert_eq!(g.guards, 0);
    assert!(g.drop_queue_info.is_empty());

    let mut local = LocalFreeListPool::new();
    local.register_guard();
    local.drop_later(4, l);
    local.drop_later(5, l);
    let t = thread_local_stats(&local);
    assert_eq!(t.bound_objects(), 2);
    assert_eq!(t.guards, 1);
    assert_eq!(t.free_objects(), 0);
}
