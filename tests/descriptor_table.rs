use bindless_table::descriptor_table::{DescriptorTable, TableError, MAX_DESCRIPTORS};
use std::collections::HashSet;

fn live_handles(t: &DescriptorTable<u64>) -> Vec<u32> {
    let mut out = Vec::new();
    for (i, slot) in t.get_resources().iter().enumerate() {
        if slot.is_some() {
            out.push(i as u32);
        }
    }
    out
}

#[test]
fn new_table_is_empty() {
    let t: DescriptorTable<u64> = DescriptorTable::new();
    assert!(t.get_resources().is_empty());
    assert!(t.get_writes().is_empty());
    assert_eq!(t.get_free_id(), 0);
    assert!(!t.is_live(0));
}

#[test]
fn handles_stay_distinct_while_outstanding() {
    let mut t: DescriptorTable<u64> = DescriptorTable::new();
    let mut outstanding: Vec<u32> = Vec::new();
    let mut value: u64 = 0;
    // A fixed interleaving of allocations and frees.
    for round in 0..50u32 {
        for _ in 0..3 {
            value += 1;
            let h = t.allocate_resource(value).unwrap();
            assert!(!outstanding.contains(&h), "handle {} handed out twice", h);
            outstanding.push(h);
        }
        let victim = outstanding.remove((round as usize * 7) % outstanding.len());
        t.free_resource(victim);
        let set: HashSet<u32> = outstanding.iter().copied().collect();
        assert_eq!(set.len(), outstanding.len());
        let mut live = live_handles(&t);
        live.sort();
        let mut expected = outstanding.clone();
        expected.sort();
        assert_eq!(live, expected);
    }
}

#[test]
fn freed_handles_are_reused_most_recent_first() {
    let mut t: DescriptorTable<u64> = DescriptorTable::new();
    for v in 0..5u64 {
        t.allocate_resource(v).unwrap();
    }
    t.free_resource(1);
    t.free_resource(3);
    assert_eq!(t.get_free_id(), 3);
    assert_eq!(t.allocate_resource(100), Ok(3));
    assert_eq!(t.get_free_id(), 1);
    assert_eq!(t.allocate_resource(101), Ok(1));
    assert_eq!(t.allocate_resource(102), Ok(5));
}

#[test]
fn empty_table_grows_by_one() {
    let mut t: DescriptorTable<u64> = DescriptorTable::new();
    for expected in 0..20u32 {
        assert_eq!(t.get_free_id(), expected);
        assert_eq!(t.allocate_resource(expected as u64 * 10), Ok(expected));
        assert_eq!(t.get_resources().len(), expected as usize + 1);
    }
}

#[test]
fn pending_writes_match_allocations_until_cleared() {
    let mut t: DescriptorTable<u64> = DescriptorTable::new();
    let mut returned = HashSet::new();
    for v in 0..8u64 {
        returned.insert(t.allocate_resource(v).unwrap());
    }
    let pending: HashSet<u32> = t.get_writes().iter().copied().collect();
    assert_eq!(pending, returned);
    assert_eq!(t.get_writes(), &[0, 1, 2, 3, 4, 5, 6, 7]);
    t.clear_writes();
    assert!(t.get_writes().is_empty());
    assert_eq!(t.get_resources().len(), 8);
    assert_eq!(t.get_resource(4), &Some(4));
}

#[test]
fn freed_before_flush_yields_no_write() {
    let mut t: DescriptorTable<u64> = DescriptorTable::new();
    let h = t.allocate_resource(7).unwrap();
    t.free_resource(h);
    assert_eq!(t.get_writes(), &[h]);
    assert!(t.collect_writes().is_empty());
    t.clear_writes();
    assert!(t.get_writes().is_empty());
}

#[test]
fn get_after_allocate_and_free() {
    let mut t: DescriptorTable<u64> = DescriptorTable::new();
    let h = t.allocate_resource(42).unwrap();
    assert_eq!(t.get_resource(h as usize), &Some(42));
    assert!(t.is_live(h));
    t.free_resource(h);
    assert_eq!(t.get_resource(h as usize), &None);
    assert!(!t.is_live(h));
}

#[test]
fn three_images_free_one_reallocate_and_flush() {
    let mut t: DescriptorTable<u64> = DescriptorTable::new();
    let handles: Vec<u32> = (0..3u64).map(|v| t.allocate_resource(v).unwrap()).collect();
    assert_eq!(handles, vec![0, 1, 2]);
    t.free_resource(1);
    assert_eq!(t.allocate_resource(3), Ok(1));
    let mut writes = t.collect_writes();
    writes.sort();
    assert_eq!(writes, vec![0, 1, 2]);
    t.clear_writes();
    assert!(t.get_writes().is_empty());
    assert!(t.collect_writes().is_empty());
}

#[test]
fn allocation_past_capacity_is_refused() {
    let mut t: DescriptorTable<u64> = DescriptorTable::with_capacity(4);
    for v in 0..4u64 {
        assert_eq!(t.allocate_resource(v), Ok(v as u32));
    }
    assert_eq!(t.allocate_resource(99), Err(TableError::ResourceExhausted));
    assert_eq!(t.get_resources().len(), 4);
    assert_eq!(t.get_writes().len(), 4);
    t.free_resource(2);
    assert_eq!(t.allocate_resource(100), Ok(2));
    assert_eq!(t.allocate_resource(101), Err(TableError::ResourceExhausted));
}

#[test]
fn default_capacity_holds_max_descriptors() {
    let mut t: DescriptorTable<u32> = DescriptorTable::new();
    for v in 0..MAX_DESCRIPTORS {
        assert_eq!(t.allocate_resource(v), Ok(v));
    }
    assert_eq!(t.allocate_resource(0), Err(TableError::ResourceExhausted));
    assert_eq!(t.get_resources().len(), 65536);
}

#[test]
fn zero_capacity_refuses_everything() {
    let mut t: DescriptorTable<u64> = DescriptorTable::with_capacity(0);
    assert_eq!(t.allocate_resource(1), Err(TableError::ResourceExhausted));
    assert!(t.get_writes().is_empty());
}

#[test]
fn flush_lists_each_live_handle_once() {
    let mut t: DescriptorTable<u64> = DescriptorTable::new();
    let a = t.allocate_resource(1).unwrap();
    let b = t.allocate_resource(2).unwrap();
    t.free_resource(a);
    let c = t.allocate_resource(3).unwrap();
    assert_eq!(c, a);
    t.free_resource(b);
    assert_eq!(t.get_writes(), &[0, 1, 0]);
    assert_eq!(t.collect_writes(), vec![0]);
}
