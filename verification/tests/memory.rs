use os_task::mm::{MapPermission, MemorySet, PTEFlags, VirtAddr};
use os_task::task::{
    change_program_brk, current_task_mmap, current_task_munmap, heap_permission,
    read_buffer_from_va, run_first_task, write_buffer_to_va, TaskControlBlock, TaskManager,
};

fn rw() -> PTEFlags {
    PTEFlags::from_permission(MapPermission { readable: true, writable: true, executable: false, user: true })
}

fn manager_with(ms: MemorySet) -> TaskManager {
    let mut tm = TaskManager::new(vec![TaskControlBlock::new(ms, 0x10000)]);
    run_first_task(&mut tm);
    tm
}

#[test]
fn virt_addr_rounding() {
    assert_eq!(VirtAddr::from_usize(0x1234).floor(), 1);
    assert_eq!(VirtAddr::from_usize(0x1234).ceil(), 2);
    assert_eq!(VirtAddr::from_usize(0x2000).ceil(), 2);
    assert_eq!(VirtAddr::from_usize(0).ceil(), 0);
    assert_eq!(VirtAddr::from_usize(0x1234).page_offset(), 0x234);
    assert!(VirtAddr::from_usize(0x3000).aligned());
    assert!(!VirtAddr::from_usize(0x3001).aligned());
    assert_eq!(VirtAddr::from_usize((1usize << 39) + 0x5000).0, 0x5000);
    assert_eq!(VirtAddr(usize::MAX).ceil(), (usize::MAX - 1) / 4096 + 1);
}

#[test]
fn pages_map_zeroed_and_unmap() {
    let mut ms = MemorySet::new_bare(3);
    assert_eq!(ms.token(), 3);
    ms.map_page(7, rw());
    assert!(ms.translate(7).is_some());
    assert!(ms.translate(8).is_none());
    assert_eq!(ms.read_byte(7 * 4096 + 5), 0);
    ms.write_byte(7 * 4096 + 5, 0xab);
    assert_eq!(ms.read_byte(7 * 4096 + 5), 0xab);
    assert_eq!(ms.read_byte(7 * 4096 + 6), 0);
    ms.unmap_page(7);
    assert!(ms.translate(7).is_none());
}

#[test]
fn framed_area_insert_and_remove() {
    let mut ms = MemorySet::new_bare(0);
    let perm = MapPermission { readable: true, writable: false, executable: true, user: true };
    assert_eq!(ms.safe_insert_framed_area(VirtAddr(0x1000), VirtAddr(0x2800), perm), 0);
    assert!(ms.range_mapped(1, 3));
    let f = ms.translate(2).unwrap();
    assert!(f.valid && f.readable && !f.writable && f.executable && f.user);
    // overlapping
    assert_eq!(ms.safe_insert_framed_area(VirtAddr(0x2000), VirtAddr(0x4000), perm), -1);
    assert!(ms.translate(3).is_none());
    // reversed
    assert_eq!(ms.safe_insert_framed_area(VirtAddr(0x9000), VirtAddr(0x5000), perm), -1);
    // partly unmapped
    assert_eq!(ms.remove_framed_area(VirtAddr(0x1000), VirtAddr(0x4000)), -1);
    assert!(ms.range_mapped(1, 3));
    assert_eq!(ms.remove_framed_area(VirtAddr(0x1000), VirtAddr(0x3000)), 0);
    assert!(ms.range_unmapped(0, 10));
}

#[test]
fn buffers_read_and_write_user_memory() {
    let mut ms = MemorySet::new_bare(0);
    ms.map_range(1, 3, rw());
    let mut tm = manager_with(ms);
    // a write that crosses a page boundary
    assert!(write_buffer_to_va(&mut tm, 0x1ffe, 4, &[1, 2, 3, 4]));
    let mut buf = vec![0u8; 2];
    assert!(read_buffer_from_va(&tm, 0x1ffe, 2, &mut buf));
    assert_eq!(buf, vec![1, 2]);
    let mut buf = vec![9u8; 2];
    assert!(read_buffer_from_va(&tm, 0x2000, 2, &mut buf));
    assert_eq!(buf, vec![3, 4]);
    // a read across the page boundary
    let mut buf = vec![0u8; 4];
    assert!(read_buffer_from_va(&tm, 0x1ffe, 4, &mut buf));
    assert_eq!(buf, vec![1, 2, 3, 4]);
    let mut buf = vec![0u8; 3];
    assert!(!read_buffer_from_va(&tm, 0x1ffe, 4, &mut buf));
    assert_eq!(buf, vec![1, 2, 3]);
    // buffer shorter than the request
    let mut buf = vec![9u8; 1];
    assert!(!read_buffer_from_va(&tm, 0x2000, 2, &mut buf));
    assert_eq!(buf, vec![3]);
    assert!(!write_buffer_to_va(&mut tm, 0x2100, 3, &[7]));
    let mut buf = vec![0u8; 2];
    assert!(read_buffer_from_va(&tm, 0x2100, 2, &mut buf));
    assert_eq!(buf, vec![7, 0]);
    // unmapped or illegal
    let mut buf = vec![5u8; 1];
    assert!(!read_buffer_from_va(&tm, 0x5000, 1, &mut buf));
    assert!(!read_buffer_from_va(&tm, 1 << 39, 1, &mut buf));
    assert_eq!(buf, vec![5]);
    assert!(!write_buffer_to_va(&mut tm, 0x5000, 1, &[1]));
}

#[test]
fn readonly_page_refuses_writes() {
    let mut ms = MemorySet::new_bare(0);
    ms.map_page(1, PTEFlags::from_permission(MapPermission { readable: true, writable: false, executable: false, user: true }));
    let mut tm = manager_with(ms);
    assert!(!write_buffer_to_va(&mut tm, 0x1000, 1, &[1]));
    let mut buf = vec![9u8; 1];
    assert!(read_buffer_from_va(&tm, 0x1000, 1, &mut buf));
    assert_eq!(buf, vec![0]);
}

#[test]
fn mmap_and_munmap_on_current_task() {
    let mut tm = manager_with(MemorySet::new_bare(0));
    let perm = MapPermission { readable: true, writable: true, executable: false, user: true };
    assert_eq!(current_task_mmap(&mut tm, VirtAddr(0x4000), VirtAddr(0x6000), perm), 0);
    assert!(tm.task(0).memory_set.range_mapped(4, 6));
    assert_eq!(current_task_mmap(&mut tm, VirtAddr(0x5000), VirtAddr(0x7000), perm), -1);
    assert_eq!(current_task_munmap(&mut tm, VirtAddr(0x4000), VirtAddr(0x6000)), 0);
    assert_eq!(current_task_munmap(&mut tm, VirtAddr(0x4000), VirtAddr(0x6000)), -1);
    assert!(tm.task(0).memory_set.range_unmapped(0, 16));
}

#[test]
fn heap_grows_and_shrinks() {
    let mut tm = manager_with(MemorySet::new_bare(0));
    assert_eq!(change_program_brk(&mut tm, 0x1800), Some(0x10000));
    assert_eq!(tm.task(0).program_brk, 0x11800);
    assert!(tm.task(0).memory_set.range_mapped(0x10, 0x12));
    assert!(tm.task(0).memory_set.translate(0x12).is_none());
    let f = tm.task(0).memory_set.translate(0x11).unwrap();
    let p = heap_permission();
    assert!(f.readable == p.readable && f.writable == p.writable && f.user && !f.executable);
    assert_eq!(tm.change_current_program_brk(-0x1000), Some(0x11800));
    assert!(tm.task(0).memory_set.translate(0x11).is_none());
    assert!(tm.task(0).memory_set.translate(0x10).is_some());
    assert_eq!(change_program_brk(&mut tm, -0x1000), None);
    assert_eq!(tm.task(0).program_brk, 0x10800);
    assert_eq!(change_program_brk(&mut tm, -0x800), Some(0x10800));
    assert!(tm.task(0).memory_set.range_unmapped(0, 0x100));
    assert!(tm.task(0).can_change_brk(0x1000));
}

#[test]
fn heap_growth_onto_a_mapped_page_is_flagged() {
    let mut ms = MemorySet::new_bare(0);
    ms.map_page(0x10, rw());
    let tcb = TaskControlBlock::new(ms, 0x10000);
    assert!(!tcb.can_change_brk(1));
    assert!(tcb.can_change_brk(0));
    assert!(tcb.can_change_brk(-1));
}
