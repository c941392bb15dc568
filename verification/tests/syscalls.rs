use os_task::mm::MemorySet;
use os_task::syscall::process::{
    sys_exit, sys_get_time, sys_mmap, sys_munmap, sys_sbrk, sys_trace, sys_yield, TimeVal,
};
use os_task::task::{run_first_task, syscall_counts, TaskControlBlock, TaskManager, TaskStatus};

fn manager(n: usize) -> TaskManager {
    let mut tasks = Vec::new();
    for i in 0..n {
        tasks.push(TaskControlBlock::new(MemorySet::new_bare(i), 0x10000));
    }
    let mut tm = TaskManager::new(tasks);
    run_first_task(&mut tm);
    tm
}

#[test]
fn timeval_from_microseconds() {
    let t = TimeVal::from_us(3_250_001);
    assert_eq!(t.sec, 3);
    assert_eq!(t.usec, 250_001);
    let b = TimeVal { sec: 0x0102, usec: 0x0a0b0c }.to_bytes();
    assert_eq!(b, vec![2, 1, 0, 0, 0, 0, 0, 0, 0x0c, 0x0b, 0x0a, 0, 0, 0, 0, 0]);
}

#[test]
fn yield_and_exit() {
    let mut tm = manager(2);
    assert_eq!(sys_yield(&mut tm), (0, (0, 1)));
    assert_eq!(sys_exit(&mut tm, 0), (1, 0));
    assert_eq!(tm.task_status(1), TaskStatus::Exited);
    assert!(!tm.other_task_ready());
}

#[test]
fn get_time_writes_a_timeval() {
    let mut tm = manager(1);
    assert_eq!(sys_mmap(&mut tm, 0x1000, 0x2000, 3), 0);
    // straddles the two pages
    assert_eq!(sys_get_time(&mut tm, 0x1ff8, 0, 5_000_007), 0);
    assert_eq!(sys_trace(&mut tm, 0, 0x1ff8, 0), 5);
    assert_eq!(sys_trace(&mut tm, 0, 0x2000, 0), 7);
    // a trace read whose word crosses into the next page
    assert_eq!(sys_trace(&mut tm, 0, 0x1ffc, 0), 0);
    assert_eq!(sys_trace(&mut tm, 1, 0x1ffd, 0x63), 0);
    assert_eq!(sys_trace(&mut tm, 0, 0x1ffd, 0), 0x63);
    assert_eq!(sys_trace(&mut tm, 9, 0x1ffd, 0), -1);
    assert_eq!(sys_get_time(&mut tm, 0x8000, 0, 1), -1);
}

#[test]
fn get_time_needs_a_writable_page() {
    let mut tm = manager(1);
    assert_eq!(sys_mmap(&mut tm, 0x1000, 0x1000, 1), 0);
    assert_eq!(sys_get_time(&mut tm, 0x1000, 0, 42), -1);
    assert_eq!(sys_trace(&mut tm, 0, 0x1000, 0), 0);
}

#[test]
fn trace_reads_writes_and_counts() {
    let mut tm = manager(1);
    assert_eq!(sys_mmap(&mut tm, 0x3000, 0x1000, 3), 0);
    assert_eq!(sys_trace(&mut tm, 1, 0x3010, 0x1ff), 0);
    assert_eq!(sys_trace(&mut tm, 0, 0x3010, 0), 0xff);
    assert_eq!(sys_trace(&mut tm, 0, 0x3011, 0), 0);
    assert_eq!(sys_trace(&mut tm, 3, 0x3010, 0), -1);
    assert_eq!(sys_trace(&mut tm, 0, 0x9000, 0), -1);
    assert_eq!(sys_trace(&mut tm, 1, 0x9000, 1), -1);
    assert_eq!(sys_trace(&mut tm, 0, 1 << 40, 0), -1);
    syscall_counts(&mut tm, 410);
    syscall_counts(&mut tm, 410);
    assert_eq!(sys_trace(&mut tm, 2, 410, 0), 2);
    assert_eq!(sys_trace(&mut tm, 2, 64, 0), 0);
    assert_eq!(sys_trace(&mut tm, 2, 10_000, 0), -1);
}

#[test]
fn trace_write_needs_readable_and_writable() {
    let mut tm = manager(1);
    assert_eq!(sys_mmap(&mut tm, 0x3000, 0x1000, 2), 0);
    assert_eq!(sys_trace(&mut tm, 1, 0x3000, 5), -1);
    assert_eq!(sys_mmap(&mut tm, 0x4000, 0x1000, 1), 0);
    assert_eq!(sys_trace(&mut tm, 1, 0x4000, 5), -1);
    assert_eq!(sys_trace(&mut tm, 0, 0x4000, 0), 0);
}

#[test]
fn mmap_argument_errors() {
    let mut tm = manager(1);
    assert_eq!(sys_mmap(&mut tm, 0x1001, 0x1000, 3), -1);
    assert_eq!(sys_mmap(&mut tm, 0x1000, 0x1000, 8), -1);
    assert_eq!(sys_mmap(&mut tm, 0x1000, 0x1000, 0), -1);
    assert_eq!(sys_mmap(&mut tm, 0x1000, 0x1000, 0xf), -1);
    assert_eq!(sys_munmap(&mut tm, 0x1000, 0x1000), -1);
    // refused before the end address is computed
    assert_eq!(sys_mmap(&mut tm, 0x1001, usize::MAX, 3), -1);
    assert_eq!(sys_mmap(&mut tm, 0x1000, usize::MAX, 0), -1);
}

#[test]
fn mmap_refuses_bad_arguments_without_tasks() {
    let mut tm = TaskManager::new(Vec::new());
    assert_eq!(sys_mmap(&mut tm, 0x1001, 0x1000, 3), -1);
}

#[test]
fn mmap_rounds_length_up_and_munmap_undoes_it() {
    let mut tm = manager(1);
    assert_eq!(sys_mmap(&mut tm, 0x2000, 0x1001, 7), 0);
    assert!(tm.task(0).memory_set.range_mapped(2, 4));
    assert!(tm.task(0).memory_set.translate(4).is_none());
    let f = tm.task(0).memory_set.translate(3).unwrap();
    assert!(f.readable && f.writable && f.executable && f.user && f.valid);
    assert_eq!(sys_mmap(&mut tm, 0x3000, 0x1000, 1), -1);
    assert_eq!(sys_munmap(&mut tm, 0x2001, 0x1000), -1);
    assert_eq!(sys_munmap(&mut tm, 0x2000, 0x1001), 0);
    assert!(tm.task(0).memory_set.range_unmapped(0, 16));
    assert_eq!(sys_munmap(&mut tm, 0x2000, 0x1000), -1);
    assert_eq!(sys_mmap(&mut tm, 0x2000, 0, 1), 0);
    assert_eq!(sys_munmap(&mut tm, 0x2000, 0), 0);
}

#[test]
fn mmap_addresses_wrap_to_39_bits() {
    let mut tm = manager(1);
    assert_eq!(sys_mmap(&mut tm, (1usize << 39) + 0x5000, 0x1000, 1), 0);
    assert!(tm.task(0).memory_set.translate(5).is_some());
}

#[test]
fn sbrk_moves_the_break() {
    let mut tm = manager(1);
    assert_eq!(sys_sbrk(&mut tm, 100), 0x10000);
    assert_eq!(sys_sbrk(&mut tm, 0), 0x10064);
    assert_eq!(sys_sbrk(&mut tm, -200), -1);
    assert_eq!(sys_sbrk(&mut tm, -100), 0x10064);
    assert_eq!(sys_sbrk(&mut tm, 0), 0x10000);
    assert!(tm.task(0).memory_set.range_unmapped(0, 0x100));
    let b = sys_sbrk(&mut tm, 0x2345);
    assert_eq!(sys_sbrk(&mut tm, 0), b + 0x2345);
    assert_eq!(sys_sbrk(&mut tm, 0), b + 0x2345);
}

#[test]
fn time_is_monotonic() {
    let a = TimeVal::from_us(1_999_999);
    let b = TimeVal::from_us(2_000_000);
    assert!(a.sec < b.sec || (a.sec == b.sec && a.usec <= b.usec));
    assert_eq!((b.sec, b.usec), (2, 0));
}
