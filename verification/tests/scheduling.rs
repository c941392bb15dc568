use os_task::mm::MemorySet;
use os_task::task::{
    exit_current_and_run_next, get_syscall_info, run_first_task, suspend_current_and_run_next,
    syscall_counts, current_user_token, TaskControlBlock, TaskManager, TaskStatus,
};

fn manager(n: usize) -> TaskManager {
    let mut tasks = Vec::new();
    for i in 0..n {
        tasks.push(TaskControlBlock::new(MemorySet::new_bare(100 + i), 0x10000));
    }
    TaskManager::new(tasks)
}

#[test]
fn first_task_runs_first() {
    let mut tm = manager(3);
    assert_eq!(run_first_task(&mut tm), 0);
    assert_eq!(tm.current_task(), 0);
    assert_eq!(tm.task_status(0), TaskStatus::Running);
    assert_eq!(tm.task_status(1), TaskStatus::Ready);
    assert_eq!(current_user_token(&tm), 100);
}

#[test]
fn suspend_goes_round_robin() {
    let mut tm = manager(3);
    run_first_task(&mut tm);
    assert_eq!(suspend_current_and_run_next(&mut tm), (0, 1));
    assert_eq!(tm.task_status(0), TaskStatus::Ready);
    assert_eq!(tm.task_status(1), TaskStatus::Running);
    assert_eq!(suspend_current_and_run_next(&mut tm), (1, 2));
    assert_eq!(suspend_current_and_run_next(&mut tm), (2, 0));
    assert_eq!(tm.current_task(), 0);
    assert_eq!(current_user_token(&tm), 100);
}

#[test]
fn other_task_ready_ignores_the_current_task() {
    let mut tm = manager(2);
    run_first_task(&mut tm);
    assert!(tm.other_task_ready());
    exit_current_and_run_next(&mut tm);
    assert!(!tm.other_task_ready());
    let mut one = manager(1);
    run_first_task(&mut one);
    one.mark_current_suspended();
    assert!(!one.other_task_ready());
}

#[test]
fn single_task_yields_to_itself() {
    let mut tm = manager(1);
    run_first_task(&mut tm);
    assert_eq!(suspend_current_and_run_next(&mut tm), (0, 0));
    assert_eq!(tm.task_status(0), TaskStatus::Running);
}

#[test]
fn exited_tasks_are_skipped_until_all_complete() {
    let mut tm = manager(3);
    run_first_task(&mut tm);
    assert_eq!(exit_current_and_run_next(&mut tm), (0, 1));
    assert_eq!(tm.task_status(0), TaskStatus::Exited);
    assert_eq!(suspend_current_and_run_next(&mut tm), (1, 2));
    assert_eq!(exit_current_and_run_next(&mut tm), (2, 1));
    assert_eq!(tm.find_next_task(), None);
    // the last task cannot exit to another one: all applications have completed
    assert!(!tm.other_task_ready());
    assert_eq!(tm.current_task(), 1);
}

#[test]
fn find_next_task_takes_first_ready_after_current() {
    let mut tm = manager(4);
    run_first_task(&mut tm);
    assert_eq!(tm.find_next_task(), Some(1));
    tm.mark_current_suspended();
    assert_eq!(tm.run_next_task(), (0, 1));
    tm.mark_current_exited();
    assert_eq!(tm.find_next_task(), Some(2));
    assert_eq!(tm.run_next_task(), (1, 2));
    tm.mark_current_exited();
    assert_eq!(tm.run_next_task(), (2, 3));
    tm.mark_current_suspended();
    assert_eq!(tm.find_next_task(), Some(0));
}

#[test]
fn empty_manager_has_no_next_task() {
    let mut tm = manager(0);
    assert_eq!(tm.num_app(), 0);
    assert_eq!(tm.find_next_task(), None);
}

#[test]
fn syscall_counts_are_per_task() {
    let mut tm = manager(2);
    run_first_task(&mut tm);
    assert_eq!(get_syscall_info(&tm, 64), 0);
    syscall_counts(&mut tm, 64);
    syscall_counts(&mut tm, 64);
    syscall_counts(&mut tm, 93);
    assert_eq!(get_syscall_info(&tm, 64), 2);
    assert_eq!(tm.get_syscall_info(93), 1);
    assert_eq!(get_syscall_info(&tm, 500), -1);
    syscall_counts(&mut tm, 500);
    assert_eq!(get_syscall_info(&tm, 499), 0);
    suspend_current_and_run_next(&mut tm);
    assert_eq!(get_syscall_info(&tm, 64), 0);
    tm.syscall_counts(64);
    assert_eq!(get_syscall_info(&tm, 64), 1);
}
