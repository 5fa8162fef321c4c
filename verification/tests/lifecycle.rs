use os::loader::ProgramImage;
use os::mm::{MapArea, MapPermission};
use os::processor::{
    add_current_syscall_cnt, add_maparea, change_program_brk, current_status, current_task,
    current_trap_cx, exec, exit_current_and_run_next, fork, get_current_running_time,
    get_current_syscalls_cnt, is_map_vpn_current, map_current, remove_mem, run_tasks, spawn,
    suspend_current_and_run_next, unmap_current, waitpid, Kernel,
};
use os::mm::MapError;
use os::syscall::{SYSCALL_COUNT, SYSCALL_FORK, SYSCALL_WRITE};
use os::task::TaskStatus;

fn image() -> ProgramImage {
    let areas = vec![MapArea {
        start_vpn: 0x10,
        end_vpn: 0x12,
        perm: MapPermission { r: true, w: false, x: true, u: true },
    }];
    ProgramImage::new(&areas, 0x20000, 0x10000, 0x1f000).unwrap()
}

fn other_image() -> ProgramImage {
    let areas = vec![
        MapArea {
            start_vpn: 1,
            end_vpn: 2,
            perm: MapPermission { r: true, w: false, x: true, u: true },
        },
        MapArea {
            start_vpn: 2,
            end_vpn: 4,
            perm: MapPermission { r: true, w: true, x: false, u: true },
        },
    ];
    ProgramImage::new(&areas, 0x4000, 0x1000, 0x4000).unwrap()
}

fn running_init() -> Kernel {
    let mut kernel = Kernel::new();
    assert!(kernel.add_initproc(&image()));
    assert_eq!(run_tasks(&mut kernel, 100), Some(0));
    kernel
}

fn ready(kernel: &Kernel) -> Vec<usize> {
    (0..kernel.ready_len()).map(|i| kernel.ready_at(i)).collect()
}

/// Gives the processor to `pid`, which must be ready: the others yield
/// until it is their turn.
fn switch_to(kernel: &mut Kernel, pid: usize) {
    if kernel.current().is_some() {
        suspend_current_and_run_next(kernel);
    }
    for _ in 0..10_000 {
        let next = run_tasks(kernel, 100).unwrap();
        if next == pid {
            return;
        }
        suspend_current_and_run_next(kernel);
    }
    panic!("task {} never ran", pid);
}

#[test]
fn wait_without_children_returns_minus_one() {
    let mut kernel = running_init();
    let mut code = 555;
    assert_eq!(waitpid(&mut kernel, -1, &mut code), -1);
    assert_eq!(waitpid(&mut kernel, 1, &mut code), -1);
    assert_eq!(waitpid(&mut kernel, 0, &mut code), -1);
    assert_eq!(waitpid(&mut kernel, -2, &mut code), -1);
    assert_eq!(code, 555);
}

#[test]
fn fork_then_wait_before_and_after_the_child_exits() {
    let mut kernel = running_init();
    let child = fork(&mut kernel).unwrap();
    assert_eq!(child, 1);
    let mut code = 555;
    assert_eq!(waitpid(&mut kernel, -1, &mut code), -2);
    assert_eq!(waitpid(&mut kernel, child as isize, &mut code), -2);
    assert_eq!(waitpid(&mut kernel, 7, &mut code), -1);
    assert_eq!(code, 555);
    switch_to(&mut kernel, child);
    exit_current_and_run_next(&mut kernel, -37);
    assert_eq!(kernel.current(), None);
    assert_eq!(kernel.task(child).unwrap().task_status, TaskStatus::Zombie);
    assert_eq!(kernel.task(child).unwrap().exit_code, -37);
    assert_eq!(kernel.task(child).unwrap().memory_set.area_count(), 0);
    switch_to(&mut kernel, 0);
    assert_eq!(waitpid(&mut kernel, -1, &mut code), child as isize);
    assert_eq!(code, -37);
    assert!(kernel.task(child).is_none());
    assert!(kernel.task(0).unwrap().children.is_empty());
    assert_eq!(waitpid(&mut kernel, -1, &mut code), -1);
    assert_eq!(code, -37);
}

#[test]
fn two_children_are_collected_with_their_codes() {
    let mut kernel = running_init();
    let first = fork(&mut kernel).unwrap();
    let second = fork(&mut kernel).unwrap();
    assert_eq!((first, second), (1, 2));
    assert_eq!(kernel.task(0).unwrap().children, vec![1, 2]);
    switch_to(&mut kernel, second);
    exit_current_and_run_next(&mut kernel, 1);
    switch_to(&mut kernel, first);
    exit_current_and_run_next(&mut kernel, 0);
    switch_to(&mut kernel, 0);
    let mut code = 555;
    let a = waitpid(&mut kernel, -1, &mut code);
    let code_a = code;
    let b = waitpid(&mut kernel, -1, &mut code);
    let code_b = code;
    assert_eq!((a, code_a), (1, 0));
    assert_eq!((b, code_b), (2, 1));
    assert_eq!(waitpid(&mut kernel, -1, &mut code), -1);
    assert!(kernel.task(1).is_none());
    assert!(kernel.task(2).is_none());
}

#[test]
fn wait_for_one_pid_skips_other_zombies() {
    let mut kernel = running_init();
    assert_eq!(fork(&mut kernel), Some(1));
    assert_eq!(fork(&mut kernel), Some(2));
    assert_eq!(fork(&mut kernel), Some(3));
    switch_to(&mut kernel, 1);
    exit_current_and_run_next(&mut kernel, 11);
    switch_to(&mut kernel, 3);
    exit_current_and_run_next(&mut kernel, 33);
    switch_to(&mut kernel, 0);
    let mut code = 0;
    assert_eq!(waitpid(&mut kernel, 2, &mut code), -2);
    assert_eq!(waitpid(&mut kernel, 3, &mut code), 3);
    assert_eq!(code, 33);
    assert_eq!(kernel.task(0).unwrap().children, vec![1, 2]);
    assert_eq!(waitpid(&mut kernel, 3, &mut code), -1);
    assert_eq!(waitpid(&mut kernel, -1, &mut code), 1);
    assert_eq!(code, 11);
    assert_eq!(waitpid(&mut kernel, -1, &mut code), -2);
    assert_eq!(kernel.task(0).unwrap().children, vec![2]);
}

#[test]
fn fork_gives_the_child_a_copy() {
    let mut kernel = running_init();
    assert_eq!(map_current(&mut kernel, 0x30000, 0x31000, 3), Ok(()));
    add_current_syscall_cnt(&mut kernel, SYSCALL_WRITE);
    current_trap_cx(&mut kernel).x[10] = 64;
    current_trap_cx(&mut kernel).x[11] = 7;
    let child = fork(&mut kernel).unwrap();
    assert_eq!(ready(&kernel), vec![child]);
    let parent = kernel.task(0).unwrap();
    let task = kernel.task(child).unwrap();
    assert_eq!(task.pid, child);
    assert_eq!(task.parent, Some(0));
    assert_eq!(task.task_status, TaskStatus::Ready);
    assert_eq!(task.trap_cx.x[10], 0);
    assert_eq!(task.trap_cx.x[11], 7);
    assert_eq!(parent.trap_cx.x[10], 64);
    assert_eq!(task.memory_set.area_count(), 2);
    assert_eq!(task.memory_set.area(1), parent.memory_set.area(1));
    assert_eq!(task.syscalls_cnt, [0u32; SYSCALL_COUNT]);
    assert_eq!(task.start_time, -1);
    assert_eq!(task.stride, parent.stride);
    assert_eq!(task.prio_level, parent.prio_level);
    assert_eq!(unmap_current(&mut kernel, 0x30000, 0x31000), Ok(()));
    assert!(kernel.task(child).unwrap().memory_set.is_mapped(0x30));
    assert!(!kernel.task(0).unwrap().memory_set.is_mapped(0x30));
}

#[test]
fn exit_hands_children_to_the_first_process() {
    let mut kernel = running_init();
    assert_eq!(fork(&mut kernel), Some(1));
    assert_eq!(fork(&mut kernel), Some(2));
    switch_to(&mut kernel, 1);
    assert_eq!(fork(&mut kernel), Some(3));
    assert_eq!(fork(&mut kernel), Some(4));
    assert_eq!(kernel.task(1).unwrap().children, vec![3, 4]);
    exit_current_and_run_next(&mut kernel, 9);
    assert_eq!(kernel.task(0).unwrap().children, vec![1, 2, 3, 4]);
    assert!(kernel.task(1).unwrap().children.is_empty());
    assert_eq!(kernel.task(1).unwrap().parent, Some(0));
    assert_eq!(kernel.task(3).unwrap().parent, Some(0));
    assert_eq!(kernel.task(4).unwrap().parent, Some(0));
    assert_eq!(kernel.task(2).unwrap().parent, Some(0));
    switch_to(&mut kernel, 3);
    exit_current_and_run_next(&mut kernel, 30);
    switch_to(&mut kernel, 0);
    let mut code = 0;
    assert_eq!(waitpid(&mut kernel, -1, &mut code), 1);
    assert_eq!(code, 9);
    assert_eq!(waitpid(&mut kernel, -1, &mut code), 3);
    assert_eq!(code, 30);
    assert_eq!(waitpid(&mut kernel, -1, &mut code), -2);
    assert_eq!(kernel.task(0).unwrap().children, vec![2, 4]);
}

#[test]
fn first_process_exits_and_keeps_its_children() {
    let mut kernel = running_init();
    assert_eq!(fork(&mut kernel), Some(1));
    exit_current_and_run_next(&mut kernel, 5);
    let init = kernel.task(0).unwrap();
    assert_eq!(init.task_status, TaskStatus::Zombie);
    assert_eq!(init.exit_code, 5);
    assert_eq!(init.children, vec![1]);
    assert_eq!(init.memory_set.area_count(), 0);
    assert_eq!(kernel.task(1).unwrap().parent, Some(0));
    assert_eq!(run_tasks(&mut kernel, 0), Some(1));
    exit_current_and_run_next(&mut kernel, 6);
    assert_eq!(run_tasks(&mut kernel, 0), None);
}

#[test]
fn pids_are_reused_after_collection() {
    let mut kernel = running_init();
    assert_eq!(fork(&mut kernel), Some(1));
    assert_eq!(fork(&mut kernel), Some(2));
    assert_eq!(fork(&mut kernel), Some(3));
    switch_to(&mut kernel, 2);
    exit_current_and_run_next(&mut kernel, 0);
    switch_to(&mut kernel, 0);
    assert_eq!(fork(&mut kernel), Some(4));
    let mut code = 0;
    assert_eq!(waitpid(&mut kernel, 2, &mut code), 2);
    assert_eq!(fork(&mut kernel), Some(2));
    assert_eq!(fork(&mut kernel), Some(5));
    assert_eq!(kernel.task(0).unwrap().children, vec![1, 3, 4, 2, 5]);
}

#[test]
fn exec_replaces_the_program_or_fails() {
    let mut kernel = running_init();
    assert_eq!(fork(&mut kernel), Some(1));
    assert_eq!(exec(&mut kernel, None), -1);
    assert_eq!(current_task(&kernel).unwrap().memory_set.area_count(), 1);
    assert_eq!(current_task(&kernel).unwrap().trap_cx.sepc, 0x10000);
    assert_eq!(exec(&mut kernel, Some(&other_image())), 0);
    let task = current_task(&kernel).unwrap();
    assert_eq!(task.pid, 0);
    assert_eq!(task.children, vec![1]);
    assert_eq!(task.task_status, TaskStatus::Running);
    assert_eq!(task.memory_set.area_count(), 2);
    assert_eq!(task.memory_set.heap_bottom(), 0x4000);
    assert_eq!(task.trap_cx.sepc, 0x1000);
    assert_eq!(task.trap_cx.x[2], 0x4000);
    assert_eq!(kernel.task(1).unwrap().memory_set.area_count(), 1);
}

#[test]
fn spawn_is_fork_and_exec_in_the_child() {
    let mut kernel = running_init();
    assert_eq!(spawn(&mut kernel, None), -1);
    assert!(kernel.task(1).is_none());
    assert_eq!(spawn(&mut kernel, Some(&other_image())), 1);
    let child = kernel.task(1).unwrap();
    assert_eq!(child.parent, Some(0));
    assert_eq!(child.task_status, TaskStatus::Ready);
    assert_eq!(child.memory_set.area_count(), 2);
    assert_eq!(child.trap_cx.sepc, 0x1000);
    assert_eq!(child.trap_cx.x[2], 0x4000);
    assert_eq!(child.trap_cx.x[10], 0);
    assert_eq!(kernel.task(0).unwrap().children, vec![1]);
    assert_eq!(kernel.task(0).unwrap().memory_set.area_count(), 1);
    assert_eq!(ready(&kernel), vec![1]);

    let mut twin = running_init();
    assert_eq!(fork(&mut twin), Some(1));
    switch_to(&mut twin, 1);
    assert_eq!(exec(&mut twin, Some(&other_image())), 0);
    let forked = twin.task(1).unwrap();
    assert_eq!(forked.trap_cx.x, child.trap_cx.x);
    assert_eq!(forked.trap_cx.sepc, child.trap_cx.sepc);
    assert_eq!(forked.memory_set.area_count(), child.memory_set.area_count());
    assert_eq!(forked.memory_set.area(1), child.memory_set.area(1));
    assert_eq!(forked.parent, child.parent);
    assert_eq!(forked.prio_level, child.prio_level);
}

#[test]
fn current_task_helpers_act_on_the_running_task() {
    let mut kernel = running_init();
    assert_eq!(current_status(&kernel), TaskStatus::Running);
    assert!(is_map_vpn_current(&kernel, 0x10));
    assert!(is_map_vpn_current(&kernel, 0x11));
    assert!(!is_map_vpn_current(&kernel, 0x12));
    add_maparea(&mut kernel, 0x12000, 0x13001, 2 | 8);
    assert!(is_map_vpn_current(&kernel, 0x12));
    assert!(is_map_vpn_current(&kernel, 0x13));
    assert_eq!(
        current_task(&kernel).unwrap().memory_set.area(1),
        MapArea {
            start_vpn: 0x12,
            end_vpn: 0x14,
            perm: MapPermission { r: false, w: true, x: false, u: true },
        }
    );
    assert_eq!(remove_mem(&mut kernel, 0x12000, 0x13000), -1);
    assert_eq!(remove_mem(&mut kernel, 0x12000, 0x14000), 0);
    assert!(!is_map_vpn_current(&kernel, 0x12));
    assert_eq!(map_current(&mut kernel, 0x10000, 0x11000, 1), Err(MapError::AlreadyMapped));
    assert_eq!(unmap_current(&mut kernel, 0x10000, 0x11000), Err(MapError::NotMapped));
    assert_eq!(change_program_brk(&mut kernel, 4096), Some(0x20000));
    assert_eq!(change_program_brk(&mut kernel, -4097), None);
    assert!(is_map_vpn_current(&kernel, 0x20));
    assert_eq!(get_current_running_time(&kernel, 100), 0);
    assert_eq!(get_current_running_time(&kernel, 101), 1);
    assert_eq!(get_current_running_time(&kernel, 5100), 5);
    assert_eq!(get_current_running_time(&kernel, 50), 0);
    add_current_syscall_cnt(&mut kernel, SYSCALL_FORK);
    add_current_syscall_cnt(&mut kernel, SYSCALL_FORK);
    add_current_syscall_cnt(&mut kernel, 1);
    let mut expected = [0u32; SYSCALL_COUNT];
    expected[5] = 2;
    assert_eq!(get_current_syscalls_cnt(&kernel), expected);
}

#[test]
fn trap_context_of_the_running_task_can_be_written() {
    let mut kernel = running_init();
    assert_eq!(current_trap_cx(&mut kernel).sepc, 0x10000);
    let cx = current_trap_cx(&mut kernel);
    cx.sepc += 4;
    cx.x[10] = 17;
    assert_eq!(kernel.task(0).unwrap().trap_cx.sepc, 0x10004);
    assert_eq!(kernel.task(0).unwrap().trap_cx.x[10], 17);
}
