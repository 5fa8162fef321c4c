use os::config::MAX_SYSCALL_NUM;
use os::loader::ProgramImage;
use os::mm::{MapArea, MapPermission};
use os::processor::{current_task, run_tasks, suspend_current_and_run_next, Kernel};
use os::syscall::process::{
    remap_counts, sys_exec, sys_exit, sys_fork, sys_get_time, sys_mmap, sys_munmap, sys_sbrk,
    sys_set_priority, sys_spawn, sys_task_info, sys_waitpid, sys_write, sys_yield, TaskInfo,
    TimeVal,
};
use os::syscall::{
    syscall, transfer, SyscallIo, Transfer, SYSCALL_COUNT, SYSCALL_EXEC, SYSCALL_EXIT, SYSCALL_FORK,
    SYSCALL_GET_TIME, SYSCALL_MAP, SYSCALL_MMAP, SYSCALL_MUNMAP, SYSCALL_SBRK,
    SYSCALL_SET_PRIORITY, SYSCALL_SPAWN, SYSCALL_TASK_INFO, SYSCALL_WAITPID, SYSCALL_WRITE,
    SYSCALL_YIELD,
};
use os::task::TaskStatus;

fn image() -> ProgramImage {
    let areas = vec![MapArea {
        start_vpn: 0x10,
        end_vpn: 0x12,
        perm: MapPermission { r: true, w: false, x: true, u: true },
    }];
    ProgramImage::new(&areas, 0x20000, 0x10000, 0x1f000).unwrap()
}

fn running_init() -> Kernel {
    let mut kernel = Kernel::new();
    assert!(kernel.add_initproc(&image()));
    assert_eq!(run_tasks(&mut kernel, 100), Some(0));
    kernel
}

fn io(now_us: usize, image: Option<ProgramImage>) -> SyscallIo {
    SyscallIo {
        now_us,
        image,
        time_val: TimeVal { sec: 77, usec: 88 },
        task_info: TaskInfo {
            status: TaskStatus::UnInit,
            syscall_times: [9; MAX_SYSCALL_NUM],
            time: 99,
        },
        exit_code: 555,
    }
}

fn count(kernel: &Kernel, pid: usize, syscall_id: usize) -> u32 {
    let bucket = (0..SYSCALL_COUNT).find(|b| SYSCALL_MAP[*b] == syscall_id).unwrap();
    kernel.task(pid).unwrap().syscalls_cnt[bucket]
}

fn switch_to(kernel: &mut Kernel, pid: usize) {
    if kernel.current().is_some() {
        suspend_current_and_run_next(kernel);
    }
    for _ in 0..10_000 {
        let next = run_tasks(kernel, 100).unwrap();
        if next == pid {
            return;
        }
        suspend_current_and_run_next(kernel);
    }
    panic!("task {} never ran", pid);
}

#[test]
fn mmap_then_munmap_returns_zero_twice() {
    let mut kernel = running_init();
    let ranges = [(0x1000_0000usize, 4096usize), (0x3000, 1), (0x8000, 3 * 4096 + 5), (0, 4096)];
    for (start, len) in ranges {
        assert_eq!(sys_mmap(&mut kernel, start, len, 3), 0);
        let last = (start + len - 1) / 4096;
        assert!(current_task(&kernel).unwrap().memory_set.is_mapped(start / 4096));
        assert!(current_task(&kernel).unwrap().memory_set.is_mapped(last));
        assert_eq!(sys_munmap(&mut kernel, start, len), 0);
        for vpn in start / 4096..=last {
            assert!(!current_task(&kernel).unwrap().memory_set.is_mapped(vpn));
        }
    }
    assert_eq!(current_task(&kernel).unwrap().memory_set.area_count(), 1);
    assert_eq!(count(&kernel, 0, SYSCALL_MMAP), 4);
    assert_eq!(count(&kernel, 0, SYSCALL_MUNMAP), 4);
}

#[test]
fn mmap_refuses_bad_requests() {
    let mut kernel = running_init();
    assert_eq!(sys_mmap(&mut kernel, 0x3001, 4096, 3), -1);
    assert_eq!(sys_mmap(&mut kernel, 0x3000, 4096, 0), -1);
    assert_eq!(sys_mmap(&mut kernel, 0x3000, 4096, 8), -1);
    assert_eq!(sys_mmap(&mut kernel, 0x3000, 4096, 0x10), -1);
    assert_eq!(sys_mmap(&mut kernel, 0x3000, usize::MAX, 3), -1);
    assert_eq!(sys_mmap(&mut kernel, 0x10000, 4096, 3), -1);
    assert_eq!(sys_mmap(&mut kernel, 0xf000, 4097, 3), -1);
    assert_eq!(current_task(&kernel).unwrap().memory_set.area_count(), 1);
    assert!(!current_task(&kernel).unwrap().memory_set.is_mapped(0xf));
    assert_eq!(sys_mmap(&mut kernel, 0xf000, 4096, 3), 0);
    assert_eq!(sys_mmap(&mut kernel, 0xf000, 4096, 3), -1);
    assert_eq!(current_task(&kernel).unwrap().memory_set.area_count(), 2);
    assert_eq!(count(&kernel, 0, SYSCALL_MMAP), 9);
}

#[test]
fn munmap_refuses_ranges_with_a_hole() {
    let mut kernel = running_init();
    assert_eq!(sys_mmap(&mut kernel, 0x30000, 2 * 4096, 1), 0);
    assert_eq!(sys_munmap(&mut kernel, 0x30000, 3 * 4096), -1);
    assert_eq!(sys_munmap(&mut kernel, 0x2f000, 3 * 4096), -1);
    assert_eq!(sys_munmap(&mut kernel, 0x30001, 4096), -1);
    assert_eq!(sys_munmap(&mut kernel, 0x30000, usize::MAX), -1);
    assert_eq!(sys_munmap(&mut kernel, 0x50000, 4096), -1);
    assert_eq!(sys_munmap(&mut kernel, 0x30000, 4096), -1);
    let ms = &current_task(&kernel).unwrap().memory_set;
    assert_eq!(ms.area_count(), 2);
    assert!(ms.is_mapped(0x30));
    assert!(ms.is_mapped(0x31));
    assert_eq!(sys_munmap(&mut kernel, 0x30000, 2 * 4096 - 1), 0);
    assert_eq!(sys_munmap(&mut kernel, 0x30000, 2 * 4096), -1);
}

#[test]
fn sbrk_returns_the_old_break() {
    let mut kernel = running_init();
    assert_eq!(sys_sbrk(&mut kernel, 0), 0x20000);
    assert_eq!(sys_sbrk(&mut kernel, 100), 0x20000);
    assert_eq!(sys_sbrk(&mut kernel, -50), 0x20064);
    assert_eq!(sys_sbrk(&mut kernel, -51), -1);
    assert_eq!(sys_sbrk(&mut kernel, 0), 0x20032);
    assert_eq!(count(&kernel, 0, SYSCALL_SBRK), 5);
}

#[test]
fn get_time_splits_seconds_and_microseconds() {
    let mut kernel = running_init();
    let mut ts = TimeVal { sec: 0, usec: 0 };
    assert_eq!(sys_get_time(&mut kernel, &mut ts, 0, 3_500_042), 0);
    assert_eq!(ts, TimeVal { sec: 3, usec: 500_042 });
    assert_eq!(sys_get_time(&mut kernel, &mut ts, 5, 999_999), 0);
    assert_eq!(ts, TimeVal { sec: 0, usec: 999_999 });
    assert_eq!(sys_get_time(&mut kernel, &mut ts, 0, 1_000_000), 0);
    assert_eq!(ts, TimeVal { sec: 1, usec: 0 });
    assert_eq!(count(&kernel, 0, SYSCALL_GET_TIME), 3);
}

#[test]
fn task_info_reports_status_time_and_counts() {
    let mut kernel = running_init();
    assert_eq!(sys_yield(&mut kernel), 0);
    assert_eq!(run_tasks(&mut kernel, 7000), Some(0));
    assert_eq!(sys_write(&mut kernel, 1, 10), 10);
    assert_eq!(sys_write(&mut kernel, 1, 10), 10);
    let mut ts = TimeVal { sec: 0, usec: 0 };
    assert_eq!(sys_get_time(&mut kernel, &mut ts, 0, 0), 0);
    let mut info = TaskInfo {
        status: TaskStatus::UnInit,
        syscall_times: [7; MAX_SYSCALL_NUM],
        time: 0,
    };
    assert_eq!(sys_task_info(&mut kernel, &mut info, 2601), 0);
    assert_eq!(info.status, TaskStatus::Running);
    assert_eq!(info.time, 3);
    for id in 0..MAX_SYSCALL_NUM {
        let expected = match id {
            SYSCALL_WRITE => 2,
            SYSCALL_YIELD => 1,
            SYSCALL_GET_TIME => 1,
            SYSCALL_TASK_INFO => 1,
            _ if SYSCALL_MAP.contains(&id) => 0,
            _ => 7,
        };
        assert_eq!(info.syscall_times[id], expected, "slot {}", id);
    }
    assert_eq!(sys_task_info(&mut kernel, &mut info, 100), 0);
    assert_eq!(info.time, 0);
    assert_eq!(info.syscall_times[SYSCALL_TASK_INFO], 2);
}

#[test]
fn remap_puts_each_bucket_in_its_slot() {
    let mut times = [3u32; MAX_SYSCALL_NUM];
    let mut counts = [0u32; SYSCALL_COUNT];
    for b in 0..SYSCALL_COUNT {
        counts[b] = 100 + b as u32;
    }
    remap_counts(&mut times, &counts);
    for b in 0..SYSCALL_COUNT {
        assert_eq!(times[SYSCALL_MAP[b]], 100 + b as u32);
    }
    assert_eq!(times.iter().filter(|t| **t == 3).count(), MAX_SYSCALL_NUM - SYSCALL_COUNT);
    assert_eq!(times[64], 100);
    assert_eq!(times[410], 104);
    assert_eq!(times[140], 112);
}

#[test]
fn write_goes_to_the_console_only() {
    let mut kernel = running_init();
    assert_eq!(sys_write(&mut kernel, 1, 0), 0);
    assert_eq!(sys_write(&mut kernel, 1, 12), 12);
    assert_eq!(sys_write(&mut kernel, 0, 12), -1);
    assert_eq!(sys_write(&mut kernel, 2, 12), -1);
    assert_eq!(sys_write(&mut kernel, 1, usize::MAX), -1);
    assert_eq!(sys_write(&mut kernel, 1, isize::MAX as usize), isize::MAX);
    assert_eq!(count(&kernel, 0, SYSCALL_WRITE), 6);
}

#[test]
fn set_priority_returns_the_level_or_minus_one() {
    let mut kernel = running_init();
    assert_eq!(sys_set_priority(&mut kernel, 1), -1);
    assert_eq!(sys_set_priority(&mut kernel, 17), -1);
    assert_eq!(current_task(&kernel).unwrap().prio_level, 16);
    assert_eq!(sys_set_priority(&mut kernel, 16), 16);
    assert_eq!(sys_set_priority(&mut kernel, 2), 2);
    assert_eq!(current_task(&kernel).unwrap().prio_level, 2);
    assert_eq!(sys_set_priority(&mut kernel, -5), -1);
    assert_eq!(sys_set_priority(&mut kernel, 0), -1);
    assert_eq!(current_task(&kernel).unwrap().prio_level, 2);
    let before = current_task(&kernel).unwrap().stride;
    assert_eq!(sys_yield(&mut kernel), 0);
    assert_eq!(run_tasks(&mut kernel, 0), Some(0));
    assert_eq!(current_task(&kernel).unwrap().stride, before + 127);
    assert_eq!(sys_set_priority(&mut kernel, 16), 16);
    assert_eq!(sys_yield(&mut kernel), 0);
    assert_eq!(run_tasks(&mut kernel, 0), Some(0));
    assert_eq!(current_task(&kernel).unwrap().stride, before + 127 + 15);
}

#[test]
fn fork_wait_exit_through_the_handlers() {
    let mut kernel = running_init();
    let mut code = 555;
    assert_eq!(sys_waitpid(&mut kernel, -1, &mut code), -1);
    assert_eq!(sys_fork(&mut kernel), 1);
    assert_eq!(sys_waitpid(&mut kernel, -1, &mut code), -2);
    assert_eq!(sys_fork(&mut kernel), 2);
    switch_to(&mut kernel, 1);
    sys_exit(&mut kernel, 0);
    assert_eq!(kernel.current(), None);
    switch_to(&mut kernel, 2);
    sys_exit(&mut kernel, 1);
    switch_to(&mut kernel, 0);
    let first = sys_waitpid(&mut kernel, -1, &mut code);
    let first_code = code;
    let second = sys_waitpid(&mut kernel, -1, &mut code);
    let second_code = code;
    let mut got = vec![(first, first_code), (second, second_code)];
    got.sort();
    assert_eq!(got, vec![(1, 0), (2, 1)]);
    assert_eq!(sys_waitpid(&mut kernel, -1, &mut code), -1);
    assert_eq!(count(&kernel, 0, SYSCALL_FORK), 2);
    assert_eq!(count(&kernel, 0, SYSCALL_WAITPID), 5);
}

#[test]
fn exit_is_counted_before_the_task_stops() {
    let mut kernel = running_init();
    assert_eq!(sys_fork(&mut kernel), 1);
    switch_to(&mut kernel, 1);
    sys_exit(&mut kernel, 3);
    assert_eq!(count(&kernel, 1, SYSCALL_EXIT), 1);
    assert_eq!(kernel.task(1).unwrap().task_status, TaskStatus::Zombie);
    assert_eq!(kernel.task(1).unwrap().exit_code, 3);
}

#[test]
fn exec_and_spawn_through_the_handlers() {
    let mut kernel = running_init();
    assert_eq!(sys_exec(&mut kernel, None), -1);
    assert_eq!(sys_spawn(&mut kernel, None), -1);
    assert_eq!(sys_spawn(&mut kernel, Some(&image())), 1);
    assert_eq!(sys_spawn(&mut kernel, Some(&image())), 2);
    assert_eq!(sys_exec(&mut kernel, Some(&image())), 0);
    assert_eq!(count(&kernel, 0, SYSCALL_EXEC), 2);
    assert_eq!(count(&kernel, 0, SYSCALL_SPAWN), 3);
    assert_eq!(kernel.task(0).unwrap().children, vec![1, 2]);
    assert_eq!(count(&kernel, 1, SYSCALL_SPAWN), 0);
}

#[test]
fn dispatcher_routes_by_number() {
    let mut kernel = running_init();
    let mut io = io(2_000_001, Some(image()));
    assert_eq!(syscall(&mut kernel, SYSCALL_WRITE, [1, 0x1000, 5], &mut io), 5);
    assert_eq!(syscall(&mut kernel, SYSCALL_WRITE, [3, 0x1000, 5], &mut io), -1);
    assert_eq!(syscall(&mut kernel, SYSCALL_GET_TIME, [0x2000, 0, 0], &mut io), 0);
    assert_eq!(io.time_val, TimeVal { sec: 2, usec: 1 });
    assert_eq!(syscall(&mut kernel, SYSCALL_MMAP, [0x40000, 4096, 3], &mut io), 0);
    assert_eq!(syscall(&mut kernel, SYSCALL_MMAP, [0x40000, 4096, 3], &mut io), -1);
    assert_eq!(syscall(&mut kernel, SYSCALL_MUNMAP, [0x40000, 4096, 0], &mut io), 0);
    assert_eq!(syscall(&mut kernel, SYSCALL_MUNMAP, [0x40000, 4096, 0], &mut io), -1);
    assert_eq!(syscall(&mut kernel, SYSCALL_SBRK, [16, 0, 0], &mut io), 0x20000);
    assert_eq!(
        syscall(&mut kernel, SYSCALL_SBRK, [(-16isize) as usize, 0, 0], &mut io),
        0x20010
    );
    assert_eq!(
        syscall(&mut kernel, SYSCALL_SBRK, [(-1isize) as usize, 0, 0], &mut io),
        -1
    );
    assert_eq!(syscall(&mut kernel, SYSCALL_SET_PRIORITY, [1, 0, 0], &mut io), -1);
    assert_eq!(syscall(&mut kernel, SYSCALL_SET_PRIORITY, [17, 0, 0], &mut io), -1);
    assert_eq!(syscall(&mut kernel, SYSCALL_SET_PRIORITY, [16, 0, 0], &mut io), 16);
    assert_eq!(
        syscall(&mut kernel, SYSCALL_SET_PRIORITY, [(-1isize) as usize, 0, 0], &mut io),
        -1
    );
    assert_eq!(syscall(&mut kernel, SYSCALL_WAITPID, [usize::MAX, 0, 0], &mut io), -1);
    assert_eq!(syscall(&mut kernel, SYSCALL_FORK, [0, 0, 0], &mut io), 1);
    assert_eq!(syscall(&mut kernel, SYSCALL_SPAWN, [0, 0, 0], &mut io), 2);
    assert_eq!(syscall(&mut kernel, SYSCALL_WAITPID, [usize::MAX, 0, 0], &mut io), -2);
    assert_eq!(io.exit_code, 555);
    assert_eq!(syscall(&mut kernel, SYSCALL_EXEC, [0, 0, 0], &mut io), 0);
    assert_eq!(syscall(&mut kernel, SYSCALL_TASK_INFO, [0x3000, 0, 0], &mut io), 0);
    assert_eq!(io.task_info.status, TaskStatus::Running);
    assert_eq!(io.task_info.time, 2000);
    assert_eq!(io.task_info.syscall_times[SYSCALL_WRITE], 2);
    assert_eq!(io.task_info.syscall_times[SYSCALL_MMAP], 2);
    assert_eq!(io.task_info.syscall_times[SYSCALL_SBRK], 3);
    assert_eq!(io.task_info.syscall_times[SYSCALL_SET_PRIORITY], 4);
    assert_eq!(io.task_info.syscall_times[SYSCALL_WAITPID], 2);
    assert_eq!(io.task_info.syscall_times[SYSCALL_TASK_INFO], 1);
    assert_eq!(io.task_info.syscall_times[SYSCALL_EXIT], 0);
    assert_eq!(io.task_info.syscall_times[0], 9);
    assert_eq!(syscall(&mut kernel, SYSCALL_YIELD, [0, 0, 0], &mut io), 0);
    assert_eq!(kernel.current(), None);
    assert_eq!(run_tasks(&mut kernel, 0), Some(1));
    assert_eq!(syscall(&mut kernel, SYSCALL_EXIT, [(-3isize) as usize, 0, 0], &mut io), 0);
    assert_eq!(kernel.current(), None);
    assert_eq!(kernel.task(1).unwrap().exit_code, -3);
    switch_to(&mut kernel, 0);
    assert_eq!(syscall(&mut kernel, SYSCALL_WAITPID, [1, 0, 0], &mut io), 1);
    assert_eq!(io.exit_code, -3);
    assert_eq!(io.now_us, 2_000_001);
    assert!(io.image.is_some());
}

#[test]
fn dispatcher_exec_without_image_fails() {
    let mut kernel = running_init();
    let mut io = io(0, None);
    assert_eq!(syscall(&mut kernel, SYSCALL_EXEC, [0, 0, 0], &mut io), -1);
    assert_eq!(syscall(&mut kernel, SYSCALL_SPAWN, [0, 0, 0], &mut io), -1);
    assert!(kernel.task(1).is_none());
    assert_eq!(count(&kernel, 0, SYSCALL_EXEC), 1);
}

#[test]
fn transfers_follow_the_call_and_its_result() {
    let args = [0x1000, 0x2000, 0x30];
    assert_eq!(
        transfer(SYSCALL_WRITE, args, 0x30),
        Transfer::Console { addr: 0x2000, len: 0x30 }
    );
    assert_eq!(transfer(SYSCALL_WRITE, args, 0), Transfer::Console { addr: 0x2000, len: 0 });
    assert_eq!(transfer(SYSCALL_WRITE, args, -1), Transfer::Nothing);
    assert_eq!(transfer(SYSCALL_GET_TIME, args, 0), Transfer::Time { addr: 0x1000 });
    assert_eq!(transfer(SYSCALL_TASK_INFO, args, 0), Transfer::Info { addr: 0x1000 });
    assert_eq!(transfer(SYSCALL_WAITPID, args, 3), Transfer::ExitCode { addr: 0x2000 });
    assert_eq!(transfer(SYSCALL_WAITPID, args, 0), Transfer::ExitCode { addr: 0x2000 });
    assert_eq!(transfer(SYSCALL_WAITPID, args, -1), Transfer::Nothing);
    assert_eq!(transfer(SYSCALL_WAITPID, args, -2), Transfer::Nothing);
    for id in [SYSCALL_EXIT, SYSCALL_YIELD, SYSCALL_FORK, SYSCALL_EXEC, SYSCALL_MMAP] {
        assert_eq!(transfer(id, args, 0), Transfer::Nothing);
    }
    for id in [SYSCALL_MUNMAP, SYSCALL_SBRK, SYSCALL_SPAWN, SYSCALL_SET_PRIORITY, 0, 1000] {
        assert_eq!(transfer(id, args, 5), Transfer::Nothing);
    }
}
