use rvos::config::{APP_BASE_ADDRESS, APP_SIZE_LIMIT, CLOCK_FREQ, PAGE_SIZE, TRAMPOLINE, TRAP_CONTEXT};
use rvos::loader::{get_base_i, init_app_ctx};
use rvos::syscall::SyscallID;
use rvos::timer::{get_time_us, set_next_trigger};
use rvos::sync::up::UPSafeCell;
use rvos::user_api;

#[test]
fn layout_constants_relate() {
    assert_eq!(PAGE_SIZE, 0x1000);
    assert_eq!(TRAMPOLINE, u64::MAX - PAGE_SIZE + 1);
    assert_eq!(TRAP_CONTEXT, TRAMPOLINE - PAGE_SIZE);
}

#[test]
fn timer_arithmetic() {
    // 12.5 MHz clock: 12 ticks per microsecond, 125000 ticks per 10 ms tick
    assert_eq!(get_time_us(24), 2);
    assert_eq!(get_time_us(CLOCK_FREQ), CLOCK_FREQ / 12);
    assert_eq!(set_next_trigger(1000), 1000 + CLOCK_FREQ / 100);
}

#[test]
fn app_bases_are_spaced_by_the_size_limit() {
    assert_eq!(get_base_i(0), APP_BASE_ADDRESS);
    assert_eq!(get_base_i(1), APP_BASE_ADDRESS + APP_SIZE_LIMIT);
    assert_eq!(get_base_i(4), APP_BASE_ADDRESS + 4 * APP_SIZE_LIMIT);
}

#[test]
fn init_app_ctx_places_the_context_on_the_kernel_stack() {
    let (ctx, ptr) = init_app_ctx(2, 0x9000, 0x12000, 0x100);
    assert_eq!(ctx.sepc, get_base_i(2));
    assert_eq!(ctx.x[2], 0x12000);
    assert_eq!(ctx.sstatus & 0x100, 0);
    assert_eq!(ptr, 0x9000 - 272);
}

#[test]
fn syscall_id_conversions() {
    assert_eq!(SyscallID::from(64u64), SyscallID::Write);
    assert_eq!(SyscallID::from(93u64), SyscallID::Exit);
    assert_eq!(SyscallID::from(124u64), SyscallID::Yield);
    assert_eq!(SyscallID::from(169u64), SyscallID::Ts);
    assert_eq!(SyscallID::from(410u64), SyscallID::TaskInfo);
    assert_eq!(SyscallID::from(0u64), SyscallID::Invalid);
    assert_eq!(u64::from(SyscallID::Write), 64);
    assert_eq!(u64::from(SyscallID::Invalid), u64::MAX);
}

#[test]
fn user_api_marshals_by_the_register_convention() {
    let w = user_api::write(1, 0x4000, 13);
    assert_eq!(w.id, 64);
    assert_eq!(w.args, [1, 0x4000, 13]);
    let e = user_api::exit(-1);
    assert_eq!(e.id, 93);
    assert_eq!(e.args[0], u64::MAX);
    let y = user_api::yield_();
    assert_eq!(y.id, 124);
    let t = user_api::sys_get_time();
    assert_eq!(t.id, 169);
    assert_eq!(t.args, [0, 0, 0]);
}

#[test]
fn up_safe_cell_gives_exclusive_access() {
    let mut cell = UPSafeCell::new(41u64);
    {
        let v = cell.exclusive_access();
        *v += 1;
    }
    assert_eq!(*cell.exclusive_access(), 42);
}
