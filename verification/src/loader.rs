//! Placement of the embedded applications and fabrication of their first
//! trap contexts.  The raw copies into application memory happen outside
//! this crate; here are the address calculations and the initial context.

use vstd::prelude::*;
use crate::config::{APP_BASE_ADDRESS, APP_SIZE_LIMIT, MAX_APP_NUM};
use crate::trap::context::TrapContext;

verus! {

/// Size in bytes of one saved trap context: 32 registers plus the status
/// and trap program-counter registers.
pub const TRAP_CONTEXT_BYTES: u64 = 272;

/// The fixed load address of application `app_id`.
pub fn get_base_i(app_id: u64) -> (r: u64)
    requires
        app_id < MAX_APP_NUM,
    ensures
        r == APP_BASE_ADDRESS + app_id * APP_SIZE_LIMIT,
{
    APP_BASE_ADDRESS + app_id * APP_SIZE_LIMIT
}

/// The initial trap context of application `app_id` and the address on
/// its kernel stack where it is to be stored: entry at the application's
/// load base, the user stack at `user_sp`, previous privilege forced to
/// user mode.
pub fn init_app_ctx(app_id: u64, kernel_stack_top: u64, user_sp: u64, sstatus: u64) -> (r: (
    TrapContext,
    u64,
))
    requires
        app_id < MAX_APP_NUM,
        kernel_stack_top >= TRAP_CONTEXT_BYTES,
    ensures
        r.0.wf(),
        r.0.sepc == APP_BASE_ADDRESS + app_id * APP_SIZE_LIMIT,
        r.0.sstatus == sstatus & 0xffff_ffff_ffff_feff,
        r.0.x@[2] == user_sp,
        r.1 == kernel_stack_top - TRAP_CONTEXT_BYTES,
{
    let entry = get_base_i(app_id);
    let ctx = TrapContext::app_init_context(entry, user_sp, sstatus);
    (ctx, kernel_stack_top - TRAP_CONTEXT_BYTES)
}

} // verus!
