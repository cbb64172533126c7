//! The machine-mode firmware plane: classification and dispatch of traps
//! that reach machine mode, and the builders for the ecalls the kernel
//! makes down into it.
//!
//! The firmware's actual register writes (timer compare, interrupt enable
//! and pending bits) are hardware steps; each is returned as a requested
//! action for the surrounding shim to perform.

use vstd::prelude::*;

verus! {

/// The saved machine-mode register file, in the layout the entry stub
/// stores it.
#[derive(Debug, Copy, Clone, PartialEq, Eq, Structural)]
pub struct SbiTrapRegs {
    pub mepc: u64,
    pub ra: u64,
    pub sp: u64,
    pub gp: u64,
    pub tp: u64,
    pub t0: u64,
    pub t1: u64,
    pub t2: u64,
    pub s0: u64,
    pub s1: u64,
    pub a0: u64,
    pub a1: u64,
    pub a2: u64,
    pub a3: u64,
    pub a4: u64,
    pub a5: u64,
    pub a6: u64,
    pub a7: u64,
    pub s2: u64,
    pub s3: u64,
    pub s4: u64,
    pub s5: u64,
    pub s6: u64,
    pub s7: u64,
    pub s8: u64,
    pub s9: u64,
    pub s10: u64,
    pub s11: u64,
    pub t3: u64,
    pub t4: u64,
    pub t5: u64,
    pub t6: u64,
    pub mstatus: u64,
}

/// Ecall number: arm the timer.
pub const SBI_SET_TIMER: u64 = 0;
/// Ecall number: print one character.
pub const SBI_CONSOLE_PUTCHAR: u64 = 1;
/// Ecall number: read one character.
pub const SBI_CONSOLE_GETCHAR: u64 = 2;

/// A hardware action the firmware decided on, for the shim to perform.
#[derive(Debug, Copy, Clone, PartialEq, Eq, Structural)]
pub enum SbiAction {
    /// Program the timer compare register with this deadline, clear the
    /// supervisor timer pending bit and enable the machine timer.
    StartTimer(u64),
    /// Print this character code on the console.
    PutChar(u64),
    /// Disable the machine timer and raise the supervisor timer pending
    /// bit, forwarding the tick to the kernel.
    ForwardTimer,
}

/// Why the firmware halts with a register dump.
#[derive(Debug, Copy, Clone, PartialEq, Eq, Structural)]
pub enum SbiFault {
    /// An ecall with a number outside the table.
    EcallFailed,
    /// An exception other than the supervisor ecall.
    UnknownException,
    /// An interrupt other than the machine timer.
    UnsupportedInterrupt,
}

/// Handle one ecall from supervisor mode: arm the timer, print a
/// character, or read one (a no-op returning zero).  On success the saved
/// machine program counter steps past the ecall instruction; an unknown
/// number changes nothing and reports failure.
pub fn sbi_ecall_handle(id: u64, regs: &mut SbiTrapRegs) -> (r: (u64, Option<
    SbiAction,
>))
    requires
        old(regs).mepc <= u64::MAX - 4,
    ensures
        id == SBI_SET_TIMER ==> r.0 == 0 && r.1 == Some(
            SbiAction::StartTimer(old(regs).a0),
        ) && *final(regs) == (SbiTrapRegs { mepc: (old(regs).mepc + 4) as u64, ..*old(regs) }),
        id == SBI_CONSOLE_PUTCHAR ==> r.0 == 0 && r.1 == Some(
            SbiAction::PutChar(old(regs).a0),
        ) && *final(regs) == (SbiTrapRegs { mepc: (old(regs).mepc + 4) as u64, ..*old(regs) }),
        id == SBI_CONSOLE_GETCHAR ==> r.0 == 0 && r.1 is None && *final(regs) == (
        SbiTrapRegs { mepc: (old(regs).mepc + 4) as u64, ..*old(regs) }),
        !(id == SBI_SET_TIMER || id == SBI_CONSOLE_PUTCHAR || id == SBI_CONSOLE_GETCHAR)
            ==> r.0 == 1 && r.1 is None && *final(regs) == *old(regs),
{
    let (ret, action): (u64, Option<SbiAction>) = if id == SBI_SET_TIMER {
        (0, Some(SbiAction::StartTimer(regs.a0)))
    } else if id == SBI_CONSOLE_PUTCHAR {
        (0, Some(SbiAction::PutChar(regs.a0)))
    } else if id == SBI_CONSOLE_GETCHAR {
        (0, None)
    } else {
        (1, None)
    };
    if ret == 0 {
        regs.mepc = regs.mepc + 4;
    }
    (ret, action)
}

/// The classified cause of a machine-mode trap.
#[derive(Debug, Copy, Clone, PartialEq, Eq, Structural)]
pub enum SbiTrapCause {
    /// A synchronous exception with this exception number; number 9 is
    /// the environment call from supervisor mode.
    Exception(u64),
    /// The machine timer fired.
    MachineTimer,
    /// Any other interrupt.
    OtherInterrupt,
}

/// Dispatch one machine-mode trap.  Only the supervisor ecall (exception
/// number 9) and the machine timer are handled; everything else halts the
/// firmware with a dump.
pub fn sbi_trap_handler(regs: &mut SbiTrapRegs, cause: SbiTrapCause) -> (r: Result<
    Option<SbiAction>,
    SbiFault,
>)
    requires
        old(regs).mepc <= u64::MAX - 4,
    ensures
        cause == SbiTrapCause::Exception(9) && (old(regs).a7 == SBI_SET_TIMER || old(
            regs,
        ).a7 == SBI_CONSOLE_PUTCHAR || old(regs).a7 == SBI_CONSOLE_GETCHAR) ==> (r
            matches Ok(a) && final(regs).mepc == old(regs).mepc + 4 && (old(regs).a7
            == SBI_SET_TIMER ==> a == Some(SbiAction::StartTimer(old(regs).a0))) && (old(
            regs,
        ).a7 == SBI_CONSOLE_PUTCHAR ==> a == Some(SbiAction::PutChar(old(regs).a0))) && (
        old(regs).a7 == SBI_CONSOLE_GETCHAR ==> a is None)),
        cause == SbiTrapCause::Exception(9) && !(old(regs).a7 == SBI_SET_TIMER || old(
            regs,
        ).a7 == SBI_CONSOLE_PUTCHAR || old(regs).a7 == SBI_CONSOLE_GETCHAR) ==> r == Err::<
            Option<SbiAction>,
            SbiFault,
        >(SbiFault::EcallFailed),
        (cause matches SbiTrapCause::Exception(e) && e != 9) ==> r == Err::<
            Option<SbiAction>,
            SbiFault,
        >(SbiFault::UnknownException) && *final(regs) == *old(regs),
        cause == SbiTrapCause::MachineTimer ==> r == Ok::<Option<SbiAction>, SbiFault>(
            Some(SbiAction::ForwardTimer),
        ) && *final(regs) == *old(regs),
        cause == SbiTrapCause::OtherInterrupt ==> r == Err::<Option<SbiAction>, SbiFault>(
            SbiFault::UnsupportedInterrupt,
        ) && *final(regs) == *old(regs),
{
    match cause {
        SbiTrapCause::Exception(e) => {
            if e == 9 {
                let id = regs.a7;
                let (ret, action) = sbi_ecall_handle(id, regs);
                if ret == 0 {
                    Ok(action)
                } else {
                    Err(SbiFault::EcallFailed)
                }
            } else {
                Err(SbiFault::UnknownException)
            }
        },
        SbiTrapCause::MachineTimer => Ok(Some(SbiAction::ForwardTimer)),
        SbiTrapCause::OtherInterrupt => Err(SbiFault::UnsupportedInterrupt),
    }
}

/// The character for one hexadecimal digit, lowercase.
pub open spec fn hex_digit(n: u64) -> u8 {
    if n < 10 {
        (0x30 + n) as u8
    } else {
        (0x57 + n) as u8
    }
}

/// The sixteen hexadecimal digits of `v`, most significant first, as the
/// register dump prints a value.
pub fn hex16(v: u64) -> (r: Vec<u8>)
    ensures
        r@.len() == 16,
        forall|i: int|
            0 <= i < 16 ==> r@[i] == hex_digit((v >> (((15 - i) * 4) as u64)) & 0xf),
{
    let mut out: Vec<u8> = Vec::new();
    let mut i: u64 = 0;
    while i < 16
        invariant
            i <= 16,
            out@.len() == i,
            forall|j: int|
                0 <= j < i ==> out@[j] == hex_digit((v >> (((15 - j) * 4) as u64))
                    & 0xf),
        decreases 16 - i,
    {
        let d = (v >> ((15 - i) * 4)) & 0xf;
        proof {
            let x = v;
            let sh: u64 = ((15 - i) * 4) as u64;
            assert((x >> sh) & 0xf < 16) by (bit_vector);
        }
        let c: u8 = if d < 10 {
            (0x30 + d) as u8
        } else {
            (0x57 + d) as u8
        };
        out.push(c);
        i = i + 1;
    }
    out
}

/// The saved register values in the fixed order the fatal dump reports
/// them: the trap program counter and status first, then the general
/// registers line by line, the stack pointer and the return address last.
pub fn sbi_trap_error_dump(regs: &SbiTrapRegs) -> (r: Vec<u64>)
    ensures
        r@ =~= seq![
            regs.mepc,
            regs.mstatus,
            regs.gp,
            regs.tp,
            regs.t0,
            regs.t1,
            regs.t2,
            regs.s0,
            regs.s1,
            regs.a0,
            regs.a1,
            regs.a2,
            regs.a3,
            regs.a4,
            regs.a5,
            regs.a6,
            regs.a7,
            regs.s2,
            regs.s3,
            regs.s4,
            regs.s5,
            regs.s6,
            regs.s7,
            regs.s8,
            regs.s9,
            regs.s10,
            regs.s11,
            regs.t3,
            regs.t4,
            regs.t5,
            regs.t6,
            regs.sp,
            regs.ra,
        ],
{
    let mut out: Vec<u64> = Vec::new();
    out.push(regs.mepc);
    out.push(regs.mstatus);
    out.push(regs.gp);
    out.push(regs.tp);
    out.push(regs.t0);
    out.push(regs.t1);
    out.push(regs.t2);
    out.push(regs.s0);
    out.push(regs.s1);
    out.push(regs.a0);
    out.push(regs.a1);
    out.push(regs.a2);
    out.push(regs.a3);
    out.push(regs.a4);
    out.push(regs.a5);
    out.push(regs.a6);
    out.push(regs.a7);
    out.push(regs.s2);
    out.push(regs.s3);
    out.push(regs.s4);
    out.push(regs.s5);
    out.push(regs.s6);
    out.push(regs.s7);
    out.push(regs.s8);
    out.push(regs.s9);
    out.push(regs.s10);
    out.push(regs.s11);
    out.push(regs.t3);
    out.push(regs.t4);
    out.push(regs.t5);
    out.push(regs.t6);
    out.push(regs.sp);
    out.push(regs.ra);
    out
}

/// One ecall from supervisor mode down into the firmware, by the shared
/// argument-register convention.
#[derive(Debug, Copy, Clone)]
pub struct EcallRequest {
    pub id: u64,
    pub args: [u64; 3],
}

/// The ecall arming the timer for `stime_value`.
pub fn sbi_set_timer(stime_value: u64) -> (r: EcallRequest)
    ensures
        r.id == SBI_SET_TIMER,
        r.args@[0] == stime_value,
        r.args@[1] == 0 && r.args@[2] == 0,
{
    EcallRequest { id: SBI_SET_TIMER, args: [stime_value, 0, 0] }
}

/// The ecall printing character `c`.
pub fn sbi_putchar(c: char) -> (r: EcallRequest)
    ensures
        r.id == SBI_CONSOLE_PUTCHAR,
        r.args@[0] == c as u64,
        r.args@[1] == 0 && r.args@[2] == 0,
{
    EcallRequest { id: SBI_CONSOLE_PUTCHAR, args: [c as u64, 0, 0] }
}

/// The ecalls printing every byte of `s` in order, one per character.
pub fn sbi_put_string(s: &Vec<u8>) -> (r: Vec<EcallRequest>)
    ensures
        r@.len() == s@.len(),
        forall|i: int|
            0 <= i < s@.len() ==> (#[trigger] r@[i]).id == SBI_CONSOLE_PUTCHAR && r@[
            i].args@[0] == s@[i],
{
    let n = s.len();
    let mut out: Vec<EcallRequest> = Vec::new();
    let mut i: usize = 0;
    while i < n
        invariant
            n == s@.len(),
            i <= n,
            out@.len() == i,
            forall|j: int|
                0 <= j < i ==> (#[trigger] out@[j]).id == SBI_CONSOLE_PUTCHAR && out@[
                j].args@[0] == s@[j],
        decreases n - i,
    {
        out.push(EcallRequest { id: SBI_CONSOLE_PUTCHAR, args: [s[i] as u64, 0, 0] });
        i = i + 1;
    }
    out
}

} // verus!
