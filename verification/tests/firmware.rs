use rvos::firmware::{
    hex16, sbi_ecall_handle, sbi_put_string, sbi_putchar, sbi_set_timer, sbi_trap_error_dump,
    sbi_trap_handler, SbiAction, SbiFault, SbiTrapCause, SbiTrapRegs,
};

fn regs() -> SbiTrapRegs {
    SbiTrapRegs {
        mepc: 0x8000_0000,
        ra: 0,
        sp: 0,
        gp: 0,
        tp: 0,
        t0: 0,
        t1: 0,
        t2: 0,
        s0: 0,
        s1: 0,
        a0: 0,
        a1: 0,
        a2: 0,
        a3: 0,
        a4: 0,
        a5: 0,
        a6: 0,
        a7: 0,
        s2: 0,
        s3: 0,
        s4: 0,
        s5: 0,
        s6: 0,
        s7: 0,
        s8: 0,
        s9: 0,
        s10: 0,
        s11: 0,
        t3: 0,
        t4: 0,
        t5: 0,
        t6: 0,
        mstatus: 0,
    }
}

#[test]
fn ecall_set_timer_steps_past_the_instruction() {
    let mut r = regs();
    r.a0 = 0xdead_0000;
    let (ret, action) = sbi_ecall_handle(0, &mut r);
    assert_eq!(ret, 0);
    assert_eq!(action, Some(SbiAction::StartTimer(0xdead_0000)));
    assert_eq!(r.mepc, 0x8000_0004);
}

#[test]
fn ecall_putchar_and_getchar() {
    let mut r = regs();
    r.a0 = 'x' as u64;
    let (ret, action) = sbi_ecall_handle(1, &mut r);
    assert_eq!(ret, 0);
    assert_eq!(action, Some(SbiAction::PutChar('x' as u64)));
    assert_eq!(r.mepc, 0x8000_0004);
    let (ret, action) = sbi_ecall_handle(2, &mut r);
    assert_eq!(ret, 0);
    assert_eq!(action, None);
    assert_eq!(r.mepc, 0x8000_0008);
}

#[test]
fn unknown_ecall_fails_without_advancing() {
    let mut r = regs();
    let (ret, action) = sbi_ecall_handle(77, &mut r);
    assert_eq!(ret, 1);
    assert_eq!(action, None);
    assert_eq!(r.mepc, 0x8000_0000);
}

#[test]
fn machine_trap_dispatch() {
    // supervisor ecall with a known number
    let mut r = regs();
    r.a7 = 1;
    r.a0 = 'k' as u64;
    let a = sbi_trap_handler(&mut r, SbiTrapCause::Exception(9)).unwrap();
    assert_eq!(a, Some(SbiAction::PutChar('k' as u64)));
    assert_eq!(r.mepc, 0x8000_0004);
    // supervisor ecall with an unknown number halts
    let mut r = regs();
    r.a7 = 99;
    assert_eq!(
        sbi_trap_handler(&mut r, SbiTrapCause::Exception(9)),
        Err(SbiFault::EcallFailed)
    );
    // other exceptions halt
    let mut r = regs();
    assert_eq!(
        sbi_trap_handler(&mut r, SbiTrapCause::Exception(2)),
        Err(SbiFault::UnknownException)
    );
    // the machine timer is forwarded to the kernel
    let mut r = regs();
    assert_eq!(
        sbi_trap_handler(&mut r, SbiTrapCause::MachineTimer),
        Ok(Some(SbiAction::ForwardTimer))
    );
    // other interrupts halt
    let mut r = regs();
    assert_eq!(
        sbi_trap_handler(&mut r, SbiTrapCause::OtherInterrupt),
        Err(SbiFault::UnsupportedInterrupt)
    );
}

#[test]
fn ecall_request_builders() {
    let t = sbi_set_timer(12345);
    assert_eq!(t.id, 0);
    assert_eq!(t.args, [12345, 0, 0]);
    let p = sbi_putchar('A');
    assert_eq!(p.id, 1);
    assert_eq!(p.args[0], 65);
    let s = sbi_put_string(&b"hi\n".to_vec());
    assert_eq!(s.len(), 3);
    assert_eq!(s[0].args[0], b'h' as u64);
    assert_eq!(s[1].args[0], b'i' as u64);
    assert_eq!(s[2].args[0], b'\n' as u64);
    assert!(s.iter().all(|r| r.id == 1));
}

#[test]
fn hex16_formats_sixteen_lowercase_digits() {
    assert_eq!(hex16(0), b"0000000000000000".to_vec());
    assert_eq!(hex16(0xdead_beef), b"00000000deadbeef".to_vec());
    assert_eq!(hex16(u64::MAX), b"ffffffffffffffff".to_vec());
    assert_eq!(hex16(0x0123_4567_89ab_cdef), b"0123456789abcdef".to_vec());
}

#[test]
fn fatal_dump_reports_the_registers_in_the_fixed_order() {
    let mut r = regs();
    r.mepc = 1;
    r.mstatus = 2;
    r.gp = 3;
    r.sp = 31;
    r.ra = 32;
    let dump = sbi_trap_error_dump(&r);
    assert_eq!(dump.len(), 33);
    assert_eq!(dump[0], 1); // mepc first
    assert_eq!(dump[1], 2); // then mstatus
    assert_eq!(dump[2], 3); // then gp
    assert_eq!(dump[31], 31); // the stack pointer second to last
    assert_eq!(dump[32], 32); // the return address last
}
