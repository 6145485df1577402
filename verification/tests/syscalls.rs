use rust_os::syscalls::{
    handle_syscall, init_syscalls, push_decimal, sys_getline, sys_print, syscall_by_number,
    BadSyscall, MsrWrite, Syscall, SyscallEffect,
};
use rust_os::userspace::{
    command, getline, memset, parse_u64, prefix, printf, readi, syscall, Command, SyscallRequest,
};

#[test]
fn syscall_round_trip() {
    let mut stdin = Some(b"pending".to_vec());
    let msg = b"hello from user mode, and more";
    let r = handle_syscall(0x1337, 0x40_2000, 20, 0, 0, &msg[0..20], &mut stdin);
    assert_eq!(r, Ok((SyscallEffect::Write(b"hello from user mode\n".to_vec()), 1)));
    assert_eq!(stdin, Some(b"pending".to_vec()));
}

#[test]
fn print_with_numbers() {
    assert_eq!(sys_print(b"n", 7, 0), (b"n 7\n".to_vec(), 1));
    assert_eq!(sys_print(b"n", 7, 1234567890), (b"n 7 1234567890\n".to_vec(), 1));
    assert_eq!(sys_print(b"n", 0, 5), (b"n\n".to_vec(), 1));
    assert_eq!(sys_print(b"", 0, 0), (b"\n".to_vec(), 1));
    assert_eq!(
        sys_print(b"max", u64::MAX, 10),
        (b"max 18446744073709551615 10\n".to_vec(), 1)
    );
}

#[test]
fn decimal_digits() {
    let mut out = b"x".to_vec();
    push_decimal(&mut out, 0);
    push_decimal(&mut out, 9);
    push_decimal(&mut out, 10);
    push_decimal(&mut out, 1002003);
    assert_eq!(out, b"x09101002003".to_vec());
}

#[test]
fn getline_gives_a_line_once() {
    let mut stdin = Some(b"echo hi".to_vec());
    assert_eq!(sys_getline(&mut stdin, 1024), (b"echo hi".to_vec(), 7));
    assert_eq!(stdin, None);
    assert_eq!(sys_getline(&mut stdin, 1024), (vec![], 0));
    let mut stdin = Some(b"echo hi".to_vec());
    assert_eq!(sys_getline(&mut stdin, 4), (b"echo".to_vec(), 4));
    assert_eq!(stdin, None);
    let mut stdin = Some(b"echo hi".to_vec());
    assert_eq!(sys_getline(&mut stdin, 0), (vec![], 0));
    assert_eq!(stdin, None);
    let mut stdin = Some(b"read 3".to_vec());
    let r = handle_syscall(0x1338, 0x80_0000, 3, 0, 0, b"", &mut stdin);
    assert_eq!(r, Ok((SyscallEffect::CopyOut(b"rea".to_vec()), 3)));
}

#[test]
fn unknown_syscall_is_refused() {
    assert_eq!(syscall_by_number(0x1337), Ok(Syscall::Print));
    assert_eq!(syscall_by_number(0x1338), Ok(Syscall::GetLine));
    assert_eq!(syscall_by_number(0x43), Err(BadSyscall(0x43)));
    assert_eq!(syscall_by_number(0), Err(BadSyscall(0)));
    let mut stdin = Some(b"kept".to_vec());
    assert_eq!(handle_syscall(0x8EAD, 0, 1, 2, 3, b"x", &mut stdin), Err(BadSyscall(0x8EAD)));
    assert_eq!(stdin, Some(b"kept".to_vec()));
}

#[test]
fn example_calls_log_their_arguments() {
    assert_eq!(syscall_by_number(0x42), Ok(Syscall::Example));
    assert_eq!(syscall_by_number(0x595ca11a), Ok(Syscall::Example));
    assert_eq!(syscall_by_number(0x595ca11b), Ok(Syscall::Example));
    let mut stdin = Some(b"kept".to_vec());
    assert_eq!(
        handle_syscall(0x595ca11a, 1, 2, 3, 4, b"", &mut stdin),
        Ok((SyscallEffect::Log(0x595ca11a, 1, 2, 3, 4), 0))
    );
    assert_eq!(stdin, Some(b"kept".to_vec()));
}

#[test]
fn registers_for_the_entry() {
    let w = init_syscalls(0xffff_8000_0012_3450);
    assert_eq!(w[0], MsrWrite { register: 0xc000_0084, value: 0x200 });
    assert_eq!(w[1], MsrWrite { register: 0xc000_0082, value: 0xffff_8000_0012_3450 });
    assert_eq!(w[2], MsrWrite { register: 0xc000_0081, value: 0x0023_0008_0000_0000 });
    let star = w[2].value;
    assert_eq!((star >> 32) & 0xffff, 8);
    assert_eq!(((star >> 48) & 0xffff) + 16, 51);
    assert_eq!(((star >> 48) & 0xffff) + 8, 43);
}

#[test]
fn user_side_of_the_calls() {
    assert_eq!(
        syscall(0x595ca11a, 1, 2, 3, 4),
        SyscallRequest { rax: 0x595ca11a, rdi: 1, rsi: 2, rdx: 3, r10: 4 }
    );
    assert_eq!(
        printf(0x40_2000, 12, 7, 0),
        SyscallRequest { rax: 0x1337, rdi: 0x40_2000, rsi: 12, rdx: 7, r10: 0 }
    );
    assert_eq!(
        readi(3, 0x80_0000, 1024),
        SyscallRequest { rax: 0x8EAD, rdi: 3, rsi: 0x80_0000, rdx: 1024, r10: 0 }
    );
    assert_eq!(
        getline(0x80_0800, 1024, 0),
        Err(SyscallRequest { rax: 0x1338, rdi: 0x80_0800, rsi: 1024, rdx: 0, r10: 0 })
    );
    assert_eq!(getline(0x80_0800, 1024, 5), Ok(5));
}

#[test]
fn prefixes() {
    assert!(prefix("help", "help"));
    assert!(prefix("echo hello", "echo "));
    assert!(!prefix("ech", "echo "));
    assert!(!prefix("exit", "echo"));
    assert!(prefix("anything", ""));
    assert!(prefix("", ""));
    assert!(!prefix("", "x"));
    assert!(prefix("é!", "é"));
    assert!(!prefix("e", "é"));
}

#[test]
fn memset_fills() {
    let mut buf = [1u8, 2, 3, 4, 5];
    memset(&mut buf[1..4], 0xaa);
    assert_eq!(buf, [1, 0xaa, 0xaa, 0xaa, 5]);
    memset(&mut buf[0..0], 7);
    assert_eq!(buf, [1, 0xaa, 0xaa, 0xaa, 5]);
}

#[test]
fn numbers_from_digits() {
    assert_eq!(parse_u64(b"0"), Some(0));
    assert_eq!(parse_u64(b"007"), Some(7));
    assert_eq!(parse_u64(b"+42"), Some(42));
    assert_eq!(parse_u64(b"18446744073709551615"), Some(u64::MAX));
    assert_eq!(parse_u64(b"18446744073709551616"), None);
    assert_eq!(parse_u64(b"99999999999999999999"), None);
    assert_eq!(parse_u64(b"184467440737095516150"), None);
    assert_eq!(parse_u64(b""), None);
    assert_eq!(parse_u64(b"+"), None);
    assert_eq!(parse_u64(b"-1"), None);
    assert_eq!(parse_u64(b"++1"), None);
    assert_eq!(parse_u64(b"12a"), None);
    assert_eq!(parse_u64(b" 12"), None);
    assert_eq!(parse_u64(b"12 "), None);
    for text in ["0", "+5", "123456", "18446744073709551615", "18446744073709551616", "x", ""] {
        assert_eq!(parse_u64(text.as_bytes()), text.parse::<u64>().ok());
    }
}

#[test]
fn shell_commands() {
    assert_eq!(command(b"help"), Command::Help);
    assert_eq!(command(b"helpless"), Command::Help);
    assert_eq!(command(b"echo hello"), Command::Echo);
    assert_eq!(command(b"echo "), Command::Echo);
    assert_eq!(command(b"echo"), Command::Unknown);
    assert_eq!(command(b"read 3"), Command::Read(3));
    assert_eq!(command(b"read 0"), Command::Read(0));
    assert_eq!(command(b"read three"), Command::BadInode);
    assert_eq!(command(b"read "), Command::BadInode);
    assert_eq!(command(b"read 3 "), Command::BadInode);
    assert_eq!(command(b"exit"), Command::Exit);
    assert_eq!(command(b"exit now"), Command::Exit);
    assert_eq!(command(b""), Command::Unknown);
    assert_eq!(command(b" help"), Command::Unknown);
    assert_eq!(command(b"Help"), Command::Unknown);
}
