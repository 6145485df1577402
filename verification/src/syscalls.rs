//! The system calls: what the model-specific registers are set to, which call a
//! number stands for, and what each call does with its arguments.

use vstd::prelude::*;

verus! {

/// Register that holds the segment selectors for system calls and returns.
pub const MSR_STAR: u32 = 0xc000_0081;

/// Register that holds the address of the system-call entry.
pub const MSR_LSTAR: u32 = 0xc000_0082;

/// Register that holds the flags to clear on entry.
pub const MSR_FMASK: u32 = 0xc000_0084;

/// The interrupt flag.
pub const RFLAGS_INTERRUPT: u64 = 0x200;

/// Size of the stack that a system call runs on.
pub const SYSCALL_STACK_SIZE: usize = 0x10000;

/// Number of the call that prints a string.
pub const SYS_PRINT: u64 = 0x1337;

/// Number of the call that reads the line typed last.
pub const SYS_GETLINE: u64 = 0x1338;

/// One write to a model-specific register.
#[derive(Copy, Clone, Debug, PartialEq, Eq, Structural)]
pub struct MsrWrite {
    pub register: u32,
    pub value: u64,
}

/// The register writes that install the system-call entry at `handler_addr`: the
/// interrupt flag is cleared on entry; the entry address is set; and the
/// selectors are set so that a call runs on the kernel's segments 8 and 16 and a
/// return on the user segments 51 and 43.
pub open spec fn init_syscalls_spec(handler_addr: u64) -> Seq<MsrWrite> {
    seq![
        MsrWrite { register: MSR_FMASK, value: RFLAGS_INTERRUPT },
        MsrWrite { register: MSR_LSTAR, value: handler_addr },
        MsrWrite { register: MSR_STAR, value: 0x0023_0008_0000_0000 },
    ]
}

/// The selector bases in the value of the selector register: the call base in bits
/// 32 to 47, from which the kernel's code and data selectors are taken as the
/// base and the base plus 8; the return base in bits 48 to 63, which holds ring 3
/// and from which the user's data and code selectors are taken as the base plus
/// 8 and plus 16.
pub proof fn law_star_selectors()
    ensures
        (0x0023_0008_0000_0000u64 >> 32) & 0xffff == 8,
        ((0x0023_0008_0000_0000u64 >> 32) & 0xffff) + 8 == 16,
        ((0x0023_0008_0000_0000u64 >> 48) & 0xffff) + 8 == 43,
        ((0x0023_0008_0000_0000u64 >> 48) & 0xffff) + 16 == 51,
        ((0x0023_0008_0000_0000u64 >> 48) & 0xffff) & 3 == 3,
{
    assert((0x0023_0008_0000_0000u64 >> 32) & 0xffff == 8) by (bit_vector);
    assert((0x0023_0008_0000_0000u64 >> 48) & 0xffff == 0x23) by (bit_vector);
    assert(0x23u64 & 3 == 3) by (bit_vector);
}

/// The register writes that install the system-call entry at `handler_addr`.
pub fn init_syscalls(handler_addr: u64) -> (writes: [MsrWrite; 3])
    ensures
        writes@ == init_syscalls_spec(handler_addr),
{
    let writes = [
        MsrWrite { register: MSR_FMASK, value: RFLAGS_INTERRUPT },
        MsrWrite { register: MSR_LSTAR, value: handler_addr },
        MsrWrite { register: MSR_STAR, value: 0x0023_0008_0000_0000 },
    ];
    assert(writes@ =~= init_syscalls_spec(handler_addr));
    writes
}

/// Number of an example call that only logs its arguments.
pub const SYS_EXAMPLE: u64 = 0x42;

/// Number of the example call of the first test program.
pub const SYS_EXAMPLE_1: u64 = 0x595c_a11a;

/// Number of the example call of the second test program.
pub const SYS_EXAMPLE_2: u64 = 0x595c_a11b;

/// The calls that the kernel knows.
#[derive(Copy, Clone, Debug, PartialEq, Eq, Structural)]
pub enum Syscall {
    Print,
    GetLine,
    /// One of the three example calls, which log their arguments.
    Example,
}

/// A call number that stands for no call: fatal for the kernel.
#[derive(Copy, Clone, Debug, PartialEq, Eq, Structural)]
pub struct BadSyscall(pub u64);

/// The call that `number` stands for, if it stands for one.
pub open spec fn syscall_of(number: u64) -> Option<Syscall> {
    if number == SYS_PRINT {
        Some(Syscall::Print)
    } else if number == SYS_GETLINE {
        Some(Syscall::GetLine)
    } else if number == SYS_EXAMPLE || number == SYS_EXAMPLE_1 || number == SYS_EXAMPLE_2 {
        Some(Syscall::Example)
    } else {
        None
    }
}

/// The call that `number` stands for.
pub fn syscall_by_number(number: u64) -> (r: Result<Syscall, BadSyscall>)
    ensures
        match syscall_of(number) {
            Some(call) => r == Ok::<Syscall, BadSyscall>(call),
            None => r == Err::<Syscall, BadSyscall>(BadSyscall(number)),
        },
{
    if number == SYS_PRINT {
        Ok(Syscall::Print)
    } else if number == SYS_GETLINE {
        Ok(Syscall::GetLine)
    } else if number == SYS_EXAMPLE || number == SYS_EXAMPLE_1 || number == SYS_EXAMPLE_2 {
        Ok(Syscall::Example)
    } else {
        Err(BadSyscall(number))
    }
}

/// The decimal digits of `n`, most significant first; none for zero.
pub open spec fn digits(n: nat) -> Seq<u8>
    decreases n,
{
    if n == 0 {
        Seq::empty()
    } else {
        digits(n / 10).push((48 + n % 10) as u8)
    }
}

/// `n` in decimal: its digits, or the single digit 0.
pub open spec fn decimal(n: nat) -> Seq<u8> {
    if n == 0 {
        seq![48u8]
    } else {
        digits(n)
    }
}

/// What the print call writes: the string, then a space and the first number if
/// that is not zero, then a space and the second number if neither is zero, and
/// the end of the line.
pub open spec fn sys_print_spec(s: Seq<u8>, i1: u64, i2: u64) -> Seq<u8> {
    if i1 != 0 && i2 != 0 {
        s.push(32).add(decimal(i1 as nat)).push(32).add(decimal(i2 as nat)).push(10)
    } else if i1 != 0 {
        s.push(32).add(decimal(i1 as nat)).push(10)
    } else {
        s.push(10)
    }
}

/// Appends `n` in decimal to `out`.
pub fn push_decimal(out: &mut Vec<u8>, n: u64)
    ensures
        final(out)@ == old(out)@.add(decimal(n as nat)),
{
    if n == 0 {
        out.push(48);
        assert(out@ =~= old(out)@.add(decimal(0)));
        return ;
    }
    let mut rev: Vec<u8> = Vec::new();
    let mut m = n;
    while m > 0
        invariant
            forall|tail: Seq<u8>| #[trigger]
                digits(m as nat).add(rev@.reverse()).add(tail) == digits(n as nat).add(tail),
            digits(m as nat).add(rev@.reverse()) == digits(n as nat),
        decreases m,
    {
        let d = (48 + m % 10) as u8;
        let ghost before = rev@;
        rev.push(d);
        proof {
            assert(digits(m as nat) == digits((m / 10) as nat).push(d));
            assert(rev@.reverse() =~= seq![d].add(before.reverse()));
            assert(digits((m / 10) as nat).add(rev@.reverse()) =~= digits(m as nat).add(
                before.reverse(),
            ));
            assert forall|tail: Seq<u8>| #[trigger]
                digits((m / 10) as nat).add(rev@.reverse()).add(tail) == digits(n as nat).add(
                    tail,
                ) by {}
        }
        m = m / 10;
    }
    let ghost start = out@;
    let mut i = rev.len();
    assert(digits(0).add(rev@.reverse()) =~= rev@.reverse());
    while i > 0
        invariant
            i <= rev@.len(),
            rev@.reverse() == digits(n as nat),
            out@ == start.add(rev@.reverse().subrange(0, rev@.len() - i)),
        decreases i,
    {
        i -= 1;
        out.push(rev[i]);
        proof {
            let r = rev@.reverse();
            let k = rev@.len() - i - 1;
            assert(r[k] == rev@[i as int]);
            assert(r.subrange(0, k + 1) =~= r.subrange(0, k).push(r[k]));
            assert(out@ =~= start.add(r.subrange(0, k + 1)));
        }
    }
    proof {
        let r = rev@.reverse();
        assert(r.subrange(0, rev@.len() as int) =~= r);
    }
}

/// The print call: gives what is to be written to the screen, and 1, the value
/// that the call returns.
pub fn sys_print(s: &[u8], i1: u64, i2: u64) -> (r: (Vec<u8>, u64))
    ensures
        r.0@ == sys_print_spec(s@, i1, i2),
        r.1 == 1,
{
    let mut out: Vec<u8> = Vec::new();
    let mut k: usize = 0;
    while k < s.len()
        invariant
            k <= s@.len(),
            out@ == s@.subrange(0, k as int),
        decreases s@.len() - k,
    {
        out.push(s[k]);
        assert(s@.subrange(0, k + 1) =~= s@.subrange(0, k as int).push(s@[k as int]));
        k += 1;
    }
    assert(s@.subrange(0, s@.len() as int) =~= s@);
    if i1 != 0 && i2 != 0 {
        out.push(32);
        push_decimal(&mut out, i1);
        out.push(32);
        push_decimal(&mut out, i2);
    } else if i1 != 0 {
        out.push(32);
        push_decimal(&mut out, i1);
    }
    out.push(10);
    (out, 1)
}

/// The read call: takes the line typed last, if there is one, and gives as much of
/// it as fits into `cap` bytes, for the caller's buffer; its length is the value
/// that the call returns. Without a line it gives nothing and returns 0. A line
/// is given once: what did not fit is lost.
pub fn sys_getline(stdin_buf: &mut Option<Vec<u8>>, cap: u64) -> (r: (Vec<u8>, u64))
    ensures
        *final(stdin_buf) == None::<Vec<u8>>,
        match *old(stdin_buf) {
            Some(line) => {
                let n = if line@.len() <= cap {
                    line@.len() as int
                } else {
                    cap as int
                };
                r.0@ == line@.subrange(0, n) && r.1 == n
            },
            None => r.0@ == Seq::<u8>::empty() && r.1 == 0,
        },
{
    let mut taken: Option<Vec<u8>> = None;
    core::mem::swap(stdin_buf, &mut taken);
    match taken {
        Some(vv) => {
            let cplen: usize = if vv.len() as u64 <= cap {
                vv.len()
            } else {
                cap as usize
            };
            let mut out: Vec<u8> = Vec::new();
            let mut k: usize = 0;
            while k < cplen
                invariant
                    k <= cplen <= vv@.len(),
                    out@ == vv@.subrange(0, k as int),
                decreases cplen - k,
            {
                out.push(vv[k]);
                assert(vv@.subrange(0, k + 1) =~= vv@.subrange(0, k as int).push(vv@[k as int]));
                k += 1;
            }
            (out, cplen as u64)
        },
        None => (Vec::new(), 0),
    }
}

/// What a system call leaves to be done before it returns.
#[derive(Debug, PartialEq, Eq)]
pub enum SyscallEffect {
    /// These bytes are to be written to the screen.
    Write(Vec<u8>),
    /// These bytes are to be copied to the start of the caller's buffer.
    CopyOut(Vec<u8>),
    /// The number of the call and its four arguments are to be logged.
    Log(u64, u64, u64, u64, u64),
}

/// Carries out the system call `syscall` with the arguments `arg0` to `arg3`. For
/// the print call, `user_bytes` is the caller's string, which lies at `arg0` and
/// is `arg1` bytes long, and `arg2` and `arg3` are the numbers to print behind
/// it; for the read call, `arg0` is the caller's buffer and `arg1` its size.
/// Returns what is left to be done and the value that the call returns to the
/// caller: 1 for the print call, the number of bytes for the read call, 0 for an
/// example call. An unknown number is refused and nothing is touched.
pub fn handle_syscall(
    syscall: u64,
    arg0: u64,
    arg1: u64,
    arg2: u64,
    arg3: u64,
    user_bytes: &[u8],
    stdin_buf: &mut Option<Vec<u8>>,
) -> (r: Result<(SyscallEffect, u64), BadSyscall>)
    ensures
        match syscall_of(syscall) {
            Some(Syscall::Print) => match r {
                Ok((SyscallEffect::Write(out), ret)) => out@ == sys_print_spec(
                    user_bytes@,
                    arg2,
                    arg3,
                ) && ret == 1 && *final(stdin_buf) == *old(stdin_buf),
                _ => false,
            },
            Some(Syscall::GetLine) => *final(stdin_buf) == None::<Vec<u8>> && match r {
                Ok((SyscallEffect::CopyOut(out), ret)) => match *old(stdin_buf) {
                    Some(line) => {
                        let n = if line@.len() <= arg1 {
                            line@.len() as int
                        } else {
                            arg1 as int
                        };
                        out@ == line@.subrange(0, n) && ret == n
                    },
                    None => out@ == Seq::<u8>::empty() && ret == 0,
                },
                _ => false,
            },
            Some(Syscall::Example) => r == Ok::<(SyscallEffect, u64), BadSyscall>(
                (SyscallEffect::Log(syscall, arg0, arg1, arg2, arg3), 0),
            ) && *final(stdin_buf) == *old(stdin_buf),
            None => {
                &&& r == Err::<(SyscallEffect, u64), BadSyscall>(BadSyscall(syscall))
                &&& *final(stdin_buf) == *old(stdin_buf)
            },
        },
{
    match syscall_by_number(syscall) {
        Ok(Syscall::Print) => {
            let (out, ret) = sys_print(user_bytes, arg2, arg3);
            Ok((SyscallEffect::Write(out), ret))
        },
        Ok(Syscall::GetLine) => {
            let (out, ret) = sys_getline(stdin_buf, arg1);
            Ok((SyscallEffect::CopyOut(out), ret))
        },
        Ok(Syscall::Example) => Ok((SyscallEffect::Log(syscall, arg0, arg1, arg2, arg3), 0)),
        Err(e) => Err(e),
    }
}

} // verus!
