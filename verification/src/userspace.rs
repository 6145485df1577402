//! The user side of the system calls: which registers a call is made with, and the
//! little that a user program needs besides.

use vstd::prelude::*;
use vstd::string::StringSliceAdditionalSpecFns;
use crate::port::PortWrite;
use crate::syscalls::{SYS_GETLINE, SYS_PRINT};

verus! {

/// Number of the call that reads a file or lists a directory.
pub const SYS_READI: u64 = 0x8EAD;

/// The registers that a system call is made with: the number goes into `rax`, the
/// four arguments into `rdi`, `rsi`, `rdx` and `r10`; the result comes back in `rax`.
#[derive(Copy, Clone, Debug, PartialEq, Eq, Structural)]
pub struct SyscallRequest {
    pub rax: u64,
    pub rdi: u64,
    pub rsi: u64,
    pub rdx: u64,
    pub r10: u64,
}

/// The registers for call `n` with the arguments given.
pub fn syscall(n: u64, arg1: u64, arg2: u64, arg3: u64, arg4: u64) -> (r: SyscallRequest)
    ensures
        r == (SyscallRequest { rax: n, rdi: arg1, rsi: arg2, rdx: arg3, r10: arg4 }),
{
    SyscallRequest { rax: n, rdi: arg1, rsi: arg2, rdx: arg3, r10: arg4 }
}

/// The call that prints the string of `len` bytes at `ptr`, followed by the
/// numbers `a1` and `a2` where they are not zero.
pub fn printf(ptr: u64, len: u64, a1: u64, a2: u64) -> (r: SyscallRequest)
    ensures
        r == (SyscallRequest { rax: SYS_PRINT, rdi: ptr, rsi: len, rdx: a1, r10: a2 }),
{
    syscall(SYS_PRINT, ptr, len, a1, a2)
}

/// One step of reading a line into the buffer of `cap` bytes at `ptr`: `reply` is
/// what the last call returned, 0 before the first. A reply other than 0 is the
/// length of the line read, and reading is done; else the call is to be made
/// (again).
pub fn getline(ptr: u64, cap: u64, reply: u64) -> (r: Result<usize, SyscallRequest>)
    ensures
        reply != 0 ==> r == Ok::<usize, SyscallRequest>(reply as usize),
        reply == 0 ==> r == Err::<usize, SyscallRequest>(
            SyscallRequest { rax: SYS_GETLINE, rdi: ptr, rsi: cap, rdx: 0, r10: 0 },
        ),
{
    if reply != 0 {
        Ok(reply as usize)
    } else {
        Err(syscall(SYS_GETLINE, ptr, cap, 0, 0))
    }
}

/// The call that reads the file or directory number `inode` into the buffer of
/// `len` bytes at `ptr`.
pub fn readi(inode: u64, ptr: u64, len: u64) -> (r: SyscallRequest)
    ensures
        r == (SyscallRequest { rax: SYS_READI, rdi: inode, rsi: ptr, rdx: len, r10: 0 }),
{
    syscall(SYS_READI, inode, ptr, len, 0)
}

/// Whether `s` begins with `pre`, byte for byte.
pub fn prefix(s: &str, pre: &str) -> (r: bool)
    ensures
        r == pre.spec_bytes().is_prefix_of(s.spec_bytes()),
{
    starts_with(s.as_bytes(), pre.as_bytes())
}

/// Fills `s` with the byte `c`.
pub fn memset(s: &mut [u8], c: u8)
    ensures
        final(s)@ == Seq::new(old(s)@.len(), |i: int| c),
{
    let n = s.len();
    let mut i: usize = 0;
    while i < n
        invariant
            i <= n,
            n == s@.len(),
            s@.len() == old(s)@.len(),
            forall|j: int| 0 <= j < i ==> s@[j] == c,
        decreases n - i,
    {
        s[i] = c;
        i += 1;
    }
    assert(s@ =~= Seq::new(old(s)@.len(), |i: int| c));
}

/// The number that the decimal digits `s` stand for.
pub open spec fn digits_value(s: Seq<u8>) -> nat
    decreases s.len(),
{
    if s.len() == 0 {
        0
    } else {
        digits_value(s.drop_last()) * 10 + (s.last() - 48) as nat
    }
}

/// Whether every byte of `s` is a decimal digit.
pub open spec fn all_digits(s: Seq<u8>) -> bool {
    forall|i: int| 0 <= i < s.len() ==> 48 <= #[trigger] s[i] <= 57
}

/// The number that `s` stands for: decimal digits, at least one, behind an optional
/// plus sign, with a value that fits in 64 bits. `None` for anything else.
pub open spec fn parse_u64_spec(s: Seq<u8>) -> Option<u64> {
    let body = if s.len() > 0 && s[0] == 43 {
        s.skip(1)
    } else {
        s
    };
    if body.len() > 0 && all_digits(body) && digits_value(body) <= u64::MAX {
        Some(digits_value(body) as u64)
    } else {
        None
    }
}

/// The value of digits does not shrink when more digits follow.
proof fn lemma_digits_grow(s: Seq<u8>, n: int)
    requires
        all_digits(s),
        0 <= n <= s.len(),
    ensures
        digits_value(s.subrange(0, n)) <= digits_value(s),
    decreases s.len() - n,
{
    if n < s.len() {
        let longer = s.subrange(0, n + 1);
        assert(longer.drop_last() =~= s.subrange(0, n));
        assert(longer.last() == s[n]);
        lemma_digits_grow(s, n + 1);
    } else {
        assert(s.subrange(0, n) =~= s);
    }
}

/// Reads a number from its decimal digits.
pub fn parse_u64(s: &[u8]) -> (r: Option<u64>)
    ensures
        r == parse_u64_spec(s@),
{
    let start: usize = if s.len() > 0 && s[0] == 43 {
        1
    } else {
        0
    };
    let ghost body = if start == 1 {
        s@.skip(1)
    } else {
        s@
    };
    proof {
        assert(s@.skip(0) =~= s@);
    }
    if start == s.len() {
        return None;
    }
    assert(body.subrange(0, 0) =~= Seq::<u8>::empty());
    let mut value: u64 = 0;
    let mut i: usize = start;
    while i < s.len()
        invariant
            start <= i <= s@.len(),
            body == s@.skip(start as int),
            body == (if s@.len() > 0 && s@[0] == 43 {
                s@.skip(1)
            } else {
                s@
            }),
            all_digits(body.subrange(0, i - start)),
            value == digits_value(body.subrange(0, i - start)),
        decreases s@.len() - i,
    {
        let b = s[i];
        assert(body[i - start] == b);
        if b < 48 || b > 57 {
            assert(!all_digits(body));
            return None;
        }
        let d: u64 = (b - 48) as u64;
        let ghost longer = body.subrange(0, i - start + 1);
        proof {
            assert(longer.drop_last() =~= body.subrange(0, i - start));
            assert(longer.last() == b);
            assert(digits_value(longer) == value * 10 + d);
            assert(all_digits(longer)) by {
                assert forall|j: int| 0 <= j < longer.len() implies 48 <= #[trigger] longer[j]
                    <= 57 by {
                    if j < i - start {
                        assert(body.subrange(0, i - start)[j] == longer[j]);
                    }
                }
            }
        }
        if value > (u64::MAX - d) / 10 {
            proof {
                // the digits read so far are too large already
                assert(value * 10 + d > u64::MAX);
                assert(digits_value(longer) > u64::MAX);
                if all_digits(body) {
                    lemma_digits_grow(body, i - start + 1);
                    assert(digits_value(body) > u64::MAX);
                }
            }
            return None;
        }
        value = value * 10 + d;
        i += 1;
    }
    proof {
        assert(body.subrange(0, i - start) =~= body);
    }
    Some(value)
}

/// What a line typed into the shell asks for.
#[derive(Copy, Clone, Debug, PartialEq, Eq, Structural)]
pub enum Command {
    /// Show what the shell knows.
    Help,
    /// Print the line from its sixth byte on.
    Echo,
    /// Read the file or directory with this number.
    Read(u64),
    /// Something to be read was asked for, but not by a number.
    BadInode,
    /// Leave the shell.
    Exit,
    /// None of these.
    Unknown,
}

/// What the line `s` asks for: the first of `help`, `echo `, `read ` and `exit`
/// that it begins with decides; behind `read ` a number is expected.
pub open spec fn command_spec(s: Seq<u8>) -> Command {
    if seq![104u8, 101, 108, 112].is_prefix_of(s) {
        Command::Help
    } else if seq![101u8, 99, 104, 111, 32].is_prefix_of(s) {
        Command::Echo
    } else if seq![114u8, 101, 97, 100, 32].is_prefix_of(s) {
        match parse_u64_spec(s.skip(5)) {
            Some(inode) => Command::Read(inode),
            None => Command::BadInode,
        }
    } else if seq![101u8, 120, 105, 116].is_prefix_of(s) {
        Command::Exit
    } else {
        Command::Unknown
    }
}

/// Whether `s` begins with `pre`, byte for byte.
fn starts_with(s: &[u8], pre: &[u8]) -> (r: bool)
    ensures
        r == pre@.is_prefix_of(s@),
{
    if s.len() < pre.len() {
        return false;
    }
    let mut i: usize = 0;
    while i < pre.len()
        invariant
            i <= pre@.len() <= s@.len(),
            forall|j: int| 0 <= j < i ==> s@[j] == pre@[j],
        decreases pre@.len() - i,
    {
        if pre[i] != s[i] {
            assert(!pre@.is_prefix_of(s@)) by {
                if pre@.is_prefix_of(s@) {
                    assert(s@.subrange(0, pre@.len() as int)[i as int] == pre@[i as int]);
                }
            }
            return false;
        }
        i += 1;
    }
    assert(s@.subrange(0, pre@.len() as int) =~= pre@);
    true
}

/// What the line `s` asks for.
pub fn command(s: &[u8]) -> (c: Command)
    ensures
        c == command_spec(s@),
{
    let help: [u8; 4] = [104, 101, 108, 112];
    let echo: [u8; 5] = [101, 99, 104, 111, 32];
    let read: [u8; 5] = [114, 101, 97, 100, 32];
    let exit: [u8; 4] = [101, 120, 105, 116];
    proof {
        assert(help@ =~= seq![104u8, 101, 108, 112]);
        assert(echo@ =~= seq![101u8, 99, 104, 111, 32]);
        assert(read@ =~= seq![114u8, 101, 97, 100, 32]);
        assert(exit@ =~= seq![101u8, 120, 105, 116]);
    }
    if starts_with(s, help.as_slice()) {
        Command::Help
    } else if starts_with(s, echo.as_slice()) {
        Command::Echo
    } else if starts_with(s, read.as_slice()) {
        let rest = vstd::slice::slice_subrange(s, 5, s.len());
        assert(rest@ =~= s@.skip(5));
        match parse_u64(rest) {
            Some(inode) => Command::Read(inode),
            None => Command::BadInode,
        }
    } else if starts_with(s, exit.as_slice()) {
        Command::Exit
    } else {
        Command::Unknown
    }
}

/// How a test run under the emulator ends.
#[derive(Copy, Clone, Debug, PartialEq, Eq, Structural)]
pub enum QemuExitCode {
    Success,
    Failed,
}

impl QemuExitCode {
    /// The number that tells the emulator: 0x10 for success, 0x11 for failure.
    pub open spec fn code_spec(self) -> u32 {
        match self {
            QemuExitCode::Success => 0x10u32,
            QemuExitCode::Failed => 0x11u32,
        }
    }

    /// The number that tells the emulator.
    pub fn code(self) -> (c: u32)
        ensures
            c == self.code_spec(),
    {
        match self {
            QemuExitCode::Success => 0x10,
            QemuExitCode::Failed => 0x11,
        }
    }
}

/// The port write that ends the emulator with `exit_code`.
pub fn exit_qemu(exit_code: QemuExitCode) -> (w: PortWrite)
    ensures
        w == (PortWrite { port: 0xf4, width: 4, value: exit_code.code_spec() }),
{
    PortWrite { port: 0xf4, width: 4, value: exit_code.code() }
}

} // verus!
