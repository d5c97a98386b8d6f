//! Syscall argument registers, the per-architecture table of path
//! arguments, the reading of path strings out of a stopped process, and the
//! events that the tracer reports.

use vstd::prelude::*;
use vstd::utf8::{encode_utf8, valid_utf8};

use crate::numbers::{signed_decimal, signed_decimal_string};
use crate::text::{append_chars, chars_of, string_of};

use byteorder::{LittleEndian, WriteBytesExt};

verus! {

/// The two architectures whose syscall tables are known.
#[derive(Clone, Copy, Debug, PartialEq, Eq, Structural)]
pub enum Arch {
    X86_64,
    Riscv64,
}

/// A syscall argument register that may hold a pointer to a path string.
#[derive(Clone, Copy, Debug, PartialEq, Eq, Structural)]
pub enum StringRegister {
    Rdi,
    Rsi,
    Rdx,
    Rcx,
    R8,
    R9,
    A0,
    A1,
    A2,
    A3,
    A4,
    A5,
}

/// Which of the six argument registers `r` is, counting from zero.
pub open spec fn argument_index(r: StringRegister) -> int {
    match r {
        StringRegister::Rdi | StringRegister::A0 => 0,
        StringRegister::Rsi | StringRegister::A1 => 1,
        StringRegister::Rdx | StringRegister::A2 => 2,
        StringRegister::Rcx | StringRegister::A3 => 3,
        StringRegister::R8 | StringRegister::A4 => 4,
        StringRegister::R9 | StringRegister::A5 => 5,
    }
}

/// The registers of a process stopped at a syscall: its number and its six
/// arguments.
#[derive(Clone, Copy, Debug)]
pub struct SyscallRegisters {
    pub number: u64,
    pub args: [u64; 6],
}

impl SyscallRegisters {
    /// The value of the argument register `r`.
    pub fn argument(&self, r: StringRegister) -> (v: u64)
        ensures
            v == self.args@[argument_index(r)],
    {
        match r {
            StringRegister::Rdi | StringRegister::A0 => self.args[0],
            StringRegister::Rsi | StringRegister::A1 => self.args[1],
            StringRegister::Rdx | StringRegister::A2 => self.args[2],
            StringRegister::Rcx | StringRegister::A3 => self.args[3],
            StringRegister::R8 | StringRegister::A4 => self.args[4],
            StringRegister::R9 | StringRegister::A5 => self.args[5],
        }
    }
}

/// The x86_64 syscalls whose path argument is in `Rdi`.
pub open spec fn x86_64_uses_rdi(n: u64) -> bool {
    n == 0
        || n == 1
        || n == 2
        || n == 3
        || n == 4
        || n == 5
        || n == 6
        || n == 8
        || n == 17
        || n == 18
        || n == 21
        || n == 32
        || n == 33
        || n == 40
        || n == 72
        || n == 74
        || n == 75
        || n == 76
        || n == 77
        || n == 78
        || n == 80
        || n == 81
        || n == 82
        || n == 83
        || n == 84
        || n == 85
        || n == 87
        || n == 88
        || n == 89
        || n == 90
        || n == 91
        || n == 92
        || n == 93
        || n == 94
        || n == 133
        || n == 155
        || n == 161
        || n == 165
        || n == 166
        || n == 167
        || n == 168
        || n == 187
        || n == 188
        || n == 189
        || n == 190
        || n == 191
        || n == 192
        || n == 193
        || n == 194
        || n == 195
        || n == 196
        || n == 197
        || n == 198
        || n == 199
        || n == 217
        || n == 221
        || n == 261
        || n == 262
        || n == 263
        || n == 275
        || n == 276
        || n == 277
        || n == 278
        || n == 280
        || n == 285
        || n == 292
        || n == 294
        || n == 295
        || n == 296
        || n == 300
        || n == 301
        || n == 303
        || n == 304
        || n == 306
        || n == 332
}

/// The x86_64 syscalls whose path argument is in `Rsi`.
pub open spec fn x86_64_uses_rsi(n: u64) -> bool {
    n == 86
        || n == 257
        || n == 258
        || n == 259
        || n == 260
        || n == 264
        || n == 265
        || n == 266
        || n == 268
        || n == 269
        || n == 439
}

/// The riscv64 syscalls whose path argument is in `A0`.
pub open spec fn riscv64_uses_a0(n: u64) -> bool {
    n == 5
        || n == 6
        || n == 7
        || n == 8
        || n == 9
        || n == 10
        || n == 11
        || n == 12
        || n == 13
        || n == 14
        || n == 15
        || n == 16
        || n == 23
        || n == 24
        || n == 25
        || n == 26
        || n == 35
        || n == 39
        || n == 40
        || n == 41
        || n == 45
        || n == 46
        || n == 47
        || n == 49
        || n == 50
        || n == 51
        || n == 52
        || n == 55
        || n == 57
        || n == 61
        || n == 62
        || n == 63
        || n == 64
        || n == 67
        || n == 68
        || n == 69
        || n == 70
        || n == 71
        || n == 75
        || n == 76
        || n == 77
        || n == 79
        || n == 80
        || n == 82
        || n == 83
        || n == 84
        || n == 88
        || n == 213
        || n == 223
        || n == 224
        || n == 225
        || n == 262
        || n == 263
        || n == 264
        || n == 265
        || n == 267
        || n == 291
}

/// The riscv64 syscalls whose path argument is in `A1`.
pub open spec fn riscv64_uses_a1(n: u64) -> bool {
    n == 33
        || n == 34
        || n == 36
        || n == 37
        || n == 48
        || n == 53
        || n == 54
        || n == 56
        || n == 276
        || n == 439
}

/// The register that holds the path argument of syscall `n` on x86_64.
pub open spec fn x86_64_path_register(n: u64) -> Option<StringRegister> {
    if x86_64_uses_rdi(n) {
        Some(StringRegister::Rdi)
    } else if x86_64_uses_rsi(n) {
        Some(StringRegister::Rsi)
    } else {
        None
    }
}

/// The register that holds the path argument of syscall `n` on riscv64.
pub open spec fn riscv64_path_register(n: u64) -> Option<StringRegister> {
    if riscv64_uses_a0(n) {
        Some(StringRegister::A0)
    } else if riscv64_uses_a1(n) {
        Some(StringRegister::A1)
    } else {
        None
    }
}

fn x86_64_register(n: u64) -> (r: Option<StringRegister>)
    ensures
        r == x86_64_path_register(n),
{
    match n {
        0 | 1 | 2 | 3 | 4 | 5 | 6 | 8 | 17 | 18 | 21 | 32
            | 33 | 40 | 72 | 74 | 75 | 76 | 77 | 78 | 80 | 81 | 82 | 83
            | 84 | 85 | 87 | 88 | 89 | 90 | 91 | 92 | 93 | 94 | 133 | 155
            | 161 | 165 | 166 | 167 | 168 | 187 | 188 | 189 | 190 | 191 | 192 | 193
            | 194 | 195 | 196 | 197 | 198 | 199 | 217 | 221 | 261 | 262 | 263 | 275
            | 276 | 277 | 278 | 280 | 285 | 292 | 294 | 295 | 296 | 300 | 301 | 303
            | 304 | 306 | 332 => Some(StringRegister::Rdi),
        86 | 257 | 258 | 259 | 260 | 264 | 265 | 266 | 268 | 269 | 439 => Some(StringRegister::Rsi),
        _ => None,
    }
}

fn riscv64_register(n: u64) -> (r: Option<StringRegister>)
    ensures
        r == riscv64_path_register(n),
{
    match n {
        5 | 6 | 7 | 8 | 9 | 10 | 11 | 12 | 13 | 14 | 15 | 16
            | 23 | 24 | 25 | 26 | 35 | 39 | 40 | 41 | 45 | 46 | 47 | 49
            | 50 | 51 | 52 | 55 | 57 | 61 | 62 | 63 | 64 | 67 | 68 | 69
            | 70 | 71 | 75 | 76 | 77 | 79 | 80 | 82 | 83 | 84 | 88 | 213
            | 223 | 224 | 225 | 262 | 263 | 264 | 265 | 267 | 291 => Some(StringRegister::A0),
        33 | 34 | 36 | 37 | 48 | 53 | 54 | 56 | 276 | 439 => Some(StringRegister::A1),
        _ => None,
    }
}

/// The register that holds the path argument of syscall `n`, if it has one.
pub open spec fn path_register_of(arch: Arch, n: u64) -> Option<StringRegister> {
    match arch {
        Arch::X86_64 => x86_64_path_register(n),
        Arch::Riscv64 => riscv64_path_register(n),
    }
}

/// The register that holds the path argument of syscall `n`, if it has one.
pub fn path_register(arch: Arch, n: u64) -> (r: Option<StringRegister>)
    ensures
        r == path_register_of(arch, n),
{
    match arch {
        Arch::X86_64 => x86_64_register(n),
        Arch::Riscv64 => riscv64_register(n),
    }
}

/// The register that holds the path argument of the syscall the registers
/// describe, and its value.
pub fn path_argument(arch: Arch, regs: &SyscallRegisters) -> (r: Option<(StringRegister, u64)>)
    ensures
        match path_register_of(arch, regs.number) {
            None => r is None,
            Some(reg) => r == Some((reg, regs.args@[argument_index(reg)])),
        },
{
    match path_register(arch, regs.number) {
        None => None,
        Some(reg) => Some((reg, regs.argument(reg))),
    }
}

/// The name of syscall `n` on x86_64, as the syscall-numbers tables give it.
pub uninterp spec fn x86_64_syscall_name(n: i64) -> Option<Seq<char>>;

/// The name of syscall `n` on riscv64, as the syscall-numbers tables give it.
pub uninterp spec fn riscv64_syscall_name(n: i64) -> Option<Seq<char>>;

/// Relies on `syscall_numbers::x86_64::sys_call_name`: a lookup in a fixed
/// table, so the result depends on `n` alone.
#[verifier::external_body]
fn x86_64_name(n: i64) -> (r: Option<String>)
    ensures
        match r {
            Some(s) => x86_64_syscall_name(n) == Some(s@),
            None => x86_64_syscall_name(n) is None,
        },
{
    syscall_numbers::x86_64::sys_call_name(n).map(|s| s.to_string())
}

/// Relies on `syscall_numbers::riscv64::sys_call_name`: a lookup in a fixed
/// table, so the result depends on `n` alone.
#[verifier::external_body]
fn riscv64_name(n: i64) -> (r: Option<String>)
    ensures
        match r {
            Some(s) => riscv64_syscall_name(n) == Some(s@),
            None => riscv64_syscall_name(n) is None,
        },
{
    syscall_numbers::riscv64::sys_call_name(n).map(|s| s.to_string())
}

/// The name of syscall `n`; none for a number that no table knows, or one
/// beyond the range of a signed number.
pub open spec fn syscall_name_of(arch: Arch, n: u64) -> Option<Seq<char>> {
    if n > i64::MAX as u64 {
        None
    } else {
        match arch {
            Arch::X86_64 => x86_64_syscall_name(n as i64),
            Arch::Riscv64 => riscv64_syscall_name(n as i64),
        }
    }
}

/// The name of syscall `n`; see [`syscall_name_of`].
pub fn syscall_name(arch: Arch, n: u64) -> (r: Option<String>)
    ensures
        match r {
            Some(s) => syscall_name_of(arch, n) == Some(s@),
            None => syscall_name_of(arch, n) is None,
        },
{
    if n > i64::MAX as u64 {
        return None;
    }
    match arch {
        Arch::X86_64 => x86_64_name(n as i64),
        Arch::Riscv64 => riscv64_name(n as i64),
    }
}

/// A syscall that a traced process entered, and the path it named, if any.
#[derive(Clone, Debug)]
pub struct Syscall {
    pub name: String,
    pub number: u64,
    pub path: Option<String>,
}

/// The event for a syscall stop with registers `regs`, whose path argument
/// resolved to `path`: none for a syscall that the tables do not name.
pub fn handle_syscall(arch: Arch, regs: &SyscallRegisters, path: Option<String>) -> (r: Option<Syscall>)
    ensures
        match syscall_name_of(arch, regs.number) {
            None => r is None,
            Some(name) => r matches Some(s) && s.name@ == name && s.number == regs.number && s.path
                == path,
        },
{
    match syscall_name(arch, regs.number) {
        None => None,
        Some(name) => Some(Syscall { name, number: regs.number, path }),
    }
}

/// The longest path string that is read out of a process.
pub const PATH_MAX: usize = 4096;

/// The bytes of `w`, least significant first.
pub open spec fn le_bytes(w: u64) -> Seq<u8> {
    seq![
        (w % 0x100) as u8,
        ((w / 0x100) % 0x100) as u8,
        ((w / 0x10000) % 0x100) as u8,
        ((w / 0x1000000) % 0x100) as u8,
        ((w / 0x100000000) % 0x100) as u8,
        ((w / 0x10000000000) % 0x100) as u8,
        ((w / 0x1000000000000) % 0x100) as u8,
        ((w / 0x100000000000000) % 0x100) as u8,
    ]
}

/// The bytes of the words, in order.
pub open spec fn bytes_of(words: Seq<u64>) -> Seq<u8>
    decreases words.len(),
{
    if words.len() == 0 {
        Seq::empty()
    } else {
        bytes_of(words.drop_last()) + le_bytes(words.last())
    }
}

/// Relies on byteorder's `WriteBytesExt::write_u64::<LittleEndian>`: the
/// eight bytes of `word`, least significant first, go to the end of the
/// vector; writing to a vector does not fail.
#[verifier::external_body]
fn push_le_bytes(buf: &mut Vec<u8>, word: u64)
    ensures
        final(buf)@ == old(buf)@ + le_bytes(word),
{
    let _ = buf.write_u64::<LittleEndian>(word);
}

/// `r` is the string at the start of memory `b`: the bytes before the first
/// NUL, at most `PATH_MAX` of them.
pub open spec fn is_c_string_of(r: Seq<u8>, b: Seq<u8>) -> bool {
    &&& r.len() <= b.len()
    &&& r.len() <= PATH_MAX
    &&& r == b.subrange(0, r.len() as int)
    &&& forall|i: int| 0 <= i < r.len() ==> r[i] != 0
    &&& (r.len() == PATH_MAX || (r.len() < b.len() && b[r.len() as int] == 0))
}

/// A string at the start of memory stays the same however much more memory
/// follows: reading further words cannot change a finished string.
pub proof fn lemma_c_string_is_final(r: Seq<u8>, b: Seq<u8>, more: Seq<u8>)
    requires
        is_c_string_of(r, b),
    ensures
        is_c_string_of(r, b + more),
{
    assert((b + more).subrange(0, r.len() as int) =~= b.subrange(0, r.len() as int));
}

/// Relies on `String::from_utf8`: it succeeds exactly on valid UTF-8, and
/// the string then holds these bytes.
#[verifier::external_body]
fn utf8_string(bytes: Vec<u8>) -> (r: Option<String>)
    ensures
        match r {
            Some(s) => valid_utf8(bytes@) && encode_utf8(s@) == bytes@,
            None => !valid_utf8(bytes@),
        },
{
    String::from_utf8(bytes).ok()
}

/// Reads a NUL-terminated string out of a process one machine word at a
/// time. The caller feeds the words from the string's address on until the
/// reader is done.
pub struct CStringReader {
    bytes: Vec<u8>,
    done: bool,
    fed: Ghost<Seq<u64>>,
}

impl CStringReader {
    /// The words fed so far.
    pub closed spec fn fed(&self) -> Seq<u64> {
        self.fed@
    }

    /// Whether the string is complete.
    pub closed spec fn is_done(&self) -> bool {
        self.done
    }

    /// The bytes read so far, or the string once done.
    pub closed spec fn bytes_view(&self) -> Seq<u8> {
        self.bytes@
    }

    pub closed spec fn wf(&self) -> bool {
        if self.done {
            is_c_string_of(self.bytes@, bytes_of(self.fed@))
        } else {
            &&& self.bytes@ == bytes_of(self.fed@)
            &&& self.bytes@.len() == 8 * self.fed@.len()
            &&& self.bytes@.len() < PATH_MAX
            &&& forall|i: int| 0 <= i < self.bytes@.len() ==> self.bytes@[i] != 0
        }
    }

    /// A reader that has read nothing.
    pub fn new() -> (r: Self)
        ensures
            r.wf(),
            !r.is_done(),
            r.fed() == Seq::<u64>::empty(),
    {
        CStringReader { bytes: Vec::new(), done: false, fed: Ghost(Seq::empty()) }
    }

    /// Whether the string is complete.
    pub fn done(&self) -> (r: bool)
        ensures
            r == self.is_done(),
    {
        self.done
    }

    /// Takes the next word of memory and says whether the string is now
    /// complete: once it is, it is the string at the start of the words fed.
    pub fn feed(&mut self, word: u64) -> (r: bool)
        requires
            old(self).wf(),
            !old(self).is_done(),
        ensures
            final(self).wf(),
            final(self).fed() == old(self).fed().push(word),
            r == final(self).is_done(),
            r ==> is_c_string_of(final(self).bytes_view(), bytes_of(final(self).fed())),
    {
        let ghost before = self.bytes@;
        let ghost words = self.fed@.push(word);
        assert(words.drop_last() =~= self.fed@);
        self.fed = Ghost(words);
        if word == 0 {
            assert(le_bytes(word) =~= seq![0u8, 0u8, 0u8, 0u8, 0u8, 0u8, 0u8, 0u8]);
            assert(bytes_of(words) == before + le_bytes(word));
            assert(before =~= bytes_of(words).subrange(0, before.len() as int));
            self.done = true;
            return true;
        }
        let start = self.bytes.len();
        push_le_bytes(&mut self.bytes, word);
        assert(self.bytes@ == bytes_of(words));
        let n = self.bytes.len();
        let mut k: usize = start;
        while k < n && self.bytes[k] != 0
            invariant
                before.len() <= k <= n,
                n == self.bytes@.len(),
                forall|i: int| 0 <= i < k ==> self.bytes@[i] != 0,
            decreases n - k,
        {
            k = k + 1;
        }
        if k < n {
            self.bytes.truncate(k);
            assert(self.bytes@ =~= bytes_of(words).subrange(0, k as int));
            self.done = true;
            return true;
        }
        if n >= PATH_MAX {
            assert(self.bytes@ =~= bytes_of(words).subrange(0, n as int));
            self.done = true;
            return true;
        }
        false
    }

    /// The string read, when it is valid UTF-8.
    pub fn into_string(self) -> (r: Option<String>)
        ensures
            match r {
                Some(s) => valid_utf8(self.bytes_view()) && encode_utf8(s@) == self.bytes_view(),
                None => !valid_utf8(self.bytes_view()),
            },
    {
        utf8_string(self.bytes)
    }
}

/// The link in `/proc` that names the file behind descriptor `fd` of
/// process `pid`.
pub fn fd_link_path(pid: i32, fd: i32) -> (r: String)
    ensures
        r@ == "/proc/"@ + signed_decimal(pid as int) + "/fd/"@ + signed_decimal(fd as int),
{
    let mut v = chars_of("/proc/");
    append_chars(&mut v, &chars_of(signed_decimal_string(pid).as_str()));
    append_chars(&mut v, &chars_of("/fd/"));
    append_chars(&mut v, &chars_of(signed_decimal_string(fd).as_str()));
    string_of(&v)
}

/// Whether a descriptor link names a pipe rather than a file.
pub fn is_pipe_link(link: &str) -> (r: bool)
    ensures
        r == ("pipe:["@.len() <= link@.len() && link@.subrange(0, "pipe:["@.len() as int) == "pipe:["@),
{
    let v = chars_of(link);
    let p = chars_of("pipe:[");
    if p.len() > v.len() {
        return false;
    }
    let mut i: usize = 0;
    while i < p.len()
        invariant
            v@ == link@,
            p@ == "pipe:["@,
            p@.len() <= v@.len(),
            i <= p@.len(),
            forall|j: int| 0 <= j < i ==> v@[j] == p@[j],
        decreases p.len() - i,
    {
        if v[i] != p[i] {
            assert(v@.subrange(0, p@.len() as int)[i as int] != p@[i as int]);
            return false;
        }
        i = i + 1;
    }
    assert(v@.subrange(0, p@.len() as int) =~= p@);
    true
}

/// The path that a syscall names once the descriptor fallback is done: the
/// link target, unless it names a pipe.
pub fn path_from_fd_link(link: Option<String>) -> (r: Option<String>)
    ensures
        match link {
            None => r is None,
            Some(l) => if "pipe:["@.len() <= l@.len() && l@.subrange(0, "pipe:["@.len() as int)
                == "pipe:["@ {
                r is None
            } else {
                r == Some(l)
            },
        },
{
    match link {
        None => None,
        Some(l) => {
            if is_pipe_link(l.as_str()) {
                None
            } else {
                Some(l)
            }
        },
    }
}

} // verus!
