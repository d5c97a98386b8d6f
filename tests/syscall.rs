use boxxy::syscall::{
    fd_link_path, handle_syscall, is_pipe_link, path_argument, path_from_fd_link, path_register, syscall_name, Arch,
    CStringReader, StringRegister, SyscallRegisters, PATH_MAX,
};

#[test]
fn x86_64_path_registers() {
    assert_eq!(path_register(Arch::X86_64, syscall_numbers::x86_64::SYS_read as u64), Some(StringRegister::Rdi));
    assert_eq!(path_register(Arch::X86_64, syscall_numbers::x86_64::SYS_open as u64), Some(StringRegister::Rdi));
    assert_eq!(path_register(Arch::X86_64, syscall_numbers::x86_64::SYS_openat as u64), Some(StringRegister::Rsi));
    assert_eq!(path_register(Arch::X86_64, syscall_numbers::x86_64::SYS_faccessat2 as u64), Some(StringRegister::Rsi));
    assert_eq!(path_register(Arch::X86_64, syscall_numbers::x86_64::SYS_link as u64), Some(StringRegister::Rsi));
    assert_eq!(path_register(Arch::X86_64, syscall_numbers::x86_64::SYS_unlinkat as u64), Some(StringRegister::Rdi));
    assert_eq!(path_register(Arch::X86_64, syscall_numbers::x86_64::SYS_syncfs as u64), Some(StringRegister::Rdi));
    assert_eq!(path_register(Arch::X86_64, syscall_numbers::x86_64::SYS_getpid as u64), None);
    assert_eq!(path_register(Arch::X86_64, syscall_numbers::x86_64::SYS_mmap as u64), None);
}

#[test]
fn riscv64_path_registers() {
    assert_eq!(path_register(Arch::Riscv64, syscall_numbers::riscv64::SYS_openat as u64), Some(StringRegister::A1));
    assert_eq!(path_register(Arch::Riscv64, syscall_numbers::riscv64::SYS_read as u64), Some(StringRegister::A0));
    assert_eq!(path_register(Arch::Riscv64, syscall_numbers::riscv64::SYS_renameat2 as u64), Some(StringRegister::A1));
    assert_eq!(path_register(Arch::Riscv64, syscall_numbers::riscv64::SYS_unlinkat as u64), Some(StringRegister::A0));
    assert_eq!(path_register(Arch::Riscv64, syscall_numbers::riscv64::SYS_getpid as u64), None);
}

#[test]
fn path_argument_reads_the_right_register() {
    let regs = SyscallRegisters { number: 257, args: [10, 20, 30, 40, 50, 60] };
    assert_eq!(path_argument(Arch::X86_64, &regs), Some((StringRegister::Rsi, 20)));
    let regs = SyscallRegisters { number: 39, args: [10, 20, 30, 40, 50, 60] };
    assert_eq!(path_argument(Arch::X86_64, &regs), None);
}

#[test]
fn syscall_names_come_from_the_tables() {
    assert_eq!(syscall_name(Arch::X86_64, 0), Some("read".to_string()));
    assert_eq!(syscall_name(Arch::X86_64, 257), Some("openat".to_string()));
    assert_eq!(syscall_name(Arch::Riscv64, 56), Some("openat".to_string()));
    assert_eq!(syscall_name(Arch::X86_64, 100_000), None);
    assert_eq!(syscall_name(Arch::X86_64, u64::MAX), None);
}

fn words_of(bytes: &[u8]) -> Vec<u64> {
    bytes
        .chunks(8)
        .map(|c| {
            let mut w = [0u8; 8];
            w[..c.len()].copy_from_slice(c);
            u64::from_le_bytes(w)
        })
        .collect()
}

fn read_all(words: &[u64]) -> (usize, Option<String>) {
    let mut r = CStringReader::new();
    let mut used = 0;
    for w in words {
        used += 1;
        if r.feed(*w) {
            break;
        }
    }
    assert!(r.done());
    (used, r.into_string())
}

#[test]
fn c_string_reader_stops_at_nul() {
    let (used, s) = read_all(&words_of(b"/etc/hostname\0garbage-after"));
    assert_eq!(used, 2);
    assert_eq!(s, Some("/etc/hostname".to_string()));
}

#[test]
fn c_string_reader_stops_at_zero_word() {
    let mut bytes = b"12345678".to_vec();
    bytes.extend_from_slice(&[0u8; 8]);
    let (used, s) = read_all(&words_of(&bytes));
    assert_eq!(used, 2);
    assert_eq!(s, Some("12345678".to_string()));
    let (used, s) = read_all(&[0]);
    assert_eq!(used, 1);
    assert_eq!(s, Some(String::new()));
}

#[test]
fn c_string_reader_caps_at_path_max() {
    let bytes = vec![b'a'; PATH_MAX + 64];
    let (used, s) = read_all(&words_of(&bytes));
    assert_eq!(used, PATH_MAX / 8);
    assert_eq!(s.unwrap().len(), PATH_MAX);
}

#[test]
fn c_string_reader_rejects_invalid_utf8() {
    let (_, s) = read_all(&words_of(&[0xff, 0xfe, 0]));
    assert_eq!(s, None);
}

#[test]
fn fd_links() {
    assert_eq!(fd_link_path(1234, 5), "/proc/1234/fd/5");
    assert_eq!(fd_link_path(7, -1), "/proc/7/fd/-1");
    assert!(is_pipe_link("pipe:[123]"));
    assert!(!is_pipe_link("/etc/pipe:[x"));
    assert!(!is_pipe_link("pipe"));
    assert_eq!(path_from_fd_link(Some("pipe:[9]".to_string())), None);
    assert_eq!(path_from_fd_link(Some("/etc/hosts".to_string())), Some("/etc/hosts".to_string()));
    assert_eq!(path_from_fd_link(None), None);
}

#[test]
fn syscall_events_only_for_named_syscalls() {
    let regs = SyscallRegisters { number: 257, args: [0; 6] };
    let ev = handle_syscall(Arch::X86_64, &regs, Some("/etc/hostname".to_string())).unwrap();
    assert_eq!(ev.name, "openat");
    assert_eq!(ev.number, 257);
    assert_eq!(ev.path, Some("/etc/hostname".to_string()));
    let regs = SyscallRegisters { number: 100_000, args: [0; 6] };
    assert!(handle_syscall(Arch::X86_64, &regs, None).is_none());
}
