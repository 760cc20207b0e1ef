use emscripten_shim::context::Ctx;
use emscripten_shim::layout::{GuestStat, HostPasswd, HostStat};
use emscripten_shim::marshal::{
    allocate_cstr_on_stack, allocate_on_stack, copy_cstr_into_wasm, copy_stat_into_wasm,
    copy_terminated_array_of_cstrs, cstr_alloc_size, getpwuid, has_cstr_at, read_string_from_wasm,
    terminated_array_len, write_to_buf, MarshalError, PasswdBlocks,
};
use emscripten_shim::memory::{GuestMemory, MemoryError};
use emscripten_shim::paths::PathMap;

fn ctx_with(size: usize) -> Ctx {
    Ctx::new(GuestMemory::new(size), PathMap::new())
}

fn u32_at(m: &[u8], off: usize) -> u32 {
    u32::from_le_bytes([m[off], m[off + 1], m[off + 2], m[off + 3]])
}

fn u64_at(m: &[u8], off: usize) -> u64 {
    let mut b = [0u8; 8];
    b.copy_from_slice(&m[off..off + 8]);
    u64::from_le_bytes(b)
}

#[test]
fn cstr_copy_reads_back_with_one_terminator() {
    let mut ctx = Ctx::new(GuestMemory::from_bytes(vec![0xaa; 32]), PathMap::new());
    let text = b"hello";
    assert_eq!(cstr_alloc_size(text), Some(6));
    let off = copy_cstr_into_wasm(&mut ctx, text, 8).unwrap();
    assert_eq!(off, 8);
    let m = ctx.memory.as_slice();
    assert_eq!(&m[8..14], b"hello\0");
    assert_eq!(m[7], 0xaa);
    assert_eq!(m[14], 0xaa);
    assert_eq!(read_string_from_wasm(&ctx.memory, 8), "hello");
}

#[test]
fn cstr_copy_of_empty_text_writes_only_the_terminator() {
    let mut ctx = Ctx::new(GuestMemory::from_bytes(vec![7; 4]), PathMap::new());
    assert_eq!(copy_cstr_into_wasm(&mut ctx, b"", 2), Ok(2));
    assert_eq!(ctx.memory.as_slice(), &[7, 7, 0, 7]);
}

#[test]
fn cstr_copy_refuses_invalid_text() {
    let mut ctx = ctx_with(16);
    assert_eq!(copy_cstr_into_wasm(&mut ctx, &[0xff, 0xfe], 0), Err(MarshalError::InvalidText));
    assert_eq!(ctx.memory.as_slice(), &[0u8; 16]);
}

#[test]
fn cstr_copy_out_of_bounds() {
    let mut ctx = ctx_with(4);
    assert_eq!(
        copy_cstr_into_wasm(&mut ctx, b"abcd", 0),
        Err(MarshalError::Memory(MemoryError::OutOfBounds { offset: 0, len: 5 }))
    );
    assert_eq!(ctx.memory.as_slice(), &[0u8; 4]);
}

#[test]
fn read_string_decodes_lossily_and_stops_at_zero() {
    let mem = GuestMemory::from_bytes(vec![b'a', 0xff, b'b', 0, b'c']);
    assert_eq!(read_string_from_wasm(&mem, 0), "a\u{fffd}b");
    assert_eq!(read_string_from_wasm(&mem, 4), "c");
    assert_eq!(read_string_from_wasm(&mem, 5), "");
}

#[test]
fn write_to_buf_copies_exactly_max_bytes() {
    let mut ctx = ctx_with(8);
    assert_eq!(write_to_buf(&mut ctx, b"abcdef", 2, 3), Ok(2));
    assert_eq!(ctx.memory.as_slice(), &[0, 0, b'a', b'b', b'c', 0, 0, 0]);
    assert_eq!(
        write_to_buf(&mut ctx, b"abcdef", 6, 3),
        Err(MemoryError::OutOfBounds { offset: 6, len: 3 })
    );
}

#[test]
fn stack_allocation_sizes() {
    assert_eq!(allocate_on_stack(3, 4), Some(12));
    assert_eq!(allocate_on_stack(0, 8), Some(0));
    assert_eq!(allocate_on_stack(u32::MAX, 2), None);
    assert_eq!(allocate_on_stack(65536, 65536), None);
    assert_eq!(allocate_on_stack(65536, 65535), Some(65536 * 65535));
}

#[test]
fn cstr_on_stack_is_terminated() {
    let mut ctx = Ctx::new(GuestMemory::from_bytes(vec![9; 6]), PathMap::new());
    assert_eq!(allocate_cstr_on_stack(&mut ctx, b"ab", 1), Ok(1));
    assert_eq!(ctx.memory.as_slice(), &[9, b'a', b'b', 0, 9, 9]);
    assert!(allocate_cstr_on_stack(&mut ctx, b"abcdef", 0).is_err());
}

#[test]
fn terminated_array_counting() {
    assert_eq!(terminated_array_len(&[5, 6, 0, 7]), 2);
    assert_eq!(terminated_array_len(&[0]), 0);
    assert_eq!(terminated_array_len(&[1, 2]), 2);
    assert_eq!(terminated_array_len(&[]), 0);
    assert_eq!(copy_terminated_array_of_cstrs(&[5, 6, 0]), 0);
}

fn sample_stat() -> HostStat {
    HostStat {
        st_dev: 0x1_0000_0002,
        st_ino: 0x5_0000_0007,
        st_nlink: 3,
        st_mode: 0o100644,
        st_uid: 1000,
        st_gid: 100,
        st_rdev: 0x2_0000_0009,
        st_size: -1,
        st_blksize: 512,
        st_blocks: 16,
        st_atime: 1_600_000_000,
        st_mtime: -2,
        st_ctime: 1_700_000_000,
    }
}

#[test]
fn guest_stat_truncates_and_fixes_block_size() {
    let g = GuestStat::from_host(&sample_stat());
    assert_eq!(g.st_dev, 2);
    assert_eq!(g.__st_dev_padding, 0);
    assert_eq!(g.__st_ino_truncated, 7);
    assert_eq!(g.st_mode, 0o100644);
    assert_eq!(g.st_nlink, 3);
    assert_eq!(g.st_rdev, 9);
    assert_eq!(g.__st_rdev_padding, 0);
    assert_eq!(g.st_size, u32::MAX);
    assert_eq!(g.st_blksize, 4096);
    assert_eq!(g.st_blocks, 16);
    assert_eq!(g.st_mtime, u64::MAX - 1);
    assert_eq!(g.st_ino, 7);
    assert_eq!(g.to_bytes().len(), 76);
}

#[test]
fn stat_record_written_at_fixed_offsets() {
    let mut ctx = ctx_with(100);
    assert_eq!(copy_stat_into_wasm(&mut ctx, 8, &sample_stat()), Ok(()));
    let m = ctx.memory.as_slice();
    assert_eq!(u32_at(m, 8), 2);
    assert_eq!(u32_at(m, 8 + 4), 0);
    assert_eq!(u32_at(m, 8 + 8), 7);
    assert_eq!(u32_at(m, 8 + 12), 0o100644);
    assert_eq!(u32_at(m, 8 + 16), 3);
    assert_eq!(u32_at(m, 8 + 20), 1000);
    assert_eq!(u32_at(m, 8 + 24), 100);
    assert_eq!(u32_at(m, 8 + 28), 9);
    assert_eq!(u32_at(m, 8 + 32), 0);
    assert_eq!(u32_at(m, 8 + 36), u32::MAX);
    assert_eq!(u32_at(m, 8 + 40), 4096);
    assert_eq!(u32_at(m, 8 + 44), 16);
    assert_eq!(u64_at(m, 8 + 48), 1_600_000_000);
    assert_eq!(u64_at(m, 8 + 56), u64::MAX - 1);
    assert_eq!(u64_at(m, 8 + 64), 1_700_000_000);
    assert_eq!(u32_at(m, 8 + 72), 7);
    assert_eq!(m[84], 0);
}

#[test]
fn stat_block_size_ignores_host_value() {
    for blksize in [0i64, 1, 512, 4096, 65536, -1] {
        let mut st = sample_stat();
        st.st_blksize = blksize;
        let mut ctx = ctx_with(76);
        copy_stat_into_wasm(&mut ctx, 0, &st).unwrap();
        assert_eq!(u32_at(ctx.memory.as_slice(), 40), 4096);
    }
}

#[test]
fn stat_record_out_of_bounds() {
    let mut ctx = ctx_with(80);
    assert!(copy_stat_into_wasm(&mut ctx, 8, &sample_stat()).is_err());
    assert_eq!(ctx.memory.as_slice(), &[0u8; 80][..]);
}

fn sample_passwd() -> HostPasswd {
    HostPasswd {
        name: b"alice".to_vec(),
        passwd: b"x".to_vec(),
        uid: 1001,
        gid: 1002,
        gecos: b"Alice A".to_vec(),
        dir: b"/home/alice".to_vec(),
        shell: b"/bin/sh".to_vec(),
    }
}

#[test]
fn passwd_entry_round_trips() {
    let mut ctx = ctx_with(256);
    let blocks = PasswdBlocks { entry: 16, name: 48, passwd: 64, gecos: 80, dir: 96, shell: 128 };
    assert_eq!(getpwuid(&mut ctx, &sample_passwd(), &blocks), Ok(16));
    let m = ctx.memory.as_slice();
    assert_eq!(u32_at(m, 16), 48);
    assert_eq!(u32_at(m, 20), 64);
    assert_eq!(u32_at(m, 24), 1001);
    assert_eq!(u32_at(m, 28), 1002);
    assert_eq!(u32_at(m, 32), 80);
    assert_eq!(u32_at(m, 36), 96);
    assert_eq!(u32_at(m, 40), 128);
    assert_eq!(read_string_from_wasm(&ctx.memory, u32_at(m, 16)), "alice");
    assert_eq!(read_string_from_wasm(&ctx.memory, u32_at(m, 20)), "x");
    assert_eq!(read_string_from_wasm(&ctx.memory, u32_at(m, 32)), "Alice A");
    assert_eq!(read_string_from_wasm(&ctx.memory, u32_at(m, 36)), "/home/alice");
    assert_eq!(read_string_from_wasm(&ctx.memory, u32_at(m, 40)), "/bin/sh");
    assert_eq!(&m[48..54], b"alice\0");
}

#[test]
fn passwd_entry_must_be_aligned() {
    let mut ctx = ctx_with(256);
    let blocks = PasswdBlocks { entry: 18, name: 48, passwd: 64, gecos: 80, dir: 96, shell: 128 };
    assert_eq!(
        getpwuid(&mut ctx, &sample_passwd(), &blocks),
        Err(MarshalError::Memory(MemoryError::Misaligned { offset: 18, align: 4 }))
    );
    assert_eq!(ctx.memory.as_slice(), &[0u8; 256][..]);
}

#[test]
fn passwd_entry_with_invalid_text_fails() {
    let mut ctx = ctx_with(256);
    let mut entry = sample_passwd();
    entry.gecos = vec![0xc3];
    let blocks = PasswdBlocks { entry: 16, name: 48, passwd: 64, gecos: 80, dir: 96, shell: 128 };
    assert_eq!(getpwuid(&mut ctx, &entry, &blocks), Err(MarshalError::InvalidText));
}

#[test]
fn memory_reads_and_writes() {
    let mut mem = GuestMemory::new(4);
    assert_eq!(mem.len(), 4);
    assert_eq!(mem.write_bytes(1, &[1, 2]), Ok(()));
    assert_eq!(mem.read_u8(2), Some(2));
    assert_eq!(mem.read_u8(4), None);
    assert_eq!(mem.read_bytes(0, 3), Ok(vec![0, 1, 2]));
    assert_eq!(mem.read_bytes(3, 2), Err(MemoryError::OutOfBounds { offset: 3, len: 2 }));
    assert_eq!(mem.write_bytes(3, &[1, 2]), Err(MemoryError::OutOfBounds { offset: 3, len: 2 }));
}

#[test]
fn terminated_string_detection() {
    let mem = GuestMemory::from_bytes(vec![b'a', 0, b'b']);
    assert!(has_cstr_at(&mem, 0));
    assert!(has_cstr_at(&mem, 1));
    assert!(!has_cstr_at(&mem, 2));
    assert!(!has_cstr_at(&mem, 3));
    assert!(!has_cstr_at(&mem, 9));
}
