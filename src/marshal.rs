//! Copying strings, buffers and C structs from the host into guest memory.
//!
//! Guest blocks come from the guest's own allocator exports, which run guest
//! code: the caller makes that request (its size is given here) and hands
//! the offset that came back to these functions.
use vstd::prelude::*;
use crate::context::Ctx;
use crate::layout::{
    guest_passwd_bytes, guest_stat_bytes, guest_stat_of, GuestPasswd, GuestStat, HostPasswd,
    HostStat, GUEST_PASSWD_ALIGN,
};
use crate::memory::{
    apart, copy_bytes, in_bounds, le_u32, lemma_splice_inside, lemma_splice_outside,
    lemma_u32_at_encoded, splice, u32_at, GuestMemory, MemoryError,
};

verus! {

/// Why a value could not be copied into guest memory.
#[derive(Clone, Copy, Debug, PartialEq, Eq, Structural)]
pub enum MarshalError {
    /// The host string is not valid UTF-8 text.
    InvalidText,
    /// The guest memory access failed.
    Memory(MemoryError),
}

/// Whether `b` is valid UTF-8.
pub uninterp spec fn is_utf8(b: Seq<u8>) -> bool;

/// The text that lossy UTF-8 decoding makes of `b`.
pub uninterp spec fn utf8_lossy(b: Seq<u8>) -> Seq<char>;

/// Relies on `std::str::from_utf8`: whether the bytes are valid UTF-8
/// depends on the bytes alone.
#[verifier::external_body]
pub(crate) fn check_utf8(b: &[u8]) -> (r: bool)
    ensures
        r == is_utf8(b@),
{
    std::str::from_utf8(b).is_ok()
}

/// Relies on `String::from_utf8_lossy`: the decoded text depends on the
/// bytes alone, and no bytes decode to no text.
#[verifier::external_body]
fn decode_lossy(b: &[u8]) -> (r: String)
    ensures
        r@ == utf8_lossy(b@),
        b@.len() == 0 ==> r@.len() == 0,
{
    String::from_utf8_lossy(b).into_owned()
}

/// Whether no byte of `b` is zero.
pub open spec fn no_zero(b: Seq<u8>) -> bool {
    forall|k: int| 0 <= k < b.len() ==> #[trigger] b[k] != 0
}

/// Whether `e` ends the zero-terminated string that starts at `off` in `m`:
/// the bytes between are not zero, and `e` is a zero byte or the end.
pub open spec fn cstr_end(m: Seq<u8>, off: int, e: int) -> bool {
    off <= e <= m.len() && (forall|k: int| off <= k < e ==> #[trigger] m[k] != 0) && (e
        == m.len() || m[e] == 0)
}

/// Size of the guest block that holds `text` and its terminating zero.
pub fn cstr_alloc_size(text: &[u8]) -> (r: Option<u32>)
    ensures
        text@.len() + 1 <= u32::MAX ==> r == Some((text@.len() + 1) as u32),
        text@.len() + 1 > u32::MAX ==> r is None,
{
    if text.len() < u32::MAX as usize {
        Some(text.len() as u32 + 1)
    } else {
        None
    }
}

/// Copies the first `max` bytes of `string` into guest memory at `buf`,
/// and hands `buf` back.
pub fn write_to_buf(ctx: &mut Ctx, string: &[u8], buf: u32, max: u32) -> (r: Result<
    u32,
    MemoryError,
>)
    requires
        max <= string@.len(),
    ensures
        final(ctx).mapped_dirs@ == old(ctx).mapped_dirs@,
        in_bounds(old(ctx).memory@.len() as int, buf as int, max as int) ==> r == Ok::<
            u32,
            MemoryError,
        >(buf) && final(ctx).memory@ == splice(
            old(ctx).memory@,
            buf as int,
            string@.subrange(0, max as int),
        ),
        !in_bounds(old(ctx).memory@.len() as int, buf as int, max as int) ==> r == Err::<
            u32,
            MemoryError,
        >(MemoryError::OutOfBounds { offset: buf, len: max })
            && final(ctx).memory@ == old(ctx).memory@,
{
    let part = vstd::slice::slice_subrange(string, 0, max as usize);
    match ctx.memory.write_bytes(buf, part) {
        Ok(()) => Ok(buf),
        Err(e) => Err(e),
    }
}

/// Writes `text` and a terminating zero at `offset`.
fn write_cstr(memory: &mut GuestMemory, text: &[u8], offset: u32) -> (r: Result<(), MemoryError>)
    ensures
        r is Ok <==> in_bounds(old(memory)@.len() as int, offset as int, text@.len() + 1 as int),
        r is Ok ==> final(memory)@ == splice(old(memory)@, offset as int, text@.push(0)),
        r is Err ==> final(memory)@ == old(memory)@ && r == Err::<(), MemoryError>(
            MemoryError::OutOfBounds { offset, len: (text@.len() + 1) as u32 },
        ),
{
    let mut bytes = copy_bytes(text);
    bytes.push(0u8);
    memory.write_bytes(offset, bytes.as_slice())
}

/// Copies the host string `cstr` (its bytes, without the terminating zero)
/// into the guest block at `space_offset`, which the guest's heap allocator
/// returned for `cstr_alloc_size(cstr)` bytes, and terminates it there.
/// Hands back `space_offset`. Text that is not valid UTF-8 is refused.
pub fn copy_cstr_into_wasm(ctx: &mut Ctx, cstr: &[u8], space_offset: u32) -> (r: Result<
    u32,
    MarshalError,
>)
    requires
        no_zero(cstr@),
    ensures
        final(ctx).mapped_dirs@ == old(ctx).mapped_dirs@,
        !is_utf8(cstr@) ==> r == Err::<u32, MarshalError>(MarshalError::InvalidText),
        r is Ok <==> is_utf8(cstr@) && in_bounds(
            old(ctx).memory@.len() as int,
            space_offset as int,
            cstr@.len() + 1 as int,
        ),
        r is Ok ==> r == Ok::<u32, MarshalError>(space_offset) && final(ctx).memory@ == splice(
            old(ctx).memory@,
            space_offset as int,
            cstr@.push(0),
        ),
        r is Err ==> final(ctx).memory@ == old(ctx).memory@,
{
    if !check_utf8(cstr) {
        return Err(MarshalError::InvalidText);
    }
    match write_cstr(&mut ctx.memory, cstr, space_offset) {
        Ok(()) => Ok(space_offset),
        Err(e) => Err(MarshalError::Memory(e)),
    }
}

/// Size of the request to the guest's stack allocator for `count` elements
/// of `elem_size` bytes each; `None` when it does not fit in 32 bits.
pub fn allocate_on_stack(count: u32, elem_size: u32) -> (r: Option<u32>)
    ensures
        count * elem_size <= u32::MAX ==> r == Some((count * elem_size) as u32),
        count * elem_size > u32::MAX ==> r is None,
{
    proof {
        assert((count as int) * (elem_size as int) <= 0xffff_ffff * 0xffff_ffff) by (nonlinear_arith)
            requires
                count <= 0xffff_ffff,
                elem_size <= 0xffff_ffff,
        ;
    }
    let total: u64 = count as u64 * elem_size as u64;
    if total > u32::MAX as u64 {
        None
    } else {
        Some(total as u32)
    }
}

/// Writes `s` and a terminating zero into the stack block at `offset`,
/// which the guest's stack allocator returned for `s.len() + 1` bytes, and
/// hands back `offset`.
pub fn allocate_cstr_on_stack(ctx: &mut Ctx, s: &[u8], offset: u32) -> (r: Result<
    u32,
    MemoryError,
>)
    ensures
        final(ctx).mapped_dirs@ == old(ctx).mapped_dirs@,
        r is Ok <==> in_bounds(old(ctx).memory@.len() as int, offset as int, s@.len() + 1 as int),
        r is Ok ==> r == Ok::<u32, MemoryError>(offset) && final(ctx).memory@ == splice(
            old(ctx).memory@,
            offset as int,
            s@.push(0),
        ),
        r is Err ==> final(ctx).memory@ == old(ctx).memory@,
{
    match write_cstr(&mut ctx.memory, s, offset) {
        Ok(()) => Ok(offset),
        Err(e) => Err(e),
    }
}

/// Number of entries of a host array of string pointers before its null
/// terminator (all of them if it has none).
pub fn terminated_array_len(cstrs: &[u64]) -> (r: usize)
    ensures
        r <= cstrs@.len(),
        forall|k: int| 0 <= k < r ==> #[trigger] cstrs@[k] != 0,
        r < cstrs@.len() ==> cstrs@[r as int] == 0,
{
    let mut i: usize = 0;
    while i < cstrs.len() && cstrs[i] != 0
        invariant
            i <= cstrs@.len(),
            forall|k: int| 0 <= k < i ==> #[trigger] cstrs@[k] != 0,
        decreases cstrs@.len() - i,
    {
        i = i + 1;
    }
    i
}

/// Copying a null-terminated array of host strings into the guest is not
/// offered: the array is counted and no guest array is made, so the guest
/// receives the null offset.
pub fn copy_terminated_array_of_cstrs(cstrs: &[u64]) -> (r: u32)
    ensures
        r == 0,
{
    let _total = terminated_array_len(cstrs);
    0
}

/// Writes the guest stat record for the host record `stat` into the block
/// at `buf`, which the caller has allocated.
pub fn copy_stat_into_wasm(ctx: &mut Ctx, buf: u32, stat: &HostStat) -> (r: Result<
    (),
    MemoryError,
>)
    ensures
        final(ctx).mapped_dirs@ == old(ctx).mapped_dirs@,
        r is Ok <==> in_bounds(old(ctx).memory@.len() as int, buf as int, 76int),
        r is Ok ==> final(ctx).memory@ == splice(
            old(ctx).memory@,
            buf as int,
            guest_stat_bytes(guest_stat_of(*stat)),
        ),
        r is Err ==> final(ctx).memory@ == old(ctx).memory@,
{
    let guest = GuestStat::from_host(stat);
    let bytes = guest.to_bytes();
    ctx.memory.write_bytes(buf, bytes.as_slice())
}

/// Index of the first zero byte at or after `offset`, or the memory's size.
fn cstr_end_index(memory: &GuestMemory, offset: u32) -> (e: u32)
    requires
        offset <= memory@.len(),
        memory@.len() <= u32::MAX,
    ensures
        cstr_end(memory@, offset as int, e as int),
{
    let mut e: u32 = offset;
    let size = memory.len();
    while (e as usize) < size && memory.read_u8(e) != Some(0u8)
        invariant
            offset <= e <= size,
            size == memory@.len(),
            size <= u32::MAX,
            forall|k: int| offset <= k < e ==> #[trigger] memory@[k] != 0,
        decreases size - e,
    {
        e = e + 1;
    }
    e
}

/// Whether a zero-terminated string starts at `offset`: a zero byte lies at
/// or after it inside the memory.
pub fn has_cstr_at(memory: &GuestMemory, offset: u32) -> (r: bool)
    requires
        memory@.len() <= u32::MAX,
    ensures
        r == (offset <= memory@.len() && exists|e: int|
            cstr_end(memory@, offset as int, e) && e < memory@.len()),
{
    if offset as usize > memory.len() {
        return false;
    }
    let e = cstr_end_index(memory, offset);
    proof {
        if exists|e2: int| cstr_end(memory@, offset as int, e2) && e2 < memory@.len() {
            let e2 = choose|e2: int| cstr_end(memory@, offset as int, e2) && e2 < memory@.len();
            if e2 < e {
                assert(memory@[e2] != 0);
            } else if e < e2 {
                assert(memory@[e as int] != 0);
            }
        }
    }
    (e as usize) < memory.len()
}

/// The zero-terminated string at `offset` in guest memory (up to the end of
/// memory if no zero follows), decoded as UTF-8 with invalid sequences
/// replaced.
pub fn read_string_from_wasm(memory: &GuestMemory, offset: u32) -> (r: String)
    requires
        offset <= memory@.len(),
        memory@.len() <= u32::MAX,
    ensures
        exists|e: int|
            cstr_end(memory@, offset as int, e) && r@ == utf8_lossy(
                #[trigger] memory@.subrange(offset as int, e),
            ),
{
    let e = cstr_end_index(memory, offset);
    let bytes = match memory.read_bytes(offset, e - offset) {
        Ok(b) => b,
        Err(_) => Vec::new(),
    };
    let r = decode_lossy(bytes.as_slice());
    assert(cstr_end(memory@, offset as int, e as int));
    r
}

/// The guest blocks that the guest's heap allocator returned for one
/// password entry: the entry itself (`GUEST_PASSWD_SIZE` bytes) and each of
/// its strings (`cstr_alloc_size` of the string).
#[derive(Clone, Copy, Debug, PartialEq, Eq, Structural)]
pub struct PasswdBlocks {
    pub entry: u32,
    pub name: u32,
    pub passwd: u32,
    pub gecos: u32,
    pub dir: u32,
    pub shell: u32,
}

/// The guest password entry for `h` whose strings stand in the blocks `b`.
pub open spec fn guest_passwd_of(h: HostPasswd, b: PasswdBlocks) -> GuestPasswd {
    GuestPasswd {
        pw_name: b.name,
        pw_passwd: b.passwd,
        pw_uid: h.uid,
        pw_gid: h.gid,
        pw_gecos: b.gecos,
        pw_dir: b.dir,
        pw_shell: b.shell,
    }
}

/// Guest memory `m` after `h` has been marshaled into the blocks `b`.
pub open spec fn passwd_written(m: Seq<u8>, h: HostPasswd, b: PasswdBlocks) -> Seq<u8> {
    let m1 = splice(m, b.name as int, h.name@.push(0));
    let m2 = splice(m1, b.passwd as int, h.passwd@.push(0));
    let m3 = splice(m2, b.gecos as int, h.gecos@.push(0));
    let m4 = splice(m3, b.dir as int, h.dir@.push(0));
    let m5 = splice(m4, b.shell as int, h.shell@.push(0));
    splice(m5, b.entry as int, guest_passwd_bytes(guest_passwd_of(h, b)))
}

/// Whether the text fields of `h` are valid UTF-8 without zero bytes.
pub open spec fn passwd_text_ok(h: HostPasswd) -> bool {
    is_utf8(h.name@) && is_utf8(h.passwd@) && is_utf8(h.gecos@) && is_utf8(h.dir@) && is_utf8(
        h.shell@,
    )
}

/// Whether every block of `b` fits its content inside a memory of `size`
/// bytes.
pub open spec fn passwd_blocks_fit(size: int, h: HostPasswd, b: PasswdBlocks) -> bool {
    in_bounds(size, b.entry as int, 28) && in_bounds(size, b.name as int, h.name@.len() + 1 as int)
        && in_bounds(size, b.passwd as int, h.passwd@.len() + 1 as int) && in_bounds(
        size,
        b.gecos as int,
        h.gecos@.len() + 1 as int,
    ) && in_bounds(size, b.dir as int, h.dir@.len() + 1 as int) && in_bounds(
        size,
        b.shell as int,
        h.shell@.len() + 1 as int,
    )
}

/// Marshals the host password entry `entry` into guest memory: each string
/// into its block, then the guest entry, with the strings' offsets and the
/// ids verbatim, into `blocks.entry`, which must be aligned. Hands back the
/// entry's offset. A failure part-way leaves what was written.
pub fn getpwuid(ctx: &mut Ctx, entry: &HostPasswd, blocks: &PasswdBlocks) -> (r: Result<
    u32,
    MarshalError,
>)
    requires
        no_zero(entry.name@),
        no_zero(entry.passwd@),
        no_zero(entry.gecos@),
        no_zero(entry.dir@),
        no_zero(entry.shell@),
    ensures
        final(ctx).mapped_dirs@ == old(ctx).mapped_dirs@,
        blocks.entry % 4 != 0 ==> r == Err::<u32, MarshalError>(
            MarshalError::Memory(MemoryError::Misaligned { offset: blocks.entry, align: 4 }),
        ) && final(ctx).memory@ == old(ctx).memory@,
        r is Ok <==> blocks.entry % 4 == 0 && passwd_text_ok(*entry) && passwd_blocks_fit(
            old(ctx).memory@.len() as int,
            *entry,
            *blocks,
        ),
        r is Ok ==> r == Ok::<u32, MarshalError>(blocks.entry) && final(ctx).memory@
            == passwd_written(old(ctx).memory@, *entry, *blocks),
{
    if blocks.entry % GUEST_PASSWD_ALIGN != 0 {
        return Err(
            MarshalError::Memory(MemoryError::Misaligned { offset: blocks.entry, align: 4 }),
        );
    }
    let pw_name = copy_cstr_into_wasm(ctx, entry.name.as_slice(), blocks.name)?;
    let pw_passwd = copy_cstr_into_wasm(ctx, entry.passwd.as_slice(), blocks.passwd)?;
    let pw_gecos = copy_cstr_into_wasm(ctx, entry.gecos.as_slice(), blocks.gecos)?;
    let pw_dir = copy_cstr_into_wasm(ctx, entry.dir.as_slice(), blocks.dir)?;
    let pw_shell = copy_cstr_into_wasm(ctx, entry.shell.as_slice(), blocks.shell)?;
    let guest = GuestPasswd {
        pw_name,
        pw_passwd,
        pw_uid: entry.uid,
        pw_gid: entry.gid,
        pw_gecos,
        pw_dir,
        pw_shell,
    };
    let bytes = guest.to_bytes();
    match ctx.memory.write_bytes(blocks.entry, bytes.as_slice()) {
        Ok(()) => Ok(blocks.entry),
        Err(e) => Err(MarshalError::Memory(e)),
    }
}

/// A host string without zero bytes, copied into a block that fits it,
/// reads back from the block as its bytes and one zero byte, and as a
/// zero-terminated string it is exactly those bytes.
pub proof fn lemma_cstr_round_trip(m: Seq<u8>, off: int, text: Seq<u8>)
    requires
        no_zero(text),
        in_bounds(m.len() as int, off, text.len() + 1 as int),
    ensures
        splice(m, off, text.push(0)).subrange(off, off + text.len() + 1) == text.push(0),
        cstr_end(splice(m, off, text.push(0)), off, off + text.len()),
        splice(m, off, text.push(0)).subrange(off, off + text.len()) == text,
{
    let f = splice(m, off, text.push(0));
    lemma_splice_inside(m, off, text.push(0));
    assert forall|k: int| off <= k < off + text.len() implies #[trigger] f[k] != 0 by {
        assert(f[k] == f.subrange(off, off + text.len() + 1)[k - off]);
        assert(text.push(0)[k - off] == text[k - off]);
    }
    assert(f[off + text.len()] == f.subrange(off, off + text.len() + 1)[text.len() as int]);
    assert(f.subrange(off, off + text.len()) =~= text) by {
        assert forall|k: int| 0 <= k < text.len() implies f.subrange(off, off + text.len())[k]
            == text[k] by {
            assert(f[off + k] == f.subrange(off, off + text.len() + 1)[k]);
        }
    }
}

/// The stat record written for any host record reports a block size of
/// 4096, at byte 40 of the record.
pub proof fn lemma_stat_block_size(m: Seq<u8>, buf: int, stat: HostStat)
    requires
        in_bounds(m.len() as int, buf, 76),
    ensures
        u32_at(splice(m, buf, guest_stat_bytes(guest_stat_of(stat))), buf + 40) == 4096,
{
    let g = guest_stat_of(stat);
    let bytes = guest_stat_bytes(g);
    let f = splice(m, buf, bytes);
    lemma_splice_inside(m, buf, bytes);
    assert(bytes.subrange(40, 44) =~= le_u32(4096));
    assert(f.subrange(buf + 40, buf + 44) =~= bytes.subrange(40, 44)) by {
        assert forall|k: int| 0 <= k < 4 implies f.subrange(buf + 40, buf + 44)[k]
            == bytes.subrange(40, 44)[k] by {
            assert(f[buf + 40 + k] == f.subrange(buf, buf + 76)[40 + k]);
        }
    }
    lemma_u32_at_encoded(f, buf + 40, 4096);
}

/// The guest ranges that marshaling `h` into the blocks `b` writes: the
/// entry, then each string with its terminating zero.
pub open spec fn passwd_ranges(h: HostPasswd, b: PasswdBlocks) -> Seq<(int, int)> {
    seq![
        (b.entry as int, 28int),
        (b.name as int, h.name@.len() + 1 as int),
        (b.passwd as int, h.passwd@.len() + 1 as int),
        (b.gecos as int, h.gecos@.len() + 1 as int),
        (b.dir as int, h.dir@.len() + 1 as int),
        (b.shell as int, h.shell@.len() + 1 as int),
    ]
}

/// Whether no two of the blocks overlap, as blocks that an allocator hands
/// out do not.
pub open spec fn passwd_blocks_apart(h: HostPasswd, b: PasswdBlocks) -> bool {
    let r = passwd_ranges(h, b);
    forall|i: int, j: int|
        0 <= i < j < 6 ==> #[trigger] apart(r[i].0, r[i].1, r[j].0, r[j].1)
}

proof fn lemma_entry_field(m: Seq<u8>, entry: int, g: GuestPasswd, at: int, v: u32)
    requires
        in_bounds(m.len() as int, entry, 28),
        0 <= at <= 24,
        guest_passwd_bytes(g).subrange(at, at + 4) == le_u32(v),
    ensures
        u32_at(splice(m, entry, guest_passwd_bytes(g)), entry + at) == v,
{
    let bytes = guest_passwd_bytes(g);
    let f = splice(m, entry, bytes);
    lemma_splice_inside(m, entry, bytes);
    assert(f.subrange(entry + at, entry + at + 4) =~= bytes.subrange(at, at + 4)) by {
        assert forall|k: int| 0 <= k < 4 implies #[trigger] f.subrange(entry + at, entry + at + 4)[k]
            == bytes.subrange(at, at + 4)[k] by {
            assert(f[entry + at + k] == f.subrange(entry, entry + 28)[at + k]);
        }
    }
    lemma_u32_at_encoded(f, entry + at, v);
}

/// A host password entry marshaled into disjoint blocks that fit reads back
/// from the guest entry: the uid and gid verbatim, and each string field the
/// offset of a block that holds the host text and a terminating zero.
pub proof fn lemma_passwd_round_trip(m: Seq<u8>, h: HostPasswd, b: PasswdBlocks)
    requires
        passwd_blocks_fit(m.len() as int, h, b),
        passwd_blocks_apart(h, b),
    ensures
        ({
            let f = passwd_written(m, h, b);
            &&& u32_at(f, b.entry + 8) == h.uid
            &&& u32_at(f, b.entry + 12) == h.gid
            &&& u32_at(f, b.entry as int) == b.name
            &&& u32_at(f, b.entry + 4) == b.passwd
            &&& u32_at(f, b.entry + 16) == b.gecos
            &&& u32_at(f, b.entry + 20) == b.dir
            &&& u32_at(f, b.entry + 24) == b.shell
            &&& f.subrange(b.name as int, b.name + h.name@.len() + 1) == h.name@.push(0)
            &&& f.subrange(b.passwd as int, b.passwd + h.passwd@.len() + 1) == h.passwd@.push(0)
            &&& f.subrange(b.gecos as int, b.gecos + h.gecos@.len() + 1) == h.gecos@.push(0)
            &&& f.subrange(b.dir as int, b.dir + h.dir@.len() + 1) == h.dir@.push(0)
            &&& f.subrange(b.shell as int, b.shell + h.shell@.len() + 1) == h.shell@.push(0)
        }),
{
    let r = passwd_ranges(h, b);
    let g = guest_passwd_of(h, b);
    let bytes = guest_passwd_bytes(g);
    let t = seq![h.name@.push(0), h.passwd@.push(0), h.gecos@.push(0), h.dir@.push(0), h.shell@.push(0)];
    let m1 = splice(m, b.name as int, t[0]);
    let m2 = splice(m1, b.passwd as int, t[1]);
    let m3 = splice(m2, b.gecos as int, t[2]);
    let m4 = splice(m3, b.dir as int, t[3]);
    let m5 = splice(m4, b.shell as int, t[4]);
    let f = splice(m5, b.entry as int, bytes);
    assert(f == passwd_written(m, h, b));
    assert(forall|i: int| 0 <= i < 5 ==> #[trigger] t[i].len() == r[i + 1].1);
    assert(apart(r[0].0, r[0].1, r[1].0, r[1].1));
    assert(apart(r[0].0, r[0].1, r[2].0, r[2].1));
    assert(apart(r[0].0, r[0].1, r[3].0, r[3].1));
    assert(apart(r[0].0, r[0].1, r[4].0, r[4].1));
    assert(apart(r[0].0, r[0].1, r[5].0, r[5].1));
    assert(apart(r[1].0, r[1].1, r[2].0, r[2].1));
    assert(apart(r[1].0, r[1].1, r[3].0, r[3].1));
    assert(apart(r[1].0, r[1].1, r[4].0, r[4].1));
    assert(apart(r[1].0, r[1].1, r[5].0, r[5].1));
    assert(apart(r[2].0, r[2].1, r[3].0, r[3].1));
    assert(apart(r[2].0, r[2].1, r[4].0, r[4].1));
    assert(apart(r[2].0, r[2].1, r[5].0, r[5].1));
    assert(apart(r[3].0, r[3].1, r[4].0, r[4].1));
    assert(apart(r[3].0, r[3].1, r[5].0, r[5].1));
    assert(apart(r[4].0, r[4].1, r[5].0, r[5].1));
    let n = m.len() as int;
    // name
    lemma_splice_inside(m, b.name as int, t[0]);
    lemma_splice_outside(m1, b.passwd as int, t[1], b.name as int, r[1].1);
    lemma_splice_outside(m2, b.gecos as int, t[2], b.name as int, r[1].1);
    lemma_splice_outside(m3, b.dir as int, t[3], b.name as int, r[1].1);
    lemma_splice_outside(m4, b.shell as int, t[4], b.name as int, r[1].1);
    lemma_splice_outside(m5, b.entry as int, bytes, b.name as int, r[1].1);
    // passwd
    lemma_splice_inside(m1, b.passwd as int, t[1]);
    lemma_splice_outside(m2, b.gecos as int, t[2], b.passwd as int, r[2].1);
    lemma_splice_outside(m3, b.dir as int, t[3], b.passwd as int, r[2].1);
    lemma_splice_outside(m4, b.shell as int, t[4], b.passwd as int, r[2].1);
    lemma_splice_outside(m5, b.entry as int, bytes, b.passwd as int, r[2].1);
    // gecos
    lemma_splice_inside(m2, b.gecos as int, t[2]);
    lemma_splice_outside(m3, b.dir as int, t[3], b.gecos as int, r[3].1);
    lemma_splice_outside(m4, b.shell as int, t[4], b.gecos as int, r[3].1);
    lemma_splice_outside(m5, b.entry as int, bytes, b.gecos as int, r[3].1);
    // dir
    lemma_splice_inside(m3, b.dir as int, t[3]);
    lemma_splice_outside(m4, b.shell as int, t[4], b.dir as int, r[4].1);
    lemma_splice_outside(m5, b.entry as int, bytes, b.dir as int, r[4].1);
    // shell
    lemma_splice_inside(m4, b.shell as int, t[4]);
    lemma_splice_outside(m5, b.entry as int, bytes, b.shell as int, r[5].1);
    // the entry
    assert(m5.len() == n);
    assert(bytes.subrange(0, 4) =~= le_u32(g.pw_name));
    assert(bytes.subrange(4, 8) =~= le_u32(g.pw_passwd));
    assert(bytes.subrange(8, 12) =~= le_u32(g.pw_uid));
    assert(bytes.subrange(12, 16) =~= le_u32(g.pw_gid));
    assert(bytes.subrange(16, 20) =~= le_u32(g.pw_gecos));
    assert(bytes.subrange(20, 24) =~= le_u32(g.pw_dir));
    assert(bytes.subrange(24, 28) =~= le_u32(g.pw_shell));
    lemma_entry_field(m5, b.entry as int, g, 0, g.pw_name);
    lemma_entry_field(m5, b.entry as int, g, 4, g.pw_passwd);
    lemma_entry_field(m5, b.entry as int, g, 8, g.pw_uid);
    lemma_entry_field(m5, b.entry as int, g, 12, g.pw_gid);
    lemma_entry_field(m5, b.entry as int, g, 16, g.pw_gecos);
    lemma_entry_field(m5, b.entry as int, g, 20, g.pw_dir);
    lemma_entry_field(m5, b.entry as int, g, 24, g.pw_shell);
}

} // verus!
