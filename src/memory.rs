//! Guest linear memory: one owned byte arena addressed by 32-bit guest
//! offsets, with every access bounds-checked at this single point.
use vstd::prelude::*;

verus! {

/// Why an access to guest memory could not be made.
#[derive(Clone, Copy, Debug, PartialEq, Eq, Structural)]
pub enum MemoryError {
    /// The range `offset .. offset + len` does not lie inside the memory.
    OutOfBounds { offset: u32, len: u32 },
    /// The offset is not a multiple of the alignment that the access needs.
    Misaligned { offset: u32, align: u32 },
}

/// `m` with the bytes from `off` on replaced by `data`.
pub open spec fn splice(m: Seq<u8>, off: int, data: Seq<u8>) -> Seq<u8> {
    m.subrange(0, off) + data + m.subrange(off + data.len(), m.len() as int)
}

/// Whether `len` bytes starting at `off` lie inside a memory of `size` bytes.
pub open spec fn in_bounds(size: int, off: int, len: int) -> bool {
    0 <= off && 0 <= len && off + len <= size
}

/// The four bytes of `v`, least significant first.
pub open spec fn le_u32(v: u32) -> Seq<u8> {
    seq![
        (v & 0xff) as u8,
        ((v >> 8u32) & 0xff) as u8,
        ((v >> 16u32) & 0xff) as u8,
        ((v >> 24u32) & 0xff) as u8,
    ]
}

/// The eight bytes of `v`, least significant first.
pub open spec fn le_u64(v: u64) -> Seq<u8> {
    le_u32((v & 0xffff_ffff) as u32) + le_u32((v >> 32u64) as u32)
}

/// The 32-bit value whose little-endian bytes start at `off` in `m`.
pub open spec fn u32_at(m: Seq<u8>, off: int) -> u32 {
    (m[off] as u32) | ((m[off + 1] as u32) << 8u32) | ((m[off + 2] as u32) << 16u32)
        | ((m[off + 3] as u32) << 24u32)
}

/// Reading back the bytes of `le_u32(v)` gives `v`.
pub proof fn lemma_u32_round_trip(v: u32)
    ensures
        u32_at(le_u32(v), 0) == v,
{
    let b = le_u32(v);
    let (b0, b1, b2, b3) = (b[0], b[1], b[2], b[3]);
    assert(b0 == (v & 0xff) as u8);
    assert(b1 == ((v >> 8u32) & 0xff) as u8);
    assert(b2 == ((v >> 16u32) & 0xff) as u8);
    assert(b3 == ((v >> 24u32) & 0xff) as u8);
    assert(((b0 as u32) | ((b1 as u32) << 8u32) | ((b2 as u32) << 16u32) | ((b3 as u32)
        << 24u32)) == v) by (bit_vector)
        requires
            b0 == (v & 0xff) as u8,
            b1 == ((v >> 8u32) & 0xff) as u8,
            b2 == ((v >> 16u32) & 0xff) as u8,
            b3 == ((v >> 24u32) & 0xff) as u8,
    ;
}

/// Whether the ranges `a .. a + la` and `b .. b + lb` do not overlap.
pub open spec fn apart(a: int, la: int, b: int, lb: int) -> bool {
    a + la <= b || b + lb <= a
}

/// After a write, the written range holds the data and the size is kept.
pub proof fn lemma_splice_inside(m: Seq<u8>, off: int, data: Seq<u8>)
    requires
        in_bounds(m.len() as int, off, data.len() as int),
    ensures
        splice(m, off, data).len() == m.len(),
        splice(m, off, data).subrange(off, off + data.len()) == data,
{
    assert(splice(m, off, data).subrange(off, off + data.len()) =~= data);
}

/// A write leaves every range that it does not overlap as it was.
pub proof fn lemma_splice_outside(m: Seq<u8>, off: int, data: Seq<u8>, a: int, len: int)
    requires
        in_bounds(m.len() as int, off, data.len() as int),
        in_bounds(m.len() as int, a, len),
        apart(off, data.len() as int, a, len),
    ensures
        splice(m, off, data).len() == m.len(),
        splice(m, off, data).subrange(a, a + len) == m.subrange(a, a + len),
{
    assert(splice(m, off, data).subrange(a, a + len) =~= m.subrange(a, a + len));
}

/// Four bytes that are the encoding of `v` read back as `v`.
pub proof fn lemma_u32_at_encoded(m: Seq<u8>, off: int, v: u32)
    requires
        0 <= off,
        off + 4 <= m.len(),
        m.subrange(off, off + 4) == le_u32(v),
    ensures
        u32_at(m, off) == v,
{
    lemma_u32_round_trip(v);
    let e = le_u32(v);
    assert(m[off] == e[0] && m[off + 1] == e[1] && m[off + 2] == e[2] && m[off + 3] == e[3]) by {
        assert(m.subrange(off, off + 4)[0] == m[off]);
        assert(m.subrange(off, off + 4)[1] == m[off + 1]);
        assert(m.subrange(off, off + 4)[2] == m[off + 2]);
        assert(m.subrange(off, off + 4)[3] == m[off + 3]);
    }
}

/// Little-endian bytes of a 32-bit value.
pub fn u32_le_bytes(v: u32) -> (r: Vec<u8>)
    ensures
        r@ == le_u32(v),
{
    let r = vec![
        (v & 0xff) as u8,
        ((v >> 8u32) & 0xff) as u8,
        ((v >> 16u32) & 0xff) as u8,
        ((v >> 24u32) & 0xff) as u8,
    ];
    assert(r@ =~= le_u32(v));
    r
}

/// Little-endian bytes of a 64-bit value.
pub fn u64_le_bytes(v: u64) -> (r: Vec<u8>)
    ensures
        r@ == le_u64(v),
{
    let mut r = u32_le_bytes((v & 0xffff_ffff) as u32);
    let mut hi = u32_le_bytes((v >> 32u64) as u32);
    r.append(&mut hi);
    r
}

/// Whether two byte strings are equal.
pub fn bytes_eq(a: &[u8], b: &[u8]) -> (r: bool)
    ensures
        r == (a@ == b@),
{
    if a.len() != b.len() {
        return false;
    }
    let mut i: usize = 0;
    while i < a.len()
        invariant
            a@.len() == b@.len(),
            i <= a@.len(),
            forall|k: int| 0 <= k < i ==> a@[k] == b@[k],
        decreases a@.len() - i,
    {
        if a[i] != b[i] {
            return false;
        }
        i = i + 1;
    }
    assert(a@ =~= b@);
    true
}

/// A copy of a byte string.
pub fn copy_bytes(a: &[u8]) -> (r: Vec<u8>)
    ensures
        r@ == a@,
{
    let mut r: Vec<u8> = Vec::new();
    let mut i: usize = 0;
    while i < a.len()
        invariant
            i <= a@.len(),
            r@ == a@.subrange(0, i as int),
        decreases a@.len() - i,
    {
        r.push(a[i]);
        i = i + 1;
        assert(r@ =~= a@.subrange(0, i as int));
    }
    assert(r@ =~= a@);
    r
}

/// The linear memory of one guest instance.
pub struct GuestMemory {
    bytes: Vec<u8>,
}

impl View for GuestMemory {
    type V = Seq<u8>;

    closed spec fn view(&self) -> Seq<u8> {
        self.bytes@
    }
}

impl GuestMemory {
    /// A memory of `size` zero bytes.
    pub fn new(size: usize) -> (r: GuestMemory)
        ensures
            r@ == Seq::new(size as nat, |_i: int| 0u8),
    {
        let mut bytes: Vec<u8> = Vec::new();
        let mut i: usize = 0;
        while i < size
            invariant
                i <= size,
                bytes@ == Seq::new(i as nat, |_i: int| 0u8),
            decreases size - i,
        {
            bytes.push(0u8);
            i = i + 1;
            assert(bytes@ =~= Seq::new(i as nat, |_i: int| 0u8));
        }
        GuestMemory { bytes }
    }

    /// A memory that holds exactly `bytes`.
    pub fn from_bytes(bytes: Vec<u8>) -> (r: GuestMemory)
        ensures
            r@ == bytes@,
    {
        GuestMemory { bytes }
    }

    /// The current size of the memory in bytes.
    pub fn len(&self) -> (r: usize)
        ensures
            r == self@.len(),
    {
        self.bytes.len()
    }

    /// The whole memory as a byte slice.
    pub fn as_slice(&self) -> (r: &[u8])
        ensures
            r@ == self@,
    {
        self.bytes.as_slice()
    }

    /// The byte at `offset`, if it lies inside the memory.
    pub fn read_u8(&self, offset: u32) -> (r: Option<u8>)
        ensures
            r == (if (offset as int) < self@.len() {
                Some(self@[offset as int])
            } else {
                None::<u8>
            }),
    {
        if (offset as usize) < self.bytes.len() {
            Some(self.bytes[offset as usize])
        } else {
            None
        }
    }

    /// The `len` bytes from `offset` on, if they lie inside the memory.
    pub fn read_bytes(&self, offset: u32, len: u32) -> (r: Result<Vec<u8>, MemoryError>)
        ensures
            in_bounds(self@.len() as int, offset as int, len as int) ==> r == Ok::<
                Vec<u8>,
                MemoryError,
            >(r->Ok_0) && r->Ok_0@ == self@.subrange(offset as int, offset + len),
            !in_bounds(self@.len() as int, offset as int, len as int) ==> r == Err::<
                Vec<u8>,
                MemoryError,
            >(MemoryError::OutOfBounds { offset, len }),
    {
        let size = self.bytes.len();
        if offset as usize > size || len as usize > size - offset as usize {
            return Err(MemoryError::OutOfBounds { offset, len });
        }
        let start = offset as usize;
        let end = start + len as usize;
        let mut out: Vec<u8> = Vec::new();
        let mut i: usize = start;
        while i < end
            invariant
                start <= i <= end,
                end <= size,
                size == self@.len(),
                out@ == self@.subrange(start as int, i as int),
            decreases end - i,
        {
            out.push(self.bytes[i]);
            i = i + 1;
            assert(out@ =~= self@.subrange(start as int, i as int));
        }
        Ok(out)
    }

    /// Copies `data` into the memory at `offset`. Nothing is written unless
    /// the whole range fits.
    pub fn write_bytes(&mut self, offset: u32, data: &[u8]) -> (r: Result<(), MemoryError>)
        ensures
            r is Ok <==> in_bounds(old(self)@.len() as int, offset as int, data@.len() as int),
            r is Ok ==> final(self)@ == splice(old(self)@, offset as int, data@),
            r is Err ==> final(self)@ == old(self)@ && r == Err::<(), MemoryError>(
                MemoryError::OutOfBounds { offset, len: data@.len() as u32 },
            ),
    {
        let size = self.bytes.len();
        if offset as usize > size || data.len() > size - offset as usize {
            return Err(MemoryError::OutOfBounds { offset, len: data.len() as u32 });
        }
        let start = offset as usize;
        let n = data.len();
        let mut i: usize = 0;
        while i < n
            invariant
                start + n <= size,
                i <= n,
                self.bytes@.len() == size,
                size == old(self)@.len(),
                n == data@.len(),
                forall|k: int|
                    0 <= k < size ==> #[trigger] self.bytes@[k] == if start <= k < start + i {
                        data@[k - start]
                    } else {
                        old(self)@[k]
                    },
            decreases n - i,
        {
            self.bytes.set(start + i, data[i]);
            i = i + 1;
        }
        assert(self@ =~= splice(old(self)@, offset as int, data@));
        Ok(())
    }
}

} // verus!
