//! A model of the guest address space: a flat byte array indexed by 32-bit
//! guest addresses, with the little-endian word and C-string reads that the
//! packed class records need, and the bump allocation used for host-created
//! class objects.

use vstd::prelude::*;

verus! {

/// The little-endian 32-bit word stored at byte offset `a`.
pub open spec fn word_at(m: Seq<u8>, a: int) -> u32
    recommends
        0 <= a,
        a + 4 <= m.len(),
{
    (m[a] + m[a + 1] * 0x100 + m[a + 2] * 0x1_0000 + m[a + 3] * 0x100_0000) as u32
}

/// Whether the C string starting at `a` has a NUL terminator inside memory.
pub open spec fn cstr_terminated(m: Seq<u8>, a: int) -> bool {
    &&& 0 <= a
    &&& exists|i: int| a <= i < m.len() && m[i] == 0
}

/// The bytes of the C string starting at `a`, up to (excluding) the first NUL.
pub open spec fn cstr_at(m: Seq<u8>, a: int) -> Seq<u8>
    decreases m.len() - a,
{
    if a < 0 || a >= m.len() || m[a] == 0 {
        Seq::empty()
    } else {
        seq![m[a]] + cstr_at(m, a + 1)
    }
}

/// If every byte in `[a, j)` is non-NUL and `m[j] == 0`, the C string at `a`
/// is exactly `m[a..j]`.
pub proof fn lemma_cstr_at_range(m: Seq<u8>, a: int, j: int)
    requires
        0 <= a <= j < m.len(),
        forall|k: int| a <= k < j ==> m[k] != 0,
        m[j] == 0,
    ensures
        cstr_at(m, a) == m.subrange(a, j),
    decreases j - a,
{
    if a == j {
        assert(cstr_at(m, a) =~= m.subrange(a, j));
    } else {
        lemma_cstr_at_range(m, a + 1, j);
        assert(cstr_at(m, a) =~= m.subrange(a, j));
    }
}

/// A word read is unaffected by changes past the end of the region it reads,
/// and by growth of the memory.
pub proof fn lemma_word_at_frame(m1: Seq<u8>, m2: Seq<u8>, a: int)
    requires
        0 <= a,
        a + 4 <= m1.len(),
        m1.len() <= m2.len(),
        m2.subrange(0, m1.len() as int) == m1,
    ensures
        word_at(m2, a) == word_at(m1, a),
{
    assert forall|i: int| 0 <= i < m1.len() implies m2[i] == m1[i] by {
        assert(m2.subrange(0, m1.len() as int)[i] == m2[i]);
    }
}

/// A C-string read is likewise unaffected by growth of the memory, as long as
/// the string was terminated before the growth.
pub proof fn lemma_cstr_at_frame(m1: Seq<u8>, m2: Seq<u8>, a: int)
    requires
        cstr_terminated(m1, a),
        m1.len() <= m2.len(),
        m2.subrange(0, m1.len() as int) == m1,
    ensures
        cstr_terminated(m2, a),
        cstr_at(m2, a) == cstr_at(m1, a),
    decreases m1.len() - a,
{
    assert forall|i: int| 0 <= i < m1.len() implies m2[i] == m1[i] by {
        assert(m2.subrange(0, m1.len() as int)[i] == m2[i]);
    }
    let j = choose|j: int| a <= j < m1.len() && m1[j] == 0;
    assert(m2[j] == 0);
    if a >= m1.len() || m1[a] == 0 {
        assert(cstr_at(m2, a) == Seq::<u8>::empty());
    } else {
        lemma_cstr_at_frame(m1, m2, a + 1);
    }
}

/// Recombining the four little-endian bytes of `v` gives back `v`.
proof fn lemma_le_decompose(v: u32)
    ensures
        (v & 0xFF) + ((v >> 8) & 0xFF) * 0x100 + ((v >> 16) & 0xFF) * 0x1_0000 + ((v >> 24)
            & 0xFF) * 0x100_0000 == v,
        v & 0xFF <= 0xFF,
        (v >> 8) & 0xFF <= 0xFF,
        (v >> 16) & 0xFF <= 0xFF,
        (v >> 24) & 0xFF <= 0xFF,
{
    assert((v & 0xFF) + ((v >> 8) & 0xFF) * 0x100 + ((v >> 16) & 0xFF) * 0x1_0000 + ((v >> 24)
        & 0xFF) * 0x100_0000 == v) by (bit_vector);
    assert(v & 0xFF <= 0xFF) by (bit_vector);
    assert((v >> 8) & 0xFF <= 0xFF) by (bit_vector);
    assert((v >> 16) & 0xFF <= 0xFF) by (bit_vector);
    assert((v >> 24) & 0xFF <= 0xFF) by (bit_vector);
}

/// The guest address space.
pub struct Mem {
    bytes: Vec<u8>,
}

impl View for Mem {
    type V = Seq<u8>;

    closed spec fn view(&self) -> Seq<u8> {
        self.bytes@
    }
}

impl Mem {
    /// Wrap an existing byte image of the guest address space.
    pub fn new(bytes: Vec<u8>) -> (m: Mem)
        ensures
            m@ == bytes@,
    {
        Mem { bytes }
    }

    pub fn len(&self) -> (n: usize)
        ensures
            n == self@.len(),
    {
        self.bytes.len()
    }

    /// Read the little-endian 32-bit word at guest address `a`.
    pub fn read_u32(&self, a: u32) -> (r: u32)
        requires
            a + 4 <= self@.len(),
        ensures
            r == word_at(self@, a as int),
    {
        let n = self.bytes.len();
        let i = a as usize;
        let b0 = self.bytes[i] as u32;
        let b1 = self.bytes[i + 1] as u32;
        let b2 = self.bytes[i + 2] as u32;
        let b3 = self.bytes[i + 3] as u32;
        b0 + b1 * 0x100 + b2 * 0x1_0000 + b3 * 0x100_0000
    }

    /// Overwrite the word at guest address `a`; no other byte changes.
    pub fn write_u32(&mut self, a: u32, v: u32)
        requires
            a + 4 <= old(self)@.len(),
        ensures
            final(self)@.len() == old(self)@.len(),
            word_at(final(self)@, a as int) == v,
            forall|i: int|
                0 <= i < old(self)@.len() && !(a <= i < a + 4) ==> final(self)@[i] == old(
                    self,
                )@[i],
    {
        let n = self.bytes.len();
        let i = a as usize;
        self.bytes[i] = (v & 0xFF) as u8;
        self.bytes[i + 1] = ((v >> 8) & 0xFF) as u8;
        self.bytes[i + 2] = ((v >> 16) & 0xFF) as u8;
        self.bytes[i + 3] = ((v >> 24) & 0xFF) as u8;
        proof {
            lemma_le_decompose(v);
        }
    }

    /// Append a fresh 4-byte object header holding `v`; returns its address.
    pub fn alloc_u32(&mut self, v: u32) -> (addr: u32)
        requires
            old(self)@.len() + 4 <= 0x1_0000_0000,
        ensures
            addr == old(self)@.len(),
            final(self)@.len() == old(self)@.len() + 4,
            final(self)@.subrange(0, old(self)@.len() as int) == old(self)@,
            word_at(final(self)@, addr as int) == v,
    {
        let addr = self.bytes.len() as u32;
        self.bytes.push((v & 0xFF) as u8);
        self.bytes.push(((v >> 8) & 0xFF) as u8);
        self.bytes.push(((v >> 16) & 0xFF) as u8);
        self.bytes.push(((v >> 24) & 0xFF) as u8);
        proof {
            lemma_le_decompose(v);
            assert(final(self)@.subrange(0, old(self)@.len() as int) =~= old(self)@);
        }
        addr
    }

    /// Read the NUL-terminated string at guest address `a`; `None` when the
    /// string runs past the end of memory.
    pub fn read_cstr(&self, a: u32) -> (r: Option<Vec<u8>>)
        ensures
            match r {
                Some(v) => cstr_terminated(self@, a as int) && v@ == cstr_at(self@, a as int),
                None => !cstr_terminated(self@, a as int),
            },
    {
        if a as usize >= self.bytes.len() {
            return None;
        }
        let mut out: Vec<u8> = Vec::new();
        let mut j = a as usize;
        loop
            invariant
                a <= j <= self@.len(),
                out@ == self@.subrange(a as int, j as int),
                forall|k: int| a <= k < j ==> self@[k] != 0,
            decreases self@.len() - j,
        {
            if j >= self.bytes.len() {
                return None;
            }
            let b = self.bytes[j];
            if b == 0 {
                proof {
                    lemma_cstr_at_range(self@, a as int, j as int);
                }
                return Some(out);
            }
            out.push(b);
            j = j + 1;
            proof {
                assert(out@ =~= self@.subrange(a as int, j as int));
            }
        }
    }
}

/// An owned copy of a byte string.
pub fn copy_bytes(v: &[u8]) -> (r: Vec<u8>)
    ensures
        r@ == v@,
{
    let mut out: Vec<u8> = Vec::new();
    let mut i: usize = 0;
    while i < v.len()
        invariant
            0 <= i <= v@.len(),
            out@ == v@.subrange(0, i as int),
        decreases v@.len() - i,
    {
        out.push(v[i]);
        proof {
            assert(out@ =~= v@.subrange(0, i + 1 as int));
        }
        i = i + 1;
    }
    proof {
        assert(out@ =~= v@);
    }
    out
}

/// Byte-wise equality of two byte strings.
pub fn bytes_eq(a: &[u8], b: &[u8]) -> (r: bool)
    ensures
        r == (a@ == b@),
{
    if a.len() != b.len() {
        proof {
            assert(a@.len() != b@.len());
        }
        return false;
    }
    let mut i: usize = 0;
    while i < a.len()
        invariant
            0 <= i <= a@.len(),
            a@.len() == b@.len(),
            forall|k: int| 0 <= k < i ==> a@[k] == b@[k],
        decreases a@.len() - i,
    {
        if a[i] != b[i] {
            return false;
        }
        i = i + 1;
    }
    proof {
        assert(a@ =~= b@);
    }
    true
}

} // verus!
