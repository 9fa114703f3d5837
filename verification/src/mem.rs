//! Guest memory: a flat byte-addressed memory with a bump allocator.
//!
//! Addresses are 32-bit guest addresses. Multi-byte values are stored
//! little-endian, as on the ARM guests the emulator runs. The allocator hands
//! out zero-filled, 16-byte-aligned blocks from a region that nothing has
//! allocated before; freeing a block leaves its bytes in place and the block
//! is not handed out again.
use vstd::prelude::*;

verus! {

/// Alignment of the blocks handed out by [Mem::allocate].
pub const ALLOC_ALIGN: u32 = 16;

pub struct Mem {
    bytes: Vec<u8>,
    next_free: u32,
}

/// The 32-bit value stored little-endian in `b0..b3`.
pub open spec fn le_u32(b0: u8, b1: u8, b2: u8, b3: u8) -> int {
    b0 + b1 * 0x100 + b2 * 0x1_0000 + b3 * 0x100_0000
}

/// The 32-bit value stored at `a` in `m`.
pub open spec fn read_u32_spec(m: Seq<u8>, a: int) -> u32 {
    le_u32(m[a], m[a + 1], m[a + 2], m[a + 3]) as u32
}

/// `m` with `v` stored little-endian at `a`.
pub open spec fn write_u32_spec(m: Seq<u8>, a: int, v: u32) -> Seq<u8> {
    m.update(a, (v % 0x100) as u8).update(a + 1, ((v / 0x100) % 0x100) as u8).update(
        a + 2,
        ((v / 0x1_0000) % 0x100) as u8,
    ).update(a + 3, (v / 0x100_0000) as u8)
}

/// `a` and `b` have the same length and the same bytes outside `[lo, hi)`.
pub open spec fn same_outside(a: Seq<u8>, b: Seq<u8>, lo: int, hi: int) -> bool {
    &&& a.len() == b.len()
    &&& forall|i: int| 0 <= i < a.len() && !(lo <= i < hi) ==> #[trigger] b[i] == a[i]
}

/// `size` rounded up to the allocation alignment.
pub open spec fn alloc_size(size: u32) -> int {
    if size % 16 == 0 {
        size as int
    } else {
        size + (16 - size % 16)
    }
}

/// A 32-bit value reads back as written, and the other bytes keep their
/// values.
pub proof fn lemma_write_read_u32(m: Seq<u8>, a: int, v: u32)
    requires
        0 <= a,
        a + 4 <= m.len(),
    ensures
        read_u32_spec(write_u32_spec(m, a, v), a) == v,
        write_u32_spec(m, a, v).len() == m.len(),
        forall|i: int|
            0 <= i < m.len() && !(a <= i < a + 4) ==> #[trigger] write_u32_spec(m, a, v)[i]
                == m[i],
{
    let w = write_u32_spec(m, a, v);
    assert(w[a] == (v % 0x100) as u8);
    assert(w[a + 1] == ((v / 0x100) % 0x100) as u8);
    assert(w[a + 2] == ((v / 0x1_0000) % 0x100) as u8);
    assert(w[a + 3] == (v / 0x100_0000) as u8);
    assert((v % 0x100) + ((v / 0x100) % 0x100) * 0x100 + ((v / 0x1_0000) % 0x100) * 0x1_0000 + (v
        / 0x100_0000) * 0x100_0000 == v) by (nonlinear_arith);
}

/// An allocation's size is rounded up to the next multiple of 16.
pub proof fn lemma_alloc_size(size: u32)
    ensures
        size <= alloc_size(size) <= size + 15,
        alloc_size(size) % 16 == 0,
{
}

/// A 32-bit write leaves a value that does not overlap it as it was.
pub proof fn lemma_write_u32_other(m: Seq<u8>, a: int, v: u32, b: int)
    requires
        0 <= a,
        a + 4 <= m.len(),
        0 <= b,
        b + 4 <= m.len(),
        b + 4 <= a || a + 4 <= b,
    ensures
        read_u32_spec(write_u32_spec(m, a, v), b) == read_u32_spec(m, b),
{
    lemma_write_read_u32(m, a, v);
    let w = write_u32_spec(m, a, v);
    assert(w[b] == m[b]);
    assert(w[b + 1] == m[b + 1]);
    assert(w[b + 2] == m[b + 2]);
    assert(w[b + 3] == m[b + 3]);
}

/// A 32-bit value reads the same from two memories that agree on its bytes.
pub proof fn lemma_read_u32_same(a: Seq<u8>, b: Seq<u8>, q: int)
    requires
        a[q] == b[q],
        a[q + 1] == b[q + 1],
        a[q + 2] == b[q + 2],
        a[q + 3] == b[q + 3],
    ensures
        read_u32_spec(a, q) == read_u32_spec(b, q),
{
}

impl Mem {
    /// The bytes of guest memory.
    pub closed spec fn view(&self) -> Seq<u8> {
        self.bytes@
    }

    /// The address the next allocation starts at.
    pub closed spec fn next_free_spec(&self) -> int {
        self.next_free as int
    }

    pub closed spec fn wf(&self) -> bool {
        &&& self.next_free % 16 == 0
        &&& self.next_free <= self.bytes@.len()
        &&& self.bytes@.len() <= u32::MAX
    }

    /// A well-formed memory fits 32-bit addresses and its next free
    /// address is an aligned address within it.
    pub proof fn lemma_wf(&self)
        requires
            self.wf(),
        ensures
            self@.len() <= u32::MAX,
            0 <= self.next_free_spec() <= self@.len(),
            self.next_free_spec() % 16 == 0,
    {
    }

    /// Bytes that can still be allocated.
    pub open spec fn free_space(&self) -> int {
        self@.len() - self.next_free_spec()
    }

    /// A memory of `size` zero bytes, with allocation starting at `first_free`
    /// (rounded up to the alignment); the addresses below it are reserved.
    pub fn new(size: u32, first_free: u32) -> (m: Mem)
        requires
            first_free <= size,
            alloc_size(first_free) <= size,
        ensures
            m.wf(),
            m@.len() == size,
            forall|i: int| 0 <= i < size ==> #[trigger] m@[i] == 0,
            m.next_free_spec() == alloc_size(first_free),
    {
        let mut bytes: Vec<u8> = Vec::new();
        let mut i: u32 = 0;
        while i < size
            invariant
                i <= size,
                bytes@.len() == i,
                forall|j: int| 0 <= j < i ==> #[trigger] bytes@[j] == 0,
            decreases size - i,
        {
            bytes.push(0);
            i = i + 1;
        }
        let next_free = if first_free % 16 == 0 {
            first_free
        } else {
            first_free + (16 - first_free % 16)
        };
        Mem { bytes, next_free }
    }

    pub fn len(&self) -> (r: u32)
        requires
            self.wf(),
        ensures
            r == self@.len(),
    {
        self.bytes.len() as u32
    }

    pub fn read_u8(&self, addr: u32) -> (r: u8)
        requires
            self.wf(),
            addr < self@.len(),
        ensures
            r == self@[addr as int],
    {
        self.bytes[addr as usize]
    }

    pub fn write_u8(&mut self, addr: u32, v: u8)
        requires
            old(self).wf(),
            addr < old(self)@.len(),
        ensures
            final(self)@ == old(self)@.update(addr as int, v),
            final(self).next_free_spec() == old(self).next_free_spec(),
            final(self).wf(),
    {
        self.bytes.set(addr as usize, v);
    }

    pub fn read_u32(&self, addr: u32) -> (r: u32)
        requires
            self.wf(),
            addr + 4 <= self@.len(),
        ensures
            r == read_u32_spec(self@, addr as int),
    {
        let a = addr as usize;
        let b0 = self.bytes[a] as u32;
        let b1 = self.bytes[a + 1] as u32;
        let b2 = self.bytes[a + 2] as u32;
        let b3 = self.bytes[a + 3] as u32;
        b0 + b1 * 0x100 + b2 * 0x1_0000 + b3 * 0x100_0000
    }

    pub fn write_u32(&mut self, addr: u32, v: u32)
        requires
            old(self).wf(),
            addr + 4 <= old(self)@.len(),
        ensures
            final(self)@ == write_u32_spec(old(self)@, addr as int, v),
            read_u32_spec(final(self)@, addr as int) == v,
            final(self).next_free_spec() == old(self).next_free_spec(),
            final(self).wf(),
    {
        proof {
            lemma_write_read_u32(self@, addr as int, v);
        }
        let a = addr as usize;
        self.bytes.set(a, (v % 0x100) as u8);
        self.bytes.set(a + 1, ((v / 0x100) % 0x100) as u8);
        self.bytes.set(a + 2, ((v / 0x1_0000) % 0x100) as u8);
        self.bytes.set(a + 3, (v / 0x100_0000) as u8);
    }

    /// Allocate a zero-filled block of at least `size` bytes.
    pub fn allocate(&mut self, size: u32) -> (addr: u32)
        requires
            old(self).wf(),
            alloc_size(size) <= old(self).free_space(),
        ensures
            final(self).wf(),
            addr == old(self).next_free_spec(),
            addr % 16 == 0,
            final(self).next_free_spec() == old(self).next_free_spec() + alloc_size(size),
            final(self)@.len() == old(self)@.len(),
            forall|i: int|
                addr <= i < addr + alloc_size(size) ==> #[trigger] final(self)@[i] == 0,
            forall|i: int|
                0 <= i < old(self)@.len() && !(addr <= i < addr + alloc_size(size))
                    ==> #[trigger] final(self)@[i] == old(self)@[i],
    {
        let addr = self.next_free;
        let rounded = if size % 16 == 0 {
            size
        } else {
            size + (16 - size % 16)
        };
        let mut i: u32 = 0;
        while i < rounded
            invariant
                self.wf(),
                self.next_free == addr,
                addr + rounded <= self@.len(),
                i <= rounded,
                self@.len() == old(self)@.len(),
                forall|j: int| addr <= j < addr + i ==> #[trigger] self@[j] == 0,
                forall|j: int|
                    0 <= j < old(self)@.len() && !(addr <= j < addr + i) ==> #[trigger] self@[j]
                        == old(self)@[j],
            decreases rounded - i,
        {
            self.bytes.set((addr + i) as usize, 0);
            i = i + 1;
        }
        self.next_free = addr + rounded;
        addr
    }

    /// Give a block back. The bytes stay as they are and the block is not
    /// handed out again.
    pub fn free(&mut self, _addr: u32)
        ensures
            *final(self) == *old(self),
    {
    }

    /// Copy `size` bytes from `src` to `dest`; the ranges may overlap.
    pub fn memmove(&mut self, dest: u32, src: u32, size: u32)
        requires
            old(self).wf(),
            src + size <= old(self)@.len(),
            dest + size <= old(self)@.len(),
        ensures
            final(self)@.len() == old(self)@.len(),
            final(self).next_free_spec() == old(self).next_free_spec(),
            final(self).wf(),
            forall|i: int| 0 <= i < size ==> #[trigger] final(self)@[dest + i] == old(self)@[src + i],
            forall|i: int|
                0 <= i < old(self)@.len() && !(dest <= i < dest + size) ==> #[trigger] final(self)@[i]
                    == old(self)@[i],
    {
        let mut tmp: Vec<u8> = Vec::new();
        let mut i: u32 = 0;
        while i < size
            invariant
                i <= size,
                src + size <= self@.len(),
                self@.len() <= u32::MAX,
                self@ == old(self)@,
                tmp@.len() == i,
                forall|j: int| 0 <= j < i ==> #[trigger] tmp@[j] == self@[src + j],
            decreases size - i,
        {
            tmp.push(self.bytes[(src + i) as usize]);
            i = i + 1;
        }
        let mut k: u32 = 0;
        while k < size
            invariant
                k <= size,
                dest + size <= self@.len(),
                src + size <= self@.len(),
                old(self).wf(),
                self@.len() == old(self)@.len(),
                self.next_free == old(self).next_free,
                tmp@.len() == size,
                forall|j: int| 0 <= j < size ==> #[trigger] tmp@[j] == old(self)@[src + j],
                forall|j: int| 0 <= j < k ==> #[trigger] self@[dest + j] == tmp@[j],
                forall|j: int|
                    0 <= j < old(self)@.len() && !(dest <= j < dest + k) ==> #[trigger] self@[j]
                        == old(self)@[j],
            decreases size - k,
        {
            self.bytes.set((dest + k) as usize, tmp[k as usize]);
            k = k + 1;
        }
    }

    /// The bytes of the NUL-terminated string at `addr`, without the NUL.
    /// `None` if no NUL byte follows within memory.
    pub fn cstr_at(&self, addr: u32) -> (r: Option<Vec<u8>>)
        requires
            self.wf(),
        ensures
            r matches Some(s) ==> cstr_spec(self@, addr as int) == Some(s@),
            r is None ==> cstr_spec(self@, addr as int) is None,
    {
        let n = self.bytes.len();
        if addr as usize >= n {
            return None;
        }
        let mut out: Vec<u8> = Vec::new();
        let mut i: usize = addr as usize;
        proof {
            lemma_cstr_shift(self@, addr as int, addr as int);
        }
        while i < n
            invariant
                n == self@.len(),
                addr <= i,
                out@ == self@.subrange(addr as int, i as int),
                forall|j: int| addr <= j < i ==> self@[j] != 0,
                cstr_spec(self@, addr as int) == cstr_from(self@, addr as int, i as int),
            decreases n - i,
        {
            if self.bytes[i] == 0 {
                return Some(out);
            }
            out.push(self.bytes[i]);
            i = i + 1;
            assert(out@ =~= self@.subrange(addr as int, i as int));
        }
        None
    }
}

/// The string at `a`: the bytes up to the first NUL, if there is one.
pub open spec fn cstr_spec(m: Seq<u8>, a: int) -> Option<Seq<u8>> {
    cstr_from(m, a, a)
}

/// Scanning for the NUL from `i` on, for the string that starts at `a`.
pub open spec fn cstr_from(m: Seq<u8>, a: int, i: int) -> Option<Seq<u8>>
    decreases m.len() - i,
{
    if i < 0 || i >= m.len() {
        None
    } else if m[i] == 0 {
        Some(m.subrange(a, i))
    } else {
        cstr_from(m, a, i + 1)
    }
}

proof fn lemma_cstr_shift(m: Seq<u8>, a: int, i: int)
    ensures
        cstr_spec(m, a) == cstr_from(m, a, a),
{
}

} // verus!
