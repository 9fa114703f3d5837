//! The vDSP routines of Accelerate that move single-precision values
//! without computing on them: clearing, filling, and converting between
//! interleaved and split complex vectors. A value is moved as its four
//! bytes.
use vstd::prelude::*;
use crate::mem::{Mem, read_u32_spec, write_u32_spec, lemma_write_read_u32, lemma_write_u32_other};

verus! {

/// The stride a vDSP routine uses: the one given, or 1 for 0.
pub open spec fn eff_stride(stride: u32) -> int {
    if stride == 0 {
        1
    } else {
        stride as int
    }
}

/// Address of element `i` of a vector of 4-byte values at `base` with the
/// stride `s` (in elements).
pub open spec fn elem_addr(base: int, s: int, i: int) -> int {
    base + 4 * (i * s)
}

/// The `n` elements of the vector lie in memory of length `len`.
pub open spec fn vector_in_memory(base: int, s: int, n: int, len: int) -> bool {
    n > 0 ==> elem_addr(base, s, n - 1) + 4 <= len
}

/// The address `k` is in one of the first `n` elements of the vector.
pub open spec fn in_vector(base: int, s: int, n: int, k: int) -> bool {
    exists|i: int| 0 <= i < n && elem_addr(base, s, i) <= k < #[trigger] elem_addr(base, s, i) + 4
}

proof fn lemma_elem_order(base: int, s: int, i: int, j: int)
    requires
        0 <= i < j,
        s >= 1,
    ensures
        elem_addr(base, s, i) + 4 <= elem_addr(base, s, j),
{
    assert(i * s + s <= j * s) by (nonlinear_arith)
        requires
            i < j,
            s >= 1,
    ;
}

proof fn lemma_elem_order_wide(base: int, s: int, i: int, j: int)
    requires
        0 <= i < j,
        s >= 1,
    ensures
        elem_addr(base, s, i) + 4 * s <= elem_addr(base, s, j),
{
    assert(i * s + s <= j * s) by (nonlinear_arith)
        requires
            i < j,
            s >= 1,
    ;
}

proof fn lemma_elem_bounds(base: int, s: int, i: int, n: int)
    requires
        0 <= i < n,
        s >= 1,
        base >= 0,
    ensures
        base <= elem_addr(base, s, i) <= elem_addr(base, s, n - 1),
{
    assert(0 <= i * s <= (n - 1) * s) by (nonlinear_arith)
        requires
            0 <= i <= n - 1,
            s >= 1,
    ;
}

/// Store `vals[i]` as element `i` of the vector at `base` with stride `s`.
fn store_vector(mem: &mut Mem, base: u32, s: u32, vals: &Vec<u32>)
    requires
        old(mem).wf(),
        s >= 1,
        vector_in_memory(base as int, s as int, vals@.len() as int, old(mem)@.len() as int),
    ensures
        final(mem).wf(),
        final(mem).next_free_spec() == old(mem).next_free_spec(),
        final(mem)@.len() == old(mem)@.len(),
        forall|i: int| 0 <= i < vals@.len() ==> #[trigger] read_u32_spec(final(mem)@, elem_addr(base as int, s as int, i)) == vals@[i],
        forall|k: int| 0 <= k < old(mem)@.len() && !in_vector(base as int, s as int, vals@.len() as int, k)
            ==> #[trigger] final(mem)@[k] == old(mem)@[k],
{
    proof {
        mem.lemma_wf();
    }
    let n = vals.len();
    let mut i: usize = 0;
    while i < n
        invariant
            mem.wf(),
            mem@.len() <= u32::MAX,
            s >= 1,
            n == vals@.len(),
            i <= n,
            vector_in_memory(base as int, s as int, n as int, mem@.len() as int),
            mem@.len() == old(mem)@.len(),
            mem.next_free_spec() == old(mem).next_free_spec(),
            forall|j: int| 0 <= j < i ==> #[trigger] read_u32_spec(mem@, elem_addr(base as int, s as int, j)) == vals@[j],
            forall|k: int| 0 <= k < old(mem)@.len() && !in_vector(base as int, s as int, i as int, k)
                ==> #[trigger] mem@[k] == old(mem)@[k],
        decreases n - i,
    {
        let ghost a = elem_addr(base as int, s as int, i as int);
        proof {
            lemma_elem_bounds(base as int, s as int, i as int, n as int);
        }
        assert(a + 4 <= mem@.len());
        assert(0 <= (i as int) <= (i as int) * (s as int) <= u32::MAX) by (nonlinear_arith)
            requires
                base as int + 4 * ((i as int) * (s as int)) + 4 <= u32::MAX,
                base >= 0,
                s >= 1,
                i >= 0,
        ;
        let off = (i as u32) * s;
        let addr = base + 4 * off;
        let ghost before = mem@;
        mem.write_u32(addr, vals[i]);
        proof {
            lemma_write_read_u32(before, a, vals@[i as int]);
            assert forall|j: int| 0 <= j < i + 1 implies #[trigger] read_u32_spec(mem@, elem_addr(base as int, s as int, j)) == vals@[j] by {
                if j < i {
                    lemma_elem_order(base as int, s as int, j, i as int);
                    lemma_elem_bounds(base as int, s as int, j, n as int);
                    lemma_write_u32_other(before, a, vals@[i as int], elem_addr(base as int, s as int, j));
                }
            }
            assert forall|k: int| 0 <= k < old(mem)@.len() && !in_vector(base as int, s as int, i + 1, k)
                implies #[trigger] mem@[k] == old(mem)@[k] by {
                if in_vector(base as int, s as int, i as int, k) {
                    let w = choose|w: int| 0 <= w < i && elem_addr(base as int, s as int, w) <= k
                        < #[trigger] elem_addr(base as int, s as int, w) + 4;
                    assert(0 <= w < i + 1);
                }
                if a <= k < a + 4 {
                    assert(0 <= i < i + 1 && elem_addr(base as int, s as int, i as int) <= k);
                }
            }
        }
        i = i + 1;
    }
}

/// `vDSP_vclr`: set the `n` elements of the vector at `output` (stride
/// `stride`) to 0.0, which is four zero bytes.
#[allow(non_snake_case)]
pub fn vDSP_vclr(mem: &mut Mem, output: u32, stride: u32, n: u32)
    requires
        old(mem).wf(),
        vector_in_memory(output as int, eff_stride(stride), n as int, old(mem)@.len() as int),
    ensures
        final(mem).wf(),
        final(mem).next_free_spec() == old(mem).next_free_spec(),
        final(mem)@.len() == old(mem)@.len(),
        forall|i: int| 0 <= i < n ==> #[trigger] read_u32_spec(final(mem)@, elem_addr(output as int, eff_stride(stride), i)) == 0,
        forall|k: int| 0 <= k < old(mem)@.len() && !in_vector(output as int, eff_stride(stride), n as int, k)
            ==> #[trigger] final(mem)@[k] == old(mem)@[k],
{
    let s = if stride == 0 { 1 } else { stride };
    let mut vals: Vec<u32> = Vec::new();
    let mut i: u32 = 0;
    while i < n
        invariant
            i <= n,
            vals@.len() == i,
            forall|j: int| 0 <= j < i ==> #[trigger] vals@[j] == 0,
        decreases n - i,
    {
        vals.push(0);
        i = i + 1;
    }
    store_vector(mem, output, s, &vals);
}

/// `vDSP_vfill`: set the `n` elements of the vector at `output` (stride
/// `stride`) to the value at `scalar`.
#[allow(non_snake_case)]
pub fn vDSP_vfill(mem: &mut Mem, scalar: u32, output: u32, stride: u32, n: u32)
    requires
        old(mem).wf(),
        scalar + 4 <= old(mem)@.len(),
        vector_in_memory(output as int, eff_stride(stride), n as int, old(mem)@.len() as int),
    ensures
        final(mem).wf(),
        final(mem).next_free_spec() == old(mem).next_free_spec(),
        final(mem)@.len() == old(mem)@.len(),
        forall|i: int| 0 <= i < n ==> #[trigger] read_u32_spec(final(mem)@, elem_addr(output as int, eff_stride(stride), i))
            == read_u32_spec(old(mem)@, scalar as int),
        forall|k: int| 0 <= k < old(mem)@.len() && !in_vector(output as int, eff_stride(stride), n as int, k)
            ==> #[trigger] final(mem)@[k] == old(mem)@[k],
{
    let v = mem.read_u32(scalar);
    let s = if stride == 0 { 1 } else { stride };
    let mut vals: Vec<u32> = Vec::new();
    let mut i: u32 = 0;
    while i < n
        invariant
            i <= n,
            vals@.len() == i,
            forall|j: int| 0 <= j < i ==> #[trigger] vals@[j] == v,
        decreases n - i,
    {
        vals.push(v);
        i = i + 1;
    }
    store_vector(mem, output, s, &vals);
}


/// The address `k` is in one of the first `n` pairs of 4-byte values at
/// `base`, pair `i` starting at element `i * s`.
pub open spec fn in_pairs(base: int, s: int, n: int, k: int) -> bool {
    exists|i: int| 0 <= i < n && elem_addr(base, s, i) <= k < #[trigger] elem_addr(base, s, i) + 8
}

/// No element (of `w1` bytes) of the first vector overlaps an element (of
/// `w2` bytes) of the second, over `n` elements each.
pub open spec fn vectors_apart(b1: int, s1: int, w1: int, b2: int, s2: int, w2: int, n: int) -> bool {
    forall|i: int, j: int| 0 <= i < n && 0 <= j < n ==> #[trigger] elem_addr(b1, s1, i) + w1
        <= #[trigger] elem_addr(b2, s2, j) || elem_addr(b2, s2, j) + w2 <= elem_addr(b1, s1, i)
}

/// The address of element `i` of a vector in guest memory, given that the
/// element lies in memory.
fn elem_address(base: u32, s: u64, i: u32, len: u32) -> (r: u32)
    requires
        s >= 1,
        elem_addr(base as int, s as int, i as int) + 4 <= len,
    ensures
        r == elem_addr(base as int, s as int, i as int),
{
    assert(0 <= (i as int) * (s as int)) by (nonlinear_arith)
        requires
            s >= 1,
    ;
    let off: u64 = (i as u64) * s;
    (base as u64 + 4 * off) as u32
}

/// `vDSP_ctoz`: copy the `n` interleaved complex values at `input` (pair
/// `i` at element `2 * i * stride_input`) to the split vectors whose
/// pointers are at `output` (element `i * stride_output` of each), pair by
/// pair, real part first.
#[allow(non_snake_case)]
pub fn vDSP_ctoz(mem: &mut Mem, input: u32, stride_input: u32, output: u32, stride_output: u32, n: u32)
    requires
        old(mem).wf(),
        output + 8 <= old(mem)@.len(),
        vector_in_memory(input as int, 2 * eff_stride(stride_input), n as int, old(mem)@.len() - 4),
        vector_in_memory(read_u32_spec(old(mem)@, output as int) as int, eff_stride(stride_output), n as int, old(mem)@.len() as int),
        vector_in_memory(read_u32_spec(old(mem)@, output + 4) as int, eff_stride(stride_output), n as int, old(mem)@.len() as int),
    ensures
        final(mem).wf(),
        final(mem).next_free_spec() == old(mem).next_free_spec(),
        final(mem)@.len() == old(mem)@.len(),
        ({
            let realp = read_u32_spec(old(mem)@, output as int) as int;
            let imagp = read_u32_spec(old(mem)@, output + 4) as int;
            let si = 2 * eff_stride(stride_input);
            let so = eff_stride(stride_output);
            &&& forall|k: int| 0 <= k < old(mem)@.len() && !in_vector(realp, so, n as int, k) && !in_vector(imagp, so, n as int, k)
                ==> #[trigger] final(mem)@[k] == old(mem)@[k]
            &&& vectors_apart(realp, so, 4, imagp, so, 4, n as int) && vectors_apart(input as int, si, 8, realp, so, 4, n as int)
                && vectors_apart(input as int, si, 8, imagp, so, 4, n as int) ==> forall|i: int| 0 <= i < n ==> {
                &&& #[trigger] read_u32_spec(final(mem)@, elem_addr(realp, so, i)) == read_u32_spec(old(mem)@, elem_addr(input as int, si, i))
                &&& read_u32_spec(final(mem)@, elem_addr(imagp, so, i)) == read_u32_spec(old(mem)@, elem_addr(input as int, si, i) + 4)
            }
        }),
{
    proof {
        mem.lemma_wf();
    }
    let len = mem.len();
    let realp = mem.read_u32(output);
    let imagp = mem.read_u32(output + 4);
    let si: u64 = 2 * (if stride_input == 0 { 1 } else { stride_input } as u64);
    let so: u64 = if stride_output == 0 { 1 } else { stride_output } as u64;
    let ghost m0 = mem@;
    let ghost apart = vectors_apart(realp as int, so as int, 4, imagp as int, so as int, 4, n as int)
        && vectors_apart(input as int, si as int, 8, realp as int, so as int, 4, n as int)
        && vectors_apart(input as int, si as int, 8, imagp as int, so as int, 4, n as int);
    let mut i: u32 = 0;
    while i < n
        invariant
            mem.wf(),
            len == mem@.len(),
            mem@.len() == m0.len(),
            m0 == old(mem)@,
            mem.next_free_spec() == old(mem).next_free_spec(),
            si >= 2,
            so >= 1,
            si == 2 * eff_stride(stride_input),
            so == eff_stride(stride_output),
            realp == read_u32_spec(m0, output as int),
            imagp == read_u32_spec(m0, output + 4),
            apart == (vectors_apart(realp as int, so as int, 4, imagp as int, so as int, 4, n as int)
                && vectors_apart(input as int, si as int, 8, realp as int, so as int, 4, n as int)
                && vectors_apart(input as int, si as int, 8, imagp as int, so as int, 4, n as int)),
            i <= n,
            vector_in_memory(input as int, si as int, n as int, m0.len() - 4),
            vector_in_memory(realp as int, so as int, n as int, m0.len() as int),
            vector_in_memory(imagp as int, so as int, n as int, m0.len() as int),
            forall|k: int| 0 <= k < m0.len() && !in_vector(realp as int, so as int, i as int, k) && !in_vector(imagp as int, so as int, i as int, k)
                ==> #[trigger] mem@[k] == m0[k],
            apart ==> forall|j: int| 0 <= j < i ==> {
                &&& #[trigger] read_u32_spec(mem@, elem_addr(realp as int, so as int, j)) == read_u32_spec(m0, elem_addr(input as int, si as int, j))
                &&& read_u32_spec(mem@, elem_addr(imagp as int, so as int, j)) == read_u32_spec(m0, elem_addr(input as int, si as int, j) + 4)
            },
        decreases n - i,
    {
        proof {
            lemma_elem_bounds(input as int, si as int, i as int, n as int);
            lemma_elem_bounds(realp as int, so as int, i as int, n as int);
            lemma_elem_bounds(imagp as int, so as int, i as int, n as int);
        }
        let src = elem_address(input, si, i, len);
        let r = mem.read_u32(src);
        let im = mem.read_u32(src + 4);
        let ra = elem_address(realp, so, i, len);
        let ia = elem_address(imagp, so, i, len);
        let ghost m1 = mem@;
        mem.write_u32(ra, r);
        let ghost m2 = mem@;
        mem.write_u32(ia, im);
        proof {
            lemma_write_read_u32(m1, ra as int, r);
            lemma_write_read_u32(m2, ia as int, im);
            assert forall|k: int| 0 <= k < m0.len() && !in_vector(realp as int, so as int, i + 1, k)
                && !in_vector(imagp as int, so as int, i + 1, k) implies #[trigger] mem@[k] == m0[k] by {
                if in_vector(realp as int, so as int, i as int, k) {
                    let w = choose|w: int| 0 <= w < i && elem_addr(realp as int, so as int, w) <= k
                        < #[trigger] elem_addr(realp as int, so as int, w) + 4;
                    assert(0 <= w < i + 1);
                }
                if in_vector(imagp as int, so as int, i as int, k) {
                    let w = choose|w: int| 0 <= w < i && elem_addr(imagp as int, so as int, w) <= k
                        < #[trigger] elem_addr(imagp as int, so as int, w) + 4;
                    assert(0 <= w < i + 1);
                }
                if ra <= k < ra + 4 {
                    assert(0 <= i < i + 1 && elem_addr(realp as int, so as int, i as int) <= k);
                }
                if ia <= k < ia + 4 {
                    assert(0 <= i < i + 1 && elem_addr(imagp as int, so as int, i as int) <= k);
                }
            }
            if apart {
                let e = elem_addr(input as int, si as int, i as int);
                assert(elem_addr(input as int, si as int, i as int) + 8 <= elem_addr(realp as int, so as int, i as int)
                    || elem_addr(realp as int, so as int, i as int) + 4 <= elem_addr(input as int, si as int, i as int));
                assert(elem_addr(realp as int, so as int, i as int) + 4 <= elem_addr(imagp as int, so as int, i as int)
                    || elem_addr(imagp as int, so as int, i as int) + 4 <= elem_addr(realp as int, so as int, i as int));
                assert(r == read_u32_spec(m0, e)) by {
                    assert forall|q: int| e <= q < e + 4 implies #[trigger] m1[q] == m0[q] by {
                        if in_vector(realp as int, so as int, i as int, q) {
                            let w = choose|w: int| 0 <= w < i && elem_addr(realp as int, so as int, w) <= q
                                < #[trigger] elem_addr(realp as int, so as int, w) + 4;
                            assert(elem_addr(input as int, si as int, i as int) + 8 <= elem_addr(realp as int, so as int, w)
                                || elem_addr(realp as int, so as int, w) + 4 <= elem_addr(input as int, si as int, i as int));
                        }
                        if in_vector(imagp as int, so as int, i as int, q) {
                            let w = choose|w: int| 0 <= w < i && elem_addr(imagp as int, so as int, w) <= q
                                < #[trigger] elem_addr(imagp as int, so as int, w) + 4;
                            assert(elem_addr(input as int, si as int, i as int) + 8 <= elem_addr(imagp as int, so as int, w)
                                || elem_addr(imagp as int, so as int, w) + 4 <= elem_addr(input as int, si as int, i as int));
                        }
                    }
                    crate::mem::lemma_read_u32_same(m1, m0, e);
                }
                assert(im == read_u32_spec(m0, e + 4)) by {
                    assert forall|q: int| e + 4 <= q < e + 8 implies #[trigger] m1[q] == m0[q] by {
                        if in_vector(realp as int, so as int, i as int, q) {
                            let w = choose|w: int| 0 <= w < i && elem_addr(realp as int, so as int, w) <= q
                                < #[trigger] elem_addr(realp as int, so as int, w) + 4;
                            assert(elem_addr(input as int, si as int, i as int) + 8 <= elem_addr(realp as int, so as int, w)
                                || elem_addr(realp as int, so as int, w) + 4 <= elem_addr(input as int, si as int, i as int));
                        }
                        if in_vector(imagp as int, so as int, i as int, q) {
                            let w = choose|w: int| 0 <= w < i && elem_addr(imagp as int, so as int, w) <= q
                                < #[trigger] elem_addr(imagp as int, so as int, w) + 4;
                            assert(elem_addr(input as int, si as int, i as int) + 8 <= elem_addr(imagp as int, so as int, w)
                                || elem_addr(imagp as int, so as int, w) + 4 <= elem_addr(input as int, si as int, i as int));
                        }
                    }
                    crate::mem::lemma_read_u32_same(m1, m0, e + 4);
                }
                lemma_write_u32_other(m2, ia as int, im, ra as int);
                assert forall|j: int| 0 <= j < i + 1 implies {
                    &&& #[trigger] read_u32_spec(mem@, elem_addr(realp as int, so as int, j)) == read_u32_spec(m0, elem_addr(input as int, si as int, j))
                    &&& read_u32_spec(mem@, elem_addr(imagp as int, so as int, j)) == read_u32_spec(m0, elem_addr(input as int, si as int, j) + 4)
                } by {
                    if j < i {
                        let rj = elem_addr(realp as int, so as int, j);
                        let ij = elem_addr(imagp as int, so as int, j);
                        lemma_elem_order(realp as int, so as int, j, i as int);
                        lemma_elem_order(imagp as int, so as int, j, i as int);
                        lemma_elem_bounds(realp as int, so as int, j, n as int);
                        lemma_elem_bounds(imagp as int, so as int, j, n as int);
                        assert(rj + 4 <= ia || ia + 4 <= rj);
                        assert(ij + 4 <= ra || ra + 4 <= ij);
                        lemma_write_u32_other(m1, ra as int, r, rj);
                        lemma_write_u32_other(m2, ia as int, im, rj);
                        lemma_write_u32_other(m1, ra as int, r, ij);
                        lemma_write_u32_other(m2, ia as int, im, ij);
                    }
                }
            }
        }
        i = i + 1;
    }
}


/// `vDSP_ztoc`: copy the split complex vectors whose pointers are at
/// `input` (element `i * stride_input` of each) to the `n` interleaved
/// complex values at `output` (pair `i` at element `2 * i * stride_output`),
/// pair by pair, real part first.
#[allow(non_snake_case)]
pub fn vDSP_ztoc(mem: &mut Mem, input: u32, stride_input: u32, output: u32, stride_output: u32, n: u32)
    requires
        old(mem).wf(),
        input + 8 <= old(mem)@.len(),
        vector_in_memory(output as int, 2 * eff_stride(stride_output), n as int, old(mem)@.len() - 4),
        vector_in_memory(read_u32_spec(old(mem)@, input as int) as int, eff_stride(stride_input), n as int, old(mem)@.len() as int),
        vector_in_memory(read_u32_spec(old(mem)@, input + 4) as int, eff_stride(stride_input), n as int, old(mem)@.len() as int),
    ensures
        final(mem).wf(),
        final(mem).next_free_spec() == old(mem).next_free_spec(),
        final(mem)@.len() == old(mem)@.len(),
        ({
            let realp = read_u32_spec(old(mem)@, input as int) as int;
            let imagp = read_u32_spec(old(mem)@, input + 4) as int;
            let si = eff_stride(stride_input);
            let so = 2 * eff_stride(stride_output);
            &&& forall|k: int| 0 <= k < old(mem)@.len() && !in_pairs(output as int, so, n as int, k)
                ==> #[trigger] final(mem)@[k] == old(mem)@[k]
            &&& vectors_apart(output as int, so, 8, realp, si, 4, n as int) && vectors_apart(output as int, so, 8, imagp, si, 4, n as int)
                ==> forall|i: int| 0 <= i < n ==> {
                &&& #[trigger] read_u32_spec(final(mem)@, elem_addr(output as int, so, i)) == read_u32_spec(old(mem)@, elem_addr(realp, si, i))
                &&& read_u32_spec(final(mem)@, elem_addr(output as int, so, i) + 4) == read_u32_spec(old(mem)@, elem_addr(imagp, si, i))
            }
        }),
{
    proof {
        mem.lemma_wf();
    }
    let len = mem.len();
    let realp = mem.read_u32(input);
    let imagp = mem.read_u32(input + 4);
    let si: u64 = if stride_input == 0 { 1 } else { stride_input } as u64;
    let so: u64 = 2 * (if stride_output == 0 { 1 } else { stride_output } as u64);
    let ghost m0 = mem@;
    let ghost apart = vectors_apart(output as int, so as int, 8, realp as int, si as int, 4, n as int)
        && vectors_apart(output as int, so as int, 8, imagp as int, si as int, 4, n as int);
    let mut i: u32 = 0;
    while i < n
        invariant
            mem.wf(),
            len == mem@.len(),
            mem@.len() == m0.len(),
            m0 == old(mem)@,
            mem.next_free_spec() == old(mem).next_free_spec(),
            so >= 2,
            si >= 1,
            si == eff_stride(stride_input),
            so == 2 * eff_stride(stride_output),
            realp == read_u32_spec(m0, input as int),
            imagp == read_u32_spec(m0, input + 4),
            apart == (vectors_apart(output as int, so as int, 8, realp as int, si as int, 4, n as int)
                && vectors_apart(output as int, so as int, 8, imagp as int, si as int, 4, n as int)),
            i <= n,
            vector_in_memory(output as int, so as int, n as int, m0.len() - 4),
            vector_in_memory(realp as int, si as int, n as int, m0.len() as int),
            vector_in_memory(imagp as int, si as int, n as int, m0.len() as int),
            forall|k: int| 0 <= k < m0.len() && !in_pairs(output as int, so as int, i as int, k) ==> #[trigger] mem@[k] == m0[k],
            apart ==> forall|j: int| 0 <= j < i ==> {
                &&& #[trigger] read_u32_spec(mem@, elem_addr(output as int, so as int, j)) == read_u32_spec(m0, elem_addr(realp as int, si as int, j))
                &&& read_u32_spec(mem@, elem_addr(output as int, so as int, j) + 4) == read_u32_spec(m0, elem_addr(imagp as int, si as int, j))
            },
        decreases n - i,
    {
        proof {
            lemma_elem_bounds(output as int, so as int, i as int, n as int);
            lemma_elem_bounds(realp as int, si as int, i as int, n as int);
            lemma_elem_bounds(imagp as int, si as int, i as int, n as int);
        }
        let ra = elem_address(realp, si, i, len);
        let ia = elem_address(imagp, si, i, len);
        let r = mem.read_u32(ra);
        let im = mem.read_u32(ia);
        let dst = elem_address(output, so, i, len);
        let ghost m1 = mem@;
        mem.write_u32(dst, r);
        let ghost m2 = mem@;
        mem.write_u32(dst + 4, im);
        proof {
            lemma_write_read_u32(m1, dst as int, r);
            lemma_write_read_u32(m2, dst + 4, im);
            assert forall|k: int| 0 <= k < m0.len() && !in_pairs(output as int, so as int, i + 1, k)
                implies #[trigger] mem@[k] == m0[k] by {
                if in_pairs(output as int, so as int, i as int, k) {
                    let w = choose|w: int| 0 <= w < i && elem_addr(output as int, so as int, w) <= k
                        < #[trigger] elem_addr(output as int, so as int, w) + 8;
                    assert(0 <= w < i + 1);
                }
                if dst <= k < dst + 8 {
                    assert(0 <= i < i + 1 && elem_addr(output as int, so as int, i as int) <= k);
                }
            }
            if apart {
                let d = elem_addr(output as int, so as int, i as int);
                assert(r == read_u32_spec(m0, ra as int)) by {
                    assert forall|q: int| ra <= q < ra + 4 implies #[trigger] m1[q] == m0[q] by {
                        if in_pairs(output as int, so as int, i as int, q) {
                            let w = choose|w: int| 0 <= w < i && elem_addr(output as int, so as int, w) <= q
                                < #[trigger] elem_addr(output as int, so as int, w) + 8;
                            assert(elem_addr(output as int, so as int, w) + 8 <= elem_addr(realp as int, si as int, i as int)
                                || elem_addr(realp as int, si as int, i as int) + 4 <= elem_addr(output as int, so as int, w));
                        }
                    }
                    crate::mem::lemma_read_u32_same(m1, m0, ra as int);
                }
                assert(im == read_u32_spec(m0, ia as int)) by {
                    assert forall|q: int| ia <= q < ia + 4 implies #[trigger] m1[q] == m0[q] by {
                        if in_pairs(output as int, so as int, i as int, q) {
                            let w = choose|w: int| 0 <= w < i && elem_addr(output as int, so as int, w) <= q
                                < #[trigger] elem_addr(output as int, so as int, w) + 8;
                            assert(elem_addr(output as int, so as int, w) + 8 <= elem_addr(imagp as int, si as int, i as int)
                                || elem_addr(imagp as int, si as int, i as int) + 4 <= elem_addr(output as int, so as int, w));
                        }
                    }
                    crate::mem::lemma_read_u32_same(m1, m0, ia as int);
                }
                lemma_write_u32_other(m2, dst + 4, im, dst as int);
                assert forall|j: int| 0 <= j < i + 1 implies {
                    &&& #[trigger] read_u32_spec(mem@, elem_addr(output as int, so as int, j)) == read_u32_spec(m0, elem_addr(realp as int, si as int, j))
                    &&& read_u32_spec(mem@, elem_addr(output as int, so as int, j) + 4) == read_u32_spec(m0, elem_addr(imagp as int, si as int, j))
                } by {
                    if j < i {
                        let dj = elem_addr(output as int, so as int, j);
                        lemma_elem_order_wide(output as int, so as int, j, i as int);
                        assert(dj + 8 <= d);
                        lemma_elem_bounds(output as int, so as int, j, n as int);
                        lemma_write_u32_other(m1, dst as int, r, dj);
                        lemma_write_u32_other(m2, dst + 4, im, dj);
                        lemma_write_u32_other(m1, dst as int, r, dj + 4);
                        lemma_write_u32_other(m2, dst + 4, im, dj + 4);
                    }
                }
            }
        }
        i = i + 1;
    }
}

} // verus!
