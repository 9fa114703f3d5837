use touchhle::accelerate::{vDSP_ctoz, vDSP_vclr, vDSP_vfill, vDSP_ztoc};
use touchhle::mem::Mem;

fn f(mem: &Mem, a: u32) -> f32 {
    f32::from_bits(mem.read_u32(a))
}

#[test]
fn vclr_zeroes_strided_elements() {
    let mut mem = Mem::new(0x1000, 0x800);
    for i in 0..8u32 {
        mem.write_u32(0x100 + 4 * i, 1.5f32.to_bits());
    }
    vDSP_vclr(&mut mem, 0x100, 2, 3);
    let got: Vec<f32> = (0..8u32).map(|i| f(&mem, 0x100 + 4 * i)).collect();
    assert_eq!(got, vec![0.0, 1.5, 0.0, 1.5, 0.0, 1.5, 1.5, 1.5]);
    // A stride of 0 counts as 1.
    vDSP_vclr(&mut mem, 0x100, 0, 2);
    assert_eq!(f(&mem, 0x104), 0.0);
}

#[test]
fn vfill_copies_the_scalar() {
    let mut mem = Mem::new(0x1000, 0x800);
    mem.write_u32(0x80, 2.25f32.to_bits());
    vDSP_vfill(&mut mem, 0x80, 0x100, 1, 3);
    assert_eq!((f(&mem, 0x100), f(&mem, 0x104), f(&mem, 0x108)), (2.25, 2.25, 2.25));
    assert_eq!(mem.read_u32(0x10c), 0);
}

#[test]
fn interleaved_and_split_complex_round_trip() {
    let mut mem = Mem::new(0x1000, 0x800);
    // Interleaved (re, im) pairs at 0x100.
    let pairs = [(1.0f32, -1.0f32), (2.0, -2.0), (3.0, -3.0)];
    for (i, (re, im)) in pairs.iter().enumerate() {
        mem.write_u32(0x100 + 8 * i as u32, re.to_bits());
        mem.write_u32(0x104 + 8 * i as u32, im.to_bits());
    }
    // DSPSplitComplex at 0x80: realp 0x200, imagp 0x300.
    mem.write_u32(0x80, 0x200);
    mem.write_u32(0x84, 0x300);
    vDSP_ctoz(&mut mem, 0x100, 1, 0x80, 1, 3);
    assert_eq!((f(&mem, 0x200), f(&mem, 0x204), f(&mem, 0x208)), (1.0, 2.0, 3.0));
    assert_eq!((f(&mem, 0x300), f(&mem, 0x304), f(&mem, 0x308)), (-1.0, -2.0, -3.0));
    vDSP_ztoc(&mut mem, 0x80, 1, 0x400, 1, 3);
    for (i, (re, im)) in pairs.iter().enumerate() {
        assert_eq!(f(&mem, 0x400 + 8 * i as u32), *re);
        assert_eq!(f(&mem, 0x404 + 8 * i as u32), *im);
    }
}
