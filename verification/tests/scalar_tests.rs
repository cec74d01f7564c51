use vivrt::scalar::{read_scalar, PropType, Scalar};

struct Lcg(u64);
impl Lcg {
    fn next(&mut self) -> u64 {
        self.0 = self.0.wrapping_mul(6364136223846793005).wrapping_add(1442695040888963407);
        self.0 ^ (self.0 >> 29)
    }
}

#[test]
fn f32_bits_cast_like_rust() {
    let mut r = Lcg(1);
    for i in 0..200_000u32 {
        let b = if i % 3 == 0 {
            ((r.next() % 110 + 100) as u32) << 23 | (r.next() as u32 & 0x807f_ffff)
        } else {
            r.next() as u32
        };
        let x = f32::from_bits(b);
        let s = Scalar::Float(b);
        assert_eq!(s.as_count(), x as usize, "{b:#x}");
        assert_eq!(s.as_index(), x as i32, "{b:#x}");
    }
    for x in [f32::NAN, f32::INFINITY, f32::NEG_INFINITY, -0.0, 0.999, 1.0, 3.7, -3.7, 4.0e9, 1.0e30] {
        let s = Scalar::Float(x.to_bits());
        assert_eq!(s.as_count(), x as usize);
        assert_eq!(s.as_index(), x as i32);
    }
}

#[test]
fn f64_bits_cast_through_f32_like_rust() {
    let mut r = Lcg(7);
    for i in 0..200_000u32 {
        let b = if i % 2 == 0 {
            (r.next() % 200 + 1000) << 52 | (r.next() & 0x800f_ffff_ffff_ffff)
        } else {
            r.next()
        };
        let x = f64::from_bits(b);
        let s = Scalar::Double(b);
        assert_eq!(s.as_count(), (x as f32) as usize, "{b:#x}");
        assert_eq!(s.as_index(), (x as f32) as i32, "{b:#x}");
    }
    for x in [0.99999997f64, 0.9999999, 16777217.0, 2147483647.0, 3.4028235677973366e38, 1e300, -1e-300] {
        let s = Scalar::Double(x.to_bits());
        assert_eq!(s.as_count(), (x as f32) as usize);
        assert_eq!(s.as_index(), (x as f32) as i32);
    }
}

#[test]
fn integers_cast_through_f32_like_rust() {
    let mut r = Lcg(3);
    for _ in 0..200_000 {
        let v = r.next() as u32;
        let s = Scalar::UInt(v);
        assert_eq!(s.as_count(), (v as f32) as usize, "{v}");
        assert_eq!(s.as_index(), (v as f32) as i32, "{v}");
        let w = v as i32;
        let s = Scalar::Int(w);
        assert_eq!(s.as_count(), (w as f32) as usize, "{w}");
        assert_eq!(s.as_index(), (w as f32) as i32, "{w}");
    }
    for w in [i32::MIN, i32::MAX, 16_777_217, -16_777_219, 33_554_435] {
        assert_eq!(Scalar::Int(w).as_index(), (w as f32) as i32);
    }
    assert_eq!(Scalar::Short(-5).as_count(), 0);
    assert_eq!(Scalar::Short(-5).as_index(), -5);
    assert_eq!(Scalar::UShort(65535).as_count(), 65535);
    assert_eq!(Scalar::Uchar(255).as_index(), 255);
}

#[test]
fn little_endian_reads() {
    let b = [0x01, 0x02, 0x03, 0x04, 0x05, 0x06, 0x07, 0x88];
    assert_eq!(read_scalar(&b, 0, PropType::UInt), Scalar::UInt(0x0403_0201));
    assert_eq!(read_scalar(&b, 4, PropType::Int), Scalar::Int(0x8807_0605u32 as i32));
    assert_eq!(read_scalar(&b, 6, PropType::Short), Scalar::Short(0x8807u16 as i16));
    assert_eq!(read_scalar(&b, 6, PropType::UShort), Scalar::UShort(0x8807));
    assert_eq!(read_scalar(&b, 0, PropType::Double), Scalar::Double(0x8807_0605_0403_0201));
    assert_eq!(read_scalar(&b, 7, PropType::Uchar), Scalar::Uchar(0x88));
    assert_eq!(read_scalar(&b, 4, PropType::Float), Scalar::Float(0x8807_0605));
}
