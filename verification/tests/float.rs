use avio::float::double::F64;
use avio::float::single::F32;

/// A small generator of bit patterns.
struct Bits(u64);

impl Bits {
    fn next(&mut self) -> u64 {
        self.0 ^= self.0 << 13;
        self.0 ^= self.0 >> 7;
        self.0 ^= self.0 << 17;
        self.0
    }
}

fn edges_double() -> Vec<f64> {
    vec![
        0.0,
        -0.0,
        1.0,
        -1.0,
        0.1,
        0.5,
        1.5,
        2.5,
        1.0 / 3.0,
        1e300,
        -1e300,
        1e-300,
        f64::MAX,
        f64::MIN,
        f64::MIN_POSITIVE,
        5e-324,
        -5e-324,
        2.225e-308,
        f64::EPSILON,
        9_007_199_254_740_993.0,
        4_294_967_295.5,
        18_446_744_073_709_551_615.0,
        f64::INFINITY,
        f64::NEG_INFINITY,
        f64::NAN,
    ]
}

fn edges_single() -> Vec<f32> {
    vec![
        0.0,
        -0.0,
        1.0,
        -1.0,
        0.1,
        0.5,
        1.5,
        1.0 / 3.0,
        1e38,
        -1e38,
        1e-38,
        f32::MAX,
        f32::MIN,
        f32::MIN_POSITIVE,
        1e-45,
        -1e-45,
        f32::EPSILON,
        16_777_217.0,
        f32::INFINITY,
        f32::NEG_INFINITY,
        f32::NAN,
    ]
}

/// Pairs of doubles: every pair of edges, patterns at random, and neighbours of one size.
fn pairs_double() -> Vec<(f64, f64)> {
    let edges = edges_double();
    let mut pairs: Vec<(f64, f64)> = Vec::new();
    for a in &edges {
        for b in &edges {
            pairs.push((*a, *b));
        }
    }
    let mut bits = Bits(0x9E37_79B9_7F4A_7C15);
    for _ in 0..2_000 {
        let (a, b) = (bits.next(), bits.next());
        pairs.push((f64::from_bits(a), f64::from_bits(b)));
        let near = (a & 0x7FF0_0000_0000_0000) | (b & 0x800F_FFFF_FFFF_FFFF);
        pairs.push((f64::from_bits(a), f64::from_bits(near)));
        let unit = 0x3FF0_0000_0000_0000 | (a & 0x000F_FFFF_FFFF_FFFF);
        let tiny = b & 0x001F_FFFF_FFFF_FFFF;
        pairs.push((f64::from_bits(unit), f64::from_bits(tiny)));
    }
    pairs
}

fn pairs_single() -> Vec<(f32, f32)> {
    let edges = edges_single();
    let mut pairs: Vec<(f32, f32)> = Vec::new();
    for a in &edges {
        for b in &edges {
            pairs.push((*a, *b));
        }
    }
    let mut bits = Bits(0x2545_F491_4F6C_DD1D);
    for _ in 0..2_000 {
        let (a, b) = (bits.next() as u32, bits.next() as u32);
        pairs.push((f32::from_bits(a), f32::from_bits(b)));
        let near = (a & 0x7F80_0000) | (b & 0x807F_FFFF);
        pairs.push((f32::from_bits(a), f32::from_bits(near)));
        let unit = 0x3F80_0000 | (a & 0x007F_FFFF);
        let tiny = b & 0x00FF_FFFF;
        pairs.push((f32::from_bits(unit), f32::from_bits(tiny)));
    }
    pairs
}

fn double(v: f64) -> F64 {
    F64::from_bits(v.to_bits())
}

fn single(v: f32) -> F32 {
    F32::from_bits(v.to_bits())
}

fn is_double(got: F64, want: f64, what: &str) {
    if want.is_nan() {
        assert!(got.is_nan(), "{what}");
    } else {
        assert_eq!(got.to_bits(), want.to_bits(), "{what}");
    }
}

fn is_single(got: F32, want: f32, what: &str) {
    if want.is_nan() {
        assert!(got.is_nan(), "{what}");
    } else {
        assert_eq!(got.to_bits(), want.to_bits(), "{what}");
    }
}

#[test]
fn double_arithmetic_should_round_to_nearest_even() {
    for (a, b) in pairs_double() {
        is_double(double(a).plus(double(b)), a + b, &format!("{a:e} + {b:e}"));
        is_double(double(a).minus(double(b)), a - b, &format!("{a:e} - {b:e}"));
        is_double(double(a).times(double(b)), a * b, &format!("{a:e} * {b:e}"));
        is_double(double(a).over(double(b)), a / b, &format!("{a:e} / {b:e}"));
    }
}

#[test]
fn single_arithmetic_should_round_to_nearest_even() {
    for (a, b) in pairs_single() {
        is_single(single(a).plus(single(b)), a + b, &format!("{a:e} + {b:e}"));
        is_single(single(a).minus(single(b)), a - b, &format!("{a:e} - {b:e}"));
        is_single(single(a).times(single(b)), a * b, &format!("{a:e} * {b:e}"));
        is_single(single(a).over(single(b)), a / b, &format!("{a:e} / {b:e}"));
    }
}

#[test]
fn comparison_should_be_numeric() {
    for (a, b) in pairs_double() {
        assert_eq!(double(a).below(double(b)), a < b, "{a:e} < {b:e}");
        assert_eq!(double(a).same(double(b)), a == b, "{a:e} == {b:e}");
        assert_eq!(double(a).at_most(double(b)), a <= b, "{a:e} <= {b:e}");
    }
    for (a, b) in pairs_single() {
        assert_eq!(single(a).below(single(b)), a < b, "{a:e} < {b:e}");
        assert_eq!(single(a).same(single(b)), a == b, "{a:e} == {b:e}");
        assert_eq!(single(a).at_most(single(b)), a <= b, "{a:e} <= {b:e}");
    }
}

#[test]
fn bounds_should_hold_values_and_pass_over_nan() {
    for (a, b) in pairs_double() {
        let greater = double(a).max(double(b));
        if a != 0.0 || b != 0.0 {
            is_double(greater, a.max(b), &format!("max({a:e}, {b:e})"));
        }
        is_double(
            double(a).clamp(double(-1.0), double(2.0)),
            a.clamp(-1.0, 2.0),
            &format!("clamp({a:e})"),
        );
    }
    for (a, b) in pairs_single() {
        let greater = single(a).max(single(b));
        if a != 0.0 || b != 0.0 {
            is_single(greater, a.max(b), &format!("max({a:e}, {b:e})"));
        }
        is_single(
            single(a).clamp(single(-1.0), single(2.0)),
            a.clamp(-1.0, 2.0),
            &format!("clamp({a:e})"),
        );
    }
}

#[test]
fn signs_and_classes_should_follow_the_bits() {
    for (a, _) in pairs_double() {
        is_double(double(a).abs(), a.abs(), "abs");
        is_double(double(a).negated(), -a, "negated");
        assert_eq!(double(a).is_nan(), a.is_nan());
        assert_eq!(double(a).is_finite(), a.is_finite());
    }
    for (a, _) in pairs_single() {
        is_single(single(a).abs(), a.abs(), "abs");
        is_single(single(a).negated(), -a, "negated");
        assert_eq!(single(a).is_nan(), a.is_nan());
        assert_eq!(single(a).is_finite(), a.is_finite());
    }
}

#[test]
fn conversions_should_round_to_nearest_even() {
    for (a, _) in pairs_double() {
        is_single(double(a).to_single(), a as f32, &format!("{a:e} as f32"));
        let capped = if a.is_nan() { 0 } else { a.round() as u32 };
        assert_eq!(
            double(a).round_at_most(u64::from(u32::MAX)),
            u64::from(capped),
            "round({a:e})"
        );
    }
    for (a, _) in pairs_single() {
        is_double(F64::from_single(single(a)), f64::from(a), &format!("{a:e} as f64"));
        assert_eq!(
            single(a).truncate_at_most(255),
            u64::from(a as u8),
            "{a:e} as u8"
        );
    }
    let mut bits = Bits(88_172_645_463_325_252);
    for shift in 0..127_u32 {
        let wide = (u128::from(bits.next()) << 64 | u128::from(bits.next())) >> 1;
        let v = wide >> shift;
        is_double(F64::from_whole(v), v as f64, &format!("{v} as f64"));
        is_single(F32::from_whole(v), v as f32, &format!("{v} as f32"));
    }
}
