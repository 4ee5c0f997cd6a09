//! Bit patterns of the numbers that the model names.

use vstd::prelude::*;

verus! {

/// 0, in double precision.
pub const ZERO: u64 = 0x0000_0000_0000_0000;

/// One tenth, in double precision.
pub const TENTH: u64 = 0x3FB9_9999_9999_999A;

/// One half, in double precision.
pub const HALF: u64 = 0x3FE0_0000_0000_0000;

/// Eight tenths, in double precision.
pub const EIGHT_TENTHS: u64 = 0x3FE9_9999_9999_999A;

/// 1, in double precision.
pub const ONE: u64 = 0x3FF0_0000_0000_0000;

/// One and a half, in double precision.
pub const ONE_AND_HALF: u64 = 0x3FF8_0000_0000_0000;

/// 2, in double precision.
pub const TWO: u64 = 0x4000_0000_0000_0000;

/// 3, in double precision.
pub const THREE: u64 = 0x4008_0000_0000_0000;

/// 4, in double precision.
pub const FOUR: u64 = 0x4010_0000_0000_0000;

/// 10, in double precision.
pub const TEN: u64 = 0x4024_0000_0000_0000;

/// 16, in double precision.
pub const SIXTEEN: u64 = 0x4030_0000_0000_0000;

/// 30, in double precision.
pub const THIRTY: u64 = 0x403E_0000_0000_0000;

/// 50, in double precision.
pub const FIFTY: u64 = 0x4049_0000_0000_0000;

/// 100, in double precision.
pub const HUNDRED: u64 = 0x4059_0000_0000_0000;

/// 180, in double precision.
pub const HALF_TURN: u64 = 0x4066_8000_0000_0000;

/// 360, in double precision.
pub const FULL_TURN: u64 = 0x4076_8000_0000_0000;

/// -1, in double precision.
pub const MINUS_ONE: u64 = 0xBFF0_0000_0000_0000;

/// Minus one and a half, in double precision.
pub const MINUS_ONE_AND_HALF: u64 = 0xBFF8_0000_0000_0000;

/// -60, in double precision.
pub const MINUS_SIXTY: u64 = 0xC04E_0000_0000_0000;

/// -180, in double precision.
pub const MINUS_HALF_TURN: u64 = 0xC066_8000_0000_0000;

/// One hundredth, in double precision.
pub const HUNDREDTH: u64 = 0x3F84_7AE1_47AE_147B;

/// One millionth, in double precision.
pub const MILLIONTH: u64 = 0x3EB0_C6F7_A0B5_ED8D;

/// One billionth, in double precision.
pub const BILLIONTH: u64 = 0x3E11_2E0B_E826_D695;

/// One thousandth, in double precision.
pub const THOUSANDTH: u64 = 0x3F50_624D_D2F1_A9FC;

/// 0, in single precision.
pub const S_ZERO: u32 = 0x0000_0000;

/// 1, in single precision.
pub const S_ONE: u32 = 0x3F80_0000;

/// 2, in single precision.
pub const S_TWO: u32 = 0x4000_0000;

/// 16, in single precision.
pub const S_SIXTEEN: u32 = 0x4180_0000;

/// One half, in single precision.
pub const S_HALF: u32 = 0x3F00_0000;

/// One millionth, in single precision.
pub const S_MILLIONTH: u32 = 0x3586_37BD;

/// Minus one millionth, in single precision.
pub const S_MINUS_MILLIONTH: u32 = 0xB586_37BD;

/// 255, in single precision.
pub const S_BYTE_MAX: u32 = 0x437F_0000;

/// 42 ten-thousandths, in single precision.
pub const S_GRAIN_SCALE: u32 = 0x3B89_A027;

/// Half a turn in radians, in single precision.
pub const S_PI: u32 = 0x4049_0FDB;

/// A quarter turn in radians, in single precision.
pub const S_QUARTER_TURN: u32 = 0x3FC9_0FDB;

/// A quarter turn back in radians, in single precision.
pub const S_MINUS_QUARTER_TURN: u32 = 0xBFC9_0FDB;

} // verus!
