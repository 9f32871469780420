//! Fixed-point constant tables: cosine-modulation coefficients and prototype
//! filter taps, derived once ahead of time by rounded right shifts of the
//! 62-bit master constants (see the rounding helpers and the table tests).

use vstd::prelude::*;

verus! {

pub const COS_N_PI_D16: [i64; 9] = [
    0x4000000000000000,
    0x3EC52F9FEEB96000,
    0x3B20D79E651A8C00,
    0x3536CC521D434600,
    0x2D413CCCFE779A00,
    0x238E76735CD19200,
    0x187DE2A6AEA96400,
    0xC7C5C1E34D30680,
    0x11A,
];

pub const M_COS_N_PI_D16: [i32; 9] = [
    0x2000,
    0x1F63,
    0x1D90,
    0x1A9B,
    0x16A1,
    0x11C7,
    0xC3F,
    0x63E,
    0x0,
];

pub const PROTO_4: [[i64; 4]; 10] = [
    [0x0, -0x2329CC4DFBB9F0, -0x61C5A72480C2A4, -0xB32806EC6FB5B0],
    [-0xFB7990CC28D590, -0xFF11C9DD286C88, -0x7A47369BD89920, 0xC88C579AFE3EF8],
    [-0x2CB3E8ADDC7A480, -0x53B7546720D0A40, -0x76466838306FA00, -0x83DDC802F4B8380],
    [-0x69FDC588CDD3E40, -0x191E5782ED8B810, 0x760DC5898E3E040, 0x13E0A19353A87500],
    [-0x22B63DA563379A00, -0x31EAB92036701800, -0x3F23948D48DBF000, -0x4825E4A2F9B70800],
    [-0x4B583FE5A6C0FC00, -0x4825E4A2F9B70800, -0x3F23948D48DBF000, -0x31EAB92036701800],
    [0x22B63DA563379A00, 0x13E0A19353A87500, 0x760DC5898E3E040, -0x191E5782ED8B810],
    [-0x69FDC588CDD3E40, -0x83DDC802F4B8380, -0x76466838306FA00, -0x53B7546720D0A40],
    [0x2CB3E8ADDC7A480, 0xC88C579AFE3EF8, -0x7A47369BD89920, -0xFF11C9DD286C88],
    [-0xFB7990CC28D590, -0xB32806EC6FB5B0, -0x61C5A72480C2A4, -0x2329CC4DFBB9F0],
];

pub const PROTO_8: [[i64; 8]; 10] = [
    [0x0, -0x1485CC6D7305FD, -0x2CFDC63D3150EA, -0x48B1F742326B2C, -0x6BFE26AA659C44, -0x956989CA844928, -0xC183D1F2D8A578, -0xE9CB9E82144A70],
    [-0x107B1A8C4B0CFC0, -0x113BD204146FCD0, -0x1056DD7BAB7AF80, -0xD3E2D8F93B1FD0, -0x763F4829FFBA18, 0x176FB65B0E6E4E, 0xD83BC9366CB208, 0x1CA61B48E2F32C0],
    [-0x2E5CD218DF1A920, -0x41C6E58B6C50A80, -0x55ACF28789862C0, -0x686CE2DFE739680, -0x780893286498C80, -0x824A47CB1077280, -0x84E194F9DA73980, -0x7D7D0911B7E8840],
    [-0x69FB3BF28AD1A00, -0x488FAE95467C240, -0x17F43FDE8C6FBF0, 0x2845236BAF167E0, 0x77EF28FAF2905C0, 0xD5E46082C5C4500, 0x1401A81073CE5500, 0x1B3B5DBF9CE53300],
    [-0x22D0C1E98DDB7200, -0x2A7CFA69A28CDC00, -0x31F566D959CC4400, -0x38EEC5BD5B621E00, -0x3F1C87E4D51B1400, -0x443B3BC04A886400, -0x4810D7E98B746800, -0x4A7089BC1225AC00],
    [-0x4B3DB1D61539BC00, -0x4A7089BC1225AC00, -0x4810D7E98B746800, -0x443B3BC04A886400, -0x3F1C87E4D51B1400, -0x38EEC5BD5B621E00, -0x31F566D959CC4400, -0x2A7CFA69A28CDC00],
    [0x22D0C1E98DDB7200, 0x1B3B5DBF9CE53300, 0x1401A81073CE5500, 0xD5E46082C5C4500, 0x77EF28FAF2905C0, 0x2845236BAF167E0, -0x17F43FDE8C6FBF0, -0x488FAE95467C240],
    [-0x69FB3BF28AD1A00, -0x7D7D0911B7E8840, -0x84E194F9DA73980, -0x824A47CB1077280, -0x780893286498C80, -0x686CE2DFE739680, -0x55ACF28789862C0, -0x41C6E58B6C50A80],
    [0x2E5CD218DF1A920, 0x1CA61B48E2F32C0, 0xD83BC9366CB208, 0x176FB65B0E6E4E, -0x763F4829FFBA18, -0xD3E2D8F93B1FD0, -0x1056DD7BAB7AF80, -0x113BD204146FCD0],
    [-0x107B1A8C4B0CFC0, -0xE9CB9E82144A70, -0xC183D1F2D8A578, -0x956989CA844928, -0x6BFE26AA659C44, -0x48B1F742326B2C, -0x2CFDC63D3150EA, -0x1485CC6D7305FD],
];

pub const M_PROTO_4: [[i32; 4]; 10] = [
    [0x0, -0x46, -0xC4, -0x166],
    [-0x1F7, -0x1FE, -0xF5, 0x191],
    [-0x596, -0xA77, -0xEC9, -0x107C],
    [-0xD40, -0x324, 0xEC2, 0x27C1],
    [-0x456C, -0x63D5, -0x7E47, -0x904C],
    [-0x96B0, -0x904C, -0x7E47, -0x63D5],
    [0x456C, 0x27C1, 0xEC2, -0x324],
    [-0xD40, -0x107C, -0xEC9, -0xA77],
    [0x596, 0x191, -0xF5, -0x1FE],
    [-0x1F7, -0x166, -0xC4, -0x46],
];

pub const M_PROTO_8: [[i32; 8]; 10] = [
    [0x0, -0x29, -0x5A, -0x91, -0xD8, -0x12B, -0x183, -0x1D4],
    [-0x20F, -0x227, -0x20B, -0x1A8, -0xEC, 0x2F, 0x1B0, 0x395],
    [-0x5CC, -0x839, -0xAB6, -0xD0E, -0xF01, -0x1049, -0x109C, -0xFB0],
    [-0xD3F, -0x912, -0x2FF, 0x509, 0xEFE, 0x1ABD, 0x2803, 0x3677],
    [-0x45A2, -0x54FA, -0x63EB, -0x71DE, -0x7E39, -0x8876, -0x9022, -0x94E1],
    [-0x967B, -0x94E1, -0x9022, -0x8876, -0x7E39, -0x71DE, -0x63EB, -0x54FA],
    [0x45A2, 0x3677, 0x2803, 0x1ABD, 0xEFE, 0x509, -0x2FF, -0x912],
    [-0xD3F, -0xFB0, -0x109C, -0x1049, -0xF01, -0xD0E, -0xAB6, -0x839],
    [0x5CC, 0x395, 0x1B0, 0x2F, -0xEC, -0x1A8, -0x20B, -0x227],
    [-0x20F, -0x1D4, -0x183, -0x12B, -0xD8, -0x91, -0x5A, -0x29],
];

pub const M_1_000: i32 = 0x2000;

pub const M_0_980: i32 = 0x1F63;

pub const M_0_923: i32 = 0x1D90;

pub const M_0_831: i32 = 0x1A9B;

pub const M_0_707: i32 = 0x16A1;

pub const M_0_555: i32 = 0x11C7;

pub const M_0_382: i32 = 0xC3F;

pub const M_0_195: i32 = 0x63E;

} // verus!
