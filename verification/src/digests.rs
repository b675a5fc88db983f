//! Digests: SHA-256, SHA-512, MD5 and the checksum of `cksum`.

use vstd::prelude::*;
use vstd::slice::slice_subrange;

use crate::hashes::{
    add32, big_endian, pad_message, padded_message, plus, push_big_endian, push_zeros, rotate, rotated, zero_count,
};

verus! {

// ---------------------------------------------------------------------------
// SHA-256
// ---------------------------------------------------------------------------

/// The constant of step `t` of SHA-256.
pub open spec fn sha256_constant(t: int) -> u32 {
    if t == 0 {
        0x428a_2f98
    } else if t == 1 {
        0x7137_4491
    } else if t == 2 {
        0xb5c0_fbcf
    } else if t == 3 {
        0xe9b5_dba5
    } else if t == 4 {
        0x3956_c25b
    } else if t == 5 {
        0x59f1_11f1
    } else if t == 6 {
        0x923f_82a4
    } else if t == 7 {
        0xab1c_5ed5
    } else if t == 8 {
        0xd807_aa98
    } else if t == 9 {
        0x1283_5b01
    } else if t == 10 {
        0x2431_85be
    } else if t == 11 {
        0x550c_7dc3
    } else if t == 12 {
        0x72be_5d74
    } else if t == 13 {
        0x80de_b1fe
    } else if t == 14 {
        0x9bdc_06a7
    } else if t == 15 {
        0xc19b_f174
    } else if t == 16 {
        0xe49b_69c1
    } else if t == 17 {
        0xefbe_4786
    } else if t == 18 {
        0x0fc1_9dc6
    } else if t == 19 {
        0x240c_a1cc
    } else if t == 20 {
        0x2de9_2c6f
    } else if t == 21 {
        0x4a74_84aa
    } else if t == 22 {
        0x5cb0_a9dc
    } else if t == 23 {
        0x76f9_88da
    } else if t == 24 {
        0x983e_5152
    } else if t == 25 {
        0xa831_c66d
    } else if t == 26 {
        0xb003_27c8
    } else if t == 27 {
        0xbf59_7fc7
    } else if t == 28 {
        0xc6e0_0bf3
    } else if t == 29 {
        0xd5a7_9147
    } else if t == 30 {
        0x06ca_6351
    } else if t == 31 {
        0x1429_2967
    } else if t == 32 {
        0x27b7_0a85
    } else if t == 33 {
        0x2e1b_2138
    } else if t == 34 {
        0x4d2c_6dfc
    } else if t == 35 {
        0x5338_0d13
    } else if t == 36 {
        0x650a_7354
    } else if t == 37 {
        0x766a_0abb
    } else if t == 38 {
        0x81c2_c92e
    } else if t == 39 {
        0x9272_2c85
    } else if t == 40 {
        0xa2bf_e8a1
    } else if t == 41 {
        0xa81a_664b
    } else if t == 42 {
        0xc24b_8b70
    } else if t == 43 {
        0xc76c_51a3
    } else if t == 44 {
        0xd192_e819
    } else if t == 45 {
        0xd699_0624
    } else if t == 46 {
        0xf40e_3585
    } else if t == 47 {
        0x106a_a070
    } else if t == 48 {
        0x19a4_c116
    } else if t == 49 {
        0x1e37_6c08
    } else if t == 50 {
        0x2748_774c
    } else if t == 51 {
        0x34b0_bcb5
    } else if t == 52 {
        0x391c_0cb3
    } else if t == 53 {
        0x4ed8_aa4a
    } else if t == 54 {
        0x5b9c_ca4f
    } else if t == 55 {
        0x682e_6ff3
    } else if t == 56 {
        0x748f_82ee
    } else if t == 57 {
        0x78a5_636f
    } else if t == 58 {
        0x84c8_7814
    } else if t == 59 {
        0x8cc7_0208
    } else if t == 60 {
        0x90be_fffa
    } else if t == 61 {
        0xa450_6ceb
    } else if t == 62 {
        0xbef9_a3f7
    } else {
        0xc671_78f2
    }
}

fn constant256(t: usize) -> (r: u32)
    requires
        t < 64,
    ensures
        r == sha256_constant(t as int),
{
    if t == 0 {
        0x428a_2f98
    } else if t == 1 {
        0x7137_4491
    } else if t == 2 {
        0xb5c0_fbcf
    } else if t == 3 {
        0xe9b5_dba5
    } else if t == 4 {
        0x3956_c25b
    } else if t == 5 {
        0x59f1_11f1
    } else if t == 6 {
        0x923f_82a4
    } else if t == 7 {
        0xab1c_5ed5
    } else if t == 8 {
        0xd807_aa98
    } else if t == 9 {
        0x1283_5b01
    } else if t == 10 {
        0x2431_85be
    } else if t == 11 {
        0x550c_7dc3
    } else if t == 12 {
        0x72be_5d74
    } else if t == 13 {
        0x80de_b1fe
    } else if t == 14 {
        0x9bdc_06a7
    } else if t == 15 {
        0xc19b_f174
    } else if t == 16 {
        0xe49b_69c1
    } else if t == 17 {
        0xefbe_4786
    } else if t == 18 {
        0x0fc1_9dc6
    } else if t == 19 {
        0x240c_a1cc
    } else if t == 20 {
        0x2de9_2c6f
    } else if t == 21 {
        0x4a74_84aa
    } else if t == 22 {
        0x5cb0_a9dc
    } else if t == 23 {
        0x76f9_88da
    } else if t == 24 {
        0x983e_5152
    } else if t == 25 {
        0xa831_c66d
    } else if t == 26 {
        0xb003_27c8
    } else if t == 27 {
        0xbf59_7fc7
    } else if t == 28 {
        0xc6e0_0bf3
    } else if t == 29 {
        0xd5a7_9147
    } else if t == 30 {
        0x06ca_6351
    } else if t == 31 {
        0x1429_2967
    } else if t == 32 {
        0x27b7_0a85
    } else if t == 33 {
        0x2e1b_2138
    } else if t == 34 {
        0x4d2c_6dfc
    } else if t == 35 {
        0x5338_0d13
    } else if t == 36 {
        0x650a_7354
    } else if t == 37 {
        0x766a_0abb
    } else if t == 38 {
        0x81c2_c92e
    } else if t == 39 {
        0x9272_2c85
    } else if t == 40 {
        0xa2bf_e8a1
    } else if t == 41 {
        0xa81a_664b
    } else if t == 42 {
        0xc24b_8b70
    } else if t == 43 {
        0xc76c_51a3
    } else if t == 44 {
        0xd192_e819
    } else if t == 45 {
        0xd699_0624
    } else if t == 46 {
        0xf40e_3585
    } else if t == 47 {
        0x106a_a070
    } else if t == 48 {
        0x19a4_c116
    } else if t == 49 {
        0x1e37_6c08
    } else if t == 50 {
        0x2748_774c
    } else if t == 51 {
        0x34b0_bcb5
    } else if t == 52 {
        0x391c_0cb3
    } else if t == 53 {
        0x4ed8_aa4a
    } else if t == 54 {
        0x5b9c_ca4f
    } else if t == 55 {
        0x682e_6ff3
    } else if t == 56 {
        0x748f_82ee
    } else if t == 57 {
        0x78a5_636f
    } else if t == 58 {
        0x84c8_7814
    } else if t == 59 {
        0x8cc7_0208
    } else if t == 60 {
        0x90be_fffa
    } else if t == 61 {
        0xa450_6ceb
    } else if t == 62 {
        0xbef9_a3f7
    } else {
        0xc671_78f2
    }
}

/// `x` rotated right by `n` bits.
pub open spec fn turned32(x: u32, n: u32) -> u32 {
    (x >> n) | (x << ((32 - n) as u32))
}

fn turn32(x: u32, n: u32) -> (r: u32)
    requires
        0 < n < 32,
    ensures
        r == turned32(x, n),
{
    (x >> n) | (x << (32 - n))
}

/// The big-endian word at `bytes[4 * i..]`.
pub open spec fn word32_at(bytes: Seq<u8>, i: int) -> u32 {
    ((bytes[4 * i + 0] as u32) << 24u32) | ((bytes[4 * i + 1] as u32) << 16u32) | ((bytes[4 * i + 2] as u32) << 8u32) | (bytes[4 * i + 3] as u32)
}

/// The `t`th word of the message schedule of a block.
pub open spec fn schedule256(block: Seq<u8>, t: int) -> u32
    decreases t,
{
    if t < 16 {
        word32_at(block, t)
    } else {
        let x = schedule256(block, t - 15);
        let y = schedule256(block, t - 2);
        plus(
            plus(schedule256(block, t - 16), turned32(x, 7) ^ turned32(x, 18) ^ (x >> 3u32)),
            plus(schedule256(block, t - 7), turned32(y, 17) ^ turned32(y, 19) ^ (y >> 10u32)),
        )
    }
}

/// The eight words of the running state of SHA-256.
#[derive(Clone, Copy)]
pub struct State256 {
    pub a: u32,
    pub b: u32,
    pub c: u32,
    pub d: u32,
    pub e: u32,
    pub f: u32,
    pub g: u32,
    pub h: u32,
}

/// The state after `t` steps on `block`.
pub open spec fn steps256(s: State256, block: Seq<u8>, t: int) -> State256
    decreases t,
{
    if t <= 0 {
        s
    } else {
        let p = steps256(s, block, t - 1);
        let one = plus(
            plus(
                plus(plus(p.h, turned32(p.e, 6) ^ turned32(p.e, 11) ^ turned32(p.e, 25)), (p.e & p.f) ^ ((!p.e) & p.g)),
                sha256_constant(t - 1),
            ),
            schedule256(block, t - 1),
        );
        let two = plus(turned32(p.a, 2) ^ turned32(p.a, 13) ^ turned32(p.a, 22), (p.a & p.b) ^ (p.a & p.c) ^ (p.b & p.c));
        State256 {
            a: plus(one, two),
            b: p.a,
            c: p.b,
            d: p.c,
            e: plus(p.d, one),
            f: p.e,
            g: p.f,
            h: p.g,
        }
    }
}

/// The state after one whole block.
pub open spec fn compressed256(s: State256, block: Seq<u8>) -> State256 {
    let r = steps256(s, block, 64);
    State256 {
        a: plus(s.a, r.a),
        b: plus(s.b, r.b),
        c: plus(s.c, r.c),
        d: plus(s.d, r.d),
        e: plus(s.e, r.e),
        f: plus(s.f, r.f),
        g: plus(s.g, r.g),
        h: plus(s.h, r.h),
    }
}

/// The state after the first `n` blocks of `data`.
pub open spec fn after_blocks256(data: Seq<u8>, n: int) -> State256
    decreases n,
{
    if n <= 0 {
        State256 {
            a: 0x6a09_e667,
            b: 0xbb67_ae85,
            c: 0x3c6e_f372,
            d: 0xa54f_f53a,
            e: 0x510e_527f,
            f: 0x9b05_688c,
            g: 0x1f83_d9ab,
            h: 0x5be0_cd19,
        }
    } else {
        compressed256(after_blocks256(data, n - 1), data.subrange(64 * (n - 1), 64 * n))
    }
}

/// The bytes of a state of SHA-256.
pub open spec fn state256_bytes(s: State256) -> Seq<u8> {
    big_endian(s.a as int, 4) + big_endian(s.b as int, 4) + big_endian(s.c as int, 4) + big_endian(s.d as int, 4) + big_endian(s.e as int, 4) + big_endian(s.f as int, 4) + big_endian(s.g as int, 4) + big_endian(s.h as int, 4)
}

/// The SHA-256 digest of `data`.
pub open spec fn sha256_digest(data: Seq<u8>) -> Seq<u8> {
    let padded = padded_message(data);
    state256_bytes(after_blocks256(padded, padded.len() as int / 64))
}

fn expand256(block: &[u8]) -> (w: Vec<u32>)
    requires
        block@.len() == 64,
    ensures
        w@.len() == 64,
        forall|i: int| 0 <= i < 64 ==> w@[i] == #[trigger] schedule256(block@, i),
{
    let mut w: Vec<u32> = Vec::new();
    let mut t: usize = 0;
    while t < 16
        invariant
            t <= 16,
            w@.len() == t,
            block@.len() == 64,
            forall|i: int| 0 <= i < t ==> w@[i] == #[trigger] schedule256(block@, i),
        decreases 16 - t,
    {
        let word: u32 = ((block[4 * t + 0] as u32) << 24u32) | ((block[4 * t + 1] as u32) << 16u32) | ((block[4 * t + 2] as u32) << 8u32) | (block[4 * t + 3] as u32);
        w.push(word);
        t += 1;
    }
    while t < 64
        invariant
            16 <= t <= 64,
            w@.len() == t,
            forall|i: int| 0 <= i < t ==> w@[i] == #[trigger] schedule256(block@, i),
        decreases 64 - t,
    {
        let x = w[t - 15];
        let y = w[t - 2];
        assert(x == schedule256(block@, t - 15));
        assert(y == schedule256(block@, t - 2));
        assert(w@[t - 16] == schedule256(block@, t - 16));
        assert(w@[t - 7] == schedule256(block@, t - 7));
        let word = add32(
            add32(w[t - 16], turn32(x, 7) ^ turn32(x, 18) ^ (x >> 3u32)),
            add32(w[t - 7], turn32(y, 17) ^ turn32(y, 19) ^ (y >> 10u32)),
        );
        w.push(word);
        t += 1;
    }
    w
}

fn compress256(s: &State256, block: &[u8]) -> (r: State256)
    requires
        block@.len() == 64,
    ensures
        r == compressed256(*s, block@),
{
    let w = expand256(block);
    let mut p: State256 = *s;
    let mut i: usize = 0;
    while i < 64
        invariant
            i <= 64,
            w@.len() == 64,
            forall|i: int| 0 <= i < 64 ==> w@[i] == #[trigger] schedule256(block@, i),
            p == steps256(*s, block@, i as int),
        decreases 64 - i,
    {
        assert(w@[i as int] == schedule256(block@, i as int));
        let one = add32(
            add32(
                add32(add32(p.h, turn32(p.e, 6) ^ turn32(p.e, 11) ^ turn32(p.e, 25)), (p.e & p.f) ^ ((!p.e) & p.g)),
                constant256(i),
            ),
            w[i],
        );
        let two = add32(turn32(p.a, 2) ^ turn32(p.a, 13) ^ turn32(p.a, 22), (p.a & p.b) ^ (p.a & p.c) ^ (p.b & p.c));
        p = State256 {
            a: add32(one, two),
            b: p.a,
            c: p.b,
            d: p.c,
            e: add32(p.d, one),
            f: p.e,
            g: p.f,
            h: p.g,
        };
        i += 1;
    }
    State256 {
        a: add32(s.a, p.a),
        b: add32(s.b, p.b),
        c: add32(s.c, p.c),
        d: add32(s.d, p.d),
        e: add32(s.e, p.e),
        f: add32(s.f, p.f),
        g: add32(s.g, p.g),
        h: add32(s.h, p.h),
    }
}

/// The SHA-256 digest of `data`.
pub fn sha256(data: &[u8]) -> (r: Vec<u8>)
    ensures
        r@ == sha256_digest(data@),
{
    let padded = pad_message(data);
    let total: usize = padded.len();
    let count: usize = total / 64;
    let mut s = State256 {
        a: 0x6a09_e667,
        b: 0xbb67_ae85,
        c: 0x3c6e_f372,
        d: 0xa54f_f53a,
        e: 0x510e_527f,
        f: 0x9b05_688c,
        g: 0x1f83_d9ab,
        h: 0x5be0_cd19,
    };
    let mut n: usize = 0;
    while n < count
        invariant
            n <= count,
            count == total / 64,
            total == padded@.len(),
            s == after_blocks256(padded@, n as int),
        decreases count - n,
    {
        s = compress256(&s, slice_subrange(padded.as_slice(), 64 * n, 64 * (n + 1)));
        n += 1;
    }
    let mut out: Vec<u8> = Vec::new();
    push_big_endian(&mut out, s.a as u128, 4);
    push_big_endian(&mut out, s.b as u128, 4);
    push_big_endian(&mut out, s.c as u128, 4);
    push_big_endian(&mut out, s.d as u128, 4);
    push_big_endian(&mut out, s.e as u128, 4);
    push_big_endian(&mut out, s.f as u128, 4);
    push_big_endian(&mut out, s.g as u128, 4);
    push_big_endian(&mut out, s.h as u128, 4);
    assert(out@ =~= state256_bytes(s));
    out
}

// ---------------------------------------------------------------------------
// SHA-512
// ---------------------------------------------------------------------------

/// The constant of step `t` of SHA-512.
pub open spec fn sha512_constant(t: int) -> u64 {
    if t == 0 {
        0x428a_2f98_d728_ae22
    } else if t == 1 {
        0x7137_4491_23ef_65cd
    } else if t == 2 {
        0xb5c0_fbcf_ec4d_3b2f
    } else if t == 3 {
        0xe9b5_dba5_8189_dbbc
    } else if t == 4 {
        0x3956_c25b_f348_b538
    } else if t == 5 {
        0x59f1_11f1_b605_d019
    } else if t == 6 {
        0x923f_82a4_af19_4f9b
    } else if t == 7 {
        0xab1c_5ed5_da6d_8118
    } else if t == 8 {
        0xd807_aa98_a303_0242
    } else if t == 9 {
        0x1283_5b01_4570_6fbe
    } else if t == 10 {
        0x2431_85be_4ee4_b28c
    } else if t == 11 {
        0x550c_7dc3_d5ff_b4e2
    } else if t == 12 {
        0x72be_5d74_f27b_896f
    } else if t == 13 {
        0x80de_b1fe_3b16_96b1
    } else if t == 14 {
        0x9bdc_06a7_25c7_1235
    } else if t == 15 {
        0xc19b_f174_cf69_2694
    } else if t == 16 {
        0xe49b_69c1_9ef1_4ad2
    } else if t == 17 {
        0xefbe_4786_384f_25e3
    } else if t == 18 {
        0x0fc1_9dc6_8b8c_d5b5
    } else if t == 19 {
        0x240c_a1cc_77ac_9c65
    } else if t == 20 {
        0x2de9_2c6f_592b_0275
    } else if t == 21 {
        0x4a74_84aa_6ea6_e483
    } else if t == 22 {
        0x5cb0_a9dc_bd41_fbd4
    } else if t == 23 {
        0x76f9_88da_8311_53b5
    } else if t == 24 {
        0x983e_5152_ee66_dfab
    } else if t == 25 {
        0xa831_c66d_2db4_3210
    } else if t == 26 {
        0xb003_27c8_98fb_213f
    } else if t == 27 {
        0xbf59_7fc7_beef_0ee4
    } else if t == 28 {
        0xc6e0_0bf3_3da8_8fc2
    } else if t == 29 {
        0xd5a7_9147_930a_a725
    } else if t == 30 {
        0x06ca_6351_e003_826f
    } else if t == 31 {
        0x1429_2967_0a0e_6e70
    } else if t == 32 {
        0x27b7_0a85_46d2_2ffc
    } else if t == 33 {
        0x2e1b_2138_5c26_c926
    } else if t == 34 {
        0x4d2c_6dfc_5ac4_2aed
    } else if t == 35 {
        0x5338_0d13_9d95_b3df
    } else if t == 36 {
        0x650a_7354_8baf_63de
    } else if t == 37 {
        0x766a_0abb_3c77_b2a8
    } else if t == 38 {
        0x81c2_c92e_47ed_aee6
    } else if t == 39 {
        0x9272_2c85_1482_353b
    } else if t == 40 {
        0xa2bf_e8a1_4cf1_0364
    } else if t == 41 {
        0xa81a_664b_bc42_3001
    } else if t == 42 {
        0xc24b_8b70_d0f8_9791
    } else if t == 43 {
        0xc76c_51a3_0654_be30
    } else if t == 44 {
        0xd192_e819_d6ef_5218
    } else if t == 45 {
        0xd699_0624_5565_a910
    } else if t == 46 {
        0xf40e_3585_5771_202a
    } else if t == 47 {
        0x106a_a070_32bb_d1b8
    } else if t == 48 {
        0x19a4_c116_b8d2_d0c8
    } else if t == 49 {
        0x1e37_6c08_5141_ab53
    } else if t == 50 {
        0x2748_774c_df8e_eb99
    } else if t == 51 {
        0x34b0_bcb5_e19b_48a8
    } else if t == 52 {
        0x391c_0cb3_c5c9_5a63
    } else if t == 53 {
        0x4ed8_aa4a_e341_8acb
    } else if t == 54 {
        0x5b9c_ca4f_7763_e373
    } else if t == 55 {
        0x682e_6ff3_d6b2_b8a3
    } else if t == 56 {
        0x748f_82ee_5def_b2fc
    } else if t == 57 {
        0x78a5_636f_4317_2f60
    } else if t == 58 {
        0x84c8_7814_a1f0_ab72
    } else if t == 59 {
        0x8cc7_0208_1a64_39ec
    } else if t == 60 {
        0x90be_fffa_2363_1e28
    } else if t == 61 {
        0xa450_6ceb_de82_bde9
    } else if t == 62 {
        0xbef9_a3f7_b2c6_7915
    } else if t == 63 {
        0xc671_78f2_e372_532b
    } else if t == 64 {
        0xca27_3ece_ea26_619c
    } else if t == 65 {
        0xd186_b8c7_21c0_c207
    } else if t == 66 {
        0xeada_7dd6_cde0_eb1e
    } else if t == 67 {
        0xf57d_4f7f_ee6e_d178
    } else if t == 68 {
        0x06f0_67aa_7217_6fba
    } else if t == 69 {
        0x0a63_7dc5_a2c8_98a6
    } else if t == 70 {
        0x113f_9804_bef9_0dae
    } else if t == 71 {
        0x1b71_0b35_131c_471b
    } else if t == 72 {
        0x28db_77f5_2304_7d84
    } else if t == 73 {
        0x32ca_ab7b_40c7_2493
    } else if t == 74 {
        0x3c9e_be0a_15c9_bebc
    } else if t == 75 {
        0x431d_67c4_9c10_0d4c
    } else if t == 76 {
        0x4cc5_d4be_cb3e_42b6
    } else if t == 77 {
        0x597f_299c_fc65_7e2a
    } else if t == 78 {
        0x5fcb_6fab_3ad6_faec
    } else {
        0x6c44_198c_4a47_5817
    }
}

fn constant512(t: usize) -> (r: u64)
    requires
        t < 80,
    ensures
        r == sha512_constant(t as int),
{
    if t == 0 {
        0x428a_2f98_d728_ae22
    } else if t == 1 {
        0x7137_4491_23ef_65cd
    } else if t == 2 {
        0xb5c0_fbcf_ec4d_3b2f
    } else if t == 3 {
        0xe9b5_dba5_8189_dbbc
    } else if t == 4 {
        0x3956_c25b_f348_b538
    } else if t == 5 {
        0x59f1_11f1_b605_d019
    } else if t == 6 {
        0x923f_82a4_af19_4f9b
    } else if t == 7 {
        0xab1c_5ed5_da6d_8118
    } else if t == 8 {
        0xd807_aa98_a303_0242
    } else if t == 9 {
        0x1283_5b01_4570_6fbe
    } else if t == 10 {
        0x2431_85be_4ee4_b28c
    } else if t == 11 {
        0x550c_7dc3_d5ff_b4e2
    } else if t == 12 {
        0x72be_5d74_f27b_896f
    } else if t == 13 {
        0x80de_b1fe_3b16_96b1
    } else if t == 14 {
        0x9bdc_06a7_25c7_1235
    } else if t == 15 {
        0xc19b_f174_cf69_2694
    } else if t == 16 {
        0xe49b_69c1_9ef1_4ad2
    } else if t == 17 {
        0xefbe_4786_384f_25e3
    } else if t == 18 {
        0x0fc1_9dc6_8b8c_d5b5
    } else if t == 19 {
        0x240c_a1cc_77ac_9c65
    } else if t == 20 {
        0x2de9_2c6f_592b_0275
    } else if t == 21 {
        0x4a74_84aa_6ea6_e483
    } else if t == 22 {
        0x5cb0_a9dc_bd41_fbd4
    } else if t == 23 {
        0x76f9_88da_8311_53b5
    } else if t == 24 {
        0x983e_5152_ee66_dfab
    } else if t == 25 {
        0xa831_c66d_2db4_3210
    } else if t == 26 {
        0xb003_27c8_98fb_213f
    } else if t == 27 {
        0xbf59_7fc7_beef_0ee4
    } else if t == 28 {
        0xc6e0_0bf3_3da8_8fc2
    } else if t == 29 {
        0xd5a7_9147_930a_a725
    } else if t == 30 {
        0x06ca_6351_e003_826f
    } else if t == 31 {
        0x1429_2967_0a0e_6e70
    } else if t == 32 {
        0x27b7_0a85_46d2_2ffc
    } else if t == 33 {
        0x2e1b_2138_5c26_c926
    } else if t == 34 {
        0x4d2c_6dfc_5ac4_2aed
    } else if t == 35 {
        0x5338_0d13_9d95_b3df
    } else if t == 36 {
        0x650a_7354_8baf_63de
    } else if t == 37 {
        0x766a_0abb_3c77_b2a8
    } else if t == 38 {
        0x81c2_c92e_47ed_aee6
    } else if t == 39 {
        0x9272_2c85_1482_353b
    } else if t == 40 {
        0xa2bf_e8a1_4cf1_0364
    } else if t == 41 {
        0xa81a_664b_bc42_3001
    } else if t == 42 {
        0xc24b_8b70_d0f8_9791
    } else if t == 43 {
        0xc76c_51a3_0654_be30
    } else if t == 44 {
        0xd192_e819_d6ef_5218
    } else if t == 45 {
        0xd699_0624_5565_a910
    } else if t == 46 {
        0xf40e_3585_5771_202a
    } else if t == 47 {
        0x106a_a070_32bb_d1b8
    } else if t == 48 {
        0x19a4_c116_b8d2_d0c8
    } else if t == 49 {
        0x1e37_6c08_5141_ab53
    } else if t == 50 {
        0x2748_774c_df8e_eb99
    } else if t == 51 {
        0x34b0_bcb5_e19b_48a8
    } else if t == 52 {
        0x391c_0cb3_c5c9_5a63
    } else if t == 53 {
        0x4ed8_aa4a_e341_8acb
    } else if t == 54 {
        0x5b9c_ca4f_7763_e373
    } else if t == 55 {
        0x682e_6ff3_d6b2_b8a3
    } else if t == 56 {
        0x748f_82ee_5def_b2fc
    } else if t == 57 {
        0x78a5_636f_4317_2f60
    } else if t == 58 {
        0x84c8_7814_a1f0_ab72
    } else if t == 59 {
        0x8cc7_0208_1a64_39ec
    } else if t == 60 {
        0x90be_fffa_2363_1e28
    } else if t == 61 {
        0xa450_6ceb_de82_bde9
    } else if t == 62 {
        0xbef9_a3f7_b2c6_7915
    } else if t == 63 {
        0xc671_78f2_e372_532b
    } else if t == 64 {
        0xca27_3ece_ea26_619c
    } else if t == 65 {
        0xd186_b8c7_21c0_c207
    } else if t == 66 {
        0xeada_7dd6_cde0_eb1e
    } else if t == 67 {
        0xf57d_4f7f_ee6e_d178
    } else if t == 68 {
        0x06f0_67aa_7217_6fba
    } else if t == 69 {
        0x0a63_7dc5_a2c8_98a6
    } else if t == 70 {
        0x113f_9804_bef9_0dae
    } else if t == 71 {
        0x1b71_0b35_131c_471b
    } else if t == 72 {
        0x28db_77f5_2304_7d84
    } else if t == 73 {
        0x32ca_ab7b_40c7_2493
    } else if t == 74 {
        0x3c9e_be0a_15c9_bebc
    } else if t == 75 {
        0x431d_67c4_9c10_0d4c
    } else if t == 76 {
        0x4cc5_d4be_cb3e_42b6
    } else if t == 77 {
        0x597f_299c_fc65_7e2a
    } else if t == 78 {
        0x5fcb_6fab_3ad6_faec
    } else {
        0x6c44_198c_4a47_5817
    }
}

/// `x` rotated right by `n` bits.
pub open spec fn turned64(x: u64, n: u64) -> u64 {
    (x >> n) | (x << ((64 - n) as u64))
}

fn turn64(x: u64, n: u64) -> (r: u64)
    requires
        0 < n < 64,
    ensures
        r == turned64(x, n),
{
    (x >> n) | (x << (64 - n))
}

/// The sum of two words modulo 2^64.
pub open spec fn plus64(a: u64, b: u64) -> u64 {
    ((a + b) % 0x1_0000_0000_0000_0000) as u64
}

fn add64(a: u64, b: u64) -> (r: u64)
    ensures
        r == plus64(a, b),
{
    let s: u128 = (a as u128) + (b as u128);
    (s % 0x1_0000_0000_0000_0000) as u64
}

/// The big-endian word at `bytes[8 * i..]`.
pub open spec fn word64_at(bytes: Seq<u8>, i: int) -> u64 {
    ((bytes[8 * i + 0] as u64) << 56u64) | ((bytes[8 * i + 1] as u64) << 48u64) | ((bytes[8 * i + 2] as u64) << 40u64) | ((bytes[8 * i + 3] as u64) << 32u64) | ((bytes[8 * i + 4] as u64) << 24u64) | ((bytes[8 * i + 5] as u64) << 16u64) | ((bytes[8 * i + 6] as u64) << 8u64) | (bytes[8 * i + 7] as u64)
}

/// The `t`th word of the message schedule of a block.
pub open spec fn schedule512(block: Seq<u8>, t: int) -> u64
    decreases t,
{
    if t < 16 {
        word64_at(block, t)
    } else {
        let x = schedule512(block, t - 15);
        let y = schedule512(block, t - 2);
        plus64(
            plus64(schedule512(block, t - 16), turned64(x, 1) ^ turned64(x, 8) ^ (x >> 7u64)),
            plus64(schedule512(block, t - 7), turned64(y, 19) ^ turned64(y, 61) ^ (y >> 6u64)),
        )
    }
}

/// The eight words of the running state of SHA-512.
#[derive(Clone, Copy)]
pub struct State512 {
    pub a: u64,
    pub b: u64,
    pub c: u64,
    pub d: u64,
    pub e: u64,
    pub f: u64,
    pub g: u64,
    pub h: u64,
}

/// The state after `t` steps on `block`.
pub open spec fn steps512(s: State512, block: Seq<u8>, t: int) -> State512
    decreases t,
{
    if t <= 0 {
        s
    } else {
        let p = steps512(s, block, t - 1);
        let one = plus64(
            plus64(
                plus64(plus64(p.h, turned64(p.e, 14) ^ turned64(p.e, 18) ^ turned64(p.e, 41)), (p.e & p.f) ^ ((!p.e) & p.g)),
                sha512_constant(t - 1),
            ),
            schedule512(block, t - 1),
        );
        let two = plus64(turned64(p.a, 28) ^ turned64(p.a, 34) ^ turned64(p.a, 39), (p.a & p.b) ^ (p.a & p.c) ^ (p.b & p.c));
        State512 {
            a: plus64(one, two),
            b: p.a,
            c: p.b,
            d: p.c,
            e: plus64(p.d, one),
            f: p.e,
            g: p.f,
            h: p.g,
        }
    }
}

/// The state after one whole block.
pub open spec fn compressed512(s: State512, block: Seq<u8>) -> State512 {
    let r = steps512(s, block, 80);
    State512 {
        a: plus64(s.a, r.a),
        b: plus64(s.b, r.b),
        c: plus64(s.c, r.c),
        d: plus64(s.d, r.d),
        e: plus64(s.e, r.e),
        f: plus64(s.f, r.f),
        g: plus64(s.g, r.g),
        h: plus64(s.h, r.h),
    }
}

/// The state after the first `n` blocks of `data`.
pub open spec fn after_blocks512(data: Seq<u8>, n: int) -> State512
    decreases n,
{
    if n <= 0 {
        State512 {
            a: 0x6a09_e667_f3bc_c908,
            b: 0xbb67_ae85_84ca_a73b,
            c: 0x3c6e_f372_fe94_f82b,
            d: 0xa54f_f53a_5f1d_36f1,
            e: 0x510e_527f_ade6_82d1,
            f: 0x9b05_688c_2b3e_6c1f,
            g: 0x1f83_d9ab_fb41_bd6b,
            h: 0x5be0_cd19_137e_2179,
        }
    } else {
        compressed512(after_blocks512(data, n - 1), data.subrange(128 * (n - 1), 128 * n))
    }
}

/// The message with its padding to whole blocks of 128 bytes.
pub open spec fn padded_message512(data: Seq<u8>) -> Seq<u8> {
    data.push(0x80u8) + Seq::new(zero_count512(data.len() as int) as nat, |i: int| 0u8)
        + big_endian(data.len() as int * 8, 16)
}

/// The number of zero bytes between the message and its length.
pub open spec fn zero_count512(len: int) -> int {
    if len % 128 < 112 {
        111 - len % 128
    } else {
        239 - len % 128
    }
}

/// The bytes of a state of SHA-512.
pub open spec fn state512_bytes(s: State512) -> Seq<u8> {
    big_endian(s.a as int, 8) + big_endian(s.b as int, 8) + big_endian(s.c as int, 8) + big_endian(s.d as int, 8) + big_endian(s.e as int, 8) + big_endian(s.f as int, 8) + big_endian(s.g as int, 8) + big_endian(s.h as int, 8)
}

/// The SHA-512 digest of `data`.
pub open spec fn sha512_digest(data: Seq<u8>) -> Seq<u8> {
    let padded = padded_message512(data);
    state512_bytes(after_blocks512(padded, padded.len() as int / 128))
}

fn expand512(block: &[u8]) -> (w: Vec<u64>)
    requires
        block@.len() == 128,
    ensures
        w@.len() == 80,
        forall|i: int| 0 <= i < 80 ==> w@[i] == #[trigger] schedule512(block@, i),
{
    let mut w: Vec<u64> = Vec::new();
    let mut t: usize = 0;
    while t < 16
        invariant
            t <= 16,
            w@.len() == t,
            block@.len() == 128,
            forall|i: int| 0 <= i < t ==> w@[i] == #[trigger] schedule512(block@, i),
        decreases 16 - t,
    {
        let word: u64 = ((block[8 * t + 0] as u64) << 56u64) | ((block[8 * t + 1] as u64) << 48u64) | ((block[8 * t + 2] as u64) << 40u64) | ((block[8 * t + 3] as u64) << 32u64) | ((block[8 * t + 4] as u64) << 24u64) | ((block[8 * t + 5] as u64) << 16u64) | ((block[8 * t + 6] as u64) << 8u64) | (block[8 * t + 7] as u64);
        w.push(word);
        t += 1;
    }
    while t < 80
        invariant
            16 <= t <= 80,
            w@.len() == t,
            forall|i: int| 0 <= i < t ==> w@[i] == #[trigger] schedule512(block@, i),
        decreases 80 - t,
    {
        let x = w[t - 15];
        let y = w[t - 2];
        assert(x == schedule512(block@, t - 15));
        assert(y == schedule512(block@, t - 2));
        assert(w@[t - 16] == schedule512(block@, t - 16));
        assert(w@[t - 7] == schedule512(block@, t - 7));
        let word = add64(
            add64(w[t - 16], turn64(x, 1) ^ turn64(x, 8) ^ (x >> 7u64)),
            add64(w[t - 7], turn64(y, 19) ^ turn64(y, 61) ^ (y >> 6u64)),
        );
        w.push(word);
        t += 1;
    }
    w
}

fn compress512(s: &State512, block: &[u8]) -> (r: State512)
    requires
        block@.len() == 128,
    ensures
        r == compressed512(*s, block@),
{
    let w = expand512(block);
    let mut p: State512 = *s;
    let mut i: usize = 0;
    while i < 80
        invariant
            i <= 80,
            w@.len() == 80,
            forall|i: int| 0 <= i < 80 ==> w@[i] == #[trigger] schedule512(block@, i),
            p == steps512(*s, block@, i as int),
        decreases 80 - i,
    {
        assert(w@[i as int] == schedule512(block@, i as int));
        let one = add64(
            add64(
                add64(add64(p.h, turn64(p.e, 14) ^ turn64(p.e, 18) ^ turn64(p.e, 41)), (p.e & p.f) ^ ((!p.e) & p.g)),
                constant512(i),
            ),
            w[i],
        );
        let two = add64(turn64(p.a, 28) ^ turn64(p.a, 34) ^ turn64(p.a, 39), (p.a & p.b) ^ (p.a & p.c) ^ (p.b & p.c));
        p = State512 {
            a: add64(one, two),
            b: p.a,
            c: p.b,
            d: p.c,
            e: add64(p.d, one),
            f: p.e,
            g: p.f,
            h: p.g,
        };
        i += 1;
    }
    State512 {
        a: add64(s.a, p.a),
        b: add64(s.b, p.b),
        c: add64(s.c, p.c),
        d: add64(s.d, p.d),
        e: add64(s.e, p.e),
        f: add64(s.f, p.f),
        g: add64(s.g, p.g),
        h: add64(s.h, p.h),
    }
}

fn pad_message512(data: &[u8]) -> (r: Vec<u8>)
    ensures
        r@ == padded_message512(data@),
{
    let mut padded: Vec<u8> = crate::text::copy_bytes(data);
    padded.push(0x80);
    let rest: usize = data.len() % 128;
    let zeros: usize = if rest < 112 {
        111 - rest
    } else {
        239 - rest
    };
    push_zeros(&mut padded, zeros);
    push_big_endian(&mut padded, (data.len() as u128) * 8, 16);
    padded
}

/// The SHA-512 digest of `data`.
pub fn sha512(data: &[u8]) -> (r: Vec<u8>)
    ensures
        r@ == sha512_digest(data@),
{
    let padded = pad_message512(data);
    let total: usize = padded.len();
    let count: usize = total / 128;
    let mut s = State512 {
        a: 0x6a09_e667_f3bc_c908,
        b: 0xbb67_ae85_84ca_a73b,
        c: 0x3c6e_f372_fe94_f82b,
        d: 0xa54f_f53a_5f1d_36f1,
        e: 0x510e_527f_ade6_82d1,
        f: 0x9b05_688c_2b3e_6c1f,
        g: 0x1f83_d9ab_fb41_bd6b,
        h: 0x5be0_cd19_137e_2179,
    };
    let mut n: usize = 0;
    while n < count
        invariant
            n <= count,
            count == total / 128,
            total == padded@.len(),
            s == after_blocks512(padded@, n as int),
        decreases count - n,
    {
        s = compress512(&s, slice_subrange(padded.as_slice(), 128 * n, 128 * (n + 1)));
        n += 1;
    }
    let mut out: Vec<u8> = Vec::new();
    push_big_endian(&mut out, s.a as u128, 8);
    push_big_endian(&mut out, s.b as u128, 8);
    push_big_endian(&mut out, s.c as u128, 8);
    push_big_endian(&mut out, s.d as u128, 8);
    push_big_endian(&mut out, s.e as u128, 8);
    push_big_endian(&mut out, s.f as u128, 8);
    push_big_endian(&mut out, s.g as u128, 8);
    push_big_endian(&mut out, s.h as u128, 8);
    assert(out@ =~= state512_bytes(s));
    out
}

// ---------------------------------------------------------------------------
// MD5
// ---------------------------------------------------------------------------

/// The constant of step `t` of MD5.
pub open spec fn md5_constant(t: int) -> u32 {
    if t == 0 {
        0xd76a_a478
    } else if t == 1 {
        0xe8c7_b756
    } else if t == 2 {
        0x2420_70db
    } else if t == 3 {
        0xc1bd_ceee
    } else if t == 4 {
        0xf57c_0faf
    } else if t == 5 {
        0x4787_c62a
    } else if t == 6 {
        0xa830_4613
    } else if t == 7 {
        0xfd46_9501
    } else if t == 8 {
        0x6980_98d8
    } else if t == 9 {
        0x8b44_f7af
    } else if t == 10 {
        0xffff_5bb1
    } else if t == 11 {
        0x895c_d7be
    } else if t == 12 {
        0x6b90_1122
    } else if t == 13 {
        0xfd98_7193
    } else if t == 14 {
        0xa679_438e
    } else if t == 15 {
        0x49b4_0821
    } else if t == 16 {
        0xf61e_2562
    } else if t == 17 {
        0xc040_b340
    } else if t == 18 {
        0x265e_5a51
    } else if t == 19 {
        0xe9b6_c7aa
    } else if t == 20 {
        0xd62f_105d
    } else if t == 21 {
        0x0244_1453
    } else if t == 22 {
        0xd8a1_e681
    } else if t == 23 {
        0xe7d3_fbc8
    } else if t == 24 {
        0x21e1_cde6
    } else if t == 25 {
        0xc337_07d6
    } else if t == 26 {
        0xf4d5_0d87
    } else if t == 27 {
        0x455a_14ed
    } else if t == 28 {
        0xa9e3_e905
    } else if t == 29 {
        0xfcef_a3f8
    } else if t == 30 {
        0x676f_02d9
    } else if t == 31 {
        0x8d2a_4c8a
    } else if t == 32 {
        0xfffa_3942
    } else if t == 33 {
        0x8771_f681
    } else if t == 34 {
        0x6d9d_6122
    } else if t == 35 {
        0xfde5_380c
    } else if t == 36 {
        0xa4be_ea44
    } else if t == 37 {
        0x4bde_cfa9
    } else if t == 38 {
        0xf6bb_4b60
    } else if t == 39 {
        0xbebf_bc70
    } else if t == 40 {
        0x289b_7ec6
    } else if t == 41 {
        0xeaa1_27fa
    } else if t == 42 {
        0xd4ef_3085
    } else if t == 43 {
        0x0488_1d05
    } else if t == 44 {
        0xd9d4_d039
    } else if t == 45 {
        0xe6db_99e5
    } else if t == 46 {
        0x1fa2_7cf8
    } else if t == 47 {
        0xc4ac_5665
    } else if t == 48 {
        0xf429_2244
    } else if t == 49 {
        0x432a_ff97
    } else if t == 50 {
        0xab94_23a7
    } else if t == 51 {
        0xfc93_a039
    } else if t == 52 {
        0x655b_59c3
    } else if t == 53 {
        0x8f0c_cc92
    } else if t == 54 {
        0xffef_f47d
    } else if t == 55 {
        0x8584_5dd1
    } else if t == 56 {
        0x6fa8_7e4f
    } else if t == 57 {
        0xfe2c_e6e0
    } else if t == 58 {
        0xa301_4314
    } else if t == 59 {
        0x4e08_11a1
    } else if t == 60 {
        0xf753_7e82
    } else if t == 61 {
        0xbd3a_f235
    } else if t == 62 {
        0x2ad7_d2bb
    } else {
        0xeb86_d391
    }
}

fn constant_md5(t: usize) -> (r: u32)
    requires
        t < 64,
    ensures
        r == md5_constant(t as int),
{
    if t == 0 {
        0xd76a_a478
    } else if t == 1 {
        0xe8c7_b756
    } else if t == 2 {
        0x2420_70db
    } else if t == 3 {
        0xc1bd_ceee
    } else if t == 4 {
        0xf57c_0faf
    } else if t == 5 {
        0x4787_c62a
    } else if t == 6 {
        0xa830_4613
    } else if t == 7 {
        0xfd46_9501
    } else if t == 8 {
        0x6980_98d8
    } else if t == 9 {
        0x8b44_f7af
    } else if t == 10 {
        0xffff_5bb1
    } else if t == 11 {
        0x895c_d7be
    } else if t == 12 {
        0x6b90_1122
    } else if t == 13 {
        0xfd98_7193
    } else if t == 14 {
        0xa679_438e
    } else if t == 15 {
        0x49b4_0821
    } else if t == 16 {
        0xf61e_2562
    } else if t == 17 {
        0xc040_b340
    } else if t == 18 {
        0x265e_5a51
    } else if t == 19 {
        0xe9b6_c7aa
    } else if t == 20 {
        0xd62f_105d
    } else if t == 21 {
        0x0244_1453
    } else if t == 22 {
        0xd8a1_e681
    } else if t == 23 {
        0xe7d3_fbc8
    } else if t == 24 {
        0x21e1_cde6
    } else if t == 25 {
        0xc337_07d6
    } else if t == 26 {
        0xf4d5_0d87
    } else if t == 27 {
        0x455a_14ed
    } else if t == 28 {
        0xa9e3_e905
    } else if t == 29 {
        0xfcef_a3f8
    } else if t == 30 {
        0x676f_02d9
    } else if t == 31 {
        0x8d2a_4c8a
    } else if t == 32 {
        0xfffa_3942
    } else if t == 33 {
        0x8771_f681
    } else if t == 34 {
        0x6d9d_6122
    } else if t == 35 {
        0xfde5_380c
    } else if t == 36 {
        0xa4be_ea44
    } else if t == 37 {
        0x4bde_cfa9
    } else if t == 38 {
        0xf6bb_4b60
    } else if t == 39 {
        0xbebf_bc70
    } else if t == 40 {
        0x289b_7ec6
    } else if t == 41 {
        0xeaa1_27fa
    } else if t == 42 {
        0xd4ef_3085
    } else if t == 43 {
        0x0488_1d05
    } else if t == 44 {
        0xd9d4_d039
    } else if t == 45 {
        0xe6db_99e5
    } else if t == 46 {
        0x1fa2_7cf8
    } else if t == 47 {
        0xc4ac_5665
    } else if t == 48 {
        0xf429_2244
    } else if t == 49 {
        0x432a_ff97
    } else if t == 50 {
        0xab94_23a7
    } else if t == 51 {
        0xfc93_a039
    } else if t == 52 {
        0x655b_59c3
    } else if t == 53 {
        0x8f0c_cc92
    } else if t == 54 {
        0xffef_f47d
    } else if t == 55 {
        0x8584_5dd1
    } else if t == 56 {
        0x6fa8_7e4f
    } else if t == 57 {
        0xfe2c_e6e0
    } else if t == 58 {
        0xa301_4314
    } else if t == 59 {
        0x4e08_11a1
    } else if t == 60 {
        0xf753_7e82
    } else if t == 61 {
        0xbd3a_f235
    } else if t == 62 {
        0x2ad7_d2bb
    } else {
        0xeb86_d391
    }
}

/// By how many bits step `t` of MD5 rotates.
pub open spec fn md5_turn(t: int) -> u32 {
    if t < 16 {
        if t % 4 == 0 {
            7
        } else if t % 4 == 1 {
            12
        } else if t % 4 == 2 {
            17
        } else {
            22
        }
    } else if t < 32 {
        if t % 4 == 0 {
            5
        } else if t % 4 == 1 {
            9
        } else if t % 4 == 2 {
            14
        } else {
            20
        }
    } else if t < 48 {
        if t % 4 == 0 {
            4
        } else if t % 4 == 1 {
            11
        } else if t % 4 == 2 {
            16
        } else {
            23
        }
    } else if t % 4 == 0 {
        6
    } else if t % 4 == 1 {
        10
    } else if t % 4 == 2 {
        15
    } else {
        21
    }
}

fn turn_md5(t: usize) -> (r: u32)
    ensures
        r == md5_turn(t as int),
        0 < r < 32,
{
    if t < 16 {
        if t % 4 == 0 {
            7
        } else if t % 4 == 1 {
            12
        } else if t % 4 == 2 {
            17
        } else {
            22
        }
    } else if t < 32 {
        if t % 4 == 0 {
            5
        } else if t % 4 == 1 {
            9
        } else if t % 4 == 2 {
            14
        } else {
            20
        }
    } else if t < 48 {
        if t % 4 == 0 {
            4
        } else if t % 4 == 1 {
            11
        } else if t % 4 == 2 {
            16
        } else {
            23
        }
    } else if t % 4 == 0 {
        6
    } else if t % 4 == 1 {
        10
    } else if t % 4 == 2 {
        15
    } else {
        21
    }
}

/// The little-endian word at `bytes[4 * i..]`.
pub open spec fn low_word_at(bytes: Seq<u8>, i: int) -> u32 {
    (bytes[4 * i] as u32) | ((bytes[4 * i + 1] as u32) << 8u32) | ((bytes[4 * i + 2] as u32)
        << 16u32) | ((bytes[4 * i + 3] as u32) << 24u32)
}

/// The four words of the running state of MD5.
#[derive(Clone, Copy)]
pub struct StateMd5 {
    pub a: u32,
    pub b: u32,
    pub c: u32,
    pub d: u32,
}

/// The round function of step `t` of MD5.
pub open spec fn md5_function(t: int, b: u32, c: u32, d: u32) -> u32 {
    if t < 16 {
        (b & c) | ((!b) & d)
    } else if t < 32 {
        (d & b) | ((!d) & c)
    } else if t < 48 {
        b ^ c ^ d
    } else {
        c ^ (b | (!d))
    }
}

/// Which word of the block step `t` of MD5 takes.
pub open spec fn md5_index(t: int) -> int {
    if t < 16 {
        t
    } else if t < 32 {
        (5 * t + 1) % 16
    } else if t < 48 {
        (3 * t + 5) % 16
    } else {
        (7 * t) % 16
    }
}

/// The state after `t` steps on `block`.
pub open spec fn steps_md5(s: StateMd5, block: Seq<u8>, t: int) -> StateMd5
    decreases t,
{
    if t <= 0 {
        s
    } else {
        let p = steps_md5(s, block, t - 1);
        let sum = plus(
            plus(plus(md5_function(t - 1, p.b, p.c, p.d), p.a), md5_constant(t - 1)),
            low_word_at(block, md5_index(t - 1)),
        );
        StateMd5 { a: p.d, b: plus(p.b, rotated(sum, md5_turn(t - 1))), c: p.b, d: p.c }
    }
}

/// The state after the first `n` blocks of `data`.
pub open spec fn after_blocks_md5(data: Seq<u8>, n: int) -> StateMd5
    decreases n,
{
    if n <= 0 {
        StateMd5 { a: 0x6745_2301, b: 0xEFCD_AB89, c: 0x98BA_DCFE, d: 0x1032_5476 }
    } else {
        let s = after_blocks_md5(data, n - 1);
        let r = steps_md5(s, data.subrange(64 * (n - 1), 64 * n), 64);
        StateMd5 {
            a: plus(s.a, r.a),
            b: plus(s.b, r.b),
            c: plus(s.c, r.c),
            d: plus(s.d, r.d),
        }
    }
}

/// The `n` low bytes of `v`, least significant first.
pub open spec fn little_endian(v: int, n: int) -> Seq<u8>
    decreases n,
{
    if n <= 0 {
        seq![]
    } else {
        seq![(v % 256) as u8] + little_endian(v / 256, n - 1)
    }
}

/// The message with its padding, the length least significant byte first.
pub open spec fn padded_message_md5(data: Seq<u8>) -> Seq<u8> {
    data.push(0x80u8) + Seq::new(zero_count(data.len() as int) as nat, |i: int| 0u8)
        + little_endian(data.len() as int * 8, 8)
}

/// The MD5 digest of `data`.
pub open spec fn md5_digest(data: Seq<u8>) -> Seq<u8> {
    let padded = padded_message_md5(data);
    let s = after_blocks_md5(padded, padded.len() as int / 64);
    little_endian(s.a as int, 4) + little_endian(s.b as int, 4) + little_endian(s.c as int, 4)
        + little_endian(s.d as int, 4)
}

fn push_little_endian(out: &mut Vec<u8>, v: u128, n: u32)
    ensures
        final(out)@ == old(out)@ + little_endian(v as int, n as int),
    decreases n,
{
    if n == 0 {
        assert(out@ + little_endian(v as int, 0) =~= out@);
    } else {
        let ghost was = out@;
        out.push((v % 256) as u8);
        push_little_endian(out, v / 256, n - 1);
        assert(out@ =~= was + little_endian(v as int, n as int));
    }
}

fn compress_md5(s: &StateMd5, block: &[u8]) -> (r: StateMd5)
    requires
        block@.len() == 64,
    ensures
        r == steps_md5(*s, block@, 64),
{
    let mut p: StateMd5 = *s;
    let mut i: usize = 0;
    while i < 64
        invariant
            i <= 64,
            block@.len() == 64,
            p == steps_md5(*s, block@, i as int),
        decreases 64 - i,
    {
        let f: u32 = if i < 16 {
            (p.b & p.c) | ((!p.b) & p.d)
        } else if i < 32 {
            (p.d & p.b) | ((!p.d) & p.c)
        } else if i < 48 {
            p.b ^ p.c ^ p.d
        } else {
            p.c ^ (p.b | (!p.d))
        };
        let k: usize = if i < 16 {
            i
        } else if i < 32 {
            (5 * i + 1) % 16
        } else if i < 48 {
            (3 * i + 5) % 16
        } else {
            (7 * i) % 16
        };
        assert(k == md5_index(i as int) && k < 16);
        let word: u32 = (block[4 * k] as u32) | ((block[4 * k + 1] as u32) << 8u32) | ((block[4 * k
            + 2] as u32) << 16u32) | ((block[4 * k + 3] as u32) << 24u32);
        let sum = add32(add32(add32(f, p.a), constant_md5(i)), word);
        p = StateMd5 { a: p.d, b: add32(p.b, rotate(sum, turn_md5(i))), c: p.b, d: p.c };
        i += 1;
    }
    p
}

/// The MD5 digest of `data`.
pub fn md5(data: &[u8]) -> (r: Vec<u8>)
    ensures
        r@ == md5_digest(data@),
{
    let mut padded: Vec<u8> = crate::text::copy_bytes(data);
    padded.push(0x80);
    let rest: usize = data.len() % 64;
    let zeros: usize = if rest < 56 {
        55 - rest
    } else {
        119 - rest
    };
    push_zeros(&mut padded, zeros);
    push_little_endian(&mut padded, (data.len() as u128) * 8, 8);
    assert(padded@ == padded_message_md5(data@));
    let total: usize = padded.len();
    let count: usize = total / 64;
    let mut s = StateMd5 { a: 0x6745_2301, b: 0xEFCD_AB89, c: 0x98BA_DCFE, d: 0x1032_5476 };
    let mut n: usize = 0;
    while n < count
        invariant
            n <= count,
            count == total / 64,
            total == padded@.len(),
            s == after_blocks_md5(padded@, n as int),
        decreases count - n,
    {
        let r = compress_md5(&s, slice_subrange(padded.as_slice(), 64 * n, 64 * (n + 1)));
        s = StateMd5 {
            a: add32(s.a, r.a),
            b: add32(s.b, r.b),
            c: add32(s.c, r.c),
            d: add32(s.d, r.d),
        };
        n += 1;
    }
    let mut out: Vec<u8> = Vec::new();
    push_little_endian(&mut out, s.a as u128, 4);
    push_little_endian(&mut out, s.b as u128, 4);
    push_little_endian(&mut out, s.c as u128, 4);
    push_little_endian(&mut out, s.d as u128, 4);
    assert(out@ =~= md5_digest(data@));
    out
}

// ---------------------------------------------------------------------------
// The checksum of cksum
// ---------------------------------------------------------------------------

/// The remainder once `n` more bits of zero are taken in.
pub open spec fn crc_shifted(crc: u32, n: nat) -> u32
    decreases n,
{
    if n == 0 {
        crc
    } else {
        let c = crc_shifted(crc, (n - 1) as nat);
        if c & 0x8000_0000 != 0 {
            (c << 1u32) ^ 0x04C1_1DB7
        } else {
            c << 1u32
        }
    }
}

/// The remainder once a byte is taken in.
pub open spec fn crc_byte(crc: u32, byte: u8) -> u32 {
    crc_shifted(crc ^ ((byte as u32) << 24u32), 8)
}

/// The remainder once bytes are taken in.
pub open spec fn crc_bytes(crc: u32, bytes: Seq<u8>) -> u32
    decreases bytes.len(),
{
    if bytes.len() == 0 {
        crc
    } else {
        crc_byte(crc_bytes(crc, bytes.drop_last()), bytes.last())
    }
}

/// The remainder once the bytes of a length are taken in, the least significant first and none
/// behind the last that is not zero.
pub open spec fn crc_length(crc: u32, n: nat) -> u32
    decreases n,
{
    if n == 0 {
        crc
    } else {
        crc_length(crc_byte(crc, (n % 256) as u8), n / 256)
    }
}

/// The checksum of `data`.
pub open spec fn checksum(data: Seq<u8>) -> u32 {
    !crc_length(crc_bytes(0, data), data.len())
}

fn take_byte(crc: u32, byte: u8) -> (r: u32)
    ensures
        r == crc_byte(crc, byte),
{
    let start: u32 = crc ^ ((byte as u32) << 24u32);
    let mut c: u32 = start;
    let mut n: u32 = 0;
    while n < 8
        invariant
            n <= 8,
            c == crc_shifted(start, n as nat),
        decreases 8 - n,
    {
        if c & 0x8000_0000 != 0 {
            c = (c << 1u32) ^ 0x04C1_1DB7;
        } else {
            c = c << 1u32;
        }
        n += 1;
    }
    c
}

/// The checksum of `data`.
pub fn cksum(data: &[u8]) -> (r: u32)
    ensures
        r == checksum(data@),
{
    let mut crc: u32 = 0;
    let mut i: usize = 0;
    while i < data.len()
        invariant
            i <= data@.len(),
            crc == crc_bytes(0, data@.take(i as int)),
        decreases data@.len() - i,
    {
        assert(data@.take(i + 1).drop_last() =~= data@.take(i as int));
        crc = take_byte(crc, data[i]);
        i += 1;
    }
    assert(data@.take(i as int) =~= data@);
    let ghost goal = crc_length(crc, data@.len());
    let mut n: usize = data.len();
    while n > 0
        invariant
            goal == crc_length(crc, n as nat),
        decreases n,
    {
        crc = take_byte(crc, (n % 256) as u8);
        n = n / 256;
    }
    !crc
}

} // verus!
