//! Shannon entropy of a byte sample, in milli-bits per byte.
//!
//! The value reported for a sample `s` of length `n` with per-byte-value
//! counts `c_v` is `H = log2(n) - (1/n) * sum_v c_v * log2(c_v)`, the usual
//! `-sum p log2 p` rewritten over counts.  Logarithms are computed in fixed
//! point: `milli_log2` returns `1000 * log2(x)` rounded down, with sixteen
//! binary fraction digits extracted by repeated squaring of the mantissa.
//! The result is clamped into `0 ..= 8000` milli-bits.
//!
//! Because `milli_log2(256 * x) == milli_log2(x) + 8000` holds exactly in
//! this arithmetic, a sample in which all 256 byte values occur equally often
//! scores exactly 8000, and a constant sample scores exactly 0.

use vstd::prelude::*;
use vstd::arithmetic::power2::*;
use vstd::arithmetic::div_mod::*;

verus! {

/// `floor(log2(x))` for `x >= 1`; 0 for degenerate inputs.
pub open spec fn floor_log2(x: nat) -> nat
    decreases x,
{
    if x < 2 {
        0
    } else {
        1 + floor_log2(x / 2)
    }
}

/// The mantissa of `x` scaled so that it carries 63 fraction bits:
/// `x / 2^floor_log2(x)` lies in `[1, 2)` and is returned as a fixed-point
/// number in `[2^63, 2^64)`.
pub open spec fn mantissa(x: nat) -> nat {
    x * pow2((63 - floor_log2(x)) as nat)
}

/// Binary fraction digits of `log2(m / 2^63)`, extracted most significant
/// first by repeated squaring of a mantissa in `[2^63, 2^64)`.
pub open spec fn log2_frac(m: nat, rounds: nat) -> nat
    decreases rounds,
{
    if rounds == 0 {
        0
    } else {
        let sq = (m * m) / pow2(63);
        if sq >= pow2(64) {
            pow2((rounds - 1) as nat) + log2_frac(sq / 2, (rounds - 1) as nat)
        } else {
            log2_frac(sq, (rounds - 1) as nat)
        }
    }
}

/// `1000 * log2(x)` rounded down, for `x >= 1`.
pub open spec fn milli_log2(x: nat) -> nat {
    1000 * floor_log2(x) + (log2_frac(mantissa(x), 16) * 1000) / pow2(16)
}

/// How many times the byte value `v` occurs in `s`.
pub open spec fn byte_count(s: Seq<u8>, v: u8) -> nat
    decreases s.len(),
{
    if s.len() == 0 {
        0
    } else {
        byte_count(s.drop_last(), v) + if s.last() == v {
            1nat
        } else {
            0nat
        }
    }
}

/// One bucket's contribution to the entropy sum: `c * milli_log2(c)`.
pub open spec fn weighted_term(c: nat) -> nat {
    if c > 0 {
        c * milli_log2(c)
    } else {
        0
    }
}

/// `sum_{v < buckets} weighted_term(byte_count(s, v))`.
pub open spec fn weighted_sum(s: Seq<u8>, buckets: nat) -> nat
    decreases buckets,
{
    if buckets == 0 {
        0
    } else {
        weighted_sum(s, (buckets - 1) as nat) + weighted_term(
            byte_count(s, (buckets - 1) as u8),
        )
    }
}

/// `sum_{v < buckets} byte_count(s, v)`.
pub open spec fn count_sum(s: Seq<u8>, buckets: nat) -> nat
    decreases buckets,
{
    if buckets == 0 {
        0
    } else {
        count_sum(s, (buckets - 1) as nat) + byte_count(s, (buckets - 1) as u8)
    }
}

/// Shannon entropy of a byte sample in milli-bits per byte, clamped into
/// `0 ..= 8000`.  Empty input scores 0.
pub open spec fn entropy_millibits(s: Seq<u8>) -> nat {
    if s.len() == 0 {
        0
    } else {
        let n = s.len();
        let total = n * milli_log2(n);
        let w = weighted_sum(s, 256);
        if total >= w {
            let h = ((total - w) as nat) / n;
            if h > 8000 {
                8000
            } else {
                h
            }
        } else {
            0
        }
    }
}

/// Entropy never exceeds eight bits per byte.
pub proof fn lemma_entropy_range(s: Seq<u8>)
    ensures
        entropy_millibits(s) <= 8000,
{
}

proof fn lemma_floor_log2_bounds(x: nat)
    requires
        x >= 1,
    ensures
        pow2(floor_log2(x)) <= x < pow2(floor_log2(x) + 1),
    decreases x,
{
    lemma2_to64();
    if x < 2 {
        assert(floor_log2(x) == 0);
    } else {
        lemma_floor_log2_bounds(x / 2);
        let f = floor_log2(x / 2);
        assert(floor_log2(x) == f + 1);
        lemma_pow2_unfold((f + 1) as nat);
        lemma_pow2_unfold((f + 2) as nat);
        lemma_fundamental_div_mod(x as int, 2);
    }
}

proof fn lemma_floor_log2_u64(x: nat)
    requires
        1 <= x < pow2(64),
    ensures
        floor_log2(x) <= 63,
{
    lemma_floor_log2_bounds(x);
    if floor_log2(x) > 63 {
        if floor_log2(x) > 64 {
            lemma_pow2_strictly_increases(64, floor_log2(x));
        }
        assert(pow2(64) <= pow2(floor_log2(x)));
    }
}

const POW63_U128: u128 = 0x8000_0000_0000_0000;

const POW64_U128: u128 = 0x1_0000_0000_0000_0000;

/// `1000 * log2(x)` rounded down, computed in integer arithmetic: the
/// exponent by repeated halving, sixteen binary fraction digits by repeated
/// squaring of the 63-fraction-bit mantissa.
fn milli_log2_exec(x: u64) -> (r: u64)
    requires
        x >= 1,
    ensures
        r as nat == milli_log2(x as nat),
        r < 64000,
{
    proof {
        lemma2_to64();
        lemma2_to64_rest();
    }
    // Exponent: e = floor(log2 x).
    let mut v: u64 = x;
    let mut e: u64 = 0;
    while v >= 2
        invariant
            1 <= v,
            e <= 63,
            v as nat == (x as nat) / pow2(e as nat),
            floor_log2(x as nat) == e + floor_log2(v as nat),
        decreases v,
    {
        proof {
            lemma2_to64();
            lemma2_to64_rest();
            lemma_pow2_pos(e as nat);
            lemma_div_denominator(x as int, pow2(e as nat) as int, 2);
            lemma_pow2_adds(e as nat, 1);
            assert(pow2((e + 1) as nat) == pow2(e as nat) * 2);
            // The next quotient is still at least 1, so 2^(e+1) <= x < 2^64.
            assert((x as nat) / pow2((e + 1) as nat) == (v as nat) / 2);
            lemma_pow2_pos((e + 1) as nat);
            if (x as nat) < pow2((e + 1) as nat) {
                lemma_basic_div(x as int, pow2((e + 1) as nat) as int);
                assert((x as nat) / pow2((e + 1) as nat) == 0);
                assert(false);
            }
            assert(x as nat >= pow2((e + 1) as nat));
            if e + 1 > 63 {
                assert(e + 1 == 64);
                assert(pow2(64) <= x as nat);
                assert(false);
            }
        }
        v = v / 2;
        e = e + 1;
    }
    proof {
        assert(floor_log2(v as nat) == 0);
        assert(floor_log2(x as nat) == e);
        lemma_pow2_pos(e as nat);
        lemma_fundamental_div_mod(x as int, pow2(e as nat) as int);
        assert(pow2(e as nat) <= x as nat);
        assert((x as nat) < 2 * pow2(e as nat));
    }
    // Mantissa: m = x * 2^(63 - e), a fixed-point value in [2^63, 2^64).
    let sh: u64 = 63 - e;
    let mut p: u64 = 1;
    let mut i: u64 = 0;
    while i < sh
        invariant
            i <= sh <= 63,
            p as nat == pow2(i as nat),
        decreases sh - i,
    {
        proof {
            lemma2_to64();
            lemma2_to64_rest();
            lemma_pow2_adds(i as nat, 1);
            if (i + 1) < 63 {
                lemma_pow2_strictly_increases((i + 1) as nat, 63);
            }
            assert((p as nat) * 2 == pow2((i + 1) as nat));
            assert(pow2((i + 1) as nat) <= pow2(63));
        }
        p = p * 2;
        i = i + 1;
    }
    proof {
        lemma2_to64();
        lemma2_to64_rest();
        lemma_pow2_unfold(64);
        lemma_pow2_adds(e as nat, (63 - e) as nat);
        lemma_pow2_adds((e + 1) as nat, (63 - e) as nat);
        lemma_pow2_pos((63 - e) as nat);
        assert((x as nat) * (p as nat) < pow2(64)) by (nonlinear_arith)
            requires
                (p as nat) >= 1,
                (x as nat) < 2 * pow2(e as nat),
                p as nat == pow2((63 - e) as nat),
                2 * (pow2(e as nat) * pow2((63 - e) as nat)) == 2 * pow2(63),
                pow2(64) == 2 * pow2(63),
        ;
        assert((x as nat) * (p as nat) >= pow2(63)) by (nonlinear_arith)
            requires
                (x as nat) >= pow2(e as nat),
                p as nat == pow2((63 - e) as nat),
                pow2(e as nat) * pow2((63 - e) as nat) == pow2(63),
        ;
    }
    let m: u64 = x * p;
    proof {
        assert(m as nat == mantissa(x as nat));
    }
    // Fraction digits of log2(m / 2^63), most significant first.
    let mut mm: u64 = m;
    let mut frac: u64 = 0;
    let mut round: u64 = 0;
    while round < 16
        invariant
            round <= 16,
            pow2(63) <= (mm as nat) && (mm as nat) < pow2(64),
            (frac as nat) < pow2(round as nat),
            log2_frac(m as nat, 16) == (frac as nat) * pow2((16 - round) as nat) + log2_frac(
                mm as nat,
                (16 - round) as nat,
            ),
        decreases 16 - round,
    {
        proof {
            lemma2_to64();
            lemma2_to64_rest();
            assert(((mm as u128) as int) * ((mm as u128) as int) < (POW64_U128 as int) * (POW64_U128 as int)) by (nonlinear_arith)
                requires
                    ((mm as u128) as int) < POW64_U128 as int,
            ;
            lemma_pow2_adds(63, 63);
            lemma_pow2_adds(63, 65);
            lemma_pow2_adds(64, 64);
        }
        let sqn: u128 = (mm as u128) * (mm as u128);
        let sq: u128 = sqn / POW63_U128;
        proof {
            // 2^63 <= sq < 2^65.
            assert((sqn as nat) >= pow2(126)) by (nonlinear_arith)
                requires
                    mm as nat >= pow2(63),
                    sqn as nat == (mm as nat) * (mm as nat),
                    pow2(126) == pow2(63) * pow2(63),
            ;
            lemma_div_is_ordered(pow2(126) as int, sqn as int, pow2(63) as int);
            lemma_pow2_adds(63, 63);
            lemma_div_multiples_vanish(pow2(63) as int, pow2(63) as int);
            assert(sq as nat >= pow2(63));
            assert((sqn as nat) < pow2(128)) by (nonlinear_arith)
                requires
                    (mm as nat) < pow2(64),
                    sqn as nat == (mm as nat) * (mm as nat),
                    pow2(128) == pow2(64) * pow2(64),
            ;
            lemma_pow2_adds(63, 65);
            lemma_multiply_divide_lt(sqn as int, pow2(63) as int, pow2(65) as int);
            assert((sq as nat) < pow2(65));
            assert(sq as nat == ((mm as nat) * (mm as nat)) / pow2(63));
            // Regrouping the digit accumulator.
            lemma_pow2_unfold((16 - round) as nat);
        }
        let k: u64 = 16 - round;
        if sq >= POW64_U128 {
            proof {
                let rest = log2_frac((sq as nat) / 2, (k - 1) as nat);
                assert(log2_frac(mm as nat, k as nat) == pow2((k - 1) as nat) + rest);
                assert((frac as nat) * pow2(k as nat) + pow2((k - 1) as nat) + rest == (2 * (
                frac as nat) + 1) * pow2((k - 1) as nat) + rest) by (nonlinear_arith)
                    requires
                        pow2(k as nat) == 2 * pow2((k - 1) as nat),
                ;
                lemma_pow2_unfold(65);
                lemma_div_is_ordered(pow2(64) as int, sq as int, 2);
                lemma_pow2_unfold(64);
                lemma_multiply_divide_lt(sq as int, 2, pow2(64) as int);
            }
            frac = frac * 2 + 1;
            mm = (sq / 2) as u64;
        } else {
            proof {
                let rest = log2_frac(sq as nat, (k - 1) as nat);
                assert(log2_frac(mm as nat, k as nat) == rest);
                assert((frac as nat) * pow2(k as nat) + rest == (2 * (frac as nat)) * pow2(
                (k - 1) as nat) + rest) by (nonlinear_arith)
                    requires
                        pow2(k as nat) == 2 * pow2((k - 1) as nat),
                ;
            }
            frac = frac * 2;
            mm = sq as u64;
        }
        round = round + 1;
    }
    proof {
        lemma2_to64();
        lemma2_to64_rest();
        assert(round == 16);
        assert((16 - round) as nat == 0);
        assert(log2_frac(mm as nat, 0) == 0);
        assert(pow2(0) == 1);
        assert(log2_frac(m as nat, 16) == (frac as nat) * 1 + 0);
        assert(log2_frac(m as nat, 16) == frac as nat);
        assert(frac < 65536);
        lemma_div_is_ordered((frac as int) * 1000, 65535000, 65536);
    }
    1000 * e + (frac * 1000) / 65536
}

/// How many times `v` occurs in `data`.
fn count_value(data: &Vec<u8>, v: u8) -> (c: u64)
    ensures
        c as nat == byte_count(data@, v),
        c as nat <= data@.len(),
{
    let mut c: u64 = 0;
    let mut i: usize = 0;
    while i < data.len()
        invariant
            i <= data@.len(),
            c as nat == byte_count(data@.take(i as int), v),
            c as nat <= i as nat,
        decreases data@.len() - i,
    {
        proof {
            assert(data@.take((i + 1) as int).drop_last() =~= data@.take(i as int));
            assert(data@.take((i + 1) as int).last() == data@[i as int]);
        }
        if data[i] == v {
            c = c + 1;
        }
        i = i + 1;
    }
    proof {
        assert(data@.take(data@.len() as int) =~= data@);
    }
    c
}

/// Shannon entropy of `data` in milli-bits per byte, clamped into
/// `0 ..= 8000`.  Empty input scores 0; a constant sample scores exactly 0; a
/// sample with all 256 byte values equally represented scores exactly 8000.
pub fn entropy(data: &Vec<u8>) -> (r: u64)
    ensures
        r as nat == entropy_millibits(data@),
        r <= 8000,
{
    let n_usize: usize = data.len();
    if n_usize == 0 {
        return 0;
    }
    let n: u64 = n_usize as u64;
    let mlog_n: u64 = milli_log2_exec(n);
    proof {
        assert(((n as u128) as int) * ((mlog_n as u128) as int) < (0x10000000000000000int)
            * 64000) by (nonlinear_arith)
            requires
                ((n as u128) as int) < 0x10000000000000000int,
                ((mlog_n as u128) as int) < 64000,
        ;
    }
    let total: u128 = (n as u128) * (mlog_n as u128);
    let mut w: u128 = 0;
    let mut v: u64 = 0;
    while v < 256
        invariant
            v <= 256,
            n as nat == data@.len(),
            n >= 1,
            mlog_n as nat == milli_log2(n as nat),
            mlog_n < 64000,
            total as nat == (n as nat) * (mlog_n as nat),
            w as nat == weighted_sum(data@, v as nat),
            w as nat <= (v as nat) * ((n as nat) * 64000),
        decreases 256 - v,
    {
        let c: u64 = count_value(data, v as u8);
        proof {
            assert(byte_count(data@, (((v + 1) as nat - 1) as u8)) == byte_count(
                data@,
                v as u8,
            ));
        }
        if c > 0 {
            let ml: u64 = milli_log2_exec(c);
            proof {
                assert(weighted_term(c as nat) == (c as nat) * (ml as nat));
                assert((c as nat) * (ml as nat) <= (n as nat) * 64000) by (nonlinear_arith)
                    requires
                        (c as nat) <= (n as nat),
                        (ml as nat) <= 64000,
                ;
                assert((v as nat) * ((n as nat) * 64000) + (n as nat) * 64000 == ((v + 1) as nat)
                    * ((n as nat) * 64000)) by (nonlinear_arith);
                assert(((v + 1) as nat) * ((n as nat) * 64000) <= 256 * ((n as nat) * 64000))
                    by (nonlinear_arith)
                    requires
                        (v + 1) as nat <= 256,
                ;
                assert(256 * ((n as nat) * 64000) < 0x100000000000000000000000000000000nat)
                    by (nonlinear_arith)
                    requires
                        (n as nat) < 0x10000000000000000nat,
                ;
            }
            w = w + (c as u128) * (ml as u128);
        } else {
            proof {
                assert(weighted_term(c as nat) == 0);
                assert((v as nat) * ((n as nat) * 64000) <= ((v + 1) as nat) * ((n as nat)
                    * 64000)) by (nonlinear_arith);
            }
        }
        v = v + 1;
    }
    let num: u128 = if total >= w {
        total - w
    } else {
        0
    };
    let h: u128 = num / (n as u128);
    proof {
        if total >= w {
            lemma_div_is_ordered(num as int, total as int, n as int);
            lemma_div_multiples_vanish(mlog_n as int, n as int);
            assert((total as nat) / (n as nat) == mlog_n as nat);
        }
    }
    let r: u64 = if h > 8000 {
        8000
    } else {
        h as u64
    };
    r
}

proof fn lemma_byte_count_multiset(s: Seq<u8>, v: u8)
    ensures
        byte_count(s, v) == s.to_multiset().count(v),
    decreases s.len(),
{
    broadcast use vstd::seq_lib::group_to_multiset_ensures;
    broadcast use vstd::multiset::group_multiset_axioms;

    if s.len() == 0 {
        assert(s.to_multiset().len() == 0);
        assert(s.to_multiset().count(v) <= s.to_multiset().len());
    } else {
        lemma_byte_count_multiset(s.drop_last(), v);
        assert(s.drop_last().push(s.last()) =~= s);
        assert(s.to_multiset() =~= s.drop_last().to_multiset().insert(s.last()));
    }
}

proof fn lemma_weighted_sum_congruence(s1: Seq<u8>, s2: Seq<u8>, buckets: nat)
    requires
        forall|v: u8| #[trigger] byte_count(s1, v) == byte_count(s2, v),
    ensures
        weighted_sum(s1, buckets) == weighted_sum(s2, buckets),
    decreases buckets,
{
    if buckets > 0 {
        lemma_weighted_sum_congruence(s1, s2, (buckets - 1) as nat);
    }
}

/// Entropy is invariant under any permutation of the input bytes: it depends
/// only on how often each byte value occurs, not on their order.
pub proof fn lemma_entropy_permutation(s1: Seq<u8>, s2: Seq<u8>)
    requires
        s1.to_multiset() == s2.to_multiset(),
    ensures
        entropy_millibits(s1) == entropy_millibits(s2),
{
    broadcast use vstd::seq_lib::group_to_multiset_ensures;

    assert(s1.len() == s1.to_multiset().len());
    assert(s2.len() == s2.to_multiset().len());
    assert forall|v: u8| #[trigger] byte_count(s1, v) == byte_count(s2, v) by {
        lemma_byte_count_multiset(s1, v);
        lemma_byte_count_multiset(s2, v);
    }
    lemma_weighted_sum_congruence(s1, s2, 256);
}

proof fn lemma_constant_counts(s: Seq<u8>, v: u8)
    requires
        forall|i: int| 0 <= i < s.len() ==> s[i] == v,
    ensures
        byte_count(s, v) == s.len(),
        forall|u: u8| u != v ==> #[trigger] byte_count(s, u) == 0,
    decreases s.len(),
{
    if s.len() > 0 {
        lemma_constant_counts(s.drop_last(), v);
        assert(s[s.len() - 1] == v);
        assert(s.last() == v);
        assert forall|u: u8| u != v implies #[trigger] byte_count(s, u) == 0 by {
            assert(byte_count(s.drop_last(), u) == 0);
        }
    }
}

proof fn lemma_weighted_sum_single(s: Seq<u8>, v: u8, buckets: nat)
    requires
        byte_count(s, v) == s.len(),
        forall|u: u8| u != v ==> #[trigger] byte_count(s, u) == 0,
        buckets <= 256,
    ensures
        weighted_sum(s, buckets) == if (v as nat) < buckets {
            weighted_term(s.len())
        } else {
            0
        },
    decreases buckets,
{
    if buckets > 0 {
        lemma_weighted_sum_single(s, v, (buckets - 1) as nat);
        if (buckets - 1) as nat == v as nat {
            assert((buckets - 1) as u8 == v);
            assert(weighted_term(byte_count(s, v)) == weighted_term(s.len()));
        } else {
            assert((buckets - 1) as u8 != v);
            assert(byte_count(s, (buckets - 1) as u8) == 0);
        }
    }
}

/// A sample of one repeated byte value has entropy exactly 0.
pub proof fn lemma_entropy_constant(s: Seq<u8>, v: u8)
    requires
        s.len() > 0,
        forall|i: int| 0 <= i < s.len() ==> s[i] == v,
    ensures
        entropy_millibits(s) == 0,
{
    lemma_constant_counts(s, v);
    lemma_weighted_sum_single(s, v, 256);
    let n = s.len();
    assert(weighted_sum(s, 256) == n * milli_log2(n));
    lemma_div_of0(n as int);
}

proof fn lemma_count_sum_zero(s: Seq<u8>, buckets: nat)
    requires
        s.len() == 0,
    ensures
        count_sum(s, buckets) == 0,
    decreases buckets,
{
    if buckets > 0 {
        lemma_count_sum_zero(s, (buckets - 1) as nat);
    }
}

proof fn lemma_count_sum_step(s: Seq<u8>, buckets: nat)
    requires
        s.len() > 0,
        buckets <= 256,
    ensures
        count_sum(s, buckets) == count_sum(s.drop_last(), buckets) + if (s.last() as nat)
            < buckets {
            1nat
        } else {
            0nat
        },
    decreases buckets,
{
    if buckets > 0 {
        lemma_count_sum_step(s, (buckets - 1) as nat);
    }
}

proof fn lemma_count_sum_total(s: Seq<u8>)
    ensures
        count_sum(s, 256) == s.len(),
    decreases s.len(),
{
    if s.len() == 0 {
        lemma_count_sum_zero(s, 256);
    } else {
        lemma_count_sum_total(s.drop_last());
        lemma_count_sum_step(s, 256);
    }
}

proof fn lemma_count_sum_const(s: Seq<u8>, k: nat, buckets: nat)
    requires
        forall|v: u8| #[trigger] byte_count(s, v) == k,
        buckets <= 256,
    ensures
        count_sum(s, buckets) == buckets * k,
    decreases buckets,
{
    if buckets > 0 {
        lemma_count_sum_const(s, k, (buckets - 1) as nat);
        assert(byte_count(s, (buckets - 1) as u8) == k);
        assert(count_sum(s, buckets) == count_sum(s, (buckets - 1) as nat) + byte_count(
            s,
            (buckets - 1) as u8,
        ));
        assert(((buckets - 1) as nat) * k + k == buckets * k) by (nonlinear_arith)
            requires
                buckets >= 1,
        ;
    } else {
        assert(count_sum(s, 0) == 0);
        assert(buckets * k == 0) by (nonlinear_arith)
            requires
                buckets == 0,
        ;
    }
}

proof fn lemma_weighted_sum_const(s: Seq<u8>, k: nat, buckets: nat)
    requires
        forall|v: u8| #[trigger] byte_count(s, v) == k,
        k >= 1,
        buckets <= 256,
    ensures
        weighted_sum(s, buckets) == buckets * (k * milli_log2(k)),
    decreases buckets,
{
    if buckets > 0 {
        lemma_weighted_sum_const(s, k, (buckets - 1) as nat);
        assert(byte_count(s, (buckets - 1) as u8) == k);
        assert(weighted_term(k) == k * milli_log2(k));
        assert(weighted_sum(s, buckets) == weighted_sum(s, (buckets - 1) as nat)
            + weighted_term(byte_count(s, (buckets - 1) as u8)));
        assert(((buckets - 1) as nat) * (k * milli_log2(k)) + k * milli_log2(k) == buckets * (
        k * milli_log2(k))) by (nonlinear_arith)
            requires
                buckets >= 1,
        ;
    } else {
        assert(weighted_sum(s, 0) == 0);
        assert(buckets * (k * milli_log2(k)) == 0) by (nonlinear_arith)
            requires
                buckets == 0,
        ;
    }
}

proof fn lemma_floor_log2_double(y: nat)
    requires
        y >= 1,
    ensures
        floor_log2(2 * y) == 1 + floor_log2(y),
{
    assert(2 * y >= 2);
    assert((2 * y) / 2 == y);
}

proof fn lemma_milli_log2_shift(k: nat)
    requires
        1 <= k,
        256 * k < pow2(64),
    ensures
        milli_log2(256 * k) == milli_log2(k) + 8000,
{
    lemma_floor_log2_double(k);
    lemma_floor_log2_double(2 * k);
    lemma_floor_log2_double(4 * k);
    lemma_floor_log2_double(8 * k);
    lemma_floor_log2_double(16 * k);
    lemma_floor_log2_double(32 * k);
    lemma_floor_log2_double(64 * k);
    lemma_floor_log2_double(128 * k);
    let fl = floor_log2(k);
    assert(floor_log2(256 * k) == 8 + fl);
    lemma_floor_log2_u64(256 * k);
    assert(fl <= 55);
    // The scaled mantissas agree: 256k * 2^(55 - fl) == k * 2^(63 - fl).
    lemma2_to64();
    lemma_pow2_adds(8, (55 - fl) as nat);
    assert(mantissa(256 * k) == (256 * k) * pow2((55 - fl) as nat));
    assert((256 * k) * pow2((55 - fl) as nat) == k * (256 * pow2((55 - fl) as nat)))
        by (nonlinear_arith);
    assert(256 * pow2((55 - fl) as nat) == pow2((63 - fl) as nat));
    assert(mantissa(256 * k) == mantissa(k));
}

/// A sample in which every one of the 256 byte values occurs exactly `k`
/// times has entropy exactly 8000 milli-bits: eight bits per byte.
pub proof fn lemma_entropy_uniform(s: Seq<u8>, k: nat)
    requires
        k >= 1,
        forall|v: u8| #[trigger] byte_count(s, v) == k,
        s.len() < 0x10000000000000000,
    ensures
        entropy_millibits(s) == 8000,
{
    lemma_count_sum_total(s);
    lemma_count_sum_const(s, k, 256);
    assert(s.len() == 256 * k);
    let n = s.len();
    lemma2_to64();
    lemma2_to64_rest();
    lemma_milli_log2_shift(k);
    assert(milli_log2(n) == milli_log2(k) + 8000);
    lemma_weighted_sum_const(s, k, 256);
    let a = milli_log2(k);
    assert(weighted_sum(s, 256) == 256 * (k * a));
    assert(n * milli_log2(n) == 256 * (k * a) + n * 8000) by (nonlinear_arith)
        requires
            n == 256 * k,
            milli_log2(n) == a + 8000,
    ;
    lemma_div_multiples_vanish(8000, n as int);
    assert((n * 8000) as int == (n as int) * 8000);
    assert(((n * milli_log2(n) - weighted_sum(s, 256)) as nat) / n == 8000);
}

/// Entropy of a file-level sample: below 64 bytes the sample is too small to
/// be meaningful and is reported as 0.
pub fn sample_entropy(data: &Vec<u8>) -> (r: u64)
    ensures
        r as nat == (if data@.len() < 64 {
            0nat
        } else {
            entropy_millibits(data@)
        }),
        r <= 8000,
{
    if data.len() < 64 {
        0
    } else {
        entropy(data)
    }
}

} // verus!
