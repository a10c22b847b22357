//! The lossy numeric codec for dense time-series storage.
//!
//! Wide-range counters (gold, troops, tile counts) in `[0, 10^12]` are
//! quantized logarithmically onto the 65536 steps of a 16-bit integer:
//! a value `v` maps to roughly `log10(v + 1) / 12` of the full code range,
//! and a code maps back to roughly `10^(12 * u / 65535) - 1` for its
//! unsigned form `u`. The codec is deliberately lossy: for values of at
//! least ten the round trip stays within one percent, while values near
//! zero see larger relative (but small absolute) error — that is the
//! price of the dynamic range, not a defect to repair.
//!
//! All arithmetic is integer fixed point with sixty fractional bits. The
//! base-ten logarithm is extracted bit by bit through repeated squaring of
//! the mantissa, and the power of ten is rebuilt as a product of the
//! constants `10^(1/2^k)`; both sides are accurate to far better than one
//! code step.

use vstd::prelude::*;
use vstd::arithmetic::div_mod::{
    lemma_div_is_ordered, lemma_div_multiples_vanish, lemma_multiply_divide_lt,
};
use vstd::arithmetic::mul::{lemma_mul_inequality, lemma_mul_upper_bound};
use vstd::arithmetic::power2::{
    lemma2_to64, lemma_pow2_pos, lemma_pow2_strictly_increases, lemma_pow2_unfold, pow2,
};

verus! {

/// One, in sixty-bit fixed point.
pub const FP_ONE: u128 = 0x1000_0000_0000_0000;

/// Ten, in sixty-bit fixed point.
pub const FP_TEN: u128 = 0xA000_0000_0000_0000;

/// Half a fixed-point unit: the rounding offset.
pub const FP_HALF: u128 = 0x0800_0000_0000_0000;

/// The largest counter the codec represents; larger inputs clamp here.
pub const MAX_INPUT: u64 = 1_000_000_000_000;

/// `10^e`.
pub open spec fn pow10(e: nat) -> nat
    decreases e,
{
    if e == 0 {
        1
    } else {
        10 * pow10((e - 1) as nat)
    }
}

proof fn lemma_pow10_positive(e: nat)
    ensures
        pow10(e) >= 1,
    decreases e,
{
    if e > 0 {
        lemma_pow10_positive((e - 1) as nat);
    }
}

proof fn lemma_pow10_increases(a: nat, b: nat)
    requires
        a <= b,
    ensures
        pow10(a) <= pow10(b),
    decreases b,
{
    if a < b {
        lemma_pow10_increases(a, (b - 1) as nat);
        lemma_pow10_positive((b - 1) as nat);
    }
}

proof fn lemma_pow10_values()
    ensures
        pow10(11) == 100_000_000_000,
        pow10(12) == 1_000_000_000_000,
        pow10(13) == 10_000_000_000_000,
{
    assert(pow10(0) == 1);
    assert(pow10(1) == 10);
    assert(pow10(2) == 100);
    assert(pow10(3) == 1000);
    assert(pow10(4) == 10000);
    assert(pow10(5) == 100000);
    assert(pow10(6) == 1000000);
    assert(pow10(7) == 10000000);
    assert(pow10(8) == 100000000);
    assert(pow10(9) == 1000000000);
    assert(pow10(10) == 10000000000);
    assert(pow10(11) == 100000000000);
    assert(pow10(12) == 1000000000000);
    assert(pow10(13) == 10000000000000);
}

/// `10^e` for the exponents the codec meets.
fn pow10_u64(e: usize) -> (r: u64)
    requires
        e <= 12,
    ensures
        r == pow10(e as nat),
{
    let mut r: u64 = 1;
    let mut i: usize = 0;
    while i < e
        invariant
            i <= e <= 12,
            r == pow10(i as nat),
        decreases e - i,
    {
        proof {
            lemma_pow10_increases(i as nat, 11);
            lemma_pow10_values();
        }
        r = r * 10;
        i = i + 1;
    }
    r
}

/// The integer part of `log10(w)`.
pub open spec fn floor_log10(w: nat) -> nat
    decreases w,
{
    if w < 10 {
        0
    } else {
        1 + floor_log10(w / 10)
    }
}

proof fn lemma_floor_log10_bounds(w: nat)
    requires
        w >= 1,
    ensures
        pow10(floor_log10(w)) <= w < pow10(floor_log10(w) + 1),
    decreases w,
{
    if w < 10 {
    } else {
        lemma_floor_log10_bounds(w / 10);
        let f = floor_log10(w / 10);
        assert(10 * pow10(f) <= 10 * (w / 10)) by {
            lemma_mul_inequality(pow10(f) as int, (w / 10) as int, 10);
        }
        assert(w / 10 < pow10(f + 1));
        assert(10 * (w / 10) + 10 > w);
        assert(10 * (w / 10) <= 10 * (pow10(f + 1) - 1)) by {
            lemma_mul_inequality((w / 10) as int, pow10(f + 1) as int - 1, 10);
        }
    }
}

proof fn lemma_floor_log10_monotonic(w1: nat, w2: nat)
    requires
        w1 <= w2,
    ensures
        floor_log10(w1) <= floor_log10(w2),
    decreases w2,
{
    if w1 >= 10 {
        lemma_floor_log10_monotonic(w1 / 10, w2 / 10);
        lemma_div_is_ordered(w1 as int, w2 as int, 10);
    }
}

/// The integer part of `log10(w)` for `w` up to one past the clamp bound.
fn floor_log10_u64(w: u64) -> (r: usize)
    requires
        1 <= w <= 1_000_000_000_001,
    ensures
        r == floor_log10(w as nat),
        r <= 12,
{
    proof {
        if floor_log10(w as nat) >= 13 {
            lemma_floor_log10_bounds(w as nat);
            lemma_pow10_increases(13, floor_log10(w as nat));
            lemma_pow10_values();
        }
    }
    let mut x: u64 = w;
    let mut p: usize = 0;
    while x >= 10
        invariant
            x >= 1,
            floor_log10(w as nat) == p + floor_log10(x as nat),
            floor_log10(w as nat) <= 12,
            p <= floor_log10(w as nat),
        decreases x,
    {
        x = x / 10;
        p = p + 1;
    }
    p
}

/// `10^(1 / 2^(i + 1))` in sixty-bit fixed point, rounded to nearest: the
/// square root of ten, then its square root, and so on.
pub open spec fn frac_pow_const(i: nat) -> nat {
    if i == 0 {
        3645857917945947428
    } else if i == 1 {
        2050216573033451057
    } else if i == 2 {
        1537445535995216958
    } else if i == 3 {
        1331372983281051053
    } else if i == 4 {
        1238938474290509675
    } else if i == 5 {
        1195156395579392703
    } else if i == 6 {
        1173849014921377966
    } else if i == 7 {
        1163338202099638887
    } else if i == 8 {
        1158118141784913019
    } else if i == 9 {
        1155516901883805270
    } else if i == 10 {
        1154218473738191015
    } else if i == 11 {
        1153569806898244749
    } else if i == 12 {
        1153245610196784690
    } else if i == 13 {
        1153083546014476070
    } else if i == 14 {
        1153002522464026624
    } else if i == 15 {
        1152962012823803079
    } else if i == 16 {
        1152941758537419722
    } else if i == 17 {
        1152931631527657414
    } else if i == 18 {
        1152926568056133260
    } else if i == 19 {
        1152924036328710390
    } else if i == 20 {
        1152922770467083752
    } else if i == 21 {
        1152922137536791631
    } else if i == 22 {
        1152921821071775870
    } else if i == 23 {
        1152921662839300565
    } else if i == 24 {
        1152921583723071056
    } else if i == 25 {
        1152921544164958337
    } else if i == 26 {
        1152921524385902487
    } else if i == 27 {
        1152921514496374689
    } else if i == 28 {
        1152921509551610822
    } else if i == 29 {
        1152921507079228896
    } else if i == 30 {
        1152921505843037935
    } else {
        1152921505224942456
    }
}

/// Executable access to [`frac_pow_const`].
fn frac_pow_const_at(i: usize) -> (r: u128)
    requires
        i < 32,
    ensures
        r as nat == frac_pow_const(i as nat),
{
    let table: [u64; 32] = [
        3645857917945947428,
        2050216573033451057,
        1537445535995216958,
        1331372983281051053,
        1238938474290509675,
        1195156395579392703,
        1173849014921377966,
        1163338202099638887,
        1158118141784913019,
        1155516901883805270,
        1154218473738191015,
        1153569806898244749,
        1153245610196784690,
        1153083546014476070,
        1153002522464026624,
        1152962012823803079,
        1152941758537419722,
        1152931631527657414,
        1152926568056133260,
        1152924036328710390,
        1152922770467083752,
        1152922137536791631,
        1152921821071775870,
        1152921662839300565,
        1152921583723071056,
        1152921544164958337,
        1152921524385902487,
        1152921514496374689,
        1152921509551610822,
        1152921507079228896,
        1152921505843037935,
        1152921505224942456,
    ];
    table[i] as u128
}

proof fn lemma_frac_pow_const_bounds(i: nat)
    requires
        i < 32,
    ensures
        FP_ONE <= frac_pow_const(i) <= 3645857917945947428,
{
}

/// The shift register that feeds exponent bits into the power product: at
/// each step the top of the thirty-two-bit window decides, and the window
/// slides left.
pub open spec fn t_state(b: nat, i: nat) -> nat
    decreases i,
{
    if i == 0 {
        b
    } else {
        (t_state(b, (i - 1) as nat) % 0x8000_0000) * 2
    }
}

/// The fixed-point power product after `i` exponent bits: starting from
/// one, each set bit multiplies in the matching `10^(1/2^k)` constant.
pub open spec fn frac_acc(b: nat, i: nat) -> nat
    decreases i,
{
    if i == 0 {
        FP_ONE as nat
    } else {
        let prev = frac_acc(b, (i - 1) as nat);
        if t_state(b, (i - 1) as nat) >= 0x8000_0000 {
            (prev * frac_pow_const((i - 1) as nat)) / (FP_ONE as nat)
        } else {
            prev
        }
    }
}

/// The worst-case power product after `i` bits: what the product reaches
/// with every bit set. It bounds the accumulator for overflow reasoning.
pub open spec fn acc_cap(i: nat) -> nat
    decreases i,
{
    if i == 0 {
        FP_ONE as nat
    } else {
        (acc_cap((i - 1) as nat) * frac_pow_const((i - 1) as nat)) / (FP_ONE as nat)
    }
}

proof fn lemma_acc_step_bounds(acc: nat, cap: nat, c: nat)
    requires
        FP_ONE <= acc <= cap,
        FP_ONE <= c,
    ensures
        FP_ONE <= (acc * c) / (FP_ONE as nat) <= (cap * c) / (FP_ONE as nat),
{
    lemma_mul_inequality(FP_ONE as int, acc as int, c as int);
    lemma_mul_inequality(FP_ONE as int, c as int, FP_ONE as int);
    lemma_mul_inequality(acc as int, cap as int, c as int);
    lemma_div_is_ordered((FP_ONE * FP_ONE) as int, (acc * c) as int, FP_ONE as int);
    lemma_div_is_ordered((acc * c) as int, (cap * c) as int, FP_ONE as int);
    lemma_div_multiples_vanish(FP_ONE as int, FP_ONE as int);
    assert(FP_ONE * FP_ONE == FP_ONE as nat * FP_ONE as nat);
}

proof fn lemma_acc_cap_at_least_one(i: nat)
    requires
        i <= 32,
    ensures
        FP_ONE <= acc_cap(i),
    decreases i,
{
    if i > 0 {
        lemma_acc_cap_at_least_one((i - 1) as nat);
        lemma_frac_pow_const_bounds((i - 1) as nat);
        lemma_acc_step_bounds(acc_cap((i - 1) as nat), acc_cap((i - 1) as nat), frac_pow_const((i
            - 1) as nat));
    }
}

proof fn lemma_acc_cap_monotonic(i: nat, j: nat)
    requires
        i <= j <= 32,
    ensures
        acc_cap(i) <= acc_cap(j),
    decreases j,
{
    if i < j {
        lemma_acc_cap_monotonic(i, (j - 1) as nat);
        lemma_acc_cap_at_least_one((j - 1) as nat);
        lemma_frac_pow_const_bounds((j - 1) as nat);
        let prev = acc_cap((j - 1) as nat);
        let c = frac_pow_const((j - 1) as nat);
        lemma_mul_inequality(FP_ONE as int, c as int, prev as int);
        assert(prev * FP_ONE == FP_ONE * prev) by (nonlinear_arith);
        assert(prev * c == c * prev) by (nonlinear_arith);
        lemma_div_is_ordered((prev * FP_ONE) as int, (prev * c) as int, FP_ONE as int);
        lemma_div_multiples_vanish(prev as int, FP_ONE as int);
    }
}

#[verifier::rlimit(100)]
proof fn lemma_acc_cap_value()
    ensures
        acc_cap(32) == 11529215039887514948,
{
    assert(acc_cap(0) == FP_ONE);
    assert(acc_cap(0) * frac_pow_const(0) == 4203387996341028151825846040136777728) by (nonlinear_arith)
        requires
            acc_cap(0) == 1152921504606846976,
            frac_pow_const(0) == 3645857917945947428,
    ;
    assert(acc_cap(1) == 3645857917945947428);
    assert(acc_cap(1) * frac_pow_const(1) == 7474798326298013336099435454333031396) by (nonlinear_arith)
        requires
            acc_cap(1) == 3645857917945947428,
            frac_pow_const(1) == 2050216573033451057,
    ;
    assert(acc_cap(2) == 6483354067410654807);
    assert(acc_cap(2) * frac_pow_const(2) == 9967803769216944157053795558810617106) by (nonlinear_arith)
        requires
            acc_cap(2) == 6483354067410654807,
            frac_pow_const(2) == 1537445535995216958,
    ;
    assert(acc_cap(3) == 8645691601195368417);
    assert(acc_cap(3) * frac_pow_const(3) == 11510640219611404743554492263320793101) by (nonlinear_arith)
        requires
            acc_cap(3) == 8645691601195368417,
            frac_pow_const(3) == 1331372983281051053,
    ;
    assert(acc_cap(4) == 9983888906241367107);
    assert(acc_cap(4) * frac_pow_const(4) == 12369424088984624760608659747810260225) by (nonlinear_arith)
        requires
            acc_cap(4) == 9983888906241367107,
            frac_pow_const(4) == 1238938474290509675,
    ;
    assert(acc_cap(5) == 10728765175737329345);
    assert(acc_cap(5) * frac_pow_const(5) == 12822552316451936261920632542200769535) by (nonlinear_arith)
        requires
            acc_cap(5) == 10728765175737329345,
            frac_pow_const(5) == 1195156395579392703,
    ;
    assert(acc_cap(6) == 11121791262644981306);
    assert(acc_cap(6) * frac_pow_const(6) == 13055303717816999749948936939830303596) by (nonlinear_arith)
        requires
            acc_cap(6) == 11121791262644981306,
            frac_pow_const(6) == 1173849014921377966,
    ;
    assert(acc_cap(7) == 11323670922652219255);
    assert(acc_cap(7) * frac_pow_const(7) == 13173258972326191786908809724648169185) by (nonlinear_arith)
        requires
            acc_cap(7) == 11323670922652219255,
            frac_pow_const(7) == 1163338202099638887,
    ;
    assert(acc_cap(8) == 11425980797208176535);
    assert(acc_cap(8) * frac_pow_const(8) == 13232635648932832481286718050571809165) by (nonlinear_arith)
        requires
            acc_cap(8) == 11425980797208176535,
            frac_pow_const(8) == 1158118141784913019,
    ;
    assert(acc_cap(9) == 11477481854625687791);
    assert(acc_cap(9) * frac_pow_const(9) == 13262424274084666220697412438060458570) by (nonlinear_arith)
        requires
            acc_cap(9) == 11477481854625687791,
            frac_pow_const(9) == 1155516901883805270,
    ;
    assert(acc_cap(10) == 11503319368309667375);
    assert(acc_cap(10) * frac_pow_const(10) == 13277343724213355869072090568863635625) by (nonlinear_arith)
        requires
            acc_cap(10) == 11503319368309667375,
            frac_pow_const(10) == 1154218473738191015,
    ;
    assert(acc_cap(11) == 11516259928503118939);
    assert(acc_cap(11) * frac_pow_const(11) == 13284809741913336793754197851079201311) by (nonlinear_arith)
        requires
            acc_cap(11) == 11516259928503118939,
            frac_pow_const(11) == 1153569806898244749,
    ;
    assert(acc_cap(12) == 11522735666591226577);
    assert(acc_cap(12) * frac_pow_const(12) == 13288544324954253680542674848674706130) by (nonlinear_arith)
        requires
            acc_cap(12) == 11522735666591226577,
            frac_pow_const(12) == 1153245610196784690,
    ;
    assert(acc_cap(13) == 11525974901028258265);
    assert(acc_cap(13) * frac_pow_const(13) == 13290412010151513905895535828622218550) by (nonlinear_arith)
        requires
            acc_cap(13) == 11525974901028258265,
            frac_pow_const(13) == 1153083546014476070,
    ;
    assert(acc_cap(14) == 11527594859706969109);
    assert(acc_cap(14) * frac_pow_const(14) == 13291345951185482489242671402921558016) by (nonlinear_arith)
        requires
            acc_cap(14) == 11527594859706969109,
            frac_pow_const(14) == 1153002522464026624,
    ;
    assert(acc_cap(15) == 11528404924425370786);
    assert(acc_cap(15) * frac_pow_const(15) == 13291812946313318917972964191223450094) by (nonlinear_arith)
        requires
            acc_cap(15) == 11528404924425370786,
            frac_pow_const(15) == 1152962012823803079,
    ;
    assert(acc_cap(16) == 11528809978131083107);
    assert(acc_cap(16) * frac_pow_const(16) == 13292046450030202365266714868922836254) by (nonlinear_arith)
        requires
            acc_cap(16) == 11528809978131083107,
            frac_pow_const(16) == 1152941758537419722,
    ;
    assert(acc_cap(17) == 11529012510320785886);
    assert(acc_cap(17) * frac_pow_const(17) == 13292163203426916931917274257054458804) by (nonlinear_arith)
        requires
            acc_cap(17) == 11529012510320785886,
            frac_pow_const(17) == 1152931631527657414,
    ;
    assert(acc_cap(18) == 11529113777749876282);
    assert(acc_cap(18) * frac_pow_const(18) == 13292221580509846365486876196305339320) by (nonlinear_arith)
        requires
            acc_cap(18) == 11529113777749876282,
            frac_pow_const(18) == 1152926568056133260,
    ;
    assert(acc_cap(19) == 11529164411797984649);
    assert(acc_cap(19) * frac_pow_const(19) == 13292250769147454608367359499186803110) by (nonlinear_arith)
        requires
            acc_cap(19) == 11529164411797984649,
            frac_pow_const(19) == 1152924036328710390,
    ;
    assert(acc_cap(20) == 11529189728905430048);
    assert(acc_cap(20) * frac_pow_const(20) == 13292265363490294675078404079993380096) by (nonlinear_arith)
        requires
            acc_cap(20) == 11529189728905430048,
            frac_pow_const(20) == 1152922770467083752,
    ;
    assert(acc_cap(21) == 11529202387480000607);
    assert(acc_cap(21) * frac_pow_const(21) == 13292272660667723698288220664712520017) by (nonlinear_arith)
        requires
            acc_cap(21) == 11529202387480000607,
            frac_pow_const(21) == 1152922137536791631,
    ;
    assert(acc_cap(22) == 11529208716772497855);
    assert(acc_cap(22) * frac_pow_const(22) == 13292276309257940455763123580615758850) by (nonlinear_arith)
        requires
            acc_cap(22) == 11529208716772497855,
            frac_pow_const(22) == 1152921821071775870,
    ;
    assert(acc_cap(23) == 11529211881420049469);
    assert(acc_cap(23) * frac_pow_const(23) == 13292278133553424400002257999659649985) by (nonlinear_arith)
        requires
            acc_cap(23) == 11529211881420049469,
            frac_pow_const(23) == 1152921662839300565,
    ;
    assert(acc_cap(24) == 11529213463744151027);
    assert(acc_cap(24) * frac_pow_const(24) == 13292279045701260263118816737916374512) by (nonlinear_arith)
        requires
            acc_cap(24) == 11529213463744151027,
            frac_pow_const(24) == 1152921583723071056,
    ;
    assert(acc_cap(25) == 11529214254906283244);
    assert(acc_cap(25) * frac_pow_const(25) == 13292279501775201663379843310781205228) by (nonlinear_arith)
        requires
            acc_cap(25) == 11529214254906283244,
            frac_pow_const(25) == 1152921544164958337,
    ;
    assert(acc_cap(26) == 11529214650487369708);
    assert(acc_cap(26) * frac_pow_const(26) == 13292279729812178233278706724405663796) by (nonlinear_arith)
        requires
            acc_cap(26) == 11529214650487369708,
            frac_pow_const(26) == 1152921524385902487,
    ;
    assert(acc_cap(27) == 11529214848277918031);
    assert(acc_cap(27) * frac_pow_const(27) == 13292279843830667983796552682205117359) by (nonlinear_arith)
        requires
            acc_cap(27) == 11529214848277918031,
            frac_pow_const(27) == 1152921514496374689,
    ;
    assert(acc_cap(28) == 11529214947173193464);
    assert(acc_cap(28) * frac_pow_const(28) == 13292279900839913226888708999042067408) by (nonlinear_arith)
        requires
            acc_cap(28) == 11529214947173193464,
            frac_pow_const(28) == 1152921509551610822,
    ;
    assert(acc_cap(29) == 11529214996620831499);
    assert(acc_cap(29) * frac_pow_const(29) == 13292279929344535935349061203267795104) by (nonlinear_arith)
        requires
            acc_cap(29) == 11529214996620831499,
            frac_pow_const(29) == 1152921507079228896,
    ;
    assert(acc_cap(30) == 11529215021344650592);
    assert(acc_cap(30) * frac_pow_const(30) == 13292279943596847307993156118376207520) by (nonlinear_arith)
        requires
            acc_cap(30) == 11529215021344650592,
            frac_pow_const(30) == 1152921505843037935,
    ;
    assert(acc_cap(31) == 11529215033706560155);
    assert(acc_cap(31) * frac_pow_const(31) == 13292279950723003007709709699577440680) by (nonlinear_arith)
        requires
            acc_cap(31) == 11529215033706560155,
            frac_pow_const(31) == 1152921505224942456,
    ;
    assert(acc_cap(32) == 11529215039887514948);
}

/// The decoded counter for a sixteen-bit code, before the final cast: the
/// code shifts back to `[0, 65535]`, scales to a twelve-unit exponent in
/// fixed point, and the power of ten is rebuilt — integer part by
/// multiplication, fractional part by the bit-product — rounded to the
/// nearest integer, minus one.
pub open spec fn decompress_spec(code: i16) -> int {
    let acc = frac_acc(code_fraction_bits(code) as nat, 32);
    ((pow10(code_exponent(code) as nat) * acc + FP_HALF) as int) / (FP_ONE as int) - 1
}

/// The whole decimal decades of a code's exponent.
pub open spec fn code_exponent(code: i16) -> int {
    ((code + 32768) * 12) / 65535
}

/// The fractional part of a code's exponent, as a thirty-two-bit binary
/// fraction.
pub open spec fn code_fraction_bits(code: i16) -> int {
    ((((code + 32768) * 12) % 65535) * 0x1_0000_0000) / 65535
}

/// Decode a stored sixteen-bit code back to the approximate counter it was
/// compressed from.
pub fn decompress_value_from_db(value: i16) -> (r: u64)
    ensures
        r == decompress_spec(value),
{
    let u: u64 = (value as i64 + 32768) as u64;
    let e: u64 = u * 12;
    let q: u64 = e / 65535;
    let rem: u64 = e % 65535;
    let b: u64 = (rem * 0x1_0000_0000) / 65535;
    proof {
        assert(q <= 12) by {
            lemma_div_is_ordered(e as int, (65535 * 12) as int, 65535);
            lemma_div_multiples_vanish(12, 65535);
        }
        assert(b < 0x1_0000_0000) by {
            lemma_mul_inequality(rem as int, 65534, 0x1_0000_0000);
            lemma_multiply_divide_lt((rem * 0x1_0000_0000) as int, 0x1_0000_0000, 65535);
        }
    }

    let mut acc: u128 = FP_ONE;
    let mut t: u64 = b;
    let mut i: usize = 0;
    while i < 32
        invariant
            i <= 32,
            t == t_state(b as nat, i as nat),
            t < 0x1_0000_0000,
            acc == frac_acc(b as nat, i as nat),
            FP_ONE <= acc,
            acc <= acc_cap(i as nat),
        decreases 32 - i,
    {
        proof {
            lemma_acc_cap_monotonic(i as nat, 32);
            lemma_acc_cap_value();
            lemma_frac_pow_const_bounds(i as nat);
        }
        if t >= 0x8000_0000 {
            let c = frac_pow_const_at(i);
            proof {
                lemma_mul_upper_bound(
                    acc as int,
                    11529215039887514948,
                    c as int,
                    3645857917945947428,
                );
                lemma_acc_step_bounds(acc as nat, acc_cap(i as nat), c as nat);
            }
            acc = (acc * c) / FP_ONE;
        }
        t = (t % 0x8000_0000) * 2;
        proof {
            lemma_acc_cap_monotonic(i as nat, (i + 1) as nat);
        }
        i = i + 1;
        proof {
            assert(t == t_state(b as nat, i as nat));
            assert(acc == frac_acc(b as nat, i as nat));
        }
    }

    let tenq: u64 = pow10_u64(q as usize);
    proof {
        lemma_acc_cap_value();
        lemma_pow10_increases(q as nat, 12);
        lemma_pow10_values();
        lemma_mul_upper_bound(tenq as int, 1_000_000_000_000, acc as int, 11529215039887514948);
        lemma_pow10_positive(q as nat);
        lemma_mul_inequality(1, tenq as int, acc as int);
        assert((1 * (acc as int)) == acc as int) by (nonlinear_arith);
        // The rounded product is at least one, so the final subtraction
        // cannot underflow.
        lemma_div_is_ordered(FP_ONE as int, ((tenq * acc) as u128 + FP_HALF) as int, FP_ONE as int);
        lemma_div_multiples_vanish(1, FP_ONE as int);
        // And it fits comfortably in sixty-four bits.
        lemma_div_is_ordered(
            ((tenq * acc) as u128 + FP_HALF) as int,
            (1_000_000_000_000 * 11529215039887514948 + FP_HALF) as int,
            FP_ONE as int,
        );
        assert((1_000_000_000_000 * 11529215039887514948 + FP_HALF as int) / (FP_ONE as int)
            == 9999999994639);
    }
    let prod: u128 = (tenq as u128) * acc;
    let rounded: u128 = (prod + FP_HALF) / FP_ONE;
    (rounded - 1) as u64
}

/// The mantissa of `w` in sixty-bit fixed point: `w / 10^floor(log10 w)`,
/// a value in `[1, 10)`.
pub open spec fn mant0(w: nat) -> nat {
    (w * (FP_ONE as nat)) / pow10(floor_log10(w))
}

/// The first `k` fractional bits of `log10` of a fixed-point mantissa in
/// `[1, 10)`, by repeated squaring: squaring doubles the logarithm, and a
/// square that reaches ten yields a one bit and is scaled back down.
pub open spec fn frac_bits(m: nat, k: nat) -> nat
    decreases k,
{
    if k == 0 {
        0
    } else {
        let m2 = (m * m) / (FP_ONE as nat);
        if m2 >= FP_TEN {
            pow2((k - 1) as nat) + frac_bits(m2 / 10, (k - 1) as nat)
        } else {
            frac_bits(m2, (k - 1) as nat)
        }
    }
}

/// `log10(w)` in thirty-two-bit fixed point: the integer part above the
/// point, thirty-two extracted bits below it.
pub open spec fn log_fp(w: nat) -> nat {
    floor_log10(w) * 0x1_0000_0000 + frac_bits(mant0(w), 32)
}

/// The unsigned sixteen-bit code for a counter: clamp to the representable
/// range, take the fixed-point logarithm of `v + 1`, and scale it so that
/// the full range `[0, log10(10^12 + 1)]` spreads over `[0, 65535]`,
/// rounded to nearest.
pub open spec fn encode_code(v: nat) -> int {
    let vc: nat = if v > MAX_INPUT { MAX_INPUT as nat } else { v };
    let lf = log_fp(vc + 1);
    let c = (lf * 65535 + 0x6_0000_0000) / 0xC_0000_0000;
    if c > 65535 {
        65535
    } else {
        c as int
    }
}

/// The signed code stored for a counter: the unsigned code shifted down by
/// half the range.
pub open spec fn compress_spec(v: u64) -> int {
    encode_code(v as nat) - 32768
}

proof fn lemma_mant0_bounds(w: nat)
    requires
        w >= 1,
    ensures
        FP_ONE <= mant0(w) < FP_TEN,
{
    lemma_floor_log10_bounds(w);
    let p = floor_log10(w);
    let tp = pow10(p);
    lemma_pow10_positive(p);
    // Lower bound: w >= 10^p, so the quotient is at least one unit.
    lemma_mul_inequality(tp as int, w as int, FP_ONE as int);
    lemma_div_is_ordered((tp * FP_ONE) as int, (w * FP_ONE) as int, tp as int);
    assert(tp * FP_ONE == tp as int * (FP_ONE as int)) by (nonlinear_arith);
    assert((tp as int * (FP_ONE as int)) / (tp as int) == FP_ONE as int) by {
        lemma_div_multiples_vanish(FP_ONE as int, tp as int);
        assert(tp as int * (FP_ONE as int) == (tp as int) * (FP_ONE as int)) by (nonlinear_arith);
    }
    // Upper bound: w < 10^(p+1) = 10 * 10^p, so the quotient stays under
    // ten units.
    assert(pow10(p + 1) == 10 * tp);
    lemma_mul_inequality(w as int, (10 * tp - 1) as int, FP_ONE as int);
    assert((10 * tp - 1) * FP_ONE < tp * (FP_TEN as int)) by (nonlinear_arith)
        requires
            tp >= 1,
    ;
    lemma_multiply_divide_lt((w * FP_ONE) as int, tp as int, FP_TEN as int);
}

proof fn lemma_frac_bits_bound(m: nat, k: nat)
    ensures
        frac_bits(m, k) < pow2(k),
    decreases k,
{
    if k == 0 {
        lemma2_to64();
    } else {
        let m2 = (m * m) / (FP_ONE as nat);
        lemma_pow2_unfold(k);
        if m2 >= FP_TEN {
            lemma_frac_bits_bound(m2 / 10, (k - 1) as nat);
        } else {
            lemma_frac_bits_bound(m2, (k - 1) as nat);
            lemma_pow2_pos((k - 1) as nat);
        }
    }
}

proof fn lemma_frac_bits_monotonic(m1: nat, m2: nat, k: nat)
    requires
        m1 <= m2,
    ensures
        frac_bits(m1, k) <= frac_bits(m2, k),
    decreases k,
{
    if k > 0 {
        let a1 = (m1 * m1) / (FP_ONE as nat);
        let a2 = (m2 * m2) / (FP_ONE as nat);
        assert(m1 * m1 <= m2 * m2) by (nonlinear_arith)
            requires
                0 <= m1 <= m2,
        ;
        lemma_div_is_ordered((m1 * m1) as int, (m2 * m2) as int, FP_ONE as int);
        if a1 >= FP_TEN {
            lemma_div_is_ordered(a1 as int, a2 as int, 10);
            lemma_frac_bits_monotonic(a1 / 10, a2 / 10, (k - 1) as nat);
        } else if a2 >= FP_TEN {
            // Only the larger mantissa yields a one bit here; the smaller
            // side's remaining bits cannot make that up.
            lemma_frac_bits_bound(a1, (k - 1) as nat);
        } else {
            lemma_frac_bits_monotonic(a1, a2, (k - 1) as nat);
        }
    }
}

proof fn lemma_log_fp_monotonic(w1: nat, w2: nat)
    requires
        1 <= w1 <= w2,
    ensures
        log_fp(w1) <= log_fp(w2),
{
    lemma_floor_log10_monotonic(w1, w2);
    let p1 = floor_log10(w1);
    let p2 = floor_log10(w2);
    if p1 == p2 {
        lemma_pow10_positive(p1);
        lemma_mul_inequality(w1 as int, w2 as int, FP_ONE as int);
        lemma_div_is_ordered((w1 * FP_ONE) as int, (w2 * FP_ONE) as int, pow10(p1) as int);
        lemma_frac_bits_monotonic(mant0(w1), mant0(w2), 32);
    } else {
        lemma_frac_bits_bound(mant0(w1), 32);
        assert(pow2(32) == 0x1_0000_0000) by {
            lemma2_to64();
        }
        lemma_mul_inequality((p1 + 1) as int, p2 as int, 0x1_0000_0000);
        assert(p1 * 0x1_0000_0000 + 0x1_0000_0000 == (p1 + 1) * 0x1_0000_0000) by (nonlinear_arith);
    }
}

/// Codes never fall as the counter grows: the codec preserves order, up to
/// its quantization.
pub proof fn lemma_compress_monotonic(v1: u64, v2: u64)
    requires
        v1 <= v2,
    ensures
        compress_spec(v1) <= compress_spec(v2),
{
    let c1: nat = if v1 > MAX_INPUT {
        MAX_INPUT as nat
    } else {
        v1 as nat
    };
    let c2: nat = if v2 > MAX_INPUT {
        MAX_INPUT as nat
    } else {
        v2 as nat
    };
    lemma_log_fp_monotonic(c1 + 1, c2 + 1);
    let lf1 = log_fp(c1 + 1);
    let lf2 = log_fp(c2 + 1);
    lemma_mul_inequality(lf1 as int, lf2 as int, 65535);
    lemma_div_is_ordered(
        (lf1 * 65535 + 0x6_0000_0000) as int,
        (lf2 * 65535 + 0x6_0000_0000) as int,
        0xC_0000_0000,
    );
}

/// Encode a counter into the signed sixteen-bit code the store keeps.
/// Values above the representable ceiling clamp to it silently.
pub fn compress_value_for_db(value: u64) -> (r: i16)
    ensures
        r == compress_spec(value),
{
    let v: u64 = if value > MAX_INPUT {
        MAX_INPUT
    } else {
        value
    };
    let w: u64 = v + 1;
    let p: usize = floor_log10_u64(w);
    let tp: u64 = pow10_u64(p);
    proof {
        lemma_mul_upper_bound(w as int, 1_000_000_000_001, FP_ONE as int, FP_ONE as int);
        lemma_pow10_positive(p as nat);
        lemma_mant0_bounds(w as nat);
    }
    let m0: u128 = ((w as u128) * FP_ONE) / (tp as u128);
    assert(m0 == mant0(w as nat));

    let ghost m0n = m0 as nat;
    proof {
        lemma2_to64();
    }
    let mut m: u128 = m0;
    let mut acc: u64 = 0;
    let mut i: usize = 0;
    while i < 32
        invariant
            i <= 32,
            FP_ONE <= m < FP_TEN,
            acc < pow2(i as nat),
            frac_bits(m0n, 32) == acc * pow2((32 - i) as nat) + frac_bits(
                m as nat,
                (32 - i) as nat,
            ),
        decreases 32 - i,
    {
        let ghost acc0 = acc;
        let ghost mold = m as nat;
        let ghost k = (32 - i) as nat;
        proof {
            lemma2_to64();
            lemma_mul_upper_bound(
                m as int,
                FP_TEN as int - 1,
                m as int,
                FP_TEN as int - 1,
            );
            // The squared mantissa stays in [1, 100) units.
            lemma_mul_inequality(FP_ONE as int, m as int, m as int);
            lemma_mul_inequality(FP_ONE as int, FP_ONE as int, m as int);
            assert(FP_ONE as int * FP_ONE as int == (FP_ONE * FP_ONE) as int)
                by (nonlinear_arith);
            lemma_div_is_ordered((FP_ONE * FP_ONE) as int, (m * m) as int, FP_ONE as int);
            lemma_div_multiples_vanish(FP_ONE as int, FP_ONE as int);
            assert(((m * m) as int) < (FP_ONE as int) * (100 * (FP_ONE as int)))
                by (nonlinear_arith)
                requires
                    m < FP_TEN,
                    FP_TEN == 10 * FP_ONE,
            ;
            lemma_multiply_divide_lt((m * m) as int, FP_ONE as int, 100 * (FP_ONE as int));
        }
        let m2: u128 = (m * m) / FP_ONE;
        proof {
            assert(frac_bits(mold, k) == (if (m2 as nat) >= FP_TEN {
                pow2((k - 1) as nat) + frac_bits(m2 as nat / 10, (k - 1) as nat)
            } else {
                frac_bits(m2 as nat, (k - 1) as nat)
            }));
        }
        if m2 >= FP_TEN {
            acc = 2 * acc + 1;
            proof {
                lemma_div_is_ordered(FP_TEN as int, m2 as int, 10);
                lemma_multiply_divide_lt(m2 as int, 10, FP_TEN as int);
            }
            m = m2 / 10;
        } else {
            acc = 2 * acc;
            m = m2;
        }
        proof {
            let bit: int = if mold * mold / (FP_ONE as nat) >= FP_TEN {
                1
            } else {
                0
            };
            lemma_pow2_unfold(k);
            assert(acc == 2 * acc0 + bit);
            assert((2 * acc0 + bit) * pow2((k - 1) as nat) == acc0 * (2 * pow2((k - 1) as nat))
                + bit * pow2((k - 1) as nat)) by (nonlinear_arith);
            assert(acc0 * (2 * pow2((k - 1) as nat)) == acc0 * pow2(k)) by (nonlinear_arith)
                requires
                    2 * pow2((k - 1) as nat) == pow2(k),
            ;
            lemma_pow2_strictly_increases((i + 1) as nat, 33);
        }
        i = i + 1;
    }
    proof {
        lemma2_to64();
        assert(frac_bits(m as nat, 0) == 0);
        assert(acc * pow2(0) == acc) by (nonlinear_arith)
            requires
                pow2(0) == 1,
        ;
        assert(frac_bits(m0n, 32) == acc);
    }

    let lf: u64 = (p as u64) * 0x1_0000_0000 + acc;
    assert(lf == log_fp(w as nat));
    let scaled: u64 = (lf * 65535 + 0x6_0000_0000) / 0xC_0000_0000;
    let code: u64 = if scaled > 65535 {
        65535
    } else {
        scaled
    };
    (code as i64 - 32768) as i16
}

proof fn lemma_frac_acc_bounds(b: nat, i: nat)
    requires
        i <= 32,
    ensures
        FP_ONE <= frac_acc(b, i) <= acc_cap(i),
    decreases i,
{
    if i > 0 {
        lemma_frac_acc_bounds(b, (i - 1) as nat);
        lemma_frac_pow_const_bounds((i - 1) as nat);
        if t_state(b, (i - 1) as nat) >= 0x8000_0000 {
            lemma_acc_step_bounds(
                frac_acc(b, (i - 1) as nat),
                acc_cap((i - 1) as nat),
                frac_pow_const((i - 1) as nat),
            );
        } else {
            lemma_acc_cap_monotonic((i - 1) as nat, i);
        }
    }
}

/// Codes from different decimal decades decode in order: the fractional
/// power product always stays below one further factor of ten, so the
/// larger exponent dominates whatever the fraction bits are.
pub proof fn lemma_decompress_ordered_across_decades(c1: i16, c2: i16)
    requires
        code_exponent(c1) < code_exponent(c2),
    ensures
        decompress_spec(c1) <= decompress_spec(c2),
{
    let q1 = code_exponent(c1);
    let q2 = code_exponent(c2);
    assert(0 <= q1 && q2 <= 12) by {
        lemma_div_is_ordered(((c2 + 32768) * 12) as int, (65535 * 12) as int, 65535);
        lemma_div_multiples_vanish(12, 65535);
        vstd::arithmetic::div_mod::lemma_div_pos_is_pos(((c1 + 32768) * 12) as int, 65535);
    }
    let acc1 = frac_acc(code_fraction_bits(c1) as nat, 32);
    let acc2 = frac_acc(code_fraction_bits(c2) as nat, 32);
    lemma_frac_acc_bounds(code_fraction_bits(c1) as nat, 32);
    lemma_frac_acc_bounds(code_fraction_bits(c2) as nat, 32);
    lemma_acc_cap_value();
    lemma_pow10_positive(q1 as nat);
    lemma_pow10_increases((q1 + 1) as nat, q2 as nat);

    // The largest value the smaller decade can reach lies below the
    // smallest the larger one can: the power product never reaches ten.
    assert(pow10(q1 as nat) * acc1 <= pow10(q1 as nat) * 11529215039887514948) by {
        lemma_mul_inequality(acc1 as int, 11529215039887514948, pow10(q1 as nat) as int);
        assert(acc1 * pow10(q1 as nat) == pow10(q1 as nat) * acc1) by (nonlinear_arith);
        assert(11529215039887514948 * pow10(q1 as nat) == pow10(q1 as nat)
            * 11529215039887514948) by (nonlinear_arith);
    }
    assert(pow10(q1 as nat) * 11529215039887514948 <= pow10((q1 + 1) as nat) * FP_ONE) by {
        assert(pow10((q1 + 1) as nat) == 10 * pow10(q1 as nat));
        assert((10 * pow10(q1 as nat)) * (FP_ONE as int) == pow10(q1 as nat) * (10 * (
        FP_ONE as int))) by (nonlinear_arith);
        lemma_mul_inequality(
            11529215039887514948,
            10 * (FP_ONE as int),
            pow10(q1 as nat) as int,
        );
        assert(11529215039887514948 * pow10(q1 as nat) == pow10(q1 as nat)
            * 11529215039887514948) by (nonlinear_arith);
        assert((10 * (FP_ONE as int)) * pow10(q1 as nat) == pow10(q1 as nat) * (10 * (
        FP_ONE as int))) by (nonlinear_arith);
    }
    assert(pow10((q1 + 1) as nat) * FP_ONE <= pow10(q2 as nat) * acc2) by {
        lemma_mul_inequality(pow10((q1 + 1) as nat) as int, pow10(q2 as nat) as int, FP_ONE as int);
        lemma_mul_inequality(FP_ONE as int, acc2 as int, pow10(q2 as nat) as int);
        assert(FP_ONE as int * pow10(q2 as nat) == pow10(q2 as nat) * (FP_ONE as int))
            by (nonlinear_arith);
        assert(acc2 as int * pow10(q2 as nat) == pow10(q2 as nat) * acc2) by (nonlinear_arith);
    }
    lemma_div_is_ordered(
        (pow10(q1 as nat) * acc1 + FP_HALF) as int,
        (pow10(q2 as nat) * acc2 + FP_HALF) as int,
        FP_ONE as int,
    );
}

} // verus!
