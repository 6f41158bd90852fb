//! Laws of the rendering: the sign prefix is independent of the
//! magnitude, small values render as bare digits, teens carry no
//! leading "一", the zero filler never doubles up or trails, and a
//! bare group shifts by its unit symbol alone.
use vstd::prelude::*;
use crate::model::digit_seq;
use crate::model::unit_seq;
use crate::model::pow10000;
use crate::model::max_group_index;
use crate::model::zero_fill;
use crate::model::place_emit;
use crate::model::group_emit;
use crate::model::groups_emit;
use crate::model::magnitude_seq;
use crate::model::render_seq;
use crate::model::lemma_pow10000_pos;
use crate::model::lemma_below_next_weight;
use crate::model::lemma_groups_emit_zero;
use vstd::arithmetic::div_mod::lemma_small_mod;
use vstd::arithmetic::div_mod::lemma_basic_div;
use vstd::arithmetic::div_mod::lemma_div_basics;
use vstd::arithmetic::div_mod::lemma_fundamental_div_mod;
use vstd::arithmetic::div_mod::lemma_multiply_divide_lt;
use vstd::arithmetic::div_mod::lemma_mod_division_less_than_divisor;
use vstd::arithmetic::div_mod::lemma_div_multiples_vanish;
use vstd::arithmetic::div_mod::lemma_mod_multiples_basic;

verus! {

/// No two consecutive zero fillers: "零零" never occurs.
pub open spec fn no_double_zero(s: Seq<char>) -> bool {
    forall|i: int| 0 <= i && i + 1 < s.len() ==> !((#[trigger] s[i]) == '零' && s[i + 1] == '零')
}

/// The text does not end in a zero filler.
pub open spec fn no_trailing_zero(s: Seq<char>) -> bool {
    s.len() > 0 ==> s[s.len() - 1] != '零'
}

/// A well-formed emitted chunk: no doubled zero filler inside it and
/// none at its end.
pub open spec fn chunk_ok(s: Seq<char>) -> bool {
    no_double_zero(s) && no_trailing_zero(s)
}

/// A chunk with no zero filler anywhere.
pub open spec fn zero_free(s: Seq<char>) -> bool {
    forall|i: int| 0 <= i < s.len() ==> (#[trigger] s[i]) != '零'
}

/// Well-formedness survives concatenation: the left chunk never ends
/// in "零", so no doubled "零" can arise at the seam.
pub proof fn lemma_chunk_ok_concat(a: Seq<char>, b: Seq<char>)
    requires
        chunk_ok(a),
        chunk_ok(b),
    ensures
        chunk_ok(a + b),
{
    let c = a + b;
    assert forall|i: int| 0 <= i && i + 1 < c.len() implies !((#[trigger] c[i]) == '零' && c[i + 1] == '零') by {
        if i + 1 < a.len() {
            assert(c[i] == a[i] && c[i + 1] == a[i + 1]);
        } else if i + 1 == a.len() {
            assert(c[i] == a[a.len() - 1]);
        } else {
            assert(c[i] == b[i - a.len()] && c[i + 1] == b[i + 1 - a.len()]);
        }
    }
    if c.len() > 0 {
        if b.len() > 0 {
            assert(c[c.len() - 1] == b[b.len() - 1]);
        } else {
            assert(c[c.len() - 1] == a[a.len() - 1]);
        }
    }
}

/// An owed "零" followed by zero-free text is a well-formed chunk.
pub proof fn lemma_fill_chunk_ok(f: Option<bool>, s: Seq<char>)
    requires
        zero_free(s),
        s.len() > 0,
    ensures
        chunk_ok(zero_fill(f) + s),
{
    let c = zero_fill(f) + s;
    assert(c[c.len() - 1] == s[s.len() - 1]);
    assert forall|i: int| 0 <= i && i + 1 < c.len() implies !((#[trigger] c[i]) == '零' && c[i + 1] == '零') by {
        assert(c[i + 1] == s[i + 1 - zero_fill(f).len()]);
    }
}

/// Digit symbols carry no zero filler.
pub proof fn lemma_digit_zero_free(d: int)
    ensures
        zero_free(digit_seq(d)),
{
}

/// One emitted place is a well-formed chunk, for the shapes the
/// renderer uses: digits stay below ten, and the place that omits a
/// lone "一" (the tens) has a place symbol of its own.
pub proof fn lemma_place_chunk_ok(d: int, place: Seq<char>, omit_one: bool, f: Option<bool>)
    requires
        0 <= d <= 9,
        zero_free(place),
        omit_one ==> place.len() > 0,
    ensures
        chunk_ok(place_emit(d, place, omit_one, f).0),
{
    if d > 0 {
        let sym = if omit_one && d == 1 {
            Seq::<char>::empty()
        } else {
            digit_seq(d)
        };
        lemma_digit_zero_free(d);
        assert(zero_free(sym + place));
        assert((sym + place).len() > 0);
        lemma_fill_chunk_ok(f, sym + place);
        assert(place_emit(d, place, omit_one, f).0 =~= zero_fill(f) + (sym + place));
    }
}

/// One group's places form a well-formed chunk.
pub proof fn lemma_group_chunk_ok(part: int, f: Option<bool>)
    requires
        0 <= part <= 9999,
    ensures
        chunk_ok(group_emit(part, f).0),
{
    let r3 = place_emit(part / 1000, seq!['千'], false, f);
    let r2 = place_emit((part / 100) % 10, seq!['百'], false, r3.1);
    let r1 = place_emit((part / 10) % 10, seq!['十'], true, r2.1);
    let r0 = place_emit(part % 10, Seq::empty(), false, r1.1);
    lemma_place_chunk_ok(part / 1000, seq!['千'], false, f);
    lemma_place_chunk_ok((part / 100) % 10, seq!['百'], false, r3.1);
    lemma_place_chunk_ok((part / 10) % 10, seq!['十'], true, r2.1);
    lemma_place_chunk_ok(part % 10, Seq::empty(), false, r1.1);
    lemma_chunk_ok_concat(r3.0, r2.0);
    lemma_chunk_ok_concat(r3.0 + r2.0, r1.0);
    lemma_chunk_ok_concat(r3.0 + r2.0 + r1.0, r0.0);
}

/// Unit symbols carry no zero filler and are well-formed chunks.
pub proof fn lemma_unit_chunk_ok(i: int)
    ensures
        chunk_ok(unit_seq(i)),
{
}

/// The groups of a bounded magnitude emit a well-formed chunk,
/// whatever the tracker state at entry.
pub proof fn lemma_groups_emit_chunk_ok(m: nat, idx: nat, f: Option<bool>)
    requires
        m < pow10000(idx + 1),
    ensures
        chunk_ok(groups_emit(m, idx, f).0),
    decreases idx,
{
    lemma_pow10000_pos(idx);
    let part = m / pow10000(idx);
    let rest = m % pow10000(idx);
    assert(pow10000(idx + 1) == 10000 * pow10000(idx));
    lemma_multiply_divide_lt(m as int, pow10000(idx) as int, 10000);
    assert(part <= 9999);
    let g = group_emit(part as int, f);
    lemma_group_chunk_ok(part as int, f);
    lemma_unit_chunk_ok(idx as int);
    let unit = if part != 0 {
        unit_seq(idx as int)
    } else {
        Seq::<char>::empty()
    };
    lemma_chunk_ok_concat(g.0, unit);
    if idx > 0 {
        lemma_mod_division_less_than_divisor(m as int, pow10000(idx) as int);
        lemma_groups_emit_chunk_ok(rest, (idx - 1) as nat, g.1);
        lemma_chunk_ok_concat(g.0 + unit, groups_emit(rest, (idx - 1) as nat, g.1).0);
    }
}

/// The rendering of any integer never contains "零零".
pub proof fn lemma_render_no_double_zero(v: int)
    ensures
        no_double_zero(render_seq(v)),
{
    if v == 0 {
    } else {
        let m = if v < 0 {
            (-v) as nat
        } else {
            v as nat
        };
        lemma_below_next_weight(m);
        lemma_groups_emit_chunk_ok(m, max_group_index(m), Option::None);
        if v < 0 {
            lemma_chunk_ok_concat(seq!['负'], magnitude_seq(m));
        }
    }
}

/// The rendering of any nonzero integer never ends in "零". (Zero
/// itself renders as exactly "零", so it is left out.)
pub proof fn lemma_render_no_trailing_zero(v: int)
    requires
        v != 0,
    ensures
        no_trailing_zero(render_seq(v)),
{
    let m = if v < 0 {
        (-v) as nat
    } else {
        v as nat
    };
    lemma_below_next_weight(m);
    lemma_groups_emit_chunk_ok(m, max_group_index(m), Option::None);
    if v < 0 {
        lemma_chunk_ok_concat(seq!['负'], magnitude_seq(m));
    }
}

/// The sign prefix is independent of the magnitude: a negative value
/// renders as "负" followed by the rendering of its absolute value.
pub proof fn lemma_negative_prefix(x: int)
    requires
        x > 0,
    ensures
        render_seq(-x) == seq!['负'] + render_seq(x),
{
}

/// Values one through nine render as the bare digit symbol.
pub proof fn lemma_single_digit(x: int)
    requires
        1 <= x <= 9,
    ensures
        render_seq(x) == digit_seq(x),
{
    let m = x as nat;
    assert(max_group_index(m) == 0);
    lemma_basic_div(x, 1000);
    lemma_basic_div(x, 100);
    lemma_basic_div(x, 10);
    lemma_small_mod(m, 10);
    assert(pow10000(0) == 1);
    lemma_div_basics(m as int);
    assert(m / pow10000(0) == m);
    let g = group_emit(x, Option::None);
    assert(g.0 =~= digit_seq(x));
    assert(groups_emit(m, 0, Option::None).0 =~= digit_seq(x));
}

/// Ten through nineteen render as "十" followed by the ones digit, with
/// no leading "一".
pub proof fn lemma_teens(x: int)
    requires
        10 <= x <= 19,
    ensures
        render_seq(x) == seq!['十'] + digit_seq(x - 10),
{
    let m = x as nat;
    assert(max_group_index(m) == 0);
    lemma_basic_div(x, 1000);
    lemma_basic_div(x, 100);
    lemma_fundamental_div_mod(x, 10);
    assert(x / 10 == 1) by (nonlinear_arith)
        requires
            10 <= x <= 19,
    ;
    assert(x % 10 == x - 10);
    assert(pow10000(0) == 1);
    lemma_div_basics(m as int);
    assert(m / pow10000(0) == m);
    let g = group_emit(x, Option::None);
    assert(g.0 =~= seq!['十'] + digit_seq(x - 10));
    assert(groups_emit(m, 0, Option::None).0 =~= seq!['十'] + digit_seq(x - 10));
}

/// A bare group keeps its highest group index: k shifted up by n
/// groups tops out at group n.
proof fn lemma_shift_group_index(k: int, n: nat)
    requires
        1 <= k <= 9999,
    ensures
        max_group_index((k * pow10000(n)) as nat) == n,
    decreases n,
{
    lemma_pow10000_pos(n);
    let m = k * pow10000(n);
    if n == 0 {
        assert(pow10000(0) == 1);
        assert(m == k) by (nonlinear_arith)
            requires
                m == k * pow10000(n),
                pow10000(n) == 1,
        ;
    } else {
        assert(pow10000(n) == 10000 * pow10000((n - 1) as nat));
        let p = pow10000((n - 1) as nat);
        assert(m == 10000 * (k * p)) by (nonlinear_arith)
            requires
                pow10000(n) == 10000 * p,
                m == k * pow10000(n),
        ;
        lemma_pow10000_pos((n - 1) as nat);
        assert(k * p >= 1) by (nonlinear_arith)
            requires
                k >= 1,
                p >= 1,
        ;
        assert(m >= 10000);
        lemma_div_multiples_vanish(k * p, 10000);
        assert(m / 10000 == k * p);
        lemma_shift_group_index(k, (n - 1) as nat);
    }
}

/// Shifting a bare group up by n groups appends exactly the unit
/// symbol of group n: for k with no group above it, the rendering of
/// k * 10000^n is the rendering of k followed by that unit.
pub proof fn lemma_group_shift(k: int, n: nat)
    requires
        1 <= k <= 9999,
        1 <= n <= 4,
    ensures
        render_seq(k * pow10000(n)) == render_seq(k) + unit_seq(n as int),
{
    lemma_pow10000_pos(n);
    let m = (k * pow10000(n)) as nat;
    assert(k * pow10000(n) >= 1) by (nonlinear_arith)
        requires
            k >= 1,
            pow10000(n) >= 1,
    ;
    lemma_shift_group_index(k, n);
    assert(max_group_index(m) == n);
    lemma_div_multiples_vanish(k, pow10000(n) as int);
    assert(pow10000(n) * k == k * pow10000(n)) by (nonlinear_arith);
    assert(m / pow10000(n) == k);
    lemma_mod_multiples_basic(k, pow10000(n) as int);
    assert(m % pow10000(n) == 0);
    let g = group_emit(k, Option::None);
    lemma_groups_emit_zero((n - 1) as nat, g.1);
    assert(groups_emit(m, n, Option::None).0 =~= g.0 + unit_seq(n as int));
    assert(max_group_index(k as nat) == 0);
    assert(pow10000(0) == 1);
    lemma_div_basics(k);
    assert((k as nat) / pow10000(0) == k as nat);
    assert(groups_emit(k as nat, 0, Option::None).0 =~= g.0);
    assert(render_seq(k * pow10000(n)) =~= render_seq(k) + unit_seq(n as int));
}

} // verus!
