//! Mathematical model of the rendering: what character sequence each
//! signed 64-bit integer denotes in Chinese numeral form.
//!
//! A magnitude is split into base-10,000 groups ("万" groups). Within a
//! group the four decimal places (thousands, hundreds, tens, ones) are
//! rendered in order; a tri-state "pending zero" tracker decides where a
//! single zero-filler "零" is owed between non-adjacent digits.
use vstd::prelude::*;

verus! {

/// The nine digit symbols; zero has no symbol of its own and is handled
/// by the zero-filler rules. Values outside 1..=9 render as nothing.
pub open spec fn digit_seq(d: int) -> Seq<char> {
    if d == 1 {
        seq!['一']
    } else if d == 2 {
        seq!['二']
    } else if d == 3 {
        seq!['三']
    } else if d == 4 {
        seq!['四']
    } else if d == 5 {
        seq!['五']
    } else if d == 6 {
        seq!['六']
    } else if d == 7 {
        seq!['七']
    } else if d == 8 {
        seq!['八']
    } else if d == 9 {
        seq!['九']
    } else {
        Seq::empty()
    }
}

/// The unit symbol of a base-10,000 group: index 1 is "万" (10^4),
/// 2 is "亿" (10^8), 3 is "兆" (10^12), 4 is "京" (10^16). The ones
/// group (index 0) carries no unit.
pub open spec fn unit_seq(i: int) -> Seq<char> {
    if i == 1 {
        seq!['万']
    } else if i == 2 {
        seq!['亿']
    } else if i == 3 {
        seq!['兆']
    } else if i == 4 {
        seq!['京']
    } else {
        Seq::empty()
    }
}

/// 10000^n, the weight of group n.
pub open spec fn pow10000(n: nat) -> nat
    decreases n,
{
    if n == 0 {
        1nat
    } else {
        10000 * pow10000((n - 1) as nat)
    }
}

/// Index of the highest base-10,000 group of m that is nonzero
/// (0 for m < 10000).
pub open spec fn max_group_index(m: nat) -> nat
    decreases m,
{
    if m < 10000 {
        0nat
    } else {
        1 + max_group_index(m / 10000)
    }
}

/// The pending-zero tracker: `None` before any digit of the number has
/// been emitted; `Some(false)` right after a digit; `Some(true)` when a
/// digit position was skipped after at least one emission, so a single
/// "零" is owed before the next digit.
pub open spec fn skipped(f: Option<bool>) -> Option<bool> {
    match f {
        Option::None => Option::None,
        Option::Some(_) => Option::Some(true),
    }
}

/// The zero filler owed at the current position: "零" exactly when the
/// tracker says one is owed.
pub open spec fn zero_fill(f: Option<bool>) -> Seq<char> {
    if f == Option::Some(true) {
        seq!['零']
    } else {
        Seq::empty()
    }
}

/// One decimal place within a group: digit d with its place symbol
/// (e.g. "千"), preceded by an owed "零" if any. The digit symbol is
/// omitted when `omit_one` holds and d == 1: the tens place writes
/// "十", never "一十". A zero digit emits nothing and marks the
/// tracker as skipped.
pub open spec fn place_emit(d: int, place: Seq<char>, omit_one: bool, f: Option<bool>) -> (Seq<
    char,
>, Option<bool>) {
    if d > 0 {
        (
            zero_fill(f) + (if omit_one && d == 1 {
                Seq::empty()
            } else {
                digit_seq(d)
            }) + place,
            Option::Some(false),
        )
    } else {
        (Seq::empty(), skipped(f))
    }
}

/// One base-10,000 group: its thousands, hundreds, tens and ones
/// places in order, threading the pending-zero tracker.
pub open spec fn group_emit(part: int, f: Option<bool>) -> (Seq<char>, Option<bool>) {
    let r3 = place_emit(part / 1000, seq!['千'], false, f);
    let r2 = place_emit((part / 100) % 10, seq!['百'], false, r3.1);
    let r1 = place_emit((part / 10) % 10, seq!['十'], true, r2.1);
    let r0 = place_emit(part % 10, Seq::empty(), false, r1.1);
    (r3.0 + r2.0 + r1.0 + r0.0, r0.1)
}

/// Groups idx down to 0 of m: each group's places, its unit symbol when
/// the group is nonzero, threading the pending-zero tracker across
/// group boundaries.
pub open spec fn groups_emit(m: nat, idx: nat, f: Option<bool>) -> (Seq<char>, Option<bool>)
    decreases idx,
{
    let part = m / pow10000(idx);
    let rest = m % pow10000(idx);
    let g = group_emit(part as int, f);
    let body = g.0 + (if part != 0 {
        unit_seq(idx as int)
    } else {
        Seq::<char>::empty()
    });
    if idx == 0 {
        (body, g.1)
    } else {
        let r = groups_emit(rest, (idx - 1) as nat, g.1);
        (body + r.0, r.1)
    }
}

/// The rendering of a positive magnitude.
pub open spec fn magnitude_seq(m: nat) -> Seq<char> {
    groups_emit(m, max_group_index(m), Option::None).0
}

/// The Chinese numeral rendering of v: "零" for zero, a "负" prefix for
/// negatives, and the grouped magnitude otherwise.
pub open spec fn render_seq(v: int) -> Seq<char> {
    if v == 0 {
        seq!['零']
    } else if v < 0 {
        seq!['负'] + magnitude_seq((-v) as nat)
    } else {
        magnitude_seq(v as nat)
    }
}

/// The group weights are positive.
pub proof fn lemma_pow10000_pos(n: nat)
    ensures
        pow10000(n) >= 1,
    decreases n,
{
    if n > 0 {
        lemma_pow10000_pos((n - 1) as nat);
    }
}

/// A magnitude of zero emits nothing, whatever the group index and
/// tracker state: only trailing all-zero groups are ever reached with
/// m == 0, and they are dropped.
pub proof fn lemma_groups_emit_zero(idx: nat, f: Option<bool>)
    ensures
        groups_emit(0, idx, f).0 =~= Seq::<char>::empty(),
    decreases idx,
{
    lemma_pow10000_pos(idx);
    if idx > 0 {
        lemma_groups_emit_zero((idx - 1) as nat, skipped(skipped(skipped(skipped(f)))));
    }
}

/// m lies below the weight of the group above its highest nonzero one.
pub proof fn lemma_below_next_weight(m: nat)
    ensures
        m < pow10000(max_group_index(m) + 1),
    decreases m,
{
    if m < 10000 {
        lemma_pow10000_pos(max_group_index(m) + 1);
        assert(pow10000(max_group_index(m) + 1) == 10000 * pow10000(max_group_index(m)));
        lemma_pow10000_pos(max_group_index(m));
        assert(10000 * pow10000(max_group_index(m)) >= 10000) by (nonlinear_arith)
            requires
                pow10000(max_group_index(m)) >= 1,
        ;
    } else {
        lemma_below_next_weight(m / 10000);
        let i = max_group_index(m / 10000);
        assert(m / 10000 < pow10000(i + 1));
        assert(pow10000(i + 2) == 10000 * pow10000(i + 1));
        assert(m < 10000 * pow10000(i + 1)) by (nonlinear_arith)
            requires
                m / 10000 < pow10000(i + 1),
                m >= 10000,
        ;
    }
}

/// Bounded magnitudes need bounded group indices: anything below
/// 10000^(k+1) has its highest group at or below k.
pub proof fn lemma_max_group_index_le(m: nat, k: nat)
    requires
        m < pow10000(k + 1),
    ensures
        max_group_index(m) <= k,
    decreases k,
{
    if m >= 10000 {
        assert(pow10000(k + 1) == 10000 * pow10000(k));
        if k == 0 {
            assert(false);
        } else {
            assert(m / 10000 < pow10000(k)) by (nonlinear_arith)
                requires
                    m < 10000 * pow10000(k),
            ;
            lemma_max_group_index_le(m / 10000, (k - 1) as nat);
        }
    }
}

} // verus!
