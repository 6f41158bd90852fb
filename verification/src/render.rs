//! Executable rendering, proved to produce exactly the character
//! sequence that the model assigns to each input.
use vstd::prelude::*;
use crate::model::digit_seq;
use crate::model::unit_seq;
use crate::model::pow10000;
use crate::model::max_group_index;
use crate::model::skipped;
use crate::model::place_emit;
use crate::model::group_emit;
use crate::model::groups_emit;
use crate::model::magnitude_seq;
use crate::model::render_seq;
use crate::model::lemma_pow10000_pos;
use crate::model::lemma_below_next_weight;
use crate::model::lemma_max_group_index_le;
use vstd::arithmetic::div_mod::lemma_div_decreases;
use vstd::arithmetic::div_mod::lemma_multiply_divide_lt;
use vstd::arithmetic::div_mod::lemma_mod_division_less_than_divisor;

verus! {

/// A signed 64-bit integer together with its Chinese numeral text.
pub struct Fmt(pub i64);

impl Fmt {
    /// The Chinese numeral text of the wrapped value.
    pub fn to_text(&self) -> (s: String)
        ensures
            s@ == render_seq(self.0 as int),
    {
        convert_all_fmt(self.0)
    }
}

/// The pending-zero tracker of one rendering pass: `None` before any
/// digit has been emitted, `Some(false)` right after a digit,
/// `Some(true)` when a zero-filler "零" is owed.
pub struct ZeroFlag {
    flag: Option<bool>,
}

impl ZeroFlag {
    /// The tracker state, as the model sees it.
    pub closed spec fn state(&self) -> Option<bool> {
        self.flag
    }

    pub fn new() -> (r: ZeroFlag)
        ensures
            r.state() == Option::<bool>::None,
    {
        ZeroFlag { flag: Option::None }
    }

    /// Whether a "零" is owed before the next digit.
    pub fn should_output(&self) -> (r: bool)
        ensures
            r == (self.state() == Option::Some(true)),
    {
        match self.flag {
            Option::Some(f) => f,
            Option::None => false,
        }
    }

    /// Note that a digit was just emitted: no "零" is owed.
    pub fn did_output_some_character(&mut self)
        ensures
            final(self).state() == Option::Some(false),
    {
        self.flag = Option::Some(false);
    }

    /// Note that a digit position was skipped: a "零" becomes owed,
    /// unless nothing has been emitted yet.
    pub fn reset(&mut self)
        ensures
            final(self).state() == skipped(old(self).state()),
    {
        match self.flag {
            Option::Some(_) => self.flag = Option::Some(true),
            Option::None => {},
        }
    }
}

/// The symbol of a single decimal digit; empty outside 1..=9.
pub fn digit_str(n: i64) -> (r: &'static str)
    ensures
        r@ == digit_seq(n as int),
{
    proof {
        reveal_strlit("一");
        reveal_strlit("二");
        reveal_strlit("三");
        reveal_strlit("四");
        reveal_strlit("五");
        reveal_strlit("六");
        reveal_strlit("七");
        reveal_strlit("八");
        reveal_strlit("九");
        reveal_strlit("");
        assert("一"@ =~= seq!['一']);
        assert("二"@ =~= seq!['二']);
        assert("三"@ =~= seq!['三']);
        assert("四"@ =~= seq!['四']);
        assert("五"@ =~= seq!['五']);
        assert("六"@ =~= seq!['六']);
        assert("七"@ =~= seq!['七']);
        assert("八"@ =~= seq!['八']);
        assert("九"@ =~= seq!['九']);
        assert(""@ =~= Seq::<char>::empty());
    }
    match n {
        1 => "一",
        2 => "二",
        3 => "三",
        4 => "四",
        5 => "五",
        6 => "六",
        7 => "七",
        8 => "八",
        9 => "九",
        _ => "",
    }
}

/// The unit symbol of group i: "", "万", "亿", "兆" or "京".
fn unit_str(i: usize) -> (r: &'static str)
    requires
        i <= 4,
    ensures
        r@ == unit_seq(i as int),
{
    proof {
        reveal_strlit("万");
        reveal_strlit("亿");
        reveal_strlit("兆");
        reveal_strlit("京");
        reveal_strlit("");
        assert("万"@ =~= seq!['万']);
        assert("亿"@ =~= seq!['亿']);
        assert("兆"@ =~= seq!['兆']);
        assert("京"@ =~= seq!['京']);
        assert(""@ =~= Seq::<char>::empty());
    }
    match i {
        1 => "万",
        2 => "亿",
        3 => "兆",
        4 => "京",
        _ => "",
    }
}

/// 10000^i, for the group indices a 64-bit magnitude can need.
fn pow10000_u64(i: usize) -> (r: u64)
    requires
        i <= 4,
    ensures
        r as nat == pow10000(i as nat),
{
    proof {
        reveal_with_fuel(pow10000, 5);
    }
    match i {
        0 => 1,
        1 => 10000,
        2 => 100000000,
        3 => 1000000000000,
        _ => 10000000000000000,
    }
}

/// Index of the highest nonzero base-10,000 group of a magnitude.
fn mag_group_index(m: u64) -> (i: usize)
    ensures
        i as nat == max_group_index(m as nat),
        i <= 4,
{
    proof {
        reveal_with_fuel(pow10000, 6);
        lemma_max_group_index_le(m as nat, 4);
    }
    let mut i: usize = 0;
    let mut t: u64 = m;
    while t >= 10000
        invariant
            max_group_index(m as nat) == i as nat + max_group_index(t as nat),
            max_group_index(m as nat) <= 4,
        decreases t,
    {
        proof {
            lemma_div_decreases(t as int, 10000);
        }
        t = t / 10000;
        i = i + 1;
    }
    i
}

/// Index of the highest nonzero base-10,000 group of a value: its
/// magnitude needs the unit of that group ("万" for 1, up to "京" for
/// 4). Zero and negative values report 0.
pub fn get_max_unit_index(val: i64) -> (r: i8)
    ensures
        val > 0 ==> r as nat == max_group_index(val as nat),
        val <= 0 ==> r == 0,
        0 <= r <= 4,
{
    if val <= 0 {
        0
    } else {
        mag_group_index(val as u64) as i8
    }
}

/// Emit one decimal place of a group: an owed "零" first, then the
/// digit symbol (omitted for a lone tens "一") and the place symbol;
/// a zero digit emits nothing and marks the tracker as skipped.
fn push_place(out: &mut String, d: u64, place: &str, omit_one: bool, flag: &mut ZeroFlag)
    requires
        d <= 9,
    ensures
        ({
            let r = place_emit(d as int, place@, omit_one, old(flag).state());
            final(out)@ == old(out)@ + r.0 && final(flag).state() == r.1
        }),
{
    proof {
        reveal_strlit("零");
        assert("零"@ =~= seq!['零']);
    }
    if d > 0 {
        if flag.should_output() {
            out.append("零");
        }
        flag.did_output_some_character();
        if !(omit_one && d == 1) {
            let ds = digit_str(d as i64);
            out.append(ds);
        }
        out.append(place);
        proof {
            let r = place_emit(d as int, place@, omit_one, old(flag).state());
            assert(final(out)@ =~= old(out)@ + r.0);
        }
    } else {
        flag.reset();
        proof {
            let r = place_emit(d as int, place@, omit_one, old(flag).state());
            assert(final(out)@ =~= old(out)@ + r.0);
        }
    }
}

/// Emit one base-10,000 group: its four decimal places in descending
/// order, then the group's unit symbol when the group is nonzero.
fn push_group(out: &mut String, part: u64, g: usize, flag: &mut ZeroFlag)
    requires
        part <= 9999,
        g <= 4,
    ensures
        ({
            let gr = group_emit(part as int, old(flag).state());
            final(out)@ == old(out)@ + gr.0 + (if part != 0 {
                unit_seq(g as int)
            } else {
                Seq::<char>::empty()
            }) && final(flag).state() == gr.1
        }),
{
    let not_empty: bool = part != 0;
    let d3 = part / 1000;
    let d2 = (part / 100) % 10;
    let d1 = (part / 10) % 10;
    let d0 = part % 10;
    push_place(out, d3, "千", false, flag);
    push_place(out, d2, "百", false, flag);
    push_place(out, d1, "十", true, flag);
    push_place(out, d0, "", false, flag);
    if not_empty {
        let u = unit_str(g);
        out.append(u);
    }
    proof {
        reveal_strlit("千");
        reveal_strlit("百");
        reveal_strlit("十");
        reveal_strlit("");
        assert("千"@ =~= seq!['千']);
        assert("百"@ =~= seq!['百']);
        assert("十"@ =~= seq!['十']);
        assert(""@ =~= Seq::<char>::empty());
        let gr = group_emit(part as int, old(flag).state());
        assert(final(out)@ =~= old(out)@ + gr.0 + (if part != 0 {
            unit_seq(g as int)
        } else {
            Seq::<char>::empty()
        }));
    }
}

/// Append the rendering of a positive magnitude: its base-10,000
/// groups from the highest nonzero one down, each with its unit
/// symbol, with zero-fillers decided by the pending-zero tracker.
#[verifier::rlimit(50)]
fn push_magnitude(out: &mut String, m: u64)
    requires
        m >= 1,
    ensures
        final(out)@ == old(out)@ + magnitude_seq(m as nat),
{
    let imax = mag_group_index(m);
    let ghost out0: Seq<char> = out@;
    let mut flag = ZeroFlag::new();
    let mut temp: u64 = m;
    let mut i: usize = imax + 1;
    proof {
        lemma_below_next_weight(m as nat);
    }
    while i > 0
        invariant
            i <= 5,
            (temp as nat) < pow10000(i as nat),
            out0 + magnitude_seq(m as nat) == out@ + (if i > 0 {
                groups_emit(temp as nat, (i - 1) as nat, flag.state()).0
            } else {
                Seq::<char>::empty()
            }),
        decreases i,
    {
        let g = i - 1;
        let base = pow10000_u64(g);
        let ghost temp_in: u64 = temp;
        let ghost flag_in: Option<bool> = flag.state();
        let ghost out_in: Seq<char> = out@;
        proof {
            lemma_pow10000_pos(g as nat);
            assert(pow10000(i as nat) == 10000 * pow10000(g as nat));
            lemma_multiply_divide_lt(temp as int, base as int, 10000);
        }
        let part = temp / base;
        push_group(out, part, g, &mut flag);
        proof {
            lemma_mod_division_less_than_divisor(temp_in as int, base as int);
            let gr = group_emit(part as int, flag_in);
            let body = gr.0 + (if part != 0 {
                unit_seq(g as int)
            } else {
                Seq::<char>::empty()
            });
            assert(out@ =~= out_in + body);
            let whole = groups_emit(temp_in as nat, g as nat, flag_in);
            if g == 0 {
                assert(whole.0 == body);
                assert(out0 + magnitude_seq(m as nat) =~= out@ + Seq::<char>::empty());
            } else {
                let r = groups_emit(temp_in as nat % pow10000(g as nat), (g - 1) as nat, gr.1);
                assert(whole.0 == body + r.0);
                assert(out0 + magnitude_seq(m as nat) =~= out@ + r.0);
            }
        }
        temp = temp % base;
        i = g;
    }
    proof {
        assert(final(out)@ =~= old(out)@ + magnitude_seq(m as nat));
    }
}

/// The Chinese numeral text of a signed 64-bit integer: "零" for zero,
/// a "负" prefix for negatives, then the grouped magnitude.
pub fn convert_all_fmt(val: i64) -> (s: String)
    ensures
        s@ == render_seq(val as int),
{
    let mut out = String::new();
    if val == 0 {
        proof {
            reveal_strlit("零");
            assert("零"@ =~= seq!['零']);
        }
        out.append("零");
        proof {
            assert(out@ =~= seq!['零']);
        }
        return out;
    }
    if val < 0 {
        proof {
            reveal_strlit("负");
            assert("负"@ =~= seq!['负']);
        }
        out.append("负");
    }
    let mag: u64 = if val < 0 {
        let wide: i128 = val as i128;
        (-wide) as u64
    } else {
        val as u64
    };
    proof {
        if val < 0 {
            assert(mag as int == -(val as int));
        } else {
            assert(mag as int == val as int);
        }
    }
    push_magnitude(&mut out, mag);
    proof {
        if val < 0 {
            assert(out@ =~= seq!['负'] + magnitude_seq((-(val as int)) as nat));
        } else {
            assert(out@ =~= magnitude_seq(val as nat));
        }
    }
    out
}

} // verus!
