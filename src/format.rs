use vstd::prelude::*;

use crate::span::{lemma_split, Span};
use crate::text::string_from_chars;

verus! {

/// Seconds in one minute.
pub const SECS_PER_MINUTE: u64 = 60;

/// Seconds in one hour.
pub const SECS_PER_HOUR: u64 = 3600;

/// Seconds in one day.
pub const SECS_PER_DAY: u64 = 86400;

/// Seconds in one week.
pub const SECS_PER_WEEK: u64 = 604800;

/// The decimal digit for `d`, which is below ten.
pub open spec fn digit_char(d: nat) -> char {
    if d == 0 { '0' }
    else if d == 1 { '1' }
    else if d == 2 { '2' }
    else if d == 3 { '3' }
    else if d == 4 { '4' }
    else if d == 5 { '5' }
    else if d == 6 { '6' }
    else if d == 7 { '7' }
    else if d == 8 { '8' }
    else { '9' }
}

/// `n` written in decimal, without leading zeros.
pub open spec fn dec(n: nat) -> Seq<char>
    decreases n,
{
    if n < 10 {
        seq![digit_char(n)]
    } else {
        dec(n / 10).push(digit_char(n % 10))
    }
}

/// The number of millisecond digits that `millis` needs: the trailing zeros
/// of its three-digit form are not needed.
pub open spec fn needed_decimals(millis: nat) -> nat {
    if millis % 10 != 0 {
        3
    } else if millis % 100 != 0 {
        2
    } else if millis % 1000 != 0 {
        1
    } else {
        0
    }
}

/// The number of fractional digits shown for `millis` when `mark` digits were
/// shown before in the run: at least as many as needed and as before, at most three.
pub open spec fn shown_decimals(millis: nat, mark: nat) -> nat {
    let k = if needed_decimals(millis) >= mark { needed_decimals(millis) } else { mark };
    if k > 3 { 3 } else { k }
}

/// The largest number of fractional digits shown so far, once `millis` has been shown.
pub open spec fn next_mark(millis: nat, mark: nat) -> nat {
    if shown_decimals(millis, mark) > mark { shown_decimals(millis, mark) } else { mark }
}

/// The first `k` digits of `millis` as a three-digit fraction, after a point;
/// nothing when `k` is zero.
pub open spec fn fraction(millis: nat, k: nat) -> Seq<char> {
    if k == 0 {
        Seq::empty()
    } else {
        seq!['.'].add(
            seq![digit_char(millis / 100), digit_char((millis / 10) % 10), digit_char(millis % 10)].take(
                k as int,
            ),
        )
    }
}

/// `v` followed by the unit letter and a space when `shown`; else nothing.
pub open spec fn group(v: nat, unit: char, shown: bool) -> Seq<char> {
    if shown {
        dec(v).add(seq![unit, ' '])
    } else {
        Seq::empty()
    }
}

/// Weeks, days, hours, minutes and seconds from the largest non-zero unit
/// on; the seconds are always there.
pub open spec fn units_layout(w: nat, d: nat, h: nat, m: nat, s: nat) -> Seq<char> {
    group(w, 'w', w > 0).add(group(d, 'd', w > 0 || d > 0)).add(
        group(h, 'h', w > 0 || d > 0 || h > 0),
    ).add(group(m, 'm', w > 0 || d > 0 || h > 0 || m > 0)).add(dec(s))
}

/// Whole seconds as weeks, days, hours, minutes and seconds.
pub open spec fn units_text(secs: nat) -> Seq<char> {
    units_layout(secs / 604800, (secs / 86400) % 7, (secs / 3600) % 24, (secs / 60) % 60, secs % 60)
}

/// Whole seconds in a span of `nanos` nanoseconds.
pub open spec fn whole_secs(nanos: nat) -> nat {
    nanos / 1_000_000_000
}

/// Whole milliseconds beyond the whole seconds in a span of `nanos` nanoseconds.
pub open spec fn sub_millis(nanos: nat) -> nat {
    (nanos % 1_000_000_000) / 1_000_000
}

/// The text for a remaining span of `nanos` nanoseconds, when `mark`
/// fractional digits were the most shown so far.
pub open spec fn format_text(nanos: nat, mark: nat) -> Seq<char> {
    let millis = sub_millis(nanos);
    units_text(whole_secs(nanos)).add(fraction(millis, shown_decimals(millis, mark))).push('s')
}

/// The mark after the text for a span of `nanos` nanoseconds has been shown.
pub open spec fn format_mark(nanos: nat, mark: nat) -> nat {
    next_mark(sub_millis(nanos), mark)
}

fn digit(d: u64) -> (c: char)
    requires
        d < 10,
    ensures
        c == digit_char(d as nat),
{
    if d == 0 { '0' }
    else if d == 1 { '1' }
    else if d == 2 { '2' }
    else if d == 3 { '3' }
    else if d == 4 { '4' }
    else if d == 5 { '5' }
    else if d == 6 { '6' }
    else if d == 7 { '7' }
    else if d == 8 { '8' }
    else { '9' }
}

/// Appends `n` in decimal.
pub fn push_dec(out: &mut Vec<char>, n: u64)
    ensures
        final(out)@ == old(out)@ + dec(n as nat),
    decreases n,
{
    if n >= 10 {
        push_dec(out, n / 10);
    }
    out.push(digit(n % 10));
    proof {
        assert(old(out)@ + dec(n as nat) =~= final(out)@);
    }
}


fn push_group(out: &mut Vec<char>, v: u64, unit: char, shown: bool)
    ensures
        final(out)@ == old(out)@ + group(v as nat, unit, shown),
{
    if shown {
        push_dec(out, v);
        out.push(unit);
        out.push(' ');
        proof {
            assert(final(out)@ =~= old(out)@ + group(v as nat, unit, shown));
        }
    } else {
        proof {
            assert(final(out)@ =~= old(out)@ + group(v as nat, unit, shown));
        }
    }
}

/// The characters of the text for `remaining`, where `mark` fractional digits
/// were the most shown so far, and the mark once the text is shown.
pub fn format_chars(remaining: &Span, mark: usize) -> (r: (Vec<char>, usize))
    requires
        remaining.wf(),
    ensures
        r.0@ == format_text(remaining@, mark as nat),
        r.1 as nat == format_mark(remaining@, mark as nat),
{
    proof {
        lemma_split(remaining.secs as nat, remaining.nanos as nat);
    }
    let secs = remaining.secs;
    let w = secs / SECS_PER_WEEK;
    let d = (secs / SECS_PER_DAY) % 7;
    let h = (secs / SECS_PER_HOUR) % 24;
    let m = (secs / SECS_PER_MINUTE) % 60;
    let s = secs % 60;
    let mut out: Vec<char> = Vec::new();
    push_group(&mut out, w, 'w', w > 0);
    push_group(&mut out, d, 'd', w > 0 || d > 0);
    push_group(&mut out, h, 'h', w > 0 || d > 0 || h > 0);
    push_group(&mut out, m, 'm', w > 0 || d > 0 || h > 0 || m > 0);
    push_dec(&mut out, s);
    let ghost units = out@;
    assert(units =~= units_text(secs as nat));

    let millis = remaining.subsec_millis();
    let need: usize = if millis % 10 != 0 {
        3
    } else if millis % 100 != 0 {
        2
    } else if millis != 0 {
        1
    } else {
        0
    };
    let k: usize = if need >= mark { need } else { mark };
    let k: usize = if k > 3 { 3 } else { k };
    let next: usize = if k > mark { k } else { mark };
    assert(k as nat == shown_decimals(millis as nat, mark as nat));
    if k > 0 {
        out.push('.');
        out.push(digit((millis / 100) as u64));
        if k >= 2 {
            out.push(digit(((millis / 10) % 10) as u64));
        }
        if k >= 3 {
            out.push(digit((millis % 10) as u64));
        }
    }
    assert(out@ =~= units + fraction(millis as nat, k as nat));
    out.push('s');
    assert(out@ =~= format_text(remaining@, mark as nat));
    (out, next)
}

/// The text for `remaining`, where `mark` fractional digits were the most
/// shown so far, and the mark once the text is shown.
pub fn format_remaining(remaining: &Span, mark: usize) -> (r: (String, usize))
    requires
        remaining.wf(),
    ensures
        r.0@ == format_text(remaining@, mark as nat),
        r.1 as nat == format_mark(remaining@, mark as nat),
{
    let (chars, next) = format_chars(remaining, mark);
    (string_from_chars(&chars), next)
}


/// A decimal numeral is not empty and holds neither `s` nor a space.
pub proof fn lemma_dec_plain(n: nat)
    ensures
        dec(n).len() >= 1,
        forall|i: int| 0 <= i < dec(n).len() ==> dec(n)[i] != 's' && dec(n)[i] != ' ',
    decreases n,
{
    if n >= 10 {
        lemma_dec_plain(n / 10);
    }
}

/// The text holds exactly one `s`, its last character, and neither begins nor
/// ends with a space.
pub proof fn lemma_format_one_s(nanos: nat, mark: nat)
    ensures
        format_text(nanos, mark).len() >= 2,
        format_text(nanos, mark).last() == 's',
        forall|i: int|
            0 <= i < format_text(nanos, mark).len() - 1 ==> format_text(nanos, mark)[i] != 's',
        format_text(nanos, mark)[0] != ' ',
{
    let secs = whole_secs(nanos);
    let millis = sub_millis(nanos);
    let w = secs / 604800;
    let d = (secs / 86400) % 7;
    let h = (secs / 3600) % 24;
    let m = (secs / 60) % 60;
    lemma_dec_plain(w);
    lemma_dec_plain(d);
    lemma_dec_plain(h);
    lemma_dec_plain(m);
    lemma_dec_plain(secs % 60);
    let gw = group(w, 'w', w > 0);
    let gd = group(d, 'd', w > 0 || d > 0);
    let gh = group(h, 'h', w > 0 || d > 0 || h > 0);
    let gm = group(m, 'm', w > 0 || d > 0 || h > 0 || m > 0);
    let frac = fraction(millis, shown_decimals(millis, mark));
    let body = units_text(secs).add(frac);
    assert(forall|i: int| 0 <= i < gw.len() ==> gw[i] != 's');
    assert(forall|i: int| 0 <= i < gd.len() ==> gd[i] != 's');
    assert(forall|i: int| 0 <= i < gh.len() ==> gh[i] != 's');
    assert(forall|i: int| 0 <= i < gm.len() ==> gm[i] != 's');
    assert(forall|i: int| 0 <= i < frac.len() ==> frac[i] != 's');
    assert(forall|i: int| 0 <= i < body.len() ==> body[i] != 's');
    assert(body[0] != ' ') by {
        if w > 0 {
            assert(body[0] == dec(w)[0]);
        } else if d > 0 {
            assert(body[0] == dec(d)[0]);
        } else if h > 0 {
            assert(body[0] == dec(h)[0]);
        } else if m > 0 {
            assert(body[0] == dec(m)[0]);
        } else {
            assert(body[0] == dec(secs % 60)[0]);
        }
    }
    assert(format_text(nanos, mark) == body.push('s'));
}

/// The fractional digits shown are at least the most shown before, so the mark
/// never falls: the next text shows at least as many as this one.
pub proof fn lemma_mark_grows(nanos: nat, mark: nat)
    ensures
        format_mark(nanos, mark) >= mark,
        format_mark(nanos, mark) >= shown_decimals(sub_millis(nanos), mark),
        shown_decimals(sub_millis(nanos), mark) >= if mark > 3 { 3 } else { mark },
{
}

/// The mark after showing each span of `spans` in turn, from `mark`.
pub open spec fn mark_after(spans: Seq<nat>, mark: nat) -> nat
    decreases spans.len(),
{
    if spans.len() == 0 {
        mark
    } else {
        format_mark(spans.last(), mark_after(spans.drop_last(), mark))
    }
}

/// How many fractional digits the `i`-th text shows when `spans` are shown in
/// turn from `mark`.
pub open spec fn decimals_at(spans: Seq<nat>, mark: nat, i: int) -> nat {
    shown_decimals(sub_millis(spans[i]), mark_after(spans.take(i), mark))
}

proof fn lemma_mark_after_grows(spans: Seq<nat>, mark: nat, i: int, j: int)
    requires
        0 <= i <= j <= spans.len(),
    ensures
        mark_after(spans.take(i), mark) <= mark_after(spans.take(j), mark),
    decreases j - i,
{
    if i < j {
        lemma_mark_after_grows(spans, mark, i, j - 1);
        let p = spans.take(j);
        assert(p.drop_last() =~= spans.take(j - 1));
        lemma_mark_grows(p.last(), mark_after(p.drop_last(), mark));
    }
}

/// Over a run of texts, the number of fractional digits shown never decreases.
pub proof fn lemma_decimals_never_shrink(spans: Seq<nat>, mark: nat, i: int, j: int)
    requires
        0 <= i <= j < spans.len(),
    ensures
        decimals_at(spans, mark, i) <= decimals_at(spans, mark, j),
{
    let mi = mark_after(spans.take(i), mark);
    let mj = mark_after(spans.take(j), mark);
    lemma_mark_grows(spans[i], mi);
    lemma_mark_grows(spans[j], mj);
    if i < j {
        let p = spans.take(i + 1);
        assert(p.drop_last() =~= spans.take(i));
        assert(p.last() == spans[i]);
        lemma_mark_after_grows(spans, mark, i + 1, j);
    }
}

} // verus!
