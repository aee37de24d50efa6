use vstd::prelude::*;

use crate::format::{
    dec, digit_char, format_text, fraction, group, needed_decimals, shown_decimals, sub_millis,
    units_layout, units_text, whole_secs,
};

verus! {

/// `c` is a decimal digit.
pub open spec fn is_digit(c: char) -> bool {
    c == '0' || c == '1' || c == '2' || c == '3' || c == '4' || c == '5' || c == '6' || c == '7'
        || c == '8' || c == '9'
}

proof fn lemma_dec_digits(n: nat)
    ensures
        dec(n).len() >= 1,
        n < 10 <==> dec(n).len() == 1,
        forall|i: int| 0 <= i < dec(n).len() ==> is_digit(#[trigger] dec(n)[i]),
    decreases n,
{
    if n >= 10 {
        lemma_dec_digits(n / 10);
    }
}

proof fn lemma_dec_injective(a: nat, b: nat)
    requires
        dec(a) == dec(b),
    ensures
        a == b,
    decreases a,
{
    lemma_dec_digits(a);
    lemma_dec_digits(b);
    if a >= 10 && b >= 10 {
        assert(dec(a / 10) == dec(a).drop_last());
        assert(dec(b / 10) == dec(b).drop_last());
        lemma_dec_injective(a / 10, b / 10);
        assert(dec(a).last() == digit_char(a % 10));
        assert(dec(b).last() == digit_char(b % 10));
        assert(a % 10 == b % 10);
    } else if a < 10 && b < 10 {
        assert(dec(a)[0] == digit_char(a));
        assert(dec(b)[0] == digit_char(b));
    }
}

/// Two texts equal where each is a part free of `c`, then `c`, then a rest
/// have equal parts and equal rests.
proof fn lemma_cut(a: Seq<char>, b: Seq<char>, a2: Seq<char>, b2: Seq<char>, c: char)
    requires
        a.push(c) + b == a2.push(c) + b2,
        forall|i: int| 0 <= i < a.len() ==> a[i] != c,
        forall|i: int| 0 <= i < a2.len() ==> a2[i] != c,
    ensures
        a == a2,
        b == b2,
{
    let t = a.push(c) + b;
    if a.len() < a2.len() {
        assert(t[a.len() as int] == c);
        assert(t[a.len() as int] == a2[a.len() as int]);
    } else if a.len() > a2.len() {
        assert(t[a2.len() as int] == c);
        assert(t[a2.len() as int] == a[a2.len() as int]);
    }
    assert(a =~= t.take(a.len() as int));
    assert(a2 =~= t.take(a.len() as int));
    assert(b =~= t.skip(a.len() as int + 1));
    assert(b2 =~= (a2.push(c) + b2).skip(a.len() as int + 1));
}

/// A shown group followed by a rest fixes its value and the rest.
proof fn lemma_cut_group(v1: nat, r1: Seq<char>, v2: nat, r2: Seq<char>, unit: char)
    requires
        group(v1, unit, true) + r1 == group(v2, unit, true) + r2,
        !is_digit(unit),
    ensures
        v1 == v2,
        r1 == r2,
{
    lemma_dec_digits(v1);
    lemma_dec_digits(v2);
    assert(group(v1, unit, true) + r1 == dec(v1).push(unit) + (seq![' '] + r1));
    assert(group(v2, unit, true) + r2 == dec(v2).push(unit) + (seq![' '] + r2));
    lemma_cut(dec(v1), seq![' '] + r1, dec(v2), seq![' '] + r2, unit);
    lemma_dec_injective(v1, v2);
    assert(r1 =~= (seq![' '] + r1).skip(1));
    assert(r2 =~= (seq![' '] + r2).skip(1));
}

/// Whole seconds are the sum of their weeks, days, hours, minutes and seconds.
proof fn lemma_units_sum(secs: nat)
    ensures
        secs == 604800 * (secs / 604800) + 86400 * ((secs / 86400) % 7) + 3600 * ((secs / 3600)
            % 24) + 60 * ((secs / 60) % 60) + secs % 60,
{
    let x = secs as int;
    vstd::arithmetic::div_mod::lemma_div_denominator(x, 60, 60);
    vstd::arithmetic::div_mod::lemma_div_denominator(x, 3600, 24);
    vstd::arithmetic::div_mod::lemma_div_denominator(x, 86400, 7);
    vstd::arithmetic::div_mod::lemma_fundamental_div_mod(x, 60);
    vstd::arithmetic::div_mod::lemma_fundamental_div_mod(x / 60, 60);
    vstd::arithmetic::div_mod::lemma_fundamental_div_mod(x / 3600, 24);
    vstd::arithmetic::div_mod::lemma_fundamental_div_mod(x / 86400, 7);
}


proof fn lemma_fraction_shape(millis: nat, k: nat)
    requires
        k <= 3,
    ensures
        fraction(millis, k).len() == if k == 0 { 0 } else { k + 1 },
        k > 0 ==> fraction(millis, k)[0] == '.',
        forall|i: int| 1 <= i < fraction(millis, k).len() ==> is_digit(#[trigger] fraction(millis, k)[i]),
{
}

proof fn lemma_digit_injective(a: nat, b: nat)
    requires
        a < 10,
        b < 10,
        digit_char(a) == digit_char(b),
    ensures
        a == b,
{
}

proof fn lemma_three_digits(m: nat)
    ensures
        m % 100 == 10 * ((m / 10) % 10) + m % 10,
        m == 100 * (m / 100) + m % 100,
        m / 100 < 10 || m >= 1000,
        (m / 10) % 10 < 10,
        m % 10 < 10,
{
    let x = m as int;
    vstd::arithmetic::div_mod::lemma_fundamental_div_mod(x, 10);
    vstd::arithmetic::div_mod::lemma_fundamental_div_mod(x / 10, 10);
    vstd::arithmetic::div_mod::lemma_fundamental_div_mod(x, 100);
    vstd::arithmetic::div_mod::lemma_div_denominator(x, 10, 10);
}

/// Equal fractions, each as long as its value needs, come from equal millisecond counts.
proof fn lemma_fraction_millis(m1: nat, m2: nat, k: nat)
    requires
        m1 < 1000,
        m2 < 1000,
        k <= 3,
        needed_decimals(m1) <= k,
        needed_decimals(m2) <= k,
        fraction(m1, k) == fraction(m2, k),
    ensures
        m1 == m2,
{
    lemma_three_digits(m1);
    lemma_three_digits(m2);
    if k >= 1 {
        assert(fraction(m1, k)[1] == digit_char(m1 / 100));
        assert(fraction(m2, k)[1] == digit_char(m2 / 100));
        lemma_digit_injective(m1 / 100, m2 / 100);
    }
    if k >= 2 {
        assert(fraction(m1, k)[2] == digit_char((m1 / 10) % 10));
        assert(fraction(m2, k)[2] == digit_char((m2 / 10) % 10));
        lemma_digit_injective((m1 / 10) % 10, (m2 / 10) % 10);
    }
    if k >= 3 {
        assert(fraction(m1, k)[3] == digit_char(m1 % 10));
        assert(fraction(m2, k)[3] == digit_char(m2 % 10));
        lemma_digit_injective(m1 % 10, m2 % 10);
    }
}

/// Units followed by a fraction split back into the same units and fraction.
proof fn lemma_fraction_cut(u1: Seq<char>, m1: nat, k1: nat, u2: Seq<char>, m2: nat, k2: nat)
    requires
        u1 + fraction(m1, k1) == u2 + fraction(m2, k2),
        k1 <= 3,
        k2 <= 3,
        forall|i: int| 0 <= i < u1.len() ==> u1[i] != '.',
        forall|i: int| 0 <= i < u2.len() ==> u2[i] != '.',
    ensures
        k1 == k2,
        u1 == u2,
        fraction(m1, k1) == fraction(m2, k2),
{
    let f1 = fraction(m1, k1);
    let f2 = fraction(m2, k2);
    let x = u1 + f1;
    lemma_fraction_shape(m1, k1);
    lemma_fraction_shape(m2, k2);
    if k1 == 0 && k2 > 0 {
        assert(x[u2.len() as int] == f2[0]);
        assert(x[u2.len() as int] == u1[u2.len() as int]);
    } else if k2 == 0 && k1 > 0 {
        assert(x[u1.len() as int] == f1[0]);
        assert(x[u1.len() as int] == u2[u1.len() as int]);
    } else if k1 > 0 && k2 > 0 && k1 < k2 {
        let j = u1.len() as int;
        let y = u2 + f2;
        assert(x.len() == y.len());
        assert(x[j] == f1[0]);
        assert(y[j] == f2[j - u2.len()]);
    } else if k1 > 0 && k2 > 0 && k2 < k1 {
        let j = u2.len() as int;
        let y = u2 + f2;
        assert(x.len() == y.len());
        assert(y[j] == f2[0]);
        assert(x[j] == f1[j - u1.len()]);
    }
    assert(u1 =~= x.take(u1.len() as int));
    assert(u2 =~= (u2 + f2).take(u1.len() as int));
    assert(f1 =~= x.skip(u1.len() as int));
    assert(f2 =~= (u2 + f2).skip(u1.len() as int));
}

proof fn lemma_group_chars(v: nat, unit: char, shown: bool)
    ensures
        shown ==> group(v, unit, shown)[dec(v).len() as int] == unit,
        forall|i: int|
            0 <= i < group(v, unit, shown).len() ==> {
                let c = #[trigger] group(v, unit, shown)[i];
                is_digit(c) || c == unit || c == ' '
            },
{
    lemma_dec_digits(v);
    if shown {
        assert(group(v, unit, shown) == dec(v) + seq![unit, ' ']);
    }
}

/// No character of a group followed by a rest is `bad` when none of the rest is.
proof fn lemma_rest_avoids(v: nat, unit: char, shown: bool, r: Seq<char>, bad: char)
    requires
        forall|i: int| 0 <= i < r.len() ==> r[i] != bad,
        !is_digit(bad),
        bad != unit,
        bad != ' ',
    ensures
        forall|i: int| 0 <= i < (group(v, unit, shown) + r).len() ==> (group(v, unit, shown) + r)[i] != bad,
{
    lemma_group_chars(v, unit, shown);
    let t = group(v, unit, shown) + r;
    assert forall|i: int| 0 <= i < t.len() implies t[i] != bad by {
        if i < group(v, unit, shown).len() {
            assert(t[i] == group(v, unit, shown)[i]);
        } else {
            assert(t[i] == r[i - group(v, unit, shown).len()]);
        }
    }
}

/// A group, shown or not, followed by a rest free of its letter: equal texts
/// agree on whether it is shown, on its value where shown, and on the rest.
proof fn lemma_step(v1: nat, f1: bool, r1: Seq<char>, v2: nat, f2: bool, r2: Seq<char>, unit: char)
    requires
        group(v1, unit, f1) + r1 == group(v2, unit, f2) + r2,
        !is_digit(unit),
        forall|i: int| 0 <= i < r1.len() ==> r1[i] != unit,
        forall|i: int| 0 <= i < r2.len() ==> r2[i] != unit,
    ensures
        f1 == f2,
        r1 == r2,
        f1 ==> v1 == v2,
{
    let t = group(v1, unit, f1) + r1;
    lemma_group_chars(v1, unit, f1);
    lemma_group_chars(v2, unit, f2);
    if f1 && !f2 {
        assert(group(v2, unit, f2) + r2 =~= r2);
        assert(t[dec(v1).len() as int] == unit);
    } else if f2 && !f1 {
        assert(group(v1, unit, f1) + r1 =~= r1);
        let t2 = group(v2, unit, f2) + r2;
        assert(t2[dec(v2).len() as int] == unit);
    } else if f1 {
        lemma_cut_group(v1, r1, v2, r2, unit);
    } else {
        assert(group(v1, unit, f1) + r1 =~= r1);
        assert(group(v2, unit, f2) + r2 =~= r2);
    }
}

proof fn lemma_dec_avoids(n: nat, bad: char)
    requires
        !is_digit(bad),
    ensures
        forall|i: int| 0 <= i < dec(n).len() ==> dec(n)[i] != bad,
{
    lemma_dec_digits(n);
}

proof fn lemma_units_eq(s1: nat, s2: nat)
    requires
        s1 / 604800 == s2 / 604800,
        (s1 / 86400) % 7 == (s2 / 86400) % 7,
        (s1 / 3600) % 24 == (s2 / 3600) % 24,
        (s1 / 60) % 60 == (s2 / 60) % 60,
        s1 % 60 == s2 % 60,
    ensures
        s1 == s2,
{
    lemma_units_sum(s1);
    lemma_units_sum(s2);
}

/// Whole seconds shown alike are equal.
proof fn lemma_units_unique(s1: nat, s2: nat)
    requires
        units_text(s1) == units_text(s2),
    ensures
        s1 == s2,
{
    lemma_layout_unique(
        s1 / 604800, (s1 / 86400) % 7, (s1 / 3600) % 24, (s1 / 60) % 60, s1 % 60,
        s2 / 604800, (s2 / 86400) % 7, (s2 / 3600) % 24, (s2 / 60) % 60, s2 % 60,
    );
    lemma_units_eq(s1, s2);
}

/// The text from the minutes group on.
#[verifier::opaque]
spec fn from_minutes(m: nat, fm: bool, x: nat) -> Seq<char> {
    group(m, 'm', fm) + dec(x)
}

/// The text from the hours group on.
#[verifier::opaque]
spec fn from_hours(h: nat, fh: bool, m: nat, fm: bool, x: nat) -> Seq<char> {
    group(h, 'h', fh) + from_minutes(m, fm, x)
}

/// The text from the days group on.
#[verifier::opaque]
spec fn from_days(d: nat, fd: bool, h: nat, fh: bool, m: nat, fm: bool, x: nat) -> Seq<char> {
    group(d, 'd', fd) + from_hours(h, fh, m, fm, x)
}

proof fn lemma_minutes_avoid(m: nat, fm: bool, x: nat, bad: char)
    requires
        !is_digit(bad),
        bad != 'm',
        bad != ' ',
    ensures
        forall|i: int| 0 <= i < from_minutes(m, fm, x).len() ==> from_minutes(m, fm, x)[i] != bad,
{
    reveal(from_minutes);
    lemma_dec_avoids(x, bad);
    lemma_rest_avoids(m, 'm', fm, dec(x), bad);
}

proof fn lemma_hours_avoid(h: nat, fh: bool, m: nat, fm: bool, x: nat, bad: char)
    requires
        !is_digit(bad),
        bad != 'm',
        bad != 'h',
        bad != ' ',
    ensures
        forall|i: int|
            0 <= i < from_hours(h, fh, m, fm, x).len() ==> from_hours(h, fh, m, fm, x)[i] != bad,
{
    reveal(from_hours);
    lemma_minutes_avoid(m, fm, x, bad);
    lemma_rest_avoids(h, 'h', fh, from_minutes(m, fm, x), bad);
}

proof fn lemma_days_avoid(d: nat, fd: bool, h: nat, fh: bool, m: nat, fm: bool, x: nat, bad: char)
    requires
        !is_digit(bad),
        bad != 'm',
        bad != 'h',
        bad != 'd',
        bad != ' ',
    ensures
        forall|i: int|
            0 <= i < from_days(d, fd, h, fh, m, fm, x).len() ==> from_days(d, fd, h, fh, m, fm, x)[i]
                != bad,
{
    reveal(from_days);
    lemma_hours_avoid(h, fh, m, fm, x, bad);
    lemma_rest_avoids(d, 'd', fd, from_hours(h, fh, m, fm, x), bad);
}

proof fn lemma_layout_split(w: nat, d: nat, h: nat, m: nat, x: nat)
    ensures
        units_layout(w, d, h, m, x) == group(w, 'w', w > 0) + from_days(
            d, w > 0 || d > 0, h, w > 0 || d > 0 || h > 0, m, w > 0 || d > 0 || h > 0 || m > 0, x,
        ),
        from_days(d, w > 0 || d > 0, h, w > 0 || d > 0 || h > 0, m, w > 0 || d > 0 || h > 0 || m > 0, x)
            == group(d, 'd', w > 0 || d > 0) + from_hours(
            h, w > 0 || d > 0 || h > 0, m, w > 0 || d > 0 || h > 0 || m > 0, x,
        ),
        from_hours(h, w > 0 || d > 0 || h > 0, m, w > 0 || d > 0 || h > 0 || m > 0, x) == group(
            h, 'h', w > 0 || d > 0 || h > 0,
        ) + from_minutes(m, w > 0 || d > 0 || h > 0 || m > 0, x),
        from_minutes(m, w > 0 || d > 0 || h > 0 || m > 0, x) == group(
            m, 'm', w > 0 || d > 0 || h > 0 || m > 0,
        ) + dec(x),
{
    reveal(from_minutes);
    reveal(from_hours);
    reveal(from_days);
    let fd = w > 0 || d > 0;
    let fh = fd || h > 0;
    let fm = fh || m > 0;
    assert(units_layout(w, d, h, m, x) =~= group(w, 'w', w > 0) + (group(d, 'd', fd) + (group(h, 'h', fh) + (group(m, 'm', fm) + dec(x)))));
}

proof fn lemma_layout_unique(
    w1: nat, d1: nat, h1: nat, m1: nat, x1: nat,
    w2: nat, d2: nat, h2: nat, m2: nat, x2: nat,
)
    requires
        units_layout(w1, d1, h1, m1, x1) == units_layout(w2, d2, h2, m2, x2),
    ensures
        w1 == w2 && d1 == d2 && h1 == h2 && m1 == m2 && x1 == x2,
{
    let (fw1, fd1, fh1, fm1) = (w1 > 0, w1 > 0 || d1 > 0, w1 > 0 || d1 > 0 || h1 > 0, w1 > 0 || d1 > 0 || h1 > 0 || m1 > 0);
    let (fw2, fd2, fh2, fm2) = (w2 > 0, w2 > 0 || d2 > 0, w2 > 0 || d2 > 0 || h2 > 0, w2 > 0 || d2 > 0 || h2 > 0 || m2 > 0);
    let r3_1 = from_days(d1, fd1, h1, fh1, m1, fm1, x1);
    let r3_2 = from_days(d2, fd2, h2, fh2, m2, fm2, x2);
    lemma_layout_split(w1, d1, h1, m1, x1);
    lemma_layout_split(w2, d2, h2, m2, x2);
    lemma_days_avoid(d1, fd1, h1, fh1, m1, fm1, x1, 'w');
    lemma_days_avoid(d2, fd2, h2, fh2, m2, fm2, x2, 'w');
    lemma_step(w1, fw1, r3_1, w2, fw2, r3_2, 'w');
    let r2_1 = from_hours(h1, fh1, m1, fm1, x1);
    let r2_2 = from_hours(h2, fh2, m2, fm2, x2);
    lemma_hours_avoid(h1, fh1, m1, fm1, x1, 'd');
    lemma_hours_avoid(h2, fh2, m2, fm2, x2, 'd');
    lemma_step(d1, fd1, r2_1, d2, fd2, r2_2, 'd');
    let r1_1 = from_minutes(m1, fm1, x1);
    let r1_2 = from_minutes(m2, fm2, x2);
    lemma_minutes_avoid(m1, fm1, x1, 'h');
    lemma_minutes_avoid(m2, fm2, x2, 'h');
    lemma_step(h1, fh1, r1_1, h2, fh2, r1_2, 'h');
    lemma_dec_avoids(x1, 'm');
    lemma_dec_avoids(x2, 'm');
    lemma_step(m1, fm1, dec(x1), m2, fm2, dec(x2), 'm');
    lemma_dec_injective(x1, x2);
}


proof fn lemma_units_no_point(secs: nat)
    ensures
        forall|i: int| 0 <= i < units_text(secs).len() ==> units_text(secs)[i] != '.',
{
    let (w, d, h, m, x) = (secs / 604800, (secs / 86400) % 7, (secs / 3600) % 24, (secs / 60) % 60, secs % 60);
    let fd = w > 0 || d > 0;
    let fh = fd || h > 0;
    let fm = fh || m > 0;
    lemma_layout_split(w, d, h, m, x);
    lemma_days_avoid(d, fd, h, fh, m, fm, x, '.');
    lemma_rest_avoids(w, 'w', w > 0, from_days(d, fd, h, fh, m, fm, x), '.');
}

/// Two spans show the same text, under the same mark, exactly when they have
/// the same whole seconds (so the same weeks, days, hours, minutes and seconds)
/// and the same whole milliseconds beyond them.
pub proof fn lemma_format_distinguishes(n1: nat, n2: nat, mark: nat)
    ensures
        (format_text(n1, mark) == format_text(n2, mark)) == (whole_secs(n1) == whole_secs(n2)
            && sub_millis(n1) == sub_millis(n2)),
{
    if format_text(n1, mark) == format_text(n2, mark) {
        let (s1, s2) = (whole_secs(n1), whole_secs(n2));
        let (ms1, ms2) = (sub_millis(n1), sub_millis(n2));
        let (k1, k2) = (shown_decimals(ms1, mark), shown_decimals(ms2, mark));
        assert(format_text(n1, mark).drop_last() =~= units_text(s1) + fraction(ms1, k1));
        assert(format_text(n2, mark).drop_last() =~= units_text(s2) + fraction(ms2, k2));
        lemma_units_no_point(s1);
        lemma_units_no_point(s2);
        lemma_fraction_cut(units_text(s1), ms1, k1, units_text(s2), ms2, k2);
        lemma_units_unique(s1, s2);
        lemma_fraction_millis(ms1, ms2, k1);
    }
}

} // verus!
