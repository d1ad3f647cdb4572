//! What holds of every covenant test.

use vstd::prelude::*;

use crate::covenant::config;
use crate::covenant::config::{CovenantConfig, CovenantRule, EquityCure};
use crate::covenant::engine;
use crate::covenant::engine::{MeasureView, Totals};
use crate::covenant::input;
use crate::covenant::input::{Financials, PeriodFinancials, PeriodView};
use crate::covenant::pack;
use crate::covenant::pack::EnvelopeView;
use crate::covenant::units;
use crate::covenant::ENGINE_ID;
use crate::num;
use crate::order;
use crate::spine;
use crate::spine::{FindingView, LockState, Severity, SignoffView};
use crate::text;

verus! {

// ---- reading and writing ----

/// Every amount reads back from its text.
pub proof fn cents_read_back(amount: i128)
    ensures
        units::cents_value(text::signed_decimal(amount as int)) == Some(amount as int),
{
    let value = amount as int;
    let n = num::magnitude(value);
    let digits = text::decimal(n);
    text::decimal_reads_back(n);
    reveal_strlit("-");
    let s = text::signed_decimal(value);
    if value < 0 {
        assert(s[0] == '-');
        assert(s.last() == digits.last());
        assert(s.skip(1) =~= digits);
    }
    text::trimmed_keeps(s);
    assert(text::is_digit(digits[0]));
}

proof fn point_after_digits(a: Seq<char>, b: Seq<char>)
    requires
        text::all_digits(a),
    ensures
        units::point_at(a + "."@ + b) == a.len(),
    decreases a.len(),
{
    reveal_strlit(".");
    let s = a + "."@ + b;
    if a.len() > 0 {
        assert(text::is_digit(a[0]));
        assert(s[0] == a[0]);
        assert(s.drop_first() =~= a.drop_first() + "."@ + b);
        assert forall|i: int| 0 <= i < a.drop_first().len() implies text::is_digit(
            #[trigger] a.drop_first()[i],
        ) by {
            assert(text::is_digit(a[i + 1]));
        }
        point_after_digits(a.drop_first(), b);
    } else {
        assert(s[0] == '.');
    }
}

proof fn no_point_in_digits(a: Seq<char>)
    requires
        text::all_digits(a),
    ensures
        units::point_at(a) == a.len(),
    decreases a.len(),
{
    if a.len() > 0 {
        assert(text::is_digit(a[0]));
        assert forall|i: int| 0 <= i < a.drop_first().len() implies text::is_digit(
            #[trigger] a.drop_first()[i],
        ) by {
            assert(text::is_digit(a[i + 1]));
        }
        no_point_in_digits(a.drop_first());
    }
}

proof fn six_digits_read_back(n: nat)
    requires
        n < 1_000_000,
    ensures
        units::six_digits(n).len() == 6,
        text::all_digits(units::six_digits(n)),
        text::digits_value(units::six_digits(n)) == n,
{
    let a = n / 100_000;
    let b = n / 10_000 % 10;
    let c = n / 1_000 % 10;
    let d = n / 100 % 10;
    let e = n / 10 % 10;
    let f = n % 10;
    text::digit_text_reads_back(a);
    text::digit_text_reads_back(b);
    text::digit_text_reads_back(c);
    text::digit_text_reads_back(d);
    text::digit_text_reads_back(e);
    text::digit_text_reads_back(f);
    let s1 = text::digit_text(a);
    let s2 = s1 + text::digit_text(b);
    let s3 = s2 + text::digit_text(c);
    let s4 = s3 + text::digit_text(d);
    let s5 = s4 + text::digit_text(e);
    text::digits_value_push(Seq::empty(), a);
    assert(Seq::<char>::empty() + s1 =~= s1);
    text::digits_value_push(s1, b);
    text::digits_value_push(s2, c);
    text::digits_value_push(s3, d);
    text::digits_value_push(s4, e);
    text::digits_value_push(s5, f);
    assert(a * 100_000 + b * 10_000 + c * 1_000 + d * 100 + e * 10 + f == n);
}

proof fn without_zeros_reads_back(s: Seq<char>)
    requires
        text::all_digits(s),
    ensures
        units::without_zeros(s).len() <= s.len(),
        text::all_digits(units::without_zeros(s)),
        text::digits_value(units::without_zeros(s)) * units::ten_to(
            s.len() - units::without_zeros(s).len(),
        ) == text::digits_value(s),
    decreases s.len(),
{
    if s.len() > 0 && s.last() == '0' {
        let t = s.drop_last();
        assert forall|i: int| 0 <= i < t.len() implies text::is_digit(#[trigger] t[i]) by {
            assert(text::is_digit(s[i]));
        }
        without_zeros_reads_back(t);
        let w = text::digits_value(units::without_zeros(t)) as int;
        let k = units::ten_to(t.len() - units::without_zeros(t).len());
        assert(units::ten_to(s.len() - units::without_zeros(s).len()) == 10 * k);
        assert(w * (10 * k) == (w * k) * 10) by (nonlinear_arith);
    } else {
        assert(units::ten_to(0) == 1);
    }
}

proof fn whole_ratio_reads_back(whole: nat)
    requires
        whole <= i128::MAX,
    ensures
        ({
            let s = text::decimal(whole);
            &&& units::is_decimal(s)
            &&& text::digits_value(units::whole_part(s)) == whole
            &&& units::millionths(units::fraction_part(s)) == 0
        }),
{
    let s = text::decimal(whole);
    text::decimal_reads_back(whole);
    no_point_in_digits(s);
    assert(units::whole_part(s) =~= s);
    assert(text::is_digit(s.last()));
    assert(text::digits_value(units::fraction_part(s)) == 0);
    assert(0 * units::ten_to(6) == 0);
}

proof fn pointed_ratio_reads_back(whole: nat, fraction: nat)
    requires
        whole <= i128::MAX,
        0 < fraction < 1_000_000,
    ensures
        ({
            let s = text::decimal(whole) + "."@ + units::without_zeros(units::six_digits(fraction));
            &&& units::is_decimal(s)
            &&& text::digits_value(units::whole_part(s)) == whole
            &&& units::millionths(units::fraction_part(s)) == fraction
        }),
{
    reveal_strlit(".");
    let w = text::decimal(whole);
    let six = units::six_digits(fraction);
    let f = units::without_zeros(six);
    let s = w + "."@ + f;
    text::decimal_reads_back(whole);
    six_digits_read_back(fraction);
    without_zeros_reads_back(six);
    if f.len() == 0 {
        assert(text::digits_value(f) == 0);
        assert(0 * units::ten_to(6) == 0);
    }
    point_after_digits(w, f);
    assert(units::whole_part(s) =~= w);
    assert(units::fraction_part(s) =~= f);
    assert(s.last() == f.last());
    assert(text::is_digit(f.last()));
}

/// A ratio reads back from its exact decimal, except the one whose magnitude
/// exceeds `i128`.
pub proof fn ratios_read_back(value: int)
    requires
        num::magnitude(value) <= i128::MAX,
    ensures
        units::ratio_value(units::ratio_text(value)) == Some(value),
{
    reveal_strlit("-");
    reveal_strlit("");
    reveal_strlit(".");
    let size = num::magnitude(value);
    let whole = size / 1_000_000;
    let fraction = size % 1_000_000;
    let s = units::ratio_text(value);
    let sign = if value < 0 {
        "-"@
    } else {
        ""@
    };
    let rest = if fraction == 0 {
        text::decimal(whole)
    } else {
        text::decimal(whole) + "."@ + units::without_zeros(units::six_digits(fraction))
    };
    assert(s =~= sign + rest);
    text::decimal_reads_back(whole);
    if fraction == 0 {
        whole_ratio_reads_back(whole);
    } else {
        pointed_ratio_reads_back(whole, fraction);
    }
    assert(text::is_digit(text::decimal(whole)[0]));
    assert(rest[0] == text::decimal(whole)[0]);
    assert(s.last() == rest.last());
    assert(text::is_digit(rest.last())) by {
        if fraction == 0 {
            assert(text::is_digit(rest[rest.len() - 1]));
        } else {
            let f = units::without_zeros(units::six_digits(fraction));
            six_digits_read_back(fraction);
            without_zeros_reads_back(units::six_digits(fraction));
            if f.len() == 0 {
                assert(0 * units::ten_to(6) == 0);
            }
            assert(rest.last() == f.last());
            assert(text::is_digit(f[f.len() - 1]));
        }
    }
    if value < 0 {
        assert(s[0] == '-');
        assert(s.skip(1) =~= rest);
    } else {
        assert(s =~= rest);
    }
    text::trimmed_keeps(s);
    assert(units::signed_parts(s) == (value < 0, rest));
    assert(whole * 1_000_000 + fraction == size);
}

/// Whether a text is a decimal in its shortest form: an optional minus sign,
/// digits without extra zeros in front, and behind a point, where there is
/// one, digits that do not end in a zero; and not minus zero.
pub open spec fn is_canonical(raw: Seq<char>) -> bool {
    let negative = raw.len() > 0 && raw[0] == '-';
    let s = if negative {
        raw.skip(1)
    } else {
        raw
    };
    let whole = units::whole_part(s);
    let fraction = units::fraction_part(s);
    &&& text::all_digits(whole)
    &&& whole.len() == 1 || (whole.len() > 1 && whole[0] != '0')
    &&& text::all_digits(fraction)
    &&& units::point_at(s) < s.len() ==> fraction.len() > 0 && fraction.last() != '0'
    &&& !(negative && s == seq!['0'])
}

/// `n` zeros.
spec fn zeros(n: int) -> Seq<char> {
    Seq::new(n as nat, |i: int| '0')
}

proof fn zeros_behind(f: Seq<char>, n: int)
    requires
        0 <= n,
        text::all_digits(f),
    ensures
        text::all_digits(f + zeros(n)),
        text::digits_value(f + zeros(n)) == text::digits_value(f) * units::ten_to(n),
        f.len() > 0 && f.last() != '0' ==> units::without_zeros(f + zeros(n)) == f,
    decreases n,
{
    let s = f + zeros(n);
    assert forall|i: int| 0 <= i < s.len() implies text::is_digit(#[trigger] s[i]) by {
        if i < f.len() {
            assert(text::is_digit(f[i]));
        }
    }
    if n > 0 {
        zeros_behind(f, n - 1);
        assert(s.drop_last() =~= f + zeros(n - 1));
        assert(s.last() == '0');
        let v = text::digits_value(f) as int;
        let k = units::ten_to(n - 1);
        assert(v * (10 * k) == (v * k) * 10) by (nonlinear_arith);
    } else {
        assert(s =~= f);
        assert(text::digits_value(f) * 1 == text::digits_value(f));
    }
}

proof fn digits_stay_below(s: Seq<char>)
    requires
        text::all_digits(s),
    ensures
        text::digits_value(s) < units::ten_to(s.len() as int),
        s.len() > 0 && s.last() != '0' ==> text::digits_value(s) > 0,
    decreases s.len(),
{
    if s.len() > 0 {
        let front = s.drop_last();
        assert(text::is_digit(s[s.len() - 1]));
        assert forall|i: int| 0 <= i < front.len() implies text::is_digit(#[trigger] front[i]) by {
            assert(text::is_digit(s[i]));
        }
        digits_stay_below(front);
    }
}

/// The digits behind the point are what their millionths are written as.
proof fn fraction_is_written_back(f: Seq<char>)
    requires
        text::all_digits(f),
        0 < f.len() <= 6,
        f.last() != '0',
    ensures
        0 < units::millionths(f) < 1_000_000,
        units::without_zeros(units::six_digits(units::millionths(f) as nat)) == f,
{
    let n = 6 - f.len();
    let s = f + zeros(n);
    zeros_behind(f, n);
    digits_stay_below(f);
    digits_stay_below(s);
    reveal_with_fuel(units::ten_to, 7);
    assert(units::ten_to(6) == 1_000_000);
    let v = text::digits_value(f) as int;
    let k = units::ten_to(n);
    assert(k > 0);
    assert(v * k > 0) by (nonlinear_arith)
        requires
            v > 0,
            k > 0,
    ;
    six_digits_read_back(units::millionths(f) as nat);
    text::digits_are_unique(units::six_digits(units::millionths(f) as nat), s);
}

proof fn point_splits(s: Seq<char>)
    ensures
        0 <= units::point_at(s) <= s.len(),
        units::point_at(s) < s.len() ==> s[units::point_at(s)] == '.',
    decreases s.len(),
{
    if s.len() > 0 && s[0] != '.' {
        point_splits(s.drop_first());
    }
}

/// A decimal in its shortest form is written back as it was read.
pub proof fn canonical_ratios_are_written_back(raw: Seq<char>)
    requires
        is_canonical(raw),
        units::ratio_value(raw) is Some,
    ensures
        units::ratio_text(units::ratio_value(raw)->0) == raw,
{
    reveal_strlit("-");
    reveal_strlit("");
    reveal_strlit(".");
    let negative = raw.len() > 0 && raw[0] == '-';
    let s = if negative {
        raw.skip(1)
    } else {
        raw
    };
    let whole = units::whole_part(s);
    let fraction = units::fraction_part(s);
    let at = units::point_at(s);
    point_splits(s);
    assert(text::is_digit(whole[0]));
    assert(s[0] == whole[0]);
    assert(raw.last() == s.last());
    if at < s.len() {
        assert(s.last() == fraction.last());
        assert(text::is_digit(fraction[fraction.len() - 1]));
        assert(s =~= whole + "."@ + fraction);
    } else {
        assert(s =~= whole);
        assert(text::is_digit(whole[whole.len() - 1]));
    }
    text::trimmed_keeps(raw);
    assert(units::signed_parts(raw) == (negative, s));
    let w = text::digits_value(whole);
    text::digits_are_written_back(whole);
    let m = units::millionths(fraction);
    if at < s.len() {
        fraction_is_written_back(fraction);
    } else {
        assert(text::digits_value(fraction) == 0);
        assert(0 * units::ten_to(6) == 0);
    }
    let size = (w * 1_000_000 + m) as nat;
    let value = units::ratio_value(raw)->0;
    assert(size / 1_000_000 == w && size % 1_000_000 == m);
    if negative && size == 0 {
        assert(whole[0] == '0');
        assert(s =~= seq!['0']);
    }
    assert(num::magnitude(value) == size);
    assert(negative ==> raw =~= "-"@ + s);
    assert(units::ratio_text(value) =~= raw);
}

// ---- thresholds ----

/// The threshold itself passes: a measured ratio is a breach exactly when it
/// lies strictly beyond the threshold, and headroom is negative exactly then.
pub proof fn thresholds_are_inclusive(rule: CovenantRule, ratio: int)
    ensures
        engine::headroom_of(rule, ratio) < 0 <==> engine::is_beyond(
            rule.kind.caps(),
            ratio,
            rule.threshold.0 as int,
        ),
        engine::headroom_of(rule, ratio) == 0 <==> ratio == rule.threshold.0,
{
}

/// Earnings that are not positive breach every covenant on earnings, and are
/// never divided by.
pub proof fn bad_earnings_breach(kind: config::CovenantKind, t: Totals)
    requires
        t.ebitda <= 0,
        kind != config::CovenantKind::MinCurrentRatio,
    ensures
        engine::measured(kind, t) matches Some(MeasureView::AutomaticBreach(_)),
{
}

// ---- cures ----

/// A cure that is not in force changes nothing.
pub proof fn cures_apply_only_in_force(t: Totals, cures: Seq<EquityCure>, day: int, n: int)
    requires
        0 <= n <= cures.len(),
        forall|i: int| 0 <= i < n ==> !(#[trigger] cures[i]).holds_on(day),
    ensures
        engine::cured(t, cures, day, n) == Some(t),
    decreases n,
{
    if n > 0 {
        cures_apply_only_in_force(t, cures, day, n - 1);
    }
}

// ---- the trend ----

pub open spec fn is_line(series: Seq<int>, start: int, step: int) -> bool {
    forall|i: int| 0 <= i < series.len() ==> #[trigger] series[i] == start + step * i
}

proof fn line_sums(series: Seq<int>, start: int, step: int, n: int)
    requires
        0 <= n <= series.len(),
        is_line(series, start, step),
        engine::sums_of(series, n) is Some,
    ensures
        ({
            let s = engine::sums_of(series, n)->0;
            &&& s.xy == start * s.x + step * s.xx
            &&& s.y == start * n + step * s.x
        }),
    decreases n,
{
    if n > 0 {
        line_sums(series, start, step, n - 1);
        let b = engine::sums_of(series, n - 1)->0;
        let x = n - 1;
        let y = series[n - 1];
        assert(y == start + step * x);
        assert(x * y == start * x + step * (x * x)) by (nonlinear_arith)
            requires
                y == start + step * x,
        ;
        assert(start * (b.x + x) + step * (b.xx + x * x) == (start * b.x + step * b.xx) + (start * x
            + step * (x * x))) by (nonlinear_arith);
        assert(start * n + step * (b.x + x) == (start * (n - 1) + step * b.x) + (start + step * x))
            by (nonlinear_arith)
            requires
                x == n - 1,
        ;
    } else {
        assert(start * 0 == 0);
        assert(step * 0 == 0);
    }
}

/// The slope of points on a line is the line's step, without rounding.
pub proof fn lines_give_their_slope(series: Seq<int>, start: int, step: int)
    requires
        is_line(series, start, step),
        engine::slope_of(series) matches Some(Some(_)),
    ensures
        engine::slope_of(series) == Some(Some(step)),
{
    let n = series.len() as int;
    line_sums(series, start, step, n);
    let s = engine::sums_of(series, n)->0;
    let den = n * s.xx - s.x * s.x;
    let num = n * s.xy - s.x * s.y;
    let (x, xx, xy, y) = (s.x, s.xx, s.xy, s.y);
    assert(num == step * den) by (nonlinear_arith)
        requires
            num == n * xy - x * y,
            den == n * xx - x * x,
            xy == start * x + step * xx,
            y == start * n + step * x,
    ;
    assert(num::quotient(step * den, den) == step) by {
        exact_quotient(step, den);
    }
}

proof fn exact_quotient(q: int, d: int)
    requires
        d != 0,
    ensures
        num::quotient(q * d, d) == q,
{
    let a = num::magnitude(q) as int;
    let b = num::magnitude(d) as int;
    assert((a * b) / b == a) by (nonlinear_arith)
        requires
            b > 0,
            a >= 0,
    ;
    assert(q >= 0 && d > 0 ==> q * d == a * b && q * d >= 0) by (nonlinear_arith)
        requires
            q >= 0 ==> a == q,
            q < 0 ==> a == -q,
            d >= 0 ==> b == d,
            d < 0 ==> b == -d,
    ;
    assert(q >= 0 && d < 0 ==> q * d == -(a * b) && (q * d == 0 <==> q == 0) && q * d <= 0) by (nonlinear_arith)
        requires
            q >= 0 ==> a == q,
            q < 0 ==> a == -q,
            d >= 0 ==> b == d,
            d < 0 ==> b == -d,
    ;
    assert(q < 0 && d > 0 ==> q * d == -(a * b) && q * d < 0) by (nonlinear_arith)
        requires
            q >= 0 ==> a == q,
            q < 0 ==> a == -q,
            d >= 0 ==> b == d,
            d < 0 ==> b == -d,
    ;
    assert(q < 0 && d < 0 ==> q * d == a * b && q * d > 0) by (nonlinear_arith)
        requires
            q >= 0 ==> a == q,
            q < 0 ==> a == -q,
            d >= 0 ==> b == d,
            d < 0 ==> b == -d,
    ;
}

/// A projected breach lies within the horizon, strictly beyond the
/// threshold, and no earlier quarter of the trend does.
pub proof fn projections_name_the_first_crossing(
    last: int,
    slope: int,
    caps: bool,
    threshold: int,
    k: int,
    horizon: int,
)
    requires
        engine::crossing(last, slope, caps, threshold, k, horizon) is Some,
    ensures
        (match engine::crossing(last, slope, caps, threshold, k, horizon)->0 {
            Some((q, ratio)) => {
                &&& k <= q <= horizon
                &&& ratio == last + slope * q
                &&& engine::is_beyond(caps, ratio, threshold)
                &&& forall|j: int|
                    k <= j < q ==> !engine::is_beyond(caps, last + #[trigger] (slope * j), threshold)
            },
            None => forall|j: int|
                k <= j <= horizon ==> !engine::is_beyond(
                    caps,
                    last + #[trigger] (slope * j),
                    threshold,
                ),
        }),
    decreases horizon + 1 - k,
{
    if k <= horizon && !engine::is_beyond(caps, last + slope * k, threshold) {
        projections_name_the_first_crossing(last, slope, caps, threshold, k + 1, horizon);
    }
}

// ---- order ----

/// Whether no two periods end on the same day.
pub open spec fn ends_differ(s: Seq<PeriodFinancials>) -> bool {
    forall|i: int, j: int|
        0 <= i < j < s.len() ==> (#[trigger] s[i]).period_end.day() != (
        #[trigger] s[j]).period_end.day()
}

/// Whether two sequences say the same, period by period.
spec fn is_alike(s: Seq<PeriodFinancials>, t: Seq<PeriodFinancials>) -> bool {
    s.len() == t.len() && forall|i: int|
        #![trigger s[i]]
        #![trigger t[i]]
        0 <= i < s.len() ==> s[i]@ == t[i]@
}

proof fn repeats_alike(s: Seq<PeriodFinancials>, t: Seq<PeriodFinancials>, i: int)
    requires
        is_alike(s, t),
        0 <= i,
    ensures
        engine::repeat_error(s, i) == engine::repeat_error(t, i),
    decreases s.len() - i,
{
    if i < s.len() {
        repeats_alike(s, t, i + 1);
        if engine::id_recurs(s, i) {
            let k = choose|k: int|
                0 <= k < i && (#[trigger] s[k]).period_id@ == s[i].period_id@;
            assert(t[k]@ == s[k]@ && t[i]@ == s[i]@);
            assert(t[k].period_id@ == t[i].period_id@);
        }
        if engine::id_recurs(t, i) {
            let k = choose|k: int|
                0 <= k < i && (#[trigger] t[k]).period_id@ == t[i].period_id@;
            assert(t[k]@ == s[k]@ && t[i]@ == s[i]@);
            assert(s[k].period_id@ == s[i].period_id@);
        }
        if engine::end_recurs(s, i) {
            let k = choose|k: int|
                0 <= k < i && (#[trigger] s[k]).period_end.day() == s[i].period_end.day();
            assert(t[k]@ == s[k]@ && t[i]@ == s[i]@);
            assert(t[k].period_end.day() == t[i].period_end.day());
        }
        if engine::end_recurs(t, i) {
            let k = choose|k: int|
                0 <= k < i && (#[trigger] t[k]).period_end.day() == t[i].period_end.day();
            assert(t[k]@ == s[k]@ && t[i]@ == s[i]@);
            assert(s[k].period_end.day() == s[i].period_end.day());
        }
        assert(t[i]@ == s[i]@);
    }
}

proof fn last_alike(s: Seq<PeriodFinancials>, t: Seq<PeriodFinancials>, day: int, n: int)
    requires
        is_alike(s, t),
        0 <= n <= s.len(),
    ensures
        engine::last_until(s, day, n) == engine::last_until(t, day, n),
        engine::last_until(s, day, n) matches Some(k) ==> 0 <= k < n,
    decreases n,
{
    if n > 0 {
        last_alike(s, t, day, n - 1);
        assert(s[n - 1]@ == t[n - 1]@);
    }
}

proof fn flows_alike(s: Seq<PeriodFinancials>, t: Seq<PeriodFinancials>, f: engine::Flow, n: int)
    requires
        is_alike(s, t),
        0 <= n <= s.len(),
    ensures
        engine::flow_sum(s, f, n) == engine::flow_sum(t, f, n),
    decreases n,
{
    if n > 0 {
        flows_alike(s, t, f, n - 1);
        assert(s[n - 1]@ == t[n - 1]@);
    }
}

proof fn totals_alike(s: Seq<PeriodFinancials>, t: Seq<PeriodFinancials>, from: int, to: int)
    requires
        is_alike(s, t),
        0 <= from < to <= s.len(),
    ensures
        engine::totals_of(s.subrange(from, to)) == engine::totals_of(t.subrange(from, to)),
{
    let x = s.subrange(from, to);
    let y = t.subrange(from, to);
    let n = x.len() as int;
    assert forall|i: int| #![trigger x[i]] #![trigger y[i]] 0 <= i < n implies x[i]@ == y[i]@ by {
        assert(s[from + i]@ == t[from + i]@);
    }
    flows_alike(x, y, engine::Flow::Ebitda, n);
    flows_alike(x, y, engine::Flow::Interest, n);
    flows_alike(x, y, engine::Flow::Rent, n);
    flows_alike(x, y, engine::Flow::Maturities, n);
    assert(x[n - 1]@ == y[n - 1]@);
}

proof fn series_alike(
    kind: config::CovenantKind,
    s: Seq<PeriodFinancials>,
    t: Seq<PeriodFinancials>,
    width: int,
    n: int,
)
    requires
        is_alike(s, t),
        0 < width,
        0 <= n <= s.len(),
    ensures
        engine::series_of(kind, s, width, n) == engine::series_of(kind, t, width, n),
    decreases n,
{
    if n > 0 && n >= width {
        series_alike(kind, s, t, width, n - 1);
        totals_alike(s, t, n - width, n);
    }
}

proof fn entries_alike(
    config: CovenantConfig,
    s: Seq<PeriodFinancials>,
    t: Seq<PeriodFinancials>,
    current: int,
    day: int,
    id: Seq<char>,
)
    requires
        is_alike(s, t),
        0 <= current < s.len(),
    ensures
        engine::covenant_entry(config, s, current, day, id) == engine::covenant_entry(
            config,
            t,
            current,
            day,
            id,
        ),
{
    reveal(engine::covenant_entry);
    let n = config.covenants.len() as int;
    let versions = config::versions_on(config.covenants@, id, day, n);
    if versions.len() == 1 {
        let rule = config.covenants@[versions[0]];
        let width = engine::width_of(rule.basis);
        series_alike(rule.kind, s, t, width, current + 1);
        assert(s[current]@ == t[current]@);
        if current + 1 >= width {
            totals_alike(s, t, current + 1 - width, current + 1);
        }
        assert(engine::projected(rule, config, s, current) == engine::projected(
            rule,
            config,
            t,
            current,
        ));
        assert(engine::basis_note(rule, s[current]) == engine::basis_note(rule, t[current]));
    }
}

proof fn covenants_alike(
    config: CovenantConfig,
    s: Seq<PeriodFinancials>,
    t: Seq<PeriodFinancials>,
    current: int,
    day: int,
    n: int,
)
    requires
        is_alike(s, t),
        0 <= current < s.len(),
    ensures
        engine::covenants_upto(config, s, current, day, n) == engine::covenants_upto(
            config,
            t,
            current,
            day,
            n,
        ),
    decreases n,
{
    if n > 0 {
        let ids = config::first_ids(config.covenants@, config.covenants.len() as int);
        covenants_alike(config, s, t, current, day, n - 1);
        entries_alike(config, s, t, current, day, ids[n - 1]);
    }
}

proof fn periods_in_order(s: Seq<PeriodFinancials>)
    ensures
        input::periods_view(engine::in_order(s)) == order::stable_sort(
            input::periods_view(s),
            |x: PeriodView, y: PeriodView| x.end < y.end,
        ),
{
    order::stable_sort_maps(
        s,
        |p: PeriodFinancials| p@,
        |x: PeriodFinancials, y: PeriodFinancials| engine::end_lt(x, y),
        |x: PeriodView, y: PeriodView| x.end < y.end,
    );
}

/// The order in which the periods are given does not matter: the same periods
/// have the same evaluation.
pub proof fn period_order_does_not_matter(config: CovenantConfig, a: Financials, b: Financials)
    requires
        a.measurement_date.day() == b.measurement_date.day(),
        input::periods_view(a.periods@).to_multiset() == input::periods_view(
            b.periods@,
        ).to_multiset(),
        ends_differ(a.periods@),
    ensures
        engine::evaluation(config, a) == engine::evaluation(config, b),
{
    let lt = |x: PeriodView, y: PeriodView| x.end < y.end;
    let v = input::periods_view(a.periods@);
    let w = input::periods_view(b.periods@);
    assert(order::is_order(lt));
    assert forall|x: PeriodView, y: PeriodView|
        v.contains(x) && v.contains(y) && x != y implies #[trigger] lt(x, y) || lt(y, x) by {
        let i = choose|i: int| 0 <= i < v.len() && v[i] == x;
        let j = choose|j: int| 0 <= j < v.len() && v[j] == y;
        assert(a.periods@[i].period_end.day() != a.periods@[j].period_end.day());
    }
    order::stable_sort_forgets_order(v, w, lt);
    periods_in_order(a.periods@);
    periods_in_order(b.periods@);
    let s = engine::in_order(a.periods@);
    let t = engine::in_order(b.periods@);
    let p = input::periods_view(s);
    let q = input::periods_view(t);
    assert(p.len() == s.len() && q.len() == t.len());
    assert forall|i: int| #![trigger s[i]] #![trigger t[i]] 0 <= i < s.len() implies s[i]@ == t[i]@ by {
        assert(p[i] == s[i]@ && q[i] == t[i]@);
    }
    let day = a.measurement_date.day();
    repeats_alike(s, t, 0);
    last_alike(s, t, day, s.len() as int);
    match engine::last_until(s, day, s.len() as int) {
        Some(current) => {
            let n = config::first_ids(config.covenants@, config.covenants.len() as int).len() as int;
            covenants_alike(config, s, t, current, day, n);
        },
        None => {},
    }
}

// ---- findings ----

pub open spec fn all_gated(s: Seq<FindingView>) -> bool {
    forall|k: int|
        0 <= k < s.len() ==> ((#[trigger] s[k]).requires_signoff <==> s[k].severity
            == Severity::Breach)
}

proof fn entry_gated(
    config: CovenantConfig,
    s: Seq<PeriodFinancials>,
    current: int,
    day: int,
    id: Seq<char>,
)
    requires
        engine::covenant_entry(config, s, current, day, id) is Some,
    ensures
        all_gated(engine::covenant_entry(config, s, current, day, id)->0.findings),
{
    reveal(engine::covenant_entry);
}

proof fn upto_gated(
    config: CovenantConfig,
    s: Seq<PeriodFinancials>,
    current: int,
    day: int,
    n: int,
)
    requires
        engine::covenants_upto(config, s, current, day, n) is Some,
    ensures
        all_gated(engine::covenants_upto(config, s, current, day, n)->0.findings),
    decreases n,
{
    if n > 0 {
        let ids = config::first_ids(config.covenants@, config.covenants.len() as int);
        upto_gated(config, s, current, day, n - 1);
        entry_gated(config, s, current, day, ids[n - 1]);
    }
}

/// A finding is gated exactly when it is a breach.
pub proof fn findings_are_gated_when_breaches(config: CovenantConfig, fin: Financials)
    requires
        engine::evaluation(config, fin) is Some,
    ensures
        all_gated(engine::evaluation(config, fin)->0.findings),
{
    let s = engine::in_order(fin.periods@);
    let day = fin.measurement_date.day();
    match engine::last_until(s, day, s.len() as int) {
        Some(current) => {
            let n = config::first_ids(config.covenants@, config.covenants.len() as int).len() as int;
            if engine::repeat_error(s, 0) is None {
                upto_gated(config, s, current, day, n);
            }
        },
        None => {},
    }
}

/// The place from `i` on of the first rule of a covenant, or the end.
pub open spec fn first_place(s: Seq<CovenantRule>, id: Seq<char>, i: int) -> int
    decreases s.len() - i,
{
    if i >= s.len() {
        s.len() as int
    } else if s[i].id@ == id {
        i
    } else {
        first_place(s, id, i + 1)
    }
}

proof fn first_place_is_first(s: Seq<CovenantRule>, id: Seq<char>, i: int, k: int)
    requires
        0 <= i <= k < s.len(),
        s[k].id@ == id,
        forall|j: int| i <= j < k ==> (#[trigger] s[j]).id@ != id,
    ensures
        first_place(s, id, i) == k,
    decreases k - i,
{
    if i < k {
        first_place_is_first(s, id, i + 1, k);
    }
}

pub(crate) proof fn first_ids_hold(s: Seq<CovenantRule>, n: int)
    requires
        0 <= n <= s.len(),
    ensures
        ({
            let ids = config::first_ids(s, n);
            &&& forall|i: int| 0 <= i < n ==> ids.contains((#[trigger] s[i]).id@)
            &&& forall|k: int| 0 <= k < ids.len() ==> first_place(s, #[trigger] ids[k], 0) < n
            &&& forall|k: int, l: int|
                0 <= k < l < ids.len() ==> first_place(s, #[trigger] ids[k], 0) < first_place(
                    s,
                    #[trigger] ids[l],
                    0,
                )
        }),
    decreases n,
{
    if n > 0 {
        first_ids_hold(s, n - 1);
        let before = config::first_ids(s, n - 1);
        let ids = config::first_ids(s, n);
        let id = s[n - 1].id@;
        if !before.contains(id) {
            assert forall|j: int| 0 <= j < n - 1 implies (#[trigger] s[j]).id@ != id by {
                assert(before.contains(s[j].id@));
            }
            first_place_is_first(s, id, 0, n - 1);
            assert(ids[ids.len() - 1] == id);
        }
        assert forall|i: int| 0 <= i < n implies ids.contains((#[trigger] s[i]).id@) by {
            if i < n - 1 {
                assert(before.contains(s[i].id@));
                let k = choose|k: int| 0 <= k < before.len() && before[k] == s[i].id@;
                assert(ids[k] == s[i].id@);
            }
        }
        assert forall|k: int, l: int| 0 <= k < l < ids.len() implies first_place(
            s,
            #[trigger] ids[k],
            0,
        ) < first_place(s, #[trigger] ids[l], 0) by {
            assert(ids[k] == before[k]);
            if l < before.len() {
                assert(ids[l] == before[l]);
            }
        }
    }
}

pub(crate) proof fn versions_are_of(s: Seq<CovenantRule>, id: Seq<char>, day: int, n: int)
    requires
        0 <= n <= s.len(),
    ensures
        forall|k: int|
            0 <= k < config::versions_on(s, id, day, n).len() ==> 0 <= (
            #[trigger] config::versions_on(s, id, day, n)[k]) < n && s[config::versions_on(
                s,
                id,
                day,
                n,
            )[k]].id@ == id,
    decreases n,
{
    if n > 0 {
        versions_are_of(s, id, day, n - 1);
    }
}

/// Whether everything in an evaluation is about `id`: a finding or more, and
/// one result at most.
pub open spec fn is_about(e: engine::EvaluationView, id: Seq<char>) -> bool {
    &&& e.findings.len() > 0
    &&& forall|k: int| 0 <= k < e.findings.len() ==> (#[trigger] e.findings[k]).subject == id
    &&& e.results.len() <= 1
    &&& forall|k: int| 0 <= k < e.results.len() ==> (#[trigger] e.results[k]).covenant_id == id
}

pub(crate) proof fn entry_is_about(
    config: CovenantConfig,
    s: Seq<PeriodFinancials>,
    current: int,
    day: int,
    id: Seq<char>,
)
    requires
        engine::covenant_entry(config, s, current, day, id) is Some,
    ensures
        is_about(engine::covenant_entry(config, s, current, day, id)->0, id),
{
    reveal(engine::covenant_entry);
    let n = config.covenants.len() as int;
    versions_are_of(config.covenants@, id, day, n);
    let versions = config::versions_on(config.covenants@, id, day, n);
    if versions.len() == 1 {
        assert(config.covenants@[versions[0]].id@ == id);
    }
}

/// Whether findings and results follow the first rules of their covenants,
/// and each result is of a covenant of its own.
pub open spec fn in_config_order(s: Seq<CovenantRule>, e: engine::EvaluationView) -> bool {
    &&& forall|i: int, j: int|
        0 <= i < j < e.findings.len() ==> first_place(s, (#[trigger] e.findings[i]).subject, 0)
            <= first_place(s, (#[trigger] e.findings[j]).subject, 0)
    &&& forall|i: int, j: int|
        0 <= i < j < e.results.len() ==> first_place(
            s,
            (#[trigger] e.results[i]).covenant_id,
            0,
        ) < first_place(s, (#[trigger] e.results[j]).covenant_id, 0)
}

/// Whether some finding is about `id`.
pub open spec fn is_told(e: engine::EvaluationView, id: Seq<char>) -> bool {
    exists|k: int| 0 <= k < e.findings.len() && (#[trigger] e.findings[k]).subject == id
}

proof fn upto_in_order(
    config: CovenantConfig,
    s: Seq<PeriodFinancials>,
    current: int,
    day: int,
    n: int,
)
    requires
        0 <= n <= config::first_ids(config.covenants@, config.covenants.len() as int).len(),
        engine::covenants_upto(config, s, current, day, n) is Some,
    ensures
        ({
            let e = engine::covenants_upto(config, s, current, day, n)->0;
            let ids = config::first_ids(config.covenants@, config.covenants.len() as int);
            &&& in_config_order(config.covenants@, e)
            &&& forall|k: int| 0 <= k < n ==> is_told(e, #[trigger] ids[k])
            &&& forall|k: int|
                0 <= k < e.findings.len() ==> ids.take(n).contains(
                    (#[trigger] e.findings[k]).subject,
                )
            &&& forall|k: int|
                0 <= k < e.results.len() ==> ids.take(n).contains(
                    (#[trigger] e.results[k]).covenant_id,
                )
        }),
    decreases n,
{
    if n > 0 {
        let rules = config.covenants@;
        let ids = config::first_ids(rules, rules.len() as int);
        let id = ids[n - 1];
        upto_in_order(config, s, current, day, n - 1);
        entry_is_about(config, s, current, day, id);
        first_ids_hold(rules, rules.len() as int);
        let before = engine::covenants_upto(config, s, current, day, n - 1)->0;
        let entry = engine::covenant_entry(config, s, current, day, id)->0;
        let e = engine::covenants_upto(config, s, current, day, n)->0;
        let seen = ids.take(n - 1);
        let now = ids.take(n);
        assert(now =~= seen.push(id));
        assert(now[n - 1] == id);
        assert forall|x: Seq<char>| #[trigger] seen.contains(x) implies now.contains(x)
            && first_place(rules, x, 0) < first_place(rules, id, 0) by {
            let k = choose|k: int| 0 <= k < seen.len() && seen[k] == x;
            assert(now[k] == x);
            assert(ids[k] == x);
            assert(first_place(rules, ids[k], 0) < first_place(rules, ids[n - 1], 0));
        }
        let f = before.findings.len() as int;
        let r = before.results.len() as int;
        assert forall|k: int| 0 <= k < e.findings.len() implies now.contains(
            (#[trigger] e.findings[k]).subject,
        ) by {
            if k < f {
                assert(e.findings[k] == before.findings[k]);
            } else {
                assert(e.findings[k] == entry.findings[k - f]);
            }
        }
        assert forall|k: int| 0 <= k < e.results.len() implies now.contains(
            (#[trigger] e.results[k]).covenant_id,
        ) by {
            if k < r {
                assert(e.results[k] == before.results[k]);
            } else {
                assert(e.results[k] == entry.results[k - r]);
            }
        }
        assert forall|i: int, j: int| 0 <= i < j < e.findings.len() implies first_place(
            rules,
            (#[trigger] e.findings[i]).subject,
            0,
        ) <= first_place(rules, (#[trigger] e.findings[j]).subject, 0) by {
            if i < f {
                assert(e.findings[i] == before.findings[i]);
                assert(seen.contains(before.findings[i].subject));
            } else {
                assert(e.findings[i] == entry.findings[i - f]);
            }
            if j < f {
                assert(e.findings[j] == before.findings[j]);
            } else {
                assert(e.findings[j] == entry.findings[j - f]);
            }
        }
        assert forall|i: int, j: int| 0 <= i < j < e.results.len() implies first_place(
            rules,
            (#[trigger] e.results[i]).covenant_id,
            0,
        ) < first_place(rules, (#[trigger] e.results[j]).covenant_id, 0) by {
            assert(i < r);
            assert(e.results[i] == before.results[i]);
            assert(seen.contains(before.results[i].covenant_id));
            if j < r {
                assert(e.results[j] == before.results[j]);
            } else {
                assert(e.results[j] == entry.results[j - r]);
            }
        }
        assert forall|k: int| 0 <= k < n implies is_told(e, #[trigger] ids[k]) by {
            if k < n - 1 {
                assert(is_told(before, ids[k]));
                let i = choose|i: int|
                    0 <= i < before.findings.len() && (#[trigger] before.findings[i]).subject
                        == ids[k];
                assert(e.findings[i].subject == ids[k]);
            } else {
                assert(e.findings[f] == entry.findings[0]);
            }
        }
    }
}

/// On financials in which something can be tested, findings and results come
/// in the order in which the covenants first occur in the configuration.
/// Every covenant is told of, no covenant has two results, and nothing is
/// told of what is no covenant.
pub proof fn covenants_come_in_config_order(config: CovenantConfig, fin: Financials)
    requires
        engine::evaluation(config, fin) is Some,
        ({
            let s = engine::in_order(fin.periods@);
            &&& engine::repeat_error(s, 0) is None
            &&& engine::last_until(s, fin.measurement_date.day(), s.len() as int) is Some
        }),
    ensures
        ({
            let e = engine::evaluation(config, fin)->0;
            let rules = config.covenants@;
            &&& in_config_order(rules, e)
            &&& forall|i: int| 0 <= i < rules.len() ==> is_told(e, (#[trigger] rules[i]).id@)
            &&& forall|k: int|
                0 <= k < e.findings.len() ==> first_place(
                    rules,
                    (#[trigger] e.findings[k]).subject,
                    0,
                ) < rules.len()
            &&& forall|k: int|
                0 <= k < e.results.len() ==> first_place(
                    rules,
                    (#[trigger] e.results[k]).covenant_id,
                    0,
                ) < rules.len()
        }),
{
    let s = engine::in_order(fin.periods@);
    let day = fin.measurement_date.day();
    let current = engine::last_until(s, day, s.len() as int)->0;
    let rules = config.covenants@;
    let ids = config::first_ids(rules, rules.len() as int);
    let n = ids.len() as int;
    let e = engine::evaluation(config, fin)->0;
    first_ids_hold(rules, rules.len() as int);
    upto_in_order(config, s, current, day, n);
    assert(ids.take(n) =~= ids);
    assert forall|i: int| 0 <= i < rules.len() implies is_told(e, (#[trigger] rules[i]).id@) by {
        assert(ids.contains(rules[i].id@));
        let k = choose|k: int| 0 <= k < ids.len() && ids[k] == rules[i].id@;
        assert(is_told(e, ids[k]));
    }
    assert forall|x: Seq<char>| #[trigger] ids.contains(x) implies first_place(rules, x, 0)
        < rules.len() by {
        let k = choose|k: int| 0 <= k < ids.len() && ids[k] == x;
        assert(first_place(rules, ids[k], 0) < rules.len());
    }
}

/// A tested covenant has one result, and passes exactly when the test's own
/// finding, which comes first, is no breach.
pub proof fn results_agree_with_findings(
    rule: CovenantRule,
    config: CovenantConfig,
    s: Seq<PeriodFinancials>,
    current: int,
    m: MeasureView,
)
    requires
        engine::verdict_of(rule, config, s, current, m) is Some,
    ensures
        ({
            let e = engine::verdict_of(rule, config, s, current, m)->0;
            &&& e.results.len() == 1
            &&& e.findings.len() >= 1
            &&& e.results[0].passed <==> e.findings[0].severity != Severity::Breach
        }),
{
}

// ---- packs ----

/// A sealed pack verifies against the bytes that it was made from.
pub proof fn sealed_packs_verify(
    params: Seq<u8>,
    inputs: Seq<u8>,
    findings: Seq<FindingView>,
    signoffs: Seq<SignoffView>,
    after: EnvelopeView,
)
    requires
        ({
            let made = spine::PackView { signoffs, ..pack::fresh_pack(params, inputs, findings) };
            pack::sealing(
                EnvelopeView { lock_state: LockState::AwaitingSignoff, pack: made },
                after,
                Ok(pack::SealOutcome::Signed),
            )
        }),
    ensures
        after.lock_state == LockState::Signed,
        spine::is_evidence(after.pack, inputs, params),
{
    let made = spine::PackView { signoffs, ..pack::fresh_pack(params, inputs, findings) };
    assert(spine::body_text(after.pack) == spine::body_text(made));
    assert(spine::all_resolved(after.pack)) by {
        assert forall|i: int| 0 <= i < after.pack.findings.len() implies spine::is_resolved(
            after.pack,
            #[trigger] after.pack.findings[i],
        ) by {
            assert(spine::is_resolved(made, made.findings[i]));
        }
    }
}

/// A pack without gated findings and without breaches seals without
/// receipts.
pub proof fn clean_packs_need_no_receipts(p: spine::PackView)
    requires
        forall|i: int|
            0 <= i < p.findings.len() ==> !(#[trigger] p.findings[i]).requires_signoff
                && p.findings[i].severity != Severity::Breach,
    ensures
        pack::is_sealable(p),
{
}

/// A breach is never accepted on the word of one signer: a pack that seals
/// over a breach carries approvals by two actors, neither of them the
/// engine, who differ in more than white space at the ends and the case of
/// letters.
pub proof fn breaches_need_two_human_signers(p: spine::PackView)
    requires
        pack::is_sealable(p),
        pack::has_breach(p.findings),
    ensures
        exists|a: SignoffView, b: SignoffView|
            #![trigger spine::two_signers(a, b)]
            p.signoffs.contains(a) && p.signoffs.contains(b) && spine::two_signers(a, b)
                && !text::same_ignoring_case(text::trimmed(a.actor), ENGINE_ID@)
                && !text::same_ignoring_case(text::trimmed(b.actor), ENGINE_ID@),
{
    let human = |x: SignoffView| !text::same_ignoring_case(text::trimmed(x.actor), ENGINE_ID@);
    let kept = p.signoffs.filter(human);
    let (i, j) = choose|i: int, j: int|
        0 <= i < j < kept.len() && #[trigger] spine::two_signers(kept[i], kept[j]);
    p.signoffs.lemma_filter_contains_rev(human, kept[i]);
    p.signoffs.lemma_filter_contains_rev(human, kept[j]);
    p.signoffs.lemma_filter_pred(human, i);
    p.signoffs.lemma_filter_pred(human, j);
    assert(spine::two_signers(kept[i], kept[j]));
}

} // verus!
