//! Text primitives: decimal rendering, trimming, and character-wise
//! comparison, all stated over the sequence of characters of a string.

use vstd::prelude::*;
use vstd::string::StrSliceExecFns;
use vstd::string::StringExecFns;

use crate::order;
use crate::order::Order;

verus! {

/// The text of one decimal digit.
pub open spec fn digit_text(d: nat) -> Seq<char> {
    if d == 0 {
        "0"@
    } else if d == 1 {
        "1"@
    } else if d == 2 {
        "2"@
    } else if d == 3 {
        "3"@
    } else if d == 4 {
        "4"@
    } else if d == 5 {
        "5"@
    } else if d == 6 {
        "6"@
    } else if d == 7 {
        "7"@
    } else if d == 8 {
        "8"@
    } else {
        "9"@
    }
}

/// Base-ten rendering without leading zeros.
pub open spec fn decimal(n: nat) -> Seq<char>
    decreases n,
{
    if n < 10 {
        digit_text(n)
    } else {
        decimal(n / 10) + digit_text(n % 10)
    }
}

/// Base-ten rendering of an integer, with a leading minus sign when negative.
pub open spec fn signed_decimal(i: int) -> Seq<char> {
    if i < 0 {
        "-"@ + decimal((-i) as nat)
    } else {
        decimal(i as nat)
    }
}

/// `n` in at least two digits.
pub open spec fn two_digits(n: nat) -> Seq<char> {
    if n < 10 {
        "0"@ + decimal(n)
    } else {
        decimal(n)
    }
}

/// `n` in at least four digits.
pub open spec fn four_digits(n: nat) -> Seq<char> {
    if n < 10 {
        "000"@ + decimal(n)
    } else if n < 100 {
        "00"@ + decimal(n)
    } else if n < 1000 {
        "0"@ + decimal(n)
    } else {
        decimal(n)
    }
}

fn digit(d: u128) -> (r: &'static str)
    requires
        d < 10,
    ensures
        r@ == digit_text(d as nat),
{
    if d == 0 {
        "0"
    } else if d == 1 {
        "1"
    } else if d == 2 {
        "2"
    } else if d == 3 {
        "3"
    } else if d == 4 {
        "4"
    } else if d == 5 {
        "5"
    } else if d == 6 {
        "6"
    } else if d == 7 {
        "7"
    } else if d == 8 {
        "8"
    } else {
        "9"
    }
}

/// Decimal text of an unsigned integer.
pub fn unsigned_text(n: u128) -> (r: String)
    ensures
        r@ == decimal(n as nat),
    decreases n,
{
    if n < 10 {
        String::from_str(digit(n))
    } else {
        let mut out = unsigned_text(n / 10);
        out.append(digit(n % 10));
        out
    }
}

/// Decimal text of an unsigned integer in at least two digits.
pub fn two_digit_text(n: u128) -> (r: String)
    ensures
        r@ == two_digits(n as nat),
{
    if n < 10 {
        let mut out = String::from_str("0");
        out.append(unsigned_text(n).as_str());
        out
    } else {
        unsigned_text(n)
    }
}

/// Decimal text of an unsigned integer in at least four digits.
pub fn four_digit_text(n: u128) -> (r: String)
    ensures
        r@ == four_digits(n as nat),
{
    let mut out = String::from_str(
        if n < 10 {
            "000"
        } else if n < 100 {
            "00"
        } else if n < 1000 {
            "0"
        } else {
            ""
        },
    );
    out.append(unsigned_text(n).as_str());
    proof {
        reveal_strlit("");
        if n >= 1000 {
            assert(out@ =~= decimal(n as nat));
        }
    }
    out
}

/// The sign and digits that `{:+}` writes.
pub open spec fn plus_decimal(i: int) -> Seq<char> {
    if i < 0 {
        signed_decimal(i)
    } else {
        "+"@ + decimal(i as nat)
    }
}

/// Decimal text of a signed integer that always carries its sign.
pub fn plus_text(i: i128) -> (r: String)
    ensures
        r@ == plus_decimal(i as int),
{
    if i < 0 {
        signed_text(i)
    } else {
        let mut out = String::from_str("+");
        out.append(unsigned_text(i as u128).as_str());
        out
    }
}

/// Decimal text of a `usize`.
pub fn count_text(n: usize) -> (r: String)
    ensures
        r@ == decimal(n as nat),
{
    unsigned_text(n as u128)
}

/// Decimal text of a signed integer.
pub fn signed_text(i: i128) -> (r: String)
    ensures
        r@ == signed_decimal(i as int),
{
    if i < 0 {
        let magnitude: u128 = (-(i + 1)) as u128 + 1;
        let mut out = String::from_str("-");
        out.append(unsigned_text(magnitude).as_str());
        out
    } else {
        unsigned_text(i as u128)
    }
}

/// The characters of a string, in order.
pub fn chars_of(s: &str) -> (r: Vec<char>)
    ensures
        r@ == s@,
{
    let mut out: Vec<char> = Vec::new();
    for c in it: s.chars()
        invariant
            out@ == it.seq().take(it.index()),
            it.seq() == s@,
    {
        out.push(c);
    }
    out
}

/// Characters with the Unicode `White_Space` property.
pub open spec fn is_white(c: char) -> bool {
    let u = c as u32;
    ||| 0x09 <= u <= 0x0d
    ||| u == 0x20
    ||| u == 0x85
    ||| u == 0xa0
    ||| u == 0x1680
    ||| 0x2000 <= u <= 0x200a
    ||| u == 0x2028
    ||| u == 0x2029
    ||| u == 0x202f
    ||| u == 0x205f
    ||| u == 0x3000
}

fn white(c: char) -> (r: bool)
    ensures
        r == is_white(c),
{
    let u: u32 = c as u32;
    (0x09 <= u && u <= 0x0d) || u == 0x20 || u == 0x85 || u == 0xa0 || u == 0x1680 || (0x2000 <= u
        && u <= 0x200a) || u == 0x2028 || u == 0x2029 || u == 0x202f || u == 0x205f || u == 0x3000
}

/// What is left of `s` once its leading white space is gone.
pub open spec fn trim_front(s: Seq<char>) -> Seq<char>
    decreases s.len(),
{
    if s.len() > 0 && is_white(s[0]) {
        trim_front(s.drop_first())
    } else {
        s
    }
}

/// What is left of `s` once its trailing white space is gone.
pub open spec fn trim_back(s: Seq<char>) -> Seq<char>
    decreases s.len(),
{
    if s.len() > 0 && is_white(s.last()) {
        trim_back(s.drop_last())
    } else {
        s
    }
}

/// `s` without leading and trailing white space.
pub open spec fn trimmed(s: Seq<char>) -> Seq<char> {
    trim_back(trim_front(s))
}

/// Whether `s` holds nothing but white space.
pub open spec fn is_blank(s: Seq<char>) -> bool {
    trimmed(s).len() == 0
}

/// The slice of `s` without leading and trailing white space.
pub fn trim(s: &str) -> (r: &str)
    ensures
        r@ == trimmed(s@),
{
    let chars = chars_of(s);
    let mut from: usize = 0;
    assert(s@.skip(0) =~= s@);
    while from < chars.len() && white(chars[from])
        invariant
            from <= chars.len(),
            chars@ == s@,
            trim_front(s@) == trim_front(s@.skip(from as int)),
        decreases chars.len() - from,
    {
        assert(s@.skip(from as int).drop_first() =~= s@.skip(from + 1));
        from = from + 1;
    }
    let mut to: usize = chars.len();
    assert(trim_front(s@) == s@.skip(from as int));
    assert(s@.skip(from as int) =~= s@.subrange(from as int, to as int));
    while from < to && white(chars[to - 1])
        invariant
            from <= to <= chars.len(),
            chars@ == s@,
            trimmed(s@) == trim_back(s@.subrange(from as int, to as int)),
        decreases to - from,
    {
        assert(s@.subrange(from as int, to as int).drop_last() =~= s@.subrange(
            from as int,
            to - 1,
        ));
        to = to - 1;
    }
    s.substring_char(from, to)
}

/// Whether a string holds nothing but white space.
pub fn blank(s: &str) -> (r: bool)
    ensures
        r == is_blank(s@),
{
    trim(s).is_empty()
}

/// Character equality, as a test on two strings.
pub fn same_text(a: &str, b: &str) -> (r: bool)
    ensures
        r == (a@ == b@),
{
    let x = chars_of(a);
    let y = chars_of(b);
    if x.len() != y.len() {
        return false;
    }
    let mut i: usize = 0;
    while i < x.len()
        invariant
            i <= x.len(),
            x.len() == y.len(),
            x@ == a@,
            y@ == b@,
            x@.take(i as int) == y@.take(i as int),
        decreases x.len() - i,
    {
        if x[i] != y[i] {
            assert(a@[i as int] != b@[i as int]);
            return false;
        }
        assert(x@.take(i + 1) =~= x@.take(i as int).push(x@[i as int]));
        assert(y@.take(i + 1) =~= y@.take(i as int).push(y@[i as int]));
        i = i + 1;
    }
    assert(x@.take(i as int) =~= x@);
    assert(y@.take(i as int) =~= y@);
    true
}

/// The lower-case form of an ASCII letter; any other character unchanged.
pub open spec fn ascii_lower(c: char) -> char {
    if 'A' <= c <= 'Z' {
        (c as u32 + 32) as char
    } else {
        c
    }
}

/// Equality of two texts up to the case of ASCII letters.
pub open spec fn same_ignoring_case(a: Seq<char>, b: Seq<char>) -> bool {
    &&& a.len() == b.len()
    &&& forall|i: int| #![trigger a[i]] #![trigger b[i]] 0 <= i < a.len() ==> ascii_lower(a[i]) == ascii_lower(b[i])
}

fn lower_code(c: char) -> (r: u32)
    ensures
        r == ascii_lower(c) as u32,
{
    if 'A' <= c && c <= 'Z' {
        c as u32 + 32
    } else {
        c as u32
    }
}

/// Equality of two strings up to the case of ASCII letters.
pub fn eq_ignoring_case(a: &str, b: &str) -> (r: bool)
    ensures
        r == same_ignoring_case(a@, b@),
{
    let x = chars_of(a);
    let y = chars_of(b);
    if x.len() != y.len() {
        return false;
    }
    let mut i: usize = 0;
    while i < x.len()
        invariant
            i <= x.len(),
            x.len() == y.len(),
            x@ == a@,
            y@ == b@,
            forall|k: int| #![trigger a@[k]] #![trigger b@[k]] 0 <= k < i ==> ascii_lower(a@[k]) == ascii_lower(b@[k]),
        decreases x.len() - i,
    {
        if lower_code(x[i]) != lower_code(y[i]) {
            assert(ascii_lower(a@[i as int]) != ascii_lower(b@[i as int]));
            return false;
        }
        i = i + 1;
    }
    true
}

/// Lexicographic order on texts by character code.
pub open spec fn text_lt(a: Seq<char>, b: Seq<char>) -> bool
    decreases a.len(),
{
    if b.len() == 0 {
        false
    } else if a.len() == 0 {
        true
    } else if a[0] == b[0] {
        text_lt(a.drop_first(), b.drop_first())
    } else {
        a[0] < b[0]
    }
}

/// Whether `a` comes strictly before `b`.
pub fn text_before(a: &str, b: &str) -> (r: bool)
    ensures
        r == text_lt(a@, b@),
{
    let x = chars_of(a);
    let y = chars_of(b);
    let mut i: usize = 0;
    assert(a@.skip(0) =~= a@);
    assert(b@.skip(0) =~= b@);
    while i < x.len() && i < y.len() && x[i] == y[i]
        invariant
            i <= x.len(),
            i <= y.len(),
            x@ == a@,
            y@ == b@,
            text_lt(a@, b@) == text_lt(a@.skip(i as int), b@.skip(i as int)),
        decreases x.len() - i,
    {
        assert(a@.skip(i as int).drop_first() =~= a@.skip(i + 1));
        assert(b@.skip(i as int).drop_first() =~= b@.skip(i + 1));
        i = i + 1;
    }
    if i == y.len() {
        false
    } else if i == x.len() {
        true
    } else {
        x[i] < y[i]
    }
}

/// No text comes before itself.
pub proof fn text_lt_irreflexive(a: Seq<char>)
    ensures
        !text_lt(a, a),
    decreases a.len(),
{
    if a.len() > 0 {
        text_lt_irreflexive(a.drop_first());
    }
}

/// The order on texts is transitive.
pub proof fn text_lt_transitive(a: Seq<char>, b: Seq<char>, c: Seq<char>)
    requires
        text_lt(a, b),
        text_lt(b, c),
    ensures
        text_lt(a, c),
    decreases a.len(),
{
    if a.len() > 0 && b.len() > 0 && c.len() > 0 && a[0] == b[0] && b[0] == c[0] {
        text_lt_transitive(a.drop_first(), b.drop_first(), c.drop_first());
    }
}

/// Two texts neither of which comes first are equal.
pub proof fn text_lt_total(a: Seq<char>, b: Seq<char>)
    ensures
        a == b || text_lt(a, b) || text_lt(b, a),
    decreases a.len(),
{
    if a.len() > 0 && b.len() > 0 && a[0] == b[0] {
        text_lt_total(a.drop_first(), b.drop_first());
        if a.drop_first() == b.drop_first() {
            assert(a =~= seq![a[0]] + a.drop_first());
            assert(b =~= seq![b[0]] + b.drop_first());
        }
    } else if a.len() == 0 && b.len() == 0 {
        assert(a =~= b);
    }
}

/// What a sequence of strings holds.
pub open spec fn texts(s: Seq<String>) -> Seq<Seq<char>> {
    s.map_values(|x: String| x@)
}

/// Copy a sequence of strings.
pub fn copy_texts(v: &Vec<String>) -> (r: Vec<String>)
    ensures
        texts(r@) == texts(v@),
{
    let mut out: Vec<String> = Vec::new();
    let mut i: usize = 0;
    while i < v.len()
        invariant
            i <= v.len(),
            out.len() == i,
            forall|k: int| 0 <= k < i ==> (#[trigger] out@[k])@ == v@[k]@,
        decreases v.len() - i,
    {
        out.push(v[i].clone());
        i = i + 1;
    }
    assert(texts(out@) =~= texts(v@));
    out
}

/// Whether a vector of strings holds a text.
pub fn holds_text(v: &Vec<String>, x: &str) -> (r: bool)
    ensures
        r == texts(v@).contains(x@),
{
    let ghost all = texts(v@);
    let mut i: usize = 0;
    while i < v.len()
        invariant
            i <= v.len(),
            all == texts(v@),
            forall|k: int| 0 <= k < i ==> #[trigger] all[k] != x@,
        decreases v.len() - i,
    {
        if same_text(v[i].as_str(), x) {
            assert(all[i as int] == x@);
            return true;
        }
        i = i + 1;
    }
    false
}

/// Texts in a row with a separator between them.
pub open spec fn joined(s: Seq<Seq<char>>, separator: Seq<char>) -> Seq<char>
    decreases s.len(),
{
    if s.len() == 0 {
        Seq::empty()
    } else if s.len() == 1 {
        s[0]
    } else {
        joined(s.drop_last(), separator) + separator + s.last()
    }
}

/// Strings in a row with a separator between them.
pub fn join(parts: &Vec<String>, separator: &str) -> (r: String)
    ensures
        r@ == joined(texts(parts@), separator@),
{
    let ghost all = texts(parts@);
    let mut out = String::new();
    let mut i: usize = 0;
    assert(all.take(0) =~= Seq::<Seq<char>>::empty());
    while i < parts.len()
        invariant
            i <= parts.len(),
            all == texts(parts@),
            out@ == joined(all.take(i as int), separator@),
        decreases parts.len() - i,
    {
        let ghost before = out@;
        if i > 0 {
            out.append(separator);
        }
        out.append(parts[i].as_str());
        proof {
            let now = all.take(i + 1);
            assert(now.drop_last() =~= all.take(i as int));
            assert(now.last() == parts@[i as int]@);
            if i == 0 {
                assert(out@ =~= now[0]);
            }
        }
        i = i + 1;
    }
    assert(all.take(i as int) =~= all);
    out
}

/// The order on strings by their characters.
pub struct TextOrder {}

impl Order<String> for TextOrder {
    open spec fn lt(&self, a: String, b: String) -> bool {
        text_lt(a@, b@)
    }

    fn before(&self, a: &String, b: &String) -> (r: bool) {
        text_before(a.as_str(), b.as_str())
    }
}

/// `s` without entries that repeat the one before them.
pub open spec fn without_repeats(s: Seq<Seq<char>>) -> Seq<Seq<char>>
    decreases s.len(),
{
    if s.len() <= 1 {
        s
    } else if s.last() == s[s.len() - 2] {
        without_repeats(s.drop_last())
    } else {
        without_repeats(s.drop_last()).push(s.last())
    }
}

/// The different entries of `s` in ascending order.
pub open spec fn ascending(s: Seq<Seq<char>>) -> Seq<Seq<char>> {
    without_repeats(order::stable_sort(s, |a: Seq<char>, b: Seq<char>| text_lt(a, b)))
}

/// The different entries of a sequence are entries of it.
pub proof fn ascending_holds(s: Seq<Seq<char>>, k: int)
    requires
        0 <= k < ascending(s).len(),
    ensures
        s.contains(ascending(s)[k]),
{
    let lt = |a: Seq<char>, b: Seq<char>| text_lt(a, b);
    let sorted = order::stable_sort(s, lt);
    order::stable_sort_elements(s, lt);
    without_repeats_holds(sorted, k);
}

proof fn without_repeats_holds(s: Seq<Seq<char>>, k: int)
    requires
        0 <= k < without_repeats(s).len(),
    ensures
        s.contains(without_repeats(s)[k]),
    decreases s.len(),
{
    if s.len() <= 1 {
        assert(s[k] == without_repeats(s)[k]);
    } else {
        let shorter = s.drop_last();
        if k < without_repeats(shorter).len() {
            without_repeats_holds(shorter, k);
            let x = without_repeats(s)[k];
            let j = choose|j: int| 0 <= j < shorter.len() && shorter[j] == x;
            assert(s[j] == x);
        } else {
            assert(s[s.len() - 1] == without_repeats(s)[k]);
        }
    }
}

/// The order of texts is a strict order.
pub proof fn text_order()
    ensures
        order::is_order(|a: Seq<char>, b: Seq<char>| text_lt(a, b)),
{
    let lt = |a: Seq<char>, b: Seq<char>| text_lt(a, b);
    assert forall|a: Seq<char>| !#[trigger] lt(a, a) by {
        text_lt_irreflexive(a);
    }
    assert forall|a: Seq<char>, b: Seq<char>, c: Seq<char>| #[trigger] lt(a, b) && #[trigger] lt(
        b,
        c,
    ) implies lt(a, c) by {
        text_lt_transitive(a, b, c);
    }
    assert forall|a: Seq<char>, b: Seq<char>, c: Seq<char>| !#[trigger] lt(a, b) && !#[trigger] lt(
        b,
        c,
    ) implies !lt(a, c) by {
        if text_lt(a, c) {
            text_lt_total(a, b);
            text_lt_total(b, c);
            if text_lt(b, a) {
                text_lt_transitive(b, a, c);
            }
        }
    }
}

/// The entries of a sorted sequence without repeats ascend, hold every entry,
/// and end in the last.
proof fn without_repeats_ascends(s: Seq<Seq<char>>)
    requires
        order::is_sorted(s, |a: Seq<char>, b: Seq<char>| text_lt(a, b)),
    ensures
        forall|i: int, j: int|
            0 <= i < j < without_repeats(s).len() ==> text_lt(
                #[trigger] without_repeats(s)[i],
                #[trigger] without_repeats(s)[j],
            ),
        forall|x: Seq<char>| s.contains(x) ==> #[trigger] without_repeats(s).contains(x),
        s.len() > 0 ==> without_repeats(s).len() > 0 && without_repeats(s).last() == s.last(),
    decreases s.len(),
{
    let lt = |a: Seq<char>, b: Seq<char>| text_lt(a, b);
    if s.len() > 1 {
        let shorter = s.drop_last();
        let n = s.len() as int;
        assert(order::is_sorted(shorter, lt)) by {
            assert forall|i: int, j: int| 0 <= i < j < shorter.len() implies !#[trigger] lt(
                shorter[j],
                shorter[i],
            ) by {
                assert(!lt(s[j], s[i]));
            }
        }
        without_repeats_ascends(shorter);
        let w = without_repeats(shorter);
        assert(!lt(s[n - 1], s[n - 2]));
        text_lt_total(s[n - 1], s[n - 2]);
        assert(w.last() == s[n - 2]);
        assert forall|x: Seq<char>| s.contains(x) implies #[trigger] without_repeats(s).contains(
            x,
        ) by {
            let k = choose|k: int| 0 <= k < s.len() && s[k] == x;
            if k < n - 1 {
                assert(shorter[k] == x);
                assert(w.contains(x));
                let m = choose|m: int| 0 <= m < w.len() && w[m] == x;
                assert(without_repeats(s)[m] == x);
            } else if s[n - 1] == s[n - 2] {
                assert(w[w.len() - 1] == x);
            } else {
                assert(without_repeats(s)[w.len() as int] == x);
            }
        }
        if s[n - 1] != s[n - 2] {
            assert forall|i: int, j: int| 0 <= i < j < without_repeats(s).len() implies text_lt(
                #[trigger] without_repeats(s)[i],
                #[trigger] without_repeats(s)[j],
            ) by {
                if j == w.len() {
                    if i < w.len() - 1 {
                        assert(text_lt(w[i], w[w.len() - 1]));
                        text_lt_transitive(w[i], s[n - 2], s[n - 1]);
                    }
                } else {
                    assert(text_lt(w[i], w[j]));
                }
            }
        }
    } else {
        assert(without_repeats(s) == s);
    }
}

/// The different entries of a sequence, in ascending order, are strictly
/// ascending and are all of them.
pub proof fn ascending_ascends(s: Seq<Seq<char>>)
    ensures
        forall|i: int, j: int|
            0 <= i < j < ascending(s).len() ==> text_lt(
                #[trigger] ascending(s)[i],
                #[trigger] ascending(s)[j],
            ),
        forall|x: Seq<char>| s.contains(x) <==> #[trigger] ascending(s).contains(x),
{
    let lt = |a: Seq<char>, b: Seq<char>| text_lt(a, b);
    let sorted = order::stable_sort(s, lt);
    text_order();
    order::stable_sort_sorts(s, lt);
    order::stable_sort_elements(s, lt);
    without_repeats_ascends(sorted);
    assert forall|x: Seq<char>| s.contains(x) <==> #[trigger] ascending(s).contains(x) by {
        if s.contains(x) {
            assert(sorted.contains(x));
        }
        if ascending(s).contains(x) {
            let k = choose|k: int| 0 <= k < ascending(s).len() && ascending(s)[k] == x;
            ascending_holds(s, k);
        }
    }
}

/// The different entries are no more than the entries.
pub proof fn ascending_is_short(s: Seq<Seq<char>>)
    ensures
        ascending(s).len() <= s.len(),
{
    let lt = |a: Seq<char>, b: Seq<char>| text_lt(a, b);
    order::stable_sort_keeps(s, lt);
    without_repeats_is_short(order::stable_sort(s, lt));
}

proof fn without_repeats_is_short(s: Seq<Seq<char>>)
    ensures
        without_repeats(s).len() <= s.len(),
    decreases s.len(),
{
    if s.len() > 0 {
        without_repeats_is_short(s.drop_last());
    }
}

/// Strictly ascending sequences with the same entries are the same.
pub proof fn ascending_is_unique(a: Seq<Seq<char>>, b: Seq<Seq<char>>)
    requires
        forall|i: int, j: int| 0 <= i < j < a.len() ==> text_lt(#[trigger] a[i], #[trigger] a[j]),
        forall|i: int, j: int| 0 <= i < j < b.len() ==> text_lt(#[trigger] b[i], #[trigger] b[j]),
        forall|x: Seq<char>| #[trigger] a.contains(x) <==> b.contains(x),
    ensures
        a == b,
    decreases a.len(),
{
    if a.len() == 0 {
        if b.len() > 0 {
            assert(b.contains(b[0]));
            assert(a.contains(b[0]));
        }
        assert(a =~= b);
    } else {
        let x = a.last();
        assert(a.contains(x));
        assert(b.contains(x));
        let y = b.last();
        assert(b.contains(y));
        assert(a.contains(y));
        let i = choose|i: int| 0 <= i < b.len() && b[i] == x;
        let j = choose|j: int| 0 <= j < a.len() && a[j] == y;
        if x != y {
            assert(text_lt(b[i], b[b.len() - 1]));
            assert(text_lt(a[j], a[a.len() - 1]));
            text_lt_transitive(x, y, x);
            text_lt_irreflexive(x);
        }
        let c = a.drop_last();
        let d = b.drop_last();
        assert forall|z: Seq<char>| #[trigger] c.contains(z) <==> d.contains(z) by {
            text_lt_irreflexive(x);
            if c.contains(z) {
                let k = choose|k: int| 0 <= k < c.len() && c[k] == z;
                assert(a[k] == z && text_lt(a[k], a[a.len() - 1]));
                assert(a.contains(z));
                let m = choose|m: int| 0 <= m < b.len() && b[m] == z;
                assert(m < b.len() - 1);
                assert(d[m] == z);
            }
            if d.contains(z) {
                let k = choose|k: int| 0 <= k < d.len() && d[k] == z;
                assert(b[k] == z && text_lt(b[k], b[b.len() - 1]));
                assert(b.contains(z));
                assert(a.contains(z));
                let m = choose|m: int| 0 <= m < a.len() && a[m] == z;
                assert(m < a.len() - 1);
                assert(c[m] == z);
            }
        }
        ascending_is_unique(c, d);
        assert(a =~= c.push(x));
        assert(b =~= d.push(y));
    }
}

/// The different strings of a vector in ascending order.
pub fn sorted_unique(v: Vec<String>) -> (r: Vec<String>)
    ensures
        texts(r@) == ascending(texts(v@)),
{
    let ghost all = v@;
    let rule = TextOrder {  };
    let sorted = order::sort_by(v, &rule);
    proof {
        order::stable_sort_maps(
            all,
            |x: String| x@,
            order::order_of(rule),
            |a: Seq<char>, b: Seq<char>| text_lt(a, b),
        );
    }
    let ghost s = texts(sorted@);
    let mut out: Vec<String> = Vec::new();
    let mut i: usize = 0;
    assert(texts(out@) =~= without_repeats(s.take(0)));
    while i < sorted.len()
        invariant
            i <= sorted.len(),
            s == texts(sorted@),
            texts(out@) == without_repeats(s.take(i as int)),
        decreases sorted.len() - i,
    {
        let ghost now = s.take(i + 1);
        let ghost was = out@;
        assert(now.drop_last() =~= s.take(i as int));
        assert(now.last() == sorted@[i as int]@);
        let repeats = i > 0 && sorted[i] == sorted[i - 1];
        if i > 0 {
            assert(now[now.len() - 2] == sorted@[i - 1]@);
        }
        if !repeats {
            out.push(sorted[i].clone());
            assert(texts(out@) =~= texts(was).push(sorted@[i as int]@));
        }
        if i == 0 {
            assert(s.take(0) =~= Seq::<Seq<char>>::empty());
            assert(texts(out@) =~= now);
        }
        i = i + 1;
    }
    assert(s.take(i as int) =~= s);
    out
}

/// A way to write a value.
pub trait Writer<T> {
    spec fn written(&self, x: T) -> Seq<char>;

    fn write_to(&self, x: &T, out: &mut String)
        ensures
            final(out)@ == old(out)@ + self.written(*x),
    ;
}

/// Values written one after the other.
pub open spec fn all_written<T, W: Writer<T>>(w: W, s: Seq<T>) -> Seq<char>
    decreases s.len(),
{
    if s.len() == 0 {
        Seq::empty()
    } else {
        all_written(w, s.drop_last()) + w.written(s.last())
    }
}

/// Write values one after the other.
pub fn write_all<T, W: Writer<T>>(w: &W, v: &Vec<T>, out: &mut String)
    ensures
        final(out)@ == old(out)@ + all_written(*w, v@),
{
    let ghost before = out@;
    let mut i: usize = 0;
    assert(v@.take(0) =~= Seq::<T>::empty());
    assert(out@ =~= before + all_written(*w, v@.take(0)));
    while i < v.len()
        invariant
            i <= v.len(),
            out@ == before + all_written(*w, v@.take(i as int)),
        decreases v.len() - i,
    {
        w.write_to(&v[i], out);
        proof {
            assert(v@.take(i + 1).drop_last() =~= v@.take(i as int));
            assert(v@.take(i + 1).last() == v@[i as int]);
            assert(out@ =~= before + all_written(*w, v@.take(i + 1)));
        }
        i = i + 1;
    }
    assert(v@.take(i as int) =~= v@);
}

/// The words of a text: its longest runs without white space.
pub open spec fn words(s: Seq<char>) -> Seq<Seq<char>>
    decreases s.len(),
{
    if s.len() == 0 {
        Seq::empty()
    } else {
        let before = words(s.drop_last());
        let c = s.last();
        if is_white(c) {
            before
        } else if s.len() == 1 || is_white(s[s.len() - 2]) {
            before.push(seq![c])
        } else {
            before.drop_last().push(before.last().push(c))
        }
    }
}

/// The words of a string.
pub fn split_words(s: &str) -> (r: Vec<String>)
    ensures
        texts(r@) == words(s@),
{
    let chars = chars_of(s);
    let mut out: Vec<String> = Vec::new();
    let mut open = false;
    let mut from: usize = 0;
    let mut i: usize = 0;
    assert(texts(out@) =~= words(s@.take(0)));
    while i < chars.len()
        invariant
            i <= chars.len(),
            chars@ == s@,
            from <= i,
            open == (i > 0 && !is_white(s@[i - 1])),
            open ==> from < i,
            words(s@.take(i as int)) == (if open {
                texts(out@).push(s@.subrange(from as int, i as int))
            } else {
                texts(out@)
            }),
        decreases chars.len() - i,
    {
        let ghost now = s@.take(i + 1);
        let ghost done = texts(out@);
        assert(now.drop_last() =~= s@.take(i as int));
        assert(now.last() == s@[i as int]);
        if i > 0 {
            assert(now[now.len() - 2] == s@[i - 1]);
        }
        if white(chars[i]) {
            if open {
                let ghost was = out@;
                out.push(String::from_str(s.substring_char(from, i)));
                assert(texts(out@) =~= texts(was).push(s@.subrange(from as int, i as int)));
                open = false;
            }
        } else if open {
            proof {
                let word = s@.subrange(from as int, i as int);
                assert(done.push(word).drop_last() =~= done);
                assert(s@.subrange(from as int, i + 1) =~= word.push(s@[i as int]));
            }
        } else {
            from = i;
            open = true;
            assert(s@.subrange(from as int, i + 1) =~= seq![s@[i as int]]);
        }
        i = i + 1;
    }
    assert(s@.take(i as int) =~= s@);
    if open {
        let ghost was = out@;
        out.push(String::from_str(s.substring_char(from, i)));
        assert(texts(out@) =~= texts(was).push(s@.subrange(from as int, i as int)));
    }
    out
}

/// Whether a text is of ASCII characters alone.
pub open spec fn is_ascii(s: Seq<char>) -> bool {
    forall|i: int| 0 <= i < s.len() ==> (#[trigger] s[i]) as u32 <= 127
}

/// The lower-case form of a text under Unicode's case mapping.
pub uninterp spec fn lower_text(s: Seq<char>) -> Seq<char>;

/// The lower-case form of a text: of each letter, where all are ASCII.
pub open spec fn lowered(s: Seq<char>) -> Seq<char> {
    if is_ascii(s) {
        s.map_values(|c: char| ascii_lower(c))
    } else {
        lower_text(s)
    }
}

/// std's `str::to_lowercase`. On ASCII text it lowers each letter and leaves
/// every other character. Beyond ASCII the mapping of each character, and of
/// the final sigma, is left to the name.
#[verifier::external_body]
pub(crate) fn lower_of(s: &str) -> (r: String)
    ensures
        is_ascii(s@) ==> r@ == s@.map_values(|c: char| ascii_lower(c)),
        !is_ascii(s@) ==> r@ == lower_text(s@),
{
    s.to_lowercase()
}

proof fn case_keeps_class(x: char, y: char)
    requires
        ascii_lower(x) == ascii_lower(y),
    ensures
        is_white(x) == is_white(y),
        x as u32 <= 127 <==> y as u32 <= 127,
{
}

/// The words of texts that differ in case alone differ in case alone, and
/// have the characters of the texts.
proof fn words_ignore_case(a: Seq<char>, b: Seq<char>)
    requires
        same_ignoring_case(a, b),
        is_ascii(a),
    ensures
        words(a).len() == words(b).len(),
        a.len() > 0 && !is_white(a.last()) ==> words(a).len() > 0,
        forall|k: int|
            0 <= k < words(a).len() ==> same_ignoring_case(
                #[trigger] words(a)[k],
                #[trigger] words(b)[k],
            ) && is_ascii(words(a)[k]),
    decreases a.len(),
{
    if a.len() > 0 {
        let n = a.len() as int;
        let c = a.drop_last();
        let d = b.drop_last();
        assert forall|i: int| 0 <= i < c.len() implies ascii_lower(#[trigger] c[i]) == ascii_lower(
            d[i],
        ) by {
            assert(c[i] == a[i] && d[i] == b[i]);
        }
        words_ignore_case(c, d);
        assert(ascii_lower(a[n - 1]) == ascii_lower(b[n - 1]));
        case_keeps_class(a[n - 1], b[n - 1]);
        if n > 1 {
            assert(ascii_lower(a[n - 2]) == ascii_lower(b[n - 2]));
            case_keeps_class(a[n - 2], b[n - 2]);
            assert(c.last() == a[n - 2]);
        }
        let x = words(c);
        let y = words(d);
        let p = words(a);
        let q = words(b);
        assert forall|k: int| 0 <= k < p.len() implies same_ignoring_case(
            #[trigger] p[k],
            #[trigger] q[k],
        ) && is_ascii(p[k]) by {
            let m = x.len() as int;
            if !is_white(a[n - 1]) && n > 1 && !is_white(a[n - 2]) {
                if k == m - 1 {
                    assert(same_ignoring_case(x[m - 1], y[m - 1]) && is_ascii(x[m - 1]));
                    assert(p[k] == x[m - 1].push(a[n - 1]) && q[k] == y[m - 1].push(b[n - 1]));
                } else {
                    assert(p[k] == x[k] && q[k] == y[k]);
                }
            } else if k < m {
                assert(p[k] == x[k] && q[k] == y[k]);
            } else {
                assert(p[k] == seq![a[n - 1]] && q[k] == seq![b[n - 1]]);
            }
        }
    }
}

proof fn joined_ignores_case(s: Seq<Seq<char>>, t: Seq<Seq<char>>, separator: Seq<char>)
    requires
        s.len() == t.len(),
        is_ascii(separator),
        forall|k: int|
            0 <= k < s.len() ==> same_ignoring_case(#[trigger] s[k], #[trigger] t[k]) && is_ascii(
                s[k],
            ),
    ensures
        same_ignoring_case(joined(s, separator), joined(t, separator)),
        is_ascii(joined(s, separator)),
    decreases s.len(),
{
    if s.len() > 1 {
        let x = s.drop_last();
        let y = t.drop_last();
        assert forall|k: int| 0 <= k < x.len() implies same_ignoring_case(
            #[trigger] x[k],
            #[trigger] y[k],
        ) && is_ascii(x[k]) by {
            assert(x[k] == s[k] && y[k] == t[k]);
        }
        joined_ignores_case(x, y, separator);
        let n = s.len() as int;
        assert(same_ignoring_case(s[n - 1], t[n - 1]));
        let a = joined(x, separator);
        let b = joined(y, separator);
        let p = joined(s, separator);
        let q = joined(t, separator);
        assert forall|i: int|
            #![trigger p[i]]
            #![trigger q[i]]
            0 <= i < p.len() implies ascii_lower(p[i]) == ascii_lower(q[i]) && p[i] as u32 <= 127 by {
            let m = a.len() as int;
            let l = m + separator.len();
            if i < m {
                assert(p[i] == a[i] && q[i] == b[i]);
            } else if i < l {
                assert(p[i] == separator[i - m] && q[i] == separator[i - m]);
            } else {
                assert(p[i] == s[n - 1][i - l] && q[i] == t[n - 1][i - l]);
            }
        }
    } else if s.len() == 1 {
        assert(same_ignoring_case(s[0], t[0]));
    }
}

/// ASCII texts that differ in the case of letters alone have the same words
/// in lower case.
pub proof fn lowered_words_ignore_case(a: Seq<char>, b: Seq<char>)
    requires
        is_ascii(a),
        same_ignoring_case(a, b),
    ensures
        lowered(joined(words(a), " "@)) == lowered(joined(words(b), " "@)),
{
    reveal_strlit(" ");
    words_ignore_case(a, b);
    joined_ignores_case(words(a), words(b), " "@);
    let p = joined(words(a), " "@);
    let q = joined(words(b), " "@);
    assert(is_ascii(q)) by {
        assert forall|i: int| 0 <= i < q.len() implies (#[trigger] q[i]) as u32 <= 127 by {
            assert(ascii_lower(p[i]) == ascii_lower(q[i]));
            case_keeps_class(p[i], q[i]);
        }
    }
    assert(lowered(p) =~= lowered(q));
}

pub open spec fn is_digit(c: char) -> bool {
    '0' <= c <= '9'
}

/// Whether a text holds decimal digits alone.
pub open spec fn all_digits(s: Seq<char>) -> bool {
    forall|i: int| 0 <= i < s.len() ==> is_digit(#[trigger] s[i])
}

/// The number that a run of decimal digits names.
pub open spec fn digits_value(s: Seq<char>) -> nat
    decreases s.len(),
{
    if s.len() == 0 {
        0
    } else {
        digits_value(s.drop_last()) * 10 + (s.last() as nat - '0' as nat) as nat
    }
}

/// The value of a digit.
pub fn digit_of(c: char) -> (r: u32)
    requires
        is_digit(c),
    ensures
        r == c as nat - '0' as nat,
        r < 10,
{
    c as u32 - '0' as u32
}

/// Whether the characters from `from` to `to` are decimal digits.
pub fn only_digits(chars: &Vec<char>, from: usize, to: usize) -> (r: bool)
    requires
        from <= to <= chars.len(),
    ensures
        r == all_digits(chars@.subrange(from as int, to as int)),
{
    let ghost s = chars@.subrange(from as int, to as int);
    let mut i: usize = from;
    while i < to
        invariant
            from <= i <= to <= chars.len(),
            s == chars@.subrange(from as int, to as int),
            forall|k: int| 0 <= k < i - from ==> is_digit(#[trigger] s[k]),
        decreases to - i,
    {
        let c = chars[i];
        assert(s[i - from] == c);
        if !('0' <= c && c <= '9') {
            return false;
        }
        i = i + 1;
    }
    true
}

/// More digits never name a smaller number.
pub proof fn digits_value_grows(s: Seq<char>, n: int)
    requires
        0 <= n <= s.len(),
    ensures
        digits_value(s.take(n)) <= digits_value(s),
    decreases s.len() - n,
{
    if n < s.len() {
        digits_value_grows(s, n + 1);
        assert(s.take(n + 1).drop_last() =~= s.take(n));
    } else {
        assert(s.take(n) =~= s);
    }
}

/// The number that the digits from `from` to `to` name, where it is at most
/// `limit`.
pub fn read_digits_within(chars: &Vec<char>, from: usize, to: usize, limit: u128) -> (r: Option<
    u128,
>)
    requires
        from <= to <= chars.len(),
        all_digits(chars@.subrange(from as int, to as int)),
    ensures
        ({
            let value = digits_value(chars@.subrange(from as int, to as int));
            match r {
                Some(n) => n == value && value <= limit,
                None => value > limit,
            }
        }),
{
    let ghost s = chars@.subrange(from as int, to as int);
    let mut value: u128 = 0;
    let mut i: usize = from;
    assert(s.take(0) =~= Seq::<char>::empty());
    while i < to
        invariant
            from <= i <= to <= chars.len(),
            s == chars@.subrange(from as int, to as int),
            all_digits(s),
            value == digits_value(s.take(i - from)),
            value <= limit,
        decreases to - i,
    {
        proof {
            assert(s.take(i - from + 1).drop_last() =~= s.take(i - from));
            assert(s[i - from] == chars@[i as int]);
            digits_value_grows(s, i - from + 1);
        }
        let d: u128 = digit_of(chars[i]) as u128;
        if value > limit / 10 {
            return None;
        }
        let shifted: u128 = value * 10;
        if d > limit - shifted {
            return None;
        }
        value = shifted + d;
        i = i + 1;
    }
    assert(s.take(i - from) =~= s);
    Some(value)
}

/// The number that the digits from `from` to `to` name, where it fits.
pub fn read_digits(chars: &Vec<char>, from: usize, to: usize) -> (r: Option<i128>)
    requires
        from <= to <= chars.len(),
        all_digits(chars@.subrange(from as int, to as int)),
    ensures
        ({
            let value = digits_value(chars@.subrange(from as int, to as int));
            match r {
                Some(n) => n == value,
                None => value > i128::MAX,
            }
        }),
{
    match read_digits_within(chars, from, to, i128::MAX as u128) {
        Some(n) => Some(n as i128),
        None => None,
    }
}

/// A digit's text is that digit.
pub proof fn digit_text_reads_back(d: nat)
    requires
        d < 10,
    ensures
        digit_text(d).len() == 1,
        is_digit(digit_text(d)[0]),
        digit_text(d)[0] as nat - '0' as nat == d,
{
    reveal_strlit("0");
    reveal_strlit("1");
    reveal_strlit("2");
    reveal_strlit("3");
    reveal_strlit("4");
    reveal_strlit("5");
    reveal_strlit("6");
    reveal_strlit("7");
    reveal_strlit("8");
    reveal_strlit("9");
}

/// A digit behind digits.
pub proof fn digits_value_push(s: Seq<char>, d: nat)
    requires
        d < 10,
    ensures
        digits_value(s + digit_text(d)) == digits_value(s) * 10 + d,
        all_digits(s) ==> all_digits(s + digit_text(d)),
{
    digit_text_reads_back(d);
    let t = s + digit_text(d);
    assert(t.drop_last() =~= s);
    assert(t.last() == digit_text(d)[0]);
}

/// Reading the digits of a number gives the number.
pub proof fn decimal_reads_back(n: nat)
    ensures
        decimal(n).len() > 0,
        all_digits(decimal(n)),
        digits_value(decimal(n)) == n,
    decreases n,
{
    if n < 10 {
        digits_value_push(Seq::empty(), n);
        digit_text_reads_back(n);
        assert(Seq::<char>::empty() + digit_text(n) =~= digit_text(n));
    } else {
        decimal_reads_back(n / 10);
        digits_value_push(decimal(n / 10), n % 10);
    }
}

/// The text of a digit's value is the digit.
pub proof fn digit_is_written_back(c: char)
    requires
        is_digit(c),
    ensures
        digit_text((c as nat - '0' as nat) as nat) == seq![c],
{
    let d = (c as nat - '0' as nat) as nat;
    digit_text_reads_back(d);
    assert(digit_text(d)[0] == c);
    assert(digit_text(d) =~= seq![c]);
}

/// Digits without extra zeros in front are what their number is written as.
pub proof fn digits_are_written_back(s: Seq<char>)
    requires
        all_digits(s),
        s.len() > 0,
        s.len() == 1 || s[0] != '0',
    ensures
        decimal(digits_value(s)) == s,
        s[0] != '0' ==> digits_value(s) > 0,
    decreases s.len(),
{
    let front = s.drop_last();
    let c = s.last();
    let d = (c as nat - '0' as nat) as nat;
    assert(is_digit(s[s.len() - 1]));
    digit_is_written_back(c);
    if s.len() == 1 {
        assert(digits_value(front) == 0);
        assert(s =~= seq![c]);
    } else {
        assert forall|i: int| 0 <= i < front.len() implies is_digit(#[trigger] front[i]) by {
            assert(is_digit(s[i]));
        }
        assert(front[0] == s[0]);
        digits_are_written_back(front);
        let n = digits_value(s);
        assert(n / 10 == digits_value(front) && n % 10 == d);
        assert(s =~= front + seq![c]);
    }
}

/// Runs of digits of one length that name the same number are the same.
pub proof fn digits_are_unique(s: Seq<char>, t: Seq<char>)
    requires
        all_digits(s),
        all_digits(t),
        s.len() == t.len(),
        digits_value(s) == digits_value(t),
    ensures
        s == t,
    decreases s.len(),
{
    if s.len() > 0 {
        let a = s.drop_last();
        let b = t.drop_last();
        let n = s.len() as int;
        assert(is_digit(s[n - 1]) && is_digit(t[n - 1]));
        assert forall|i: int| 0 <= i < a.len() implies is_digit(#[trigger] a[i]) by {
            assert(is_digit(s[i]));
        }
        assert forall|i: int| 0 <= i < b.len() implies is_digit(#[trigger] b[i]) by {
            assert(is_digit(t[i]));
        }
        digits_are_unique(a, b);
        assert(s =~= a.push(s[n - 1]));
        assert(t =~= b.push(t[n - 1]));
    } else {
        assert(s =~= t);
    }
}

/// A text that neither starts nor ends in white space is not trimmed.
pub proof fn trimmed_keeps(s: Seq<char>)
    requires
        s.len() > 0,
        !is_white(s[0]),
        !is_white(s.last()),
    ensures
        trimmed(s) == s,
{
}

proof fn trim_front_is_tight(s: Seq<char>)
    ensures
        trim_front(s).len() > 0 ==> !is_white(trim_front(s)[0]),
    decreases s.len(),
{
    if s.len() > 0 && is_white(s[0]) {
        trim_front_is_tight(s.drop_first());
    }
}

proof fn trim_back_is_tight(s: Seq<char>)
    ensures
        trim_back(s).len() > 0 ==> s.len() > 0 && !is_white(trim_back(s).last())
            && trim_back(s)[0] == s[0],
    decreases s.len(),
{
    if s.len() > 0 && is_white(s.last()) {
        trim_back_is_tight(s.drop_last());
    }
}

/// Trimming a second time changes nothing.
pub proof fn trimmed_settles(s: Seq<char>)
    ensures
        trimmed(trimmed(s)) == trimmed(s),
{
    trim_front_is_tight(s);
    trim_back_is_tight(trim_front(s));
    if trimmed(s).len() > 0 {
        trimmed_keeps(trimmed(s));
    }
}

/// The quoted, escaped form of a text that `{:?}` writes.
pub uninterp spec fn debug_text(s: Seq<char>) -> Seq<char>;

/// `format!` with `{:?}` on a string: the text between double quotes, with
/// the escapes that std's `Debug` for `str` writes. The escaped form is a
/// function of the characters alone.
#[verifier::external_body]
pub(crate) fn debug_of(s: &str) -> (r: String)
    ensures
        r@ == debug_text(s@),
{
    format!("{:?}", s)
}

// ---- what the parts of a text are ----

/// The code points of white space.
pub open spec fn white_codes() -> Seq<u32> {
    seq![
        0x09u32, 0x0a, 0x0b, 0x0c, 0x0d, 0x20, 0x85, 0xa0, 0x1680, 0x2000, 0x2001, 0x2002, 0x2003,
        0x2004, 0x2005, 0x2006, 0x2007, 0x2008, 0x2009, 0x200a, 0x2028, 0x2029, 0x202f, 0x205f,
        0x3000,
    ]
}

/// White space is what is on the list of its code points.
pub proof fn white_space_is_listed(c: char)
    ensures
        is_white(c) <==> white_codes().contains(c as u32),
{
    let s = white_codes();
    let u = c as u32;
    if is_white(c) {
        if 0x09 <= u <= 0x0d {
            assert(s[u - 0x09] == u);
        } else if 0x2000 <= u <= 0x200a {
            assert(s[u - 0x2000 + 9] == u);
        } else {
            assert(s[5] == 0x20 && s[6] == 0x85 && s[7] == 0xa0 && s[8] == 0x1680);
            assert(s[20] == 0x2028 && s[21] == 0x2029 && s[22] == 0x202f && s[23] == 0x205f);
            assert(s[24] == 0x3000);
        }
    }
}

/// Whether a text holds white space alone.
pub open spec fn all_white(s: Seq<char>) -> bool {
    forall|i: int| 0 <= i < s.len() ==> is_white(#[trigger] s[i])
}

proof fn trim_front_cuts(s: Seq<char>) -> (cut: Seq<char>)
    ensures
        all_white(cut),
        s == cut + trim_front(s),
    decreases s.len(),
{
    if s.len() > 0 && is_white(s[0]) {
        let rest = trim_front_cuts(s.drop_first());
        let cut = seq![s[0]] + rest;
        assert(s =~= seq![s[0]] + s.drop_first());
        assert(seq![s[0]] + (rest + trim_front(s)) =~= cut + trim_front(s));
        assert(s =~= cut + trim_front(s));
        cut
    } else {
        assert(s =~= Seq::<char>::empty() + s);
        Seq::empty()
    }
}

proof fn trim_back_cuts(s: Seq<char>) -> (cut: Seq<char>)
    ensures
        all_white(cut),
        s == trim_back(s) + cut,
    decreases s.len(),
{
    if s.len() > 0 && is_white(s.last()) {
        let rest = trim_back_cuts(s.drop_last());
        let cut = rest.push(s.last());
        assert(s =~= s.drop_last().push(s.last()));
        assert((trim_back(s) + rest).push(s.last()) =~= trim_back(s) + cut);
        assert(s =~= trim_back(s) + cut);
        cut
    } else {
        assert(s =~= s + Seq::<char>::empty());
        Seq::empty()
    }
}

/// Trimming takes white space from both ends, and all of it: what is left
/// neither begins nor ends with any.
pub proof fn trimming_takes_white_space(s: Seq<char>)
    ensures
        exists|front: Seq<char>, back: Seq<char>|
            #![trigger all_white(front), all_white(back)]
            all_white(front) && all_white(back) && s == front + trimmed(s) + back,
        trimmed(s).len() > 0 ==> !is_white(trimmed(s)[0]) && !is_white(trimmed(s).last()),
{
    let front = trim_front_cuts(s);
    let back = trim_back_cuts(trim_front(s));
    trim_front_is_tight(s);
    trim_back_is_tight(trim_front(s));
    assert(s =~= front + trimmed(s) + back);
    assert(all_white(front) && all_white(back));
}

/// A text is blank exactly when it holds white space alone.
pub proof fn blank_texts_are_white(s: Seq<char>)
    ensures
        is_blank(s) <==> all_white(s),
{
    trimming_takes_white_space(s);
    let (front, back) = choose|front: Seq<char>, back: Seq<char>|
        #![trigger all_white(front), all_white(back)]
        all_white(front) && all_white(back) && s == front + trimmed(s) + back;
    if trimmed(s).len() > 0 {
        assert(s[front.len() as int] == trimmed(s)[0]);
    } else {
        assert forall|i: int| 0 <= i < s.len() implies is_white(#[trigger] s[i]) by {
            if i < front.len() {
                assert(s[i] == front[i]);
            } else {
                assert(s[i] == back[i - front.len()]);
            }
        }
    }
}

/// A text comes before another exactly where it ends before they differ, or
/// has the smaller character where they first do.
pub proof fn texts_are_ordered_by_their_first_difference(a: Seq<char>, b: Seq<char>, k: int)
    requires
        0 <= k <= a.len(),
        k <= b.len(),
        forall|i: int| 0 <= i < k ==> #[trigger] a[i] == b[i],
        k < a.len() && k < b.len() ==> a[k] != b[k],
    ensures
        text_lt(a, b) <==> k < b.len() && (k == a.len() || a[k] < b[k]),
    decreases k,
{
    if k > 0 {
        let x = a.drop_first();
        let y = b.drop_first();
        assert(a[0] == b[0]);
        assert forall|i: int| 0 <= i < k - 1 implies #[trigger] x[i] == y[i] by {
            assert(a[i + 1] == b[i + 1]);
        }
        texts_are_ordered_by_their_first_difference(x, y, k - 1);
    }
}

/// Two characters are the same letter but for case where one is the other
/// moved by the distance of the two alphabets.
pub open spec fn is_same_letter(a: char, b: char) -> bool {
    ||| a == b
    ||| 'A' <= a <= 'Z' && b as u32 == a as u32 + 32
    ||| 'A' <= b <= 'Z' && a as u32 == b as u32 + 32
}

/// Texts are the same but for case exactly when they are equally long and
/// each character is the same letter.
pub proof fn case_is_all_that_is_ignored(a: Seq<char>, b: Seq<char>)
    ensures
        same_ignoring_case(a, b) <==> a.len() == b.len() && forall|i: int|
            0 <= i < a.len() ==> is_same_letter(#[trigger] a[i], b[i]),
{
    assert forall|c: char, d: char| #[trigger] ascii_lower(c) == #[trigger] ascii_lower(d)
        <==> is_same_letter(c, d) by {
        assert('A' <= c <= 'Z' ==> ascii_lower(c) as u32 == c as u32 + 32);
        assert('A' <= d <= 'Z' ==> ascii_lower(d) as u32 == d as u32 + 32);
    }
    if same_ignoring_case(a, b) {
        assert forall|i: int| 0 <= i < a.len() implies is_same_letter(#[trigger] a[i], b[i]) by {
            assert(ascii_lower(a[i]) == ascii_lower(b[i]));
        }
    }
}

} // verus!
