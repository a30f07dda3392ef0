//! Sorted-set scores: decimal numbers held exactly as whole millionths.
use vstd::prelude::*;
use crate::text::{chars_of, all_digits, digit_char, digit_value, digits_value, is_digit, nat_text};

verus! {

/// Millionths in one unit of score.
pub const SCORE_SCALE: i64 = 1000000;

/// The first six fraction digits, padded with zeros; later digits are
/// dropped.
pub open spec fn six_digits(d: Seq<char>) -> Seq<char>
    decreases 6 - d.len(),
{
    if d.len() >= 6 {
        d.subrange(0, 6)
    } else {
        six_digits(d.push('0'))
    }
}

/// Position of the first `.` in `s`, or its length when there is none.
pub open spec fn dot_at(s: Seq<char>) -> int
    decreases s.len(),
{
    if s.len() == 0 || s[0] == '.' {
        0
    } else {
        1 + dot_at(s.drop_first())
    }
}

proof fn lemma_dot_at(s: Seq<char>, i: int)
    requires
        0 <= i <= s.len(),
        forall|q: int| 0 <= q < i ==> s[q] != '.',
        i < s.len() ==> s[i] == '.',
    ensures
        dot_at(s) == i,
    decreases i,
{
    if i > 0 {
        lemma_dot_at(s.drop_first(), i - 1);
    }
}

/// Score text without its sign: digits, then optionally `.` and digits.
pub open spec fn unsigned_score(s: Seq<char>) -> Option<int> {
    let p = dot_at(s);
    if p == s.len() {
        if s.len() > 0 && all_digits(s) { Some(digits_value(s) * 1000000) } else { None }
    } else if 0 < p < s.len() - 1 && all_digits(s.subrange(0, p)) && all_digits(
        s.subrange(p + 1, s.len() as int),
    ) {
        Some(digits_value(s.subrange(0, p)) * 1000000 + digits_value(
            six_digits(s.subrange(p + 1, s.len() as int)),
        ))
    } else {
        None
    }
}

/// The score a text gives, in millionths: an optional sign, digits, and an
/// optional `.` with more digits; digits past the sixth decimal are dropped.
pub open spec fn score_value(s: Seq<char>) -> Option<i64> {
    let neg = s.len() > 0 && s[0] == '-';
    let body = if s.len() > 0 && (s[0] == '-' || s[0] == '+') { s.drop_first() } else { s };
    match unsigned_score(body) {
        Some(v) => {
            let w = if neg { -v } else { v };
            if i64::MIN <= w <= i64::MAX { Some(w as i64) } else { None }
        },
        None => None,
    }
}

/// `s` without its trailing zeros.
pub open spec fn trim_zeros(s: Seq<char>) -> Seq<char>
    decreases s.len(),
{
    if s.len() > 0 && s.last() == '0' {
        trim_zeros(s.drop_last())
    } else {
        s
    }
}

/// The last `k` decimal digits of `f`, zero-padded.
pub open spec fn fixed_digits(f: nat, k: nat) -> Seq<char>
    decreases k,
{
    if k == 0 {
        seq![]
    } else {
        fixed_digits(f / 10, (k - 1) as nat).push(digit_char((f % 10) as int))
    }
}

proof fn lemma_fixed_digits_len(f: nat, k: nat)
    ensures
        fixed_digits(f, k).len() == k,
    decreases k,
{
    if k > 0 {
        lemma_fixed_digits_len(f / 10, (k - 1) as nat);
    }
}

/// Text of a score in millionths: the whole part, then `.` and the
/// fraction without trailing zeros when there is a fraction.
pub open spec fn score_text(n: i64) -> Seq<char> {
    let m = if n < 0 { -(n as int) } else { n as int };
    let sign = if n < 0 { seq!['-'] } else { Seq::<char>::empty() };
    let whole = nat_text((m / 1000000) as nat);
    let f = m % 1000000;
    if f == 0 {
        sign + whole
    } else {
        sign + whole + seq!['.'] + trim_zeros(fixed_digits(f as nat, 6))
    }
}

/// Relies on `String::push`: appends the character.
#[verifier::external_body]
fn push_char(s: &mut String, c: char)
    ensures
        final(s)@ == old(s)@.push(c),
{
    s.push(c)
}

fn digit(d: u64) -> (r: char)
    requires
        d < 10,
    ensures
        r == digit_char(d as int),
{
    if d == 0 { '0' }
    else if d == 1 { '1' }
    else if d == 2 { '2' }
    else if d == 3 { '3' }
    else if d == 4 { '4' }
    else if d == 5 { '5' }
    else if d == 6 { '6' }
    else if d == 7 { '7' }
    else if d == 8 { '8' }
    else { '9' }
}

fn push_nat(s: &mut String, n: u64)
    ensures
        final(s)@ == old(s)@ + nat_text(n as nat),
    decreases n,
{
    if n >= 10 {
        push_nat(s, n / 10);
        push_char(s, digit(n % 10));
        assert(final(s)@ =~= old(s)@ + nat_text(n as nat));
    } else {
        push_char(s, digit(n));
        assert(final(s)@ =~= old(s)@ + nat_text(n as nat));
    }
}

fn push_fixed(v: &mut Vec<char>, f: u64, k: u64)
    ensures
        final(v)@ == old(v)@ + fixed_digits(f as nat, k as nat),
    decreases k,
{
    if k > 0 {
        push_fixed(v, f / 10, k - 1);
        v.push(digit(f % 10));
        assert(final(v)@ =~= old(v)@ + fixed_digits(f as nat, k as nat));
    } else {
        assert(final(v)@ =~= old(v)@ + fixed_digits(f as nat, k as nat));
    }
}

/// Writes a score in millionths as decimal text.
pub fn format_score(n: i64) -> (r: String)
    ensures
        r@ == score_text(n),
{
    let mut r = String::new();
    let m: u64 = if n < 0 { (-(n as i128)) as u64 } else { n as u64 };
    if n < 0 {
        push_char(&mut r, '-');
    }
    push_nat(&mut r, m / 1000000);
    let f = m % 1000000;
    if f != 0 {
        push_char(&mut r, '.');
        let mut ds: Vec<char> = Vec::new();
        push_fixed(&mut ds, f, 6);
        let ghost digits = fixed_digits(f as nat, 6);
        proof {
            lemma_fixed_digits_len(f as nat, 6);
            assert(ds@ =~= digits);
            assert(digits.subrange(0, 6) =~= digits);
        }
        let mut end: usize = 6;
        while end > 0 && ds[end - 1] == '0'
            invariant
                end <= 6,
                ds@ == digits,
                digits.len() == 6,
                trim_zeros(digits) == trim_zeros(digits.subrange(0, end as int)),
            decreases end,
        {
            assert(digits.subrange(0, end as int).last() == ds@[end - 1]);
            assert(digits.subrange(0, end - 1) =~= digits.subrange(0, end as int).drop_last());
            end = end - 1;
        }
        let ghost before = r@;
        let mut i: usize = 0;
        while i < end
            invariant
                i <= end <= 6,
                ds@ == digits,
                digits.len() == 6,
                r@ == before + digits.subrange(0, i as int),
            decreases end - i,
        {
            push_char(&mut r, ds[i]);
            assert(digits.subrange(0, i + 1) =~= digits.subrange(0, i as int).push(digits[i as int]));
            i = i + 1;
        }
        assert(end > 0 ==> digits.subrange(0, end as int).last() == ds@[end - 1]);
        assert(trim_zeros(digits.subrange(0, end as int)) == digits.subrange(0, end as int));
    }
    assert(r@ =~= score_text(n));
    r
}


proof fn lemma_digits_prefix(s: Seq<char>, i: int)
    requires
        all_digits(s),
        0 <= i <= s.len(),
    ensures
        0 <= digits_value(s.subrange(0, i)) <= digits_value(s),
    decreases s.len(),
{
    if s.len() > 0 {
        if i < s.len() {
            lemma_digits_prefix(s.drop_last(), i);
            assert(s.drop_last().subrange(0, i) =~= s.subrange(0, i));
        } else {
            assert(s.subrange(0, i) =~= s);
            lemma_digits_prefix(s.drop_last(), i - 1);
        }
        lemma_digits_prefix(s.drop_last(), s.len() - 1);
        assert(s.drop_last().subrange(0, s.len() - 1) =~= s.drop_last());
    } else {
        assert(s.subrange(0, i) =~= s);
    }
}

/// Value of the digits `cs[a..b]`, or `None` when a character there is not
/// a digit or the value reaches `cap`.
fn digits_below(cs: &Vec<char>, a: usize, b: usize, cap: u64) -> (r: Option<u64>)
    requires
        a <= b <= cs@.len(),
        0 < cap <= 100000000000000,
    ensures
        match r {
            Some(v) => all_digits(cs@.subrange(a as int, b as int)) && v == digits_value(
                cs@.subrange(a as int, b as int),
            ) && v < cap,
            None => !all_digits(cs@.subrange(a as int, b as int)) || digits_value(
                cs@.subrange(a as int, b as int),
            ) >= cap,
        },
{
    let mut v: u64 = 0;
    let mut i: usize = a;
    let ghost d = cs@.subrange(a as int, b as int);
    while i < b
        invariant
            a <= i <= b <= cs@.len(),
            d == cs@.subrange(a as int, b as int),
            all_digits(cs@.subrange(a as int, i as int)),
            v == digits_value(cs@.subrange(a as int, i as int)),
            v < cap,
            0 < cap <= 100000000000000,
        decreases b - i,
    {
        let c = cs[i];
        let ghost prefix = cs@.subrange(a as int, i + 1);
        assert(prefix.drop_last() =~= cs@.subrange(a as int, i as int));
        assert(prefix.last() == c);
        if !('0' <= c && c <= '9') {
            assert(d[i - a] == c);
            assert(!is_digit(d[i - a]));
            return None;
        }
        let dv = (c as u32 - '0' as u32) as u64;
        assert(dv == digit_value(c));
        v = v * 10 + dv;
        assert(all_digits(prefix));
        assert(v == digits_value(prefix));
        if v >= cap {
            proof {
                assert(prefix =~= d.subrange(0, i + 1 - a));
                if all_digits(d) {
                    lemma_digits_prefix(d, i + 1 - a);
                }
            }
            return None;
        }
        i = i + 1;
    }
    Some(v)
}

pub open spec fn pow10(k: nat) -> nat
    decreases k,
{
    if k == 0 { 1 } else { 10 * pow10((k - 1) as nat) }
}

proof fn lemma_digits_bound(d: Seq<char>)
    requires
        all_digits(d),
    ensures
        0 <= digits_value(d) < pow10(d.len()),
    decreases d.len(),
{
    if d.len() > 0 {
        lemma_digits_bound(d.drop_last());
    }
}

/// Whether `cs[a..b]` are all digits.
fn all_digit_chars(cs: &Vec<char>, a: usize, b: usize) -> (r: bool)
    requires
        a <= b <= cs@.len(),
    ensures
        r == all_digits(cs@.subrange(a as int, b as int)),
{
    let mut i: usize = a;
    while i < b
        invariant
            a <= i <= b <= cs@.len(),
            all_digits(cs@.subrange(a as int, i as int)),
        decreases b - i,
    {
        if !('0' <= cs[i] && cs[i] <= '9') {
            assert(cs@.subrange(a as int, b as int)[i - a] == cs@[i as int]);
            return false;
        }
        assert(cs@.subrange(a as int, i + 1) =~= cs@.subrange(a as int, i as int).push(cs@[i as int]));
        i = i + 1;
    }
    true
}

/// The value that the fraction digits `cs[a..b]` give in millionths.
fn fraction_value(cs: &Vec<char>, a: usize, b: usize) -> (r: u64)
    requires
        a <= b <= cs@.len(),
        all_digits(cs@.subrange(a as int, b as int)),
    ensures
        r == digits_value(six_digits(cs@.subrange(a as int, b as int))),
        r < 1000000,
{
    let e: usize = if b - a > 6 { a + 6 } else { b };
    let ghost f = cs@.subrange(a as int, b as int);
    let ghost t = cs@.subrange(a as int, e as int);
    assert(t =~= f.subrange(0, (e - a) as int));
    assert(all_digits(t));
    proof {
        lemma_digits_bound(t);
        reveal_with_fuel(pow10, 7);
        assert(pow10(0) == 1 && pow10(1) == 10 && pow10(2) == 100 && pow10(3) == 1000);
        assert(pow10(4) == 10000 && pow10(5) == 100000 && pow10(6) == 1000000);
        if f.len() >= 6 {
            assert(t.subrange(0, 6) =~= t);
        }
    }
    let mut v: u64 = match digits_below(cs, a, e, 10000000) {
        Some(v) => v,
        None => 0,
    };
    let mut k: usize = e - a;
    let ghost mut cur = t;
    while k < 6
        invariant
            k <= 6,
            cur.len() == k,
            all_digits(cur),
            six_digits(cur) == six_digits(f),
            v == digits_value(cur),
            v < pow10(k as nat),
            pow10(0) == 1 && pow10(1) == 10 && pow10(2) == 100 && pow10(3) == 1000,
            pow10(4) == 10000 && pow10(5) == 100000 && pow10(6) == 1000000,
        decreases 6 - k,
    {
        proof {
            assert(cur.push('0').drop_last() =~= cur);
            cur = cur.push('0');
        }
        v = v * 10;
        k = k + 1;
    }
    assert(cur.subrange(0, 6) =~= cur);
    v
}

/// Parses a score as the text gives it, in millionths.
pub fn parse_score(s: &str) -> (r: Option<i64>)
    ensures
        r == score_value(s@),
{
    let cs = chars_of(s);
    let n = cs.len();
    let neg = n > 0 && cs[0] == '-';
    let start: usize = if n > 0 && (cs[0] == '-' || cs[0] == '+') { 1 } else { 0 };
    let ghost body = cs@.subrange(start as int, n as int);
    assert(body =~= (if s@.len() > 0 && (s@[0] == '-' || s@[0] == '+') { s@.drop_first() } else { s@ }));
    let mut dot: usize = start;
    while dot < n && cs[dot] != '.'
        invariant
            start <= dot <= n == cs@.len(),
            forall|q: int| start <= q < dot ==> cs@[q] != '.',
        decreases n - dot,
    {
        dot = dot + 1;
    }
    let ghost p = (dot - start) as int;
    proof {
        lemma_dot_at(body, p);
    }
    let m: u64;
    if dot == n {
        if n == start {
            return None;
        }
        match digits_below(&cs, start, n, 10000000000000) {
            Some(w) => {
                m = w * 1000000;
            },
            None => {
                proof {
                    if all_digits(body) {
                        assert(digits_value(body) * 1000000 >= 10000000000000000000);
                    }
                }
                return None;
            },
        }
    } else {
        let ghost whole = body.subrange(0, p);
        let ghost frac = body.subrange(p + 1, body.len() as int);
        assert(whole =~= cs@.subrange(start as int, dot as int));
        assert(frac =~= cs@.subrange(dot + 1, n as int));
        if dot == start || dot + 1 == n || !all_digit_chars(&cs, start, dot) || !all_digit_chars(
            &cs,
            dot + 1,
            n,
        ) {
            return None;
        }
        let f = fraction_value(&cs, dot + 1, n);
        let w = match digits_below(&cs, start, dot, 10000000000000) {
            Some(w) => w,
            None => {
                assert(digits_value(whole) * 1000000 >= 10000000000000000000);
                return None;
            },
        };
        m = w * 1000000 + f;
    }
    assert(unsigned_score(body) == Some(m as int));
    if neg {
        if m > 9223372036854775808 {
            None
        } else {
            Some((-(m as i128)) as i64)
        }
    } else {
        if m > 9223372036854775807 {
            None
        } else {
            Some(m as i64)
        }
    }
}

} // verus!
