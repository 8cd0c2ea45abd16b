//! Decimal integers as the camera tools write and read them: the text that
//! `to_string` gives an integer, and what `str::parse::<i64>` accepts.
use vstd::prelude::*;
use crate::text::push_char;

verus! {

/// The character of the decimal digit `d`.
pub open spec fn digit_char(d: int) -> char {
    ((d + 48) as u32) as char
}

/// Whether `c` is one of `0` to `9`.
pub open spec fn is_digit(c: char) -> bool {
    48 <= c as u32 <= 57
}

/// The value of the decimal digit `c`.
pub open spec fn digit_value(c: char) -> int {
    c as u32 - 48
}

/// Whether every character of `s` is a decimal digit.
pub open spec fn all_digits(s: Seq<char>) -> bool {
    forall|i: int| 0 <= i < s.len() ==> #[trigger] is_digit(s[i])
}

/// The value of a string of decimal digits, most significant first.
pub open spec fn digits_value(s: Seq<char>) -> int
    decreases s.len(),
{
    if s.len() == 0 {
        0
    } else {
        digits_value(s.drop_last()) * 10 + digit_value(s.last())
    }
}

/// The decimal digits of `n`, without leading zeros.
pub open spec fn nat_digits(n: nat) -> Seq<char>
    decreases n,
{
    if n < 10 {
        seq![digit_char(n as int)]
    } else {
        nat_digits(n / 10).push(digit_char((n % 10) as int))
    }
}

/// The text that `to_string` gives the integer `n`.
pub open spec fn decimal(n: int) -> Seq<char> {
    if n < 0 {
        seq!['-'] + nat_digits((-n) as nat)
    } else {
        nat_digits(n as nat)
    }
}

/// What `str::parse` reads from `s` as an integer of unbounded range: an
/// optional `+` or `-`, then one or more decimal digits and nothing else.
pub open spec fn parse_int(s: Seq<char>) -> Option<int> {
    if s.len() == 0 {
        None
    } else {
        let neg = s[0] == '-';
        let ds = if s[0] == '-' || s[0] == '+' {
            s.drop_first()
        } else {
            s
        };
        if ds.len() == 0 || !all_digits(ds) {
            None
        } else if neg {
            Some(-digits_value(ds))
        } else {
            Some(digits_value(ds))
        }
    }
}

/// What `str::parse::<i64>` gives for `s`: `None` where it returns an error.
pub open spec fn parse_i64(s: Seq<char>) -> Option<i64> {
    match parse_int(s) {
        Some(v) => if i64::MIN <= v <= i64::MAX {
            Some(v as i64)
        } else {
            None
        },
        None => None,
    }
}

// ---------------------------------------------------------------------------
// Lemmas
// ---------------------------------------------------------------------------

proof fn lemma_digit_char_value(k: int)
    requires
        0 <= k < 10,
    ensures
        digit_value(digit_char(k)) == k,
        is_digit(digit_char(k)),
{
}

/// The digits of `n` are digits, there is at least one, and they are worth `n`.
pub proof fn lemma_nat_digits_sound(n: nat)
    ensures
        all_digits(nat_digits(n)),
        digits_value(nat_digits(n)) == n,
        nat_digits(n).len() >= 1,
        n > 0 ==> nat_digits(n)[0] != '0',
    decreases n,
{
    lemma_digit_char_value((n % 10) as int);
    if n < 10 {
        let s = nat_digits(n);
        assert(s == seq![digit_char(n as int)]);
        assert(s.drop_last() =~= Seq::<char>::empty());
        assert(digits_value(Seq::<char>::empty()) == 0);
        assert(n % 10 == n);
        assert(digits_value(s) == digits_value(s.drop_last()) * 10 + digit_value(s.last()));
    }
    if n >= 10 {
        lemma_nat_digits_sound(n / 10);
        let d = nat_digits(n / 10);
        let s = d.push(digit_char((n % 10) as int));
        assert(s.drop_last() =~= d);
        assert(nat_digits(n) == s);
        assert(digits_value(s) == digits_value(d) * 10 + digit_value(s.last()));
        assert(n == (n / 10) * 10 + n % 10);
        assert forall|i: int| 0 <= i < s.len() implies #[trigger] is_digit(s[i]) by {
            if i < d.len() {
                assert(is_digit(d[i]));
            }
        }
    }
}

/// A string of digits with `k` more digits after it is worth at least as much.
proof fn lemma_digits_value_prefix(s: Seq<char>, k: int)
    requires
        0 <= k <= s.len(),
        all_digits(s),
    ensures
        digits_value(s) >= digits_value(s.take(k)) >= 0,
    decreases s.len(),
{
    if s.len() > 0 {
        assert(all_digits(s.drop_last())) by {
            assert forall|i: int| 0 <= i < s.drop_last().len() implies #[trigger] is_digit(
                s.drop_last()[i],
            ) by {
                assert(is_digit(s[i]));
            }
        }
        assert(is_digit(s[s.len() - 1]));
        if k == s.len() {
            assert(s.take(k) =~= s);
            lemma_digits_value_prefix(s.drop_last(), k - 1);
        } else {
            lemma_digits_value_prefix(s.drop_last(), k);
            assert(s.drop_last().take(k) =~= s.take(k));
        }
    }
}

/// Reading back the text of an integer gives the integer.
pub proof fn lemma_parse_decimal(n: int)
    ensures
        parse_int(decimal(n)) == Some(n),
{
    lemma_nat_digits_sound(if n < 0 { (-n) as nat } else { n as nat });
    if n < 0 {
        let ds = nat_digits((-n) as nat);
        let s = seq!['-'] + ds;
        assert(s.drop_first() =~= ds);
    } else {
        let ds = nat_digits(n as nat);
        assert(is_digit(ds[0]));
    }
}

/// Law: `str::parse::<i64>` reads back every integer that `to_string` writes.
pub proof fn lemma_parse_i64_decimal(n: i64)
    ensures
        parse_i64(decimal(n as int)) == Some(n),
{
    lemma_parse_decimal(n as int);
}

/// Law: different integers are written differently.
pub proof fn lemma_decimal_injective(a: int, b: int)
    requires
        a != b,
    ensures
        decimal(a) != decimal(b),
{
    lemma_parse_decimal(a);
    lemma_parse_decimal(b);
}

// ---------------------------------------------------------------------------
// Executable operations
// ---------------------------------------------------------------------------

fn digit(d: u64) -> (c: char)
    requires
        d < 10,
    ensures
        c == digit_char(d as int),
{
    ((d as u8) + 48) as char
}

fn push_nat_digits(s: &mut String, n: u64)
    ensures
        final(s)@ == old(s)@ + nat_digits(n as nat),
    decreases n,
{
    if n >= 10 {
        push_nat_digits(s, n / 10);
    }
    push_char(s, digit(n % 10));
    proof {
        if n < 10 {
            assert(nat_digits(n as nat) =~= seq![digit_char(n as int)]);
        }
    }
}

/// Appends the decimal text of `n` to `s`.
pub fn push_decimal(s: &mut String, n: i64)
    ensures
        final(s)@ == old(s)@ + decimal(n as int),
{
    if n < 0 {
        push_char(s, '-');
        let mag: u64 = ((-(n + 1)) as u64) + 1;
        push_nat_digits(s, mag);
    } else {
        push_nat_digits(s, n as u64);
    }
}

/// `n.to_string()`.
pub fn format_i64(n: i64) -> (s: String)
    ensures
        s@ == decimal(n as int),
{
    let mut s = String::new();
    push_decimal(&mut s, n);
    s
}

fn digit_of(c: char) -> (r: Option<u64>)
    ensures
        r is Some <==> is_digit(c),
        r matches Some(d) ==> d == digit_value(c) && d < 10,
{
    let u = c as u32;
    if 48 <= u && u <= 57 {
        Some((u - 48) as u64)
    } else {
        None
    }
}

/// `str::parse::<i64>` on a character vector; `None` where it returns an error.
pub fn parse_i64_chars(v: &[char]) -> (r: Option<i64>)
    ensures
        r == parse_i64(v@),
{
    if v.len() == 0 {
        return None;
    }
    let neg = v[0] == '-';
    let start: usize = if v[0] == '-' || v[0] == '+' {
        1
    } else {
        0
    };
    let ghost ds = if v@[0] == '-' || v@[0] == '+' {
        v@.drop_first()
    } else {
        v@
    };
    proof {
        assert(ds =~= v@.skip(start as int));
    }
    if start >= v.len() {
        return None;
    }
    // The magnitude read so far; reading stops once it exceeds every i64.
    let bound: u64 = 0x8000_0000_0000_0000;
    let mut acc: u64 = 0;
    let mut i: usize = start;
    proof {
        assert(ds.take(0) =~= Seq::<char>::empty());
    }
    while i < v.len()
        invariant
            start <= i <= v@.len(),
            ds == v@.skip(start as int),
            v@.len() > 0,
            ds == (if v@[0] == '-' || v@[0] == '+' { v@.drop_first() } else { v@ }),
            neg == (v@[0] == '-'),
            acc <= bound,
            bound == 0x8000_0000_0000_0000u64,
            acc == digits_value(ds.take(i - start)),
            all_digits(ds.take(i - start)),
        decreases v.len() - i,
    {
        let d = match digit_of(v[i]) {
            Some(d) => d,
            None => {
                proof {
                    assert(ds[i - start] == v@[i as int]);
                    assert(!is_digit(ds[i - start]));
                    assert(!all_digits(ds));
                }
                return None;
            },
        };
        proof {
            assert(ds.take(i - start + 1).drop_last() =~= ds.take(i - start));
            assert(ds.take(i - start + 1).last() == v@[i as int]);
            assert(all_digits(ds.take(i - start + 1))) by {
                assert forall|k: int| 0 <= k < ds.take(i - start + 1).len() implies #[trigger] is_digit(
                    ds.take(i - start + 1)[k],
                ) by {
                    if k < i - start {
                        assert(is_digit(ds.take(i - start)[k]));
                    }
                }
            }
        }
        if acc > (bound - d) / 10 {
            // The value is past every i64, and more digits only make it larger.
            proof {
                let nv = digits_value(ds.take(i - start + 1));
                assert(nv == acc * 10 + d);
                assert(nv > 0x8000_0000_0000_0000u64) by (nonlinear_arith)
                    requires
                        nv == acc * 10 + d,
                        acc > (0x8000_0000_0000_0000u64 - d) / 10,
                        d < 10,
                ;
                if all_digits(ds) {
                    lemma_digits_value_prefix(ds, i - start + 1);
                }
            }
            return None;
        }
        acc = acc * 10 + d;
        i = i + 1;
    }
    proof {
        assert(ds.take(i - start) =~= ds);
        assert(ds.len() > 0);
        assert(parse_int(v@) == if neg { Some(-(acc as int)) } else { Some(acc as int) });
    }
    if neg {
        Some((0 - (acc as i128)) as i64)
    } else if acc <= 0x7fff_ffff_ffff_ffff {
        Some(acc as i64)
    } else {
        None
    }
}

} // verus!
