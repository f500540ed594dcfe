//! Decimal text: the spec-level meaning of digit strings, a verified parser
//! and a verified renderer for the integer values the scanner works with.
use vstd::prelude::*;

verus! {

/// The decimal digits of `n`, most significant first.
pub open spec fn dec_digits(n: nat) -> Seq<char>
    decreases n,
{
    if n < 10 {
        seq![((48 + n) as char)]
    } else {
        dec_digits(n / 10).push(((48 + n % 10) as char))
    }
}

/// The decimal rendering of a possibly negative integer.
pub open spec fn dec_int(i: int) -> Seq<char> {
    if i < 0 {
        seq!['-'] + dec_digits((-i) as nat)
    } else {
        dec_digits(i as nat)
    }
}

pub open spec fn is_dec_digit(c: char) -> bool {
    48 <= c as int <= 57
}

pub open spec fn all_dec_digits(s: Seq<char>) -> bool {
    forall|i: int| 0 <= i < s.len() ==> is_dec_digit(#[trigger] s[i])
}

/// The numeric value of a digit string, most significant digit first.
pub open spec fn digits_val(s: Seq<char>) -> int
    decreases s.len(),
{
    if s.len() == 0 {
        0
    } else {
        digits_val(s.drop_last()) * 10 + (s.last() as int - 48)
    }
}

/// What a whole token denotes: an optional minus sign followed by at least
/// one decimal digit, or nothing.
pub open spec fn parse_dec(s: Seq<char>) -> Option<int> {
    if s.len() >= 2 && s[0] as int == 45 && all_dec_digits(s.skip(1)) {
        Some(-digits_val(s.skip(1)))
    } else if s.len() >= 1 && all_dec_digits(s) {
        Some(digits_val(s))
    } else {
        None
    }
}

pub proof fn lemma_digits_val_nonneg(s: Seq<char>)
    requires
        all_dec_digits(s),
    ensures
        digits_val(s) >= 0,
    decreases s.len(),
{
    if s.len() > 0 {
        assert(all_dec_digits(s.drop_last())) by {
            assert(forall|i: int|
                0 <= i < s.drop_last().len() ==> s.drop_last()[i] == s[i] && is_dec_digit(
                    #[trigger] s[i],
                ));
        }
        lemma_digits_val_nonneg(s.drop_last());
    }
}

/// Reading more digits can only increase the value.
pub proof fn lemma_digits_val_prefix(s: Seq<char>, j: int)
    requires
        all_dec_digits(s),
        0 <= j <= s.len(),
    ensures
        digits_val(s.take(j)) <= digits_val(s),
    decreases s.len() - j,
{
    if j < s.len() {
        lemma_digits_val_prefix(s, j + 1);
        let t = s.take(j + 1);
        assert(t.drop_last() =~= s.take(j));
        assert(t.last() == s[j]);
        assert(all_dec_digits(s.take(j))) by {
            assert(forall|i: int|
                0 <= i < j ==> s.take(j)[i] == s[i] && is_dec_digit(#[trigger] s[i]));
        }
        lemma_digits_val_nonneg(s.take(j));
        assert(digits_val(t) == digits_val(s.take(j)) * 10 + (s[j] as int - 48));
        assert(digits_val(s.take(j)) <= digits_val(s.take(j)) * 10) by (nonlinear_arith)
            requires
                digits_val(s.take(j)) >= 0,
        ;
    } else {
        assert(s.take(j) =~= s);
    }
}

/// Parse the digit run of `s` that starts at character `from`; `None` when a
/// non-digit occurs, when the run is empty, or when the value does not fit
/// in a `u64`.
pub fn parse_digits(s: &str, from: usize) -> (r: Option<u64>)
    requires
        from <= s@.len(),
    ensures
        match r {
            Some(v) => s@.len() > from && all_dec_digits(s@.skip(from as int)) && v as int
                == digits_val(s@.skip(from as int)),
            None => s@.len() == from || !all_dec_digits(s@.skip(from as int)) || digits_val(
                s@.skip(from as int),
            ) > u64::MAX,
        },
{
    let ghost tail = s@.skip(from as int);
    let n = s.unicode_len();
    if n == from {
        return None;
    }
    let mut acc: u64 = 0;
    let mut i: usize = from;
    while i < n
        invariant
            from <= i <= n,
            n == s@.len(),
            tail == s@.skip(from as int),
            all_dec_digits(s@.subrange(from as int, i as int)),
            acc as int == digits_val(s@.subrange(from as int, i as int)),
        decreases n - i,
    {
        let c = s.get_char(i);
        let code = c as u32;
        let ghost prefix = s@.subrange(from as int, i as int);
        let ghost prefix1 = s@.subrange(from as int, i + 1 as int);
        proof {
            assert(prefix1.drop_last() =~= prefix);
            assert(prefix1.last() == s@[i as int]);
            assert(tail[i - from] == s@[i as int]);
        }
        if code < 48 || code > 57 {
            proof {
                assert(!is_dec_digit(tail[i - from]));
            }
            return None;
        }
        let d = (code - 48) as u64;
        if acc > (u64::MAX - d) / 10 {
            proof {
                assert(all_dec_digits(prefix1));
                assert(digits_val(prefix1) == acc * 10 + d);
                assert(acc * 10 + d > u64::MAX) by (nonlinear_arith)
                    requires
                        acc > (u64::MAX - d) / 10,
                        0 <= d < 10,
                        acc <= u64::MAX,
                ;
                if all_dec_digits(tail) {
                    assert(all_dec_digits(s@.skip(from as int)));
                    assert(prefix1 =~= s@.skip(from as int).take(i + 1 - from));
                    lemma_digits_val_prefix(s@.skip(from as int), i + 1 - from);
                }
            }
            return None;
        }
        proof {
            assert(acc * 10 + d <= u64::MAX) by (nonlinear_arith)
                requires
                    acc <= (u64::MAX - d) / 10,
                    0 <= d < 10,
                    acc >= 0,
            ;
        }
        acc = acc * 10 + d;
        i = i + 1;
        proof {
            assert(all_dec_digits(prefix1));
            assert(s@.subrange(from as int, i as int) =~= prefix1);
        }
    }
    proof {
        assert(s@.subrange(from as int, n as int) =~= tail);
    }
    Some(acc)
}

/// Parse an optionally signed decimal token into a sign and a magnitude.
pub fn parse_int(s: &str) -> (r: Option<(bool, u64)>)
    ensures
        match r {
            Some(p) => parse_dec(s@) == Some(
                if p.0 {
                    -(p.1 as int)
                } else {
                    p.1 as int
                },
            ),
            None => parse_dec(s@) is None || parse_dec(s@)->Some_0 > u64::MAX || parse_dec(
                s@,
            )->Some_0 < -(u64::MAX as int),
        },
{
    let n = s.unicode_len();
    if n == 0 {
        return None;
    }
    let c0 = s.get_char(0);
    if c0 as u32 == 45 {
        match parse_digits(s, 1) {
            Some(m) => Some((true, m)),
            None => None,
        }
    } else {
        proof {
            assert(!(s@[0] as int == 45));
        }
        match parse_digits(s, 0) {
            Some(m) => {
                proof {
                    assert(s@.skip(0) =~= s@);
                }
                Some((false, m))
            },
            None => {
                proof {
                    assert(s@.skip(0) =~= s@);
                }
                None
            },
        }
    }
}

/// Parse a decimal machine-word value (no sign).
pub fn parse_usize(s: &str) -> (r: Option<usize>)
    ensures
        match r {
            Some(u) => parse_dec(s@) == Some(u as int),
            None => match parse_dec(s@) {
                Some(n) => n < 0 || n > usize::MAX as int,
                None => true,
            },
        },
{
    match parse_int(s) {
        Some((neg, mag)) => {
            if neg && mag > 0 {
                None
            } else if mag <= usize::MAX as u64 {
                Some(mag as usize)
            } else {
                None
            }
        },
        None => None,
    }
}

/// Parse a decimal 32-bit unsigned value (no sign).
pub fn parse_u32(s: &str) -> (r: Option<u32>)
    ensures
        match r {
            Some(u) => parse_dec(s@) == Some(u as int),
            None => match parse_dec(s@) {
                Some(n) => n < 0 || n > u32::MAX as int,
                None => true,
            },
        },
{
    match parse_int(s) {
        Some((neg, mag)) => {
            if neg && mag > 0 {
                None
            } else if mag <= u32::MAX as u64 {
                Some(mag as u32)
            } else {
                None
            }
        },
        None => None,
    }
}

/// Parse a decimal 64-bit unsigned value (no sign).
pub fn parse_u64(s: &str) -> (r: Option<u64>)
    ensures
        match r {
            Some(u) => parse_dec(s@) == Some(u as int),
            None => match parse_dec(s@) {
                Some(n) => n < 0 || n > u64::MAX as int,
                None => true,
            },
        },
{
    match parse_int(s) {
        Some((neg, mag)) => {
            if neg && mag > 0 {
                None
            } else {
                Some(mag)
            }
        },
        None => None,
    }
}

/// Whether two string slices hold the same characters.
pub fn str_eq(a: &str, b: &str) -> (r: bool)
    ensures
        r == (a@ == b@),
{
    let n = a.unicode_len();
    let m = b.unicode_len();
    if n != m {
        return false;
    }
    let mut i: usize = 0;
    while i < n
        invariant
            0 <= i <= n,
            n == a@.len(),
            n == b@.len(),
            forall|j: int| 0 <= j < i ==> a@[j] == b@[j],
        decreases n - i,
    {
        if a.get_char(i) as u32 != b.get_char(i) as u32 {
            proof {
                assert(a@[i as int] as u32 != b@[i as int] as u32);
            }
            return false;
        }
        proof {
            assert(a@[i as int] as u32 == b@[i as int] as u32);
            assert(a@[i as int] == b@[i as int]);
        }
        i = i + 1;
    }
    proof {
        assert(a@ =~= b@);
    }
    true
}

/// Render `n` in decimal.
pub fn u64_to_string(n: u64) -> (r: String)
    ensures
        r@ == dec_digits(n as nat),
    decreases n,
{
    let digits = "0123456789";
    proof {
        reveal_strlit("0123456789");
    }
    let d = (n % 10) as usize;
    let last = digits.substring_char(d, d + 1);
    if n < 10 {
        proof {
            assert(last@ =~= dec_digits(n as nat));
        }
        last.to_owned()
    } else {
        let mut prefix = u64_to_string(n / 10);
        prefix.append(last);
        proof {
            assert(prefix@ =~= dec_digits(n as nat));
        }
        prefix
    }
}

/// Render a machine word in decimal.
pub fn usize_to_string(n: usize) -> (r: String)
    ensures
        r@ == dec_digits(n as nat),
{
    u64_to_string(n as u64)
}

/// Render `i` in decimal, with a leading minus sign when negative.
pub fn i64_to_string(i: i64) -> (r: String)
    ensures
        r@ == dec_int(i as int),
{
    if i >= 0 {
        u64_to_string(i as u64)
    } else {
        let mag = (-(i as i128)) as u64;
        let mut r = "-".to_owned();
        let tail = u64_to_string(mag);
        r.append(tail.as_str());
        proof {
            reveal_strlit("-");
            assert(r@ =~= dec_int(i as int));
        }
        r
    }
}

} // verus!
