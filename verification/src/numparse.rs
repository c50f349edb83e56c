use vstd::prelude::*;
use vstd::string::StrSliceExecFns;

verus! {

// ---------------------------------------------------------------------------
// Decimal digit strings
// ---------------------------------------------------------------------------

pub open spec fn is_digit_char(c: char) -> bool {
    '0' <= c && c <= '9'
}

pub open spec fn digit_val(c: char) -> int {
    c as int - '0' as int
}

pub open spec fn all_digits(s: Seq<char>) -> bool {
    forall|i: int| 0 <= i < s.len() ==> is_digit_char(s[i])
}

/// The number a string of decimal digits denotes.
pub open spec fn digits_val(s: Seq<char>) -> int
    decreases s.len(),
{
    if s.len() == 0 {
        0
    } else {
        digits_val(s.drop_last()) * 10 + digit_val(s.last())
    }
}

pub proof fn lemma_digits_val_nonneg(s: Seq<char>)
    requires
        all_digits(s),
    ensures
        digits_val(s) >= 0,
    decreases s.len(),
{
    if s.len() > 0 {
        assert(all_digits(s.drop_last()));
        lemma_digits_val_nonneg(s.drop_last());
        assert(is_digit_char(s.last()));
    }
}

/// Extending a digit string on the right never shrinks its value.
pub proof fn lemma_digits_val_prefix(s: Seq<char>, i: int)
    requires
        all_digits(s),
        0 <= i <= s.len(),
    ensures
        digits_val(s.subrange(0, i)) <= digits_val(s),
    decreases s.len() - i,
{
    if i == s.len() {
        assert(s.subrange(0, i) =~= s);
    } else {
        let t = s.subrange(0, i + 1);
        assert(all_digits(t));
        assert(t.drop_last() =~= s.subrange(0, i));
        lemma_digits_val_nonneg(t.drop_last());
        assert(digits_val(t) == digits_val(t.drop_last()) * 10 + digit_val(t.last()));
        lemma_digits_val_prefix(s, i + 1);
    }
}

// ---------------------------------------------------------------------------
// Unsigned 8-bit parse (as `u8::from_str` accepts: optional '+', digits)
// ---------------------------------------------------------------------------

pub open spec fn spec_parse_u8(s: Seq<char>) -> Option<u8> {
    let d = if s.len() > 0 && s[0] == '+' {
        s.drop_first()
    } else {
        s
    };
    if d.len() > 0 && all_digits(d) && digits_val(d) <= 255 {
        Some(digits_val(d) as u8)
    } else {
        None
    }
}

fn parse_digits_bounded(s: &str, start: usize, bound: u64) -> (r: Option<u64>)
    requires
        start <= s@.len(),
        10 <= bound <= 0x8000_0000_0000_0000,
    ensures
        ({
            let d = s@.subrange(start as int, s@.len() as int);
            match r {
                Some(v) => d.len() > 0 && all_digits(d) && digits_val(d) == v as int && v <= bound,
                None => !(d.len() > 0 && all_digits(d) && digits_val(d) <= bound as int),
            }
        }),
{
    let ghost d = s@.subrange(start as int, s@.len() as int);
    let n = s.unicode_len();
    if start == n {
        return None;
    }
    let mut acc: u64 = 0;
    let mut i: usize = start;
    while i < n
        invariant
            start <= i <= n,
            n == s@.len(),
            start < n,
            10 <= bound <= 0x8000_0000_0000_0000,
            d == s@.subrange(start as int, s@.len() as int),
            all_digits(d.subrange(0, i - start)),
            acc as int == digits_val(d.subrange(0, i - start)),
            acc <= bound,
        decreases n - i,
    {
        let c = s.get_char(i);
        if !('0' <= c && c <= '9') {
            assert(!all_digits(d)) by {
                assert(d[i - start] == s@[i as int]);
            }
            return None;
        }
        let dv: u64 = (c as u32 as u64) - 48;
        assert(dv == digit_val(c) && dv <= 9);
        let ghost pre = d.subrange(0, i - start);
        let ghost pre1 = d.subrange(0, i + 1 - start);
        proof {
            assert(pre1.drop_last() =~= pre);
            assert(pre1.last() == s@[i as int]);
            assert(all_digits(pre1));
            assert(digits_val(pre1) == acc * 10 + dv);
        }
        proof {
            assert((bound / 10) * 10 <= bound && (bound / 10) * 10 + 10 > bound) by {
                assert(bound == 10 * (bound / 10) + bound % 10 && 0 <= bound % 10 < 10) by (nonlinear_arith);
            };
        }
        if acc > bound / 10 {
            proof {
                lemma_digits_val_nonneg(pre1);
                if all_digits(d) {
                    lemma_digits_val_prefix(d, i + 1 - start);
                }
            }
            return None;
        }
        assert(acc * 10 <= (bound / 10) * 10) by (nonlinear_arith)
            requires
                acc <= bound / 10,
        ;
        let acc2: u64 = acc * 10;
        if acc2 > bound - dv {
            proof {
                if all_digits(d) {
                    lemma_digits_val_prefix(d, i + 1 - start);
                }
            }
            return None;
        }
        acc = acc2 + dv;
        i += 1;
    }
    assert(d.subrange(0, n - start) =~= d);
    Some(acc)
}

pub fn parse_u8(s: &str) -> (r: Option<u8>)
    ensures
        r == spec_parse_u8(s@),
{
    let n = s.unicode_len();
    let start: usize = if n > 0 && s.get_char(0) == '+' {
        1
    } else {
        0
    };
    let ghost d = if s@.len() > 0 && s@[0] == '+' {
        s@.drop_first()
    } else {
        s@
    };
    proof {
        assert(d =~= s@.subrange(start as int, s@.len() as int));
    }
    match parse_digits_bounded(s, start, 255) {
        Some(v) => Some(v as u8),
        None => None,
    }
}

// ---------------------------------------------------------------------------
// Signed 64-bit parse (as `i64::from_str` accepts: optional sign, digits)
// ---------------------------------------------------------------------------

pub open spec fn spec_parse_i64(s: Seq<char>) -> Option<i64> {
    if s.len() > 0 && s[0] == '-' {
        let d = s.drop_first();
        if d.len() > 0 && all_digits(d) && digits_val(d) <= 0x8000_0000_0000_0000 {
            Some((-digits_val(d)) as i64)
        } else {
            None
        }
    } else {
        let d = if s.len() > 0 && s[0] == '+' {
            s.drop_first()
        } else {
            s
        };
        if d.len() > 0 && all_digits(d) && digits_val(d) <= 0x7fff_ffff_ffff_ffff {
            Some(digits_val(d) as i64)
        } else {
            None
        }
    }
}

pub fn parse_i64(s: &str) -> (r: Option<i64>)
    ensures
        r == spec_parse_i64(s@),
{
    let n = s.unicode_len();
    let neg = n > 0 && s.get_char(0) == '-';
    let start: usize = if n > 0 && {
        let c = s.get_char(0);
        c == '-' || c == '+'
    } {
        1
    } else {
        0
    };
    let bound: u64 = if neg {
        0x8000_0000_0000_0000
    } else {
        0x7fff_ffff_ffff_ffff
    };
    let ghost d = if neg || (s@.len() > 0 && s@[0] == '+') {
        s@.drop_first()
    } else {
        s@
    };
    proof {
        assert(d =~= s@.subrange(start as int, s@.len() as int));
    }
    match parse_digits_bounded(s, start, bound) {
        Some(v) => {
            if neg {
                if v == 0x8000_0000_0000_0000 {
                    Some(i64::MIN)
                } else {
                    Some(-(v as i64))
                }
            } else {
                Some(v as i64)
            }
        },
        None => None,
    }
}

// ---------------------------------------------------------------------------
// The shape of text that `f64::from_str` accepts (finite numbers only:
// optional sign, then digits with an optional point, then an optional
// exponent; the special spellings of infinities and of the non-number
// value carry no decimal point and never reach this test)
// ---------------------------------------------------------------------------

/// First index at or after `i` that does not hold a decimal digit.
pub open spec fn spec_digit_run_end(s: Seq<char>, i: int) -> int
    decreases s.len() - i,
{
    if i < s.len() && is_digit_char(s[i]) {
        spec_digit_run_end(s, i + 1)
    } else {
        i
    }
}

pub proof fn lemma_digit_run_end(s: Seq<char>, i: int)
    requires
        0 <= i <= s.len(),
    ensures
        i <= spec_digit_run_end(s, i) <= s.len(),
    decreases s.len() - i,
{
    if i < s.len() && is_digit_char(s[i]) {
        lemma_digit_run_end(s, i + 1);
    }
}

pub open spec fn spec_exponent_ok(s: Seq<char>, i: int) -> bool {
    i < s.len() && (s[i] == 'e' || s[i] == 'E') && {
        let j = if i + 1 < s.len() && (s[i + 1] == '+' || s[i + 1] == '-') {
            i + 2
        } else {
            i + 1
        };
        j < s.len() && spec_digit_run_end(s, j) == s.len()
    }
}

/// Whether `s` is a finite floating-point literal in the grammar that
/// `f64::from_str` documents.
pub open spec fn spec_is_float_text(s: Seq<char>) -> bool {
    let i0: int = if s.len() > 0 && (s[0] == '+' || s[0] == '-') {
        1
    } else {
        0
    };
    let i1 = spec_digit_run_end(s, i0);
    if i1 < s.len() && s[i1] == '.' {
        let i2 = spec_digit_run_end(s, i1 + 1);
        (i1 > i0 || i2 > i1 + 1) && (i2 == s.len() || spec_exponent_ok(s, i2))
    } else {
        i1 > i0 && (i1 == s.len() || spec_exponent_ok(s, i1))
    }
}

fn digit_run_end(s: &str, i: usize) -> (r: usize)
    requires
        i <= s@.len(),
    ensures
        r as int == spec_digit_run_end(s@, i as int),
        i <= r <= s@.len(),
    decreases s@.len() - i,
{
    let n = s.unicode_len();
    if i < n && {
        let c = s.get_char(i);
        '0' <= c && c <= '9'
    } {
        digit_run_end(s, i + 1)
    } else {
        i
    }
}

fn exponent_ok(s: &str, i: usize) -> (r: bool)
    requires
        i <= s@.len(),
    ensures
        r == spec_exponent_ok(s@, i as int),
{
    let n = s.unicode_len();
    if i >= n {
        return false;
    }
    let c = s.get_char(i);
    if !(c == 'e' || c == 'E') {
        return false;
    }
    let j: usize = if i + 1 < n && {
        let c2 = s.get_char(i + 1);
        c2 == '+' || c2 == '-'
    } {
        i + 2
    } else {
        i + 1
    };
    if j >= n {
        return false;
    }
    digit_run_end(s, j) == n
}

pub fn is_float_text(s: &str) -> (r: bool)
    ensures
        r == spec_is_float_text(s@),
{
    let n = s.unicode_len();
    let i0: usize = if n > 0 && {
        let c = s.get_char(0);
        c == '+' || c == '-'
    } {
        1
    } else {
        0
    };
    let i1 = digit_run_end(s, i0);
    if i1 < n && s.get_char(i1) == '.' {
        let i2 = digit_run_end(s, i1 + 1);
        (i1 > i0 || i2 > i1 + 1) && (i2 == n || exponent_ok(s, i2))
    } else {
        i1 > i0 && (i1 == n || exponent_ok(s, i1))
    }
}

} // verus!
