//! Publication timestamps. The remote catalog hands them out as UTC strings
//! of the fixed shape `YYYY-MM-DDTHH:MM:SSZ`; for that shape, ordering the
//! strings lexicographically orders the instants chronologically, so the
//! catalog keeps the string and compares it directly.

use vstd::prelude::*;
use crate::text::{all_digits, digits_val, is_digit, parse_u64};

verus! {

/// A leap year of the Gregorian calendar.
pub open spec fn is_leap(y: int) -> bool {
    (y % 4 == 0 && y % 100 != 0) || y % 400 == 0
}

/// How many days month `m` of year `y` has.
pub open spec fn days_in_month(y: int, m: int) -> int {
    if m == 2 {
        if is_leap(y) {
            29
        } else {
            28
        }
    } else if m == 4 || m == 6 || m == 9 || m == 11 {
        30
    } else {
        31
    }
}

/// The year, month, day, hour, minute or second field of a timestamp string.
pub open spec fn dt_field(s: Seq<char>, from: int, to: int) -> int {
    digits_val(s.subrange(from, to))
}

/// A timestamp string of the shape `YYYY-MM-DDTHH:MM:SSZ` that names a real
/// calendar date and a real time of day.
pub open spec fn wellformed_datetime(s: Seq<char>) -> bool {
    &&& s.len() == 20
    &&& all_digits(s.subrange(0, 4))
    &&& s[4] == '-'
    &&& all_digits(s.subrange(5, 7))
    &&& s[7] == '-'
    &&& all_digits(s.subrange(8, 10))
    &&& s[10] == 'T'
    &&& all_digits(s.subrange(11, 13))
    &&& s[13] == ':'
    &&& all_digits(s.subrange(14, 16))
    &&& s[16] == ':'
    &&& all_digits(s.subrange(17, 19))
    &&& s[19] == 'Z'
    &&& 1 <= dt_field(s, 5, 7) <= 12
    &&& 1 <= dt_field(s, 8, 10) <= days_in_month(dt_field(s, 0, 4), dt_field(s, 5, 7))
    &&& dt_field(s, 11, 13) <= 23
    &&& dt_field(s, 14, 16) <= 59
    &&& dt_field(s, 17, 19) <= 59
}

/// Ten to the power `n`.
pub open spec fn pow10(n: nat) -> int
    decreases n,
{
    if n == 0 {
        1
    } else {
        10 * pow10((n - 1) as nat)
    }
}

/// A digit sequence of length `n` denotes a value below ten to the `n`.
pub proof fn lemma_digits_val_bound(s: Seq<char>)
    requires
        all_digits(s),
    ensures
        0 <= digits_val(s) < pow10(s.len()),
    decreases s.len(),
{
    if s.len() > 0 {
        assert(all_digits(s.drop_last())) by {
            assert(forall|i: int|
                0 <= i < s.drop_last().len() ==> #[trigger] s.drop_last()[i] == s[i]);
        }
        lemma_digits_val_bound(s.drop_last());
        assert(is_digit(s.last()));
        assert(pow10(s.len()) == 10 * pow10((s.len() - 1) as nat));
    }
}

proof fn lemma_digits_val_small(s: Seq<char>)
    requires
        all_digits(s),
        s.len() <= 4,
    ensures
        0 <= digits_val(s) <= 9999,
{
    lemma_digits_val_bound(s);
    assert(pow10(0) == 1);
    assert(pow10(1) == 10);
    assert(pow10(2) == 100);
    assert(pow10(3) == 1000);
    assert(pow10(4) == 10000);
}

/// Reads one digit group of a timestamp; `None` unless every character in
/// the range is a digit.
fn dt_group(s: &str, from: usize, to: usize) -> (r: Option<u64>)
    requires
        from <= to <= s@.len(),
        to - from <= 4,
    ensures
        match r {
            Some(v) => all_digits(s@.subrange(from as int, to as int)) && v == dt_field(
                s@,
                from as int,
                to as int,
            ),
            None => !all_digits(s@.subrange(from as int, to as int)) || from == to,
        },
{
    let part = s.substring_char(from, to);
    proof {
        if all_digits(s@.subrange(from as int, to as int)) && from < to {
            lemma_digits_val_small(s@.subrange(from as int, to as int));
        }
    }
    parse_u64(part)
}

/// Whether `y` is a leap year.
pub fn is_leap_exec(y: u64) -> (b: bool)
    ensures
        b == is_leap(y as int),
{
    (y % 4 == 0 && y % 100 != 0) || y % 400 == 0
}

/// How many days month `m` of year `y` has.
pub fn days_in_month_exec(y: u64, m: u64) -> (d: u64)
    ensures
        d == days_in_month(y as int, m as int),
{
    if m == 2 {
        if is_leap_exec(y) {
            29
        } else {
            28
        }
    } else if m == 4 || m == 6 || m == 9 || m == 11 {
        30
    } else {
        31
    }
}

/// Checks that `s` is a well-formed `YYYY-MM-DDTHH:MM:SSZ` timestamp.
pub fn check_datetime(s: &str) -> (b: bool)
    ensures
        b == wellformed_datetime(s@),
{
    let n = s.unicode_len();
    if n != 20 {
        return false;
    }
    if !(s.get_char(4) == '-' && s.get_char(7) == '-' && s.get_char(10) == 'T' && s.get_char(13)
        == ':' && s.get_char(16) == ':' && s.get_char(19) == 'Z') {
        return false;
    }
    let y = match dt_group(s, 0, 4) {
        Some(v) => v,
        None => { return false; },
    };
    let mo = match dt_group(s, 5, 7) {
        Some(v) => v,
        None => { return false; },
    };
    let d = match dt_group(s, 8, 10) {
        Some(v) => v,
        None => { return false; },
    };
    let hh = match dt_group(s, 11, 13) {
        Some(v) => v,
        None => { return false; },
    };
    let mm = match dt_group(s, 14, 16) {
        Some(v) => v,
        None => { return false; },
    };
    let ss = match dt_group(s, 17, 19) {
        Some(v) => v,
        None => { return false; },
    };
    1 <= mo && mo <= 12 && 1 <= d && d <= days_in_month_exec(y, mo) && hh <= 23 && mm <= 59 && ss
        <= 59
}

/// `a` is at or before `b` in lexicographic order by code point.
pub open spec fn lex_le(a: Seq<char>, b: Seq<char>) -> bool
    decreases a.len(),
{
    if a.len() == 0 {
        true
    } else if b.len() == 0 {
        false
    } else if (a[0] as u32) < (b[0] as u32) {
        true
    } else if (a[0] as u32) > (b[0] as u32) {
        false
    } else {
        lex_le(a.drop_first(), b.drop_first())
    }
}

/// Any two sequences compare one way or the other.
pub proof fn lemma_lex_total(a: Seq<char>, b: Seq<char>)
    ensures
        lex_le(a, b) || lex_le(b, a),
    decreases a.len(),
{
    if a.len() > 0 && b.len() > 0 {
        if (a[0] as u32) == (b[0] as u32) {
            lemma_char_eq(a[0], b[0]);
            lemma_lex_total(a.drop_first(), b.drop_first());
        }
    }
}

/// Lexicographic order is transitive.
pub proof fn lemma_lex_trans(a: Seq<char>, b: Seq<char>, c: Seq<char>)
    requires
        lex_le(a, b),
        lex_le(b, c),
    ensures
        lex_le(a, c),
    decreases a.len(),
{
    if a.len() > 0 && b.len() > 0 && c.len() > 0 {
        if (a[0] as u32) == (b[0] as u32) && (b[0] as u32) == (c[0] as u32) {
            lemma_char_eq(a[0], b[0]);
            lemma_char_eq(b[0], c[0]);
            lemma_lex_trans(a.drop_first(), b.drop_first(), c.drop_first());
        }
    }
}

proof fn lemma_lex_skip(a: Seq<char>, b: Seq<char>, i: int)
    requires
        0 <= i <= a.len(),
        i <= b.len(),
        forall|k: int| 0 <= k < i ==> a[k] == b[k],
    ensures
        lex_le(a, b) == lex_le(a.skip(i), b.skip(i)),
    decreases i,
{
    if i == 0 {
        assert(a.skip(0) =~= a);
        assert(b.skip(0) =~= b);
    } else {
        lemma_lex_skip(a.drop_first(), b.drop_first(), i - 1);
        assert(a.drop_first().skip(i - 1) =~= a.skip(i));
        assert(b.drop_first().skip(i - 1) =~= b.skip(i));
        assert(forall|k: int|
            0 <= k < i - 1 ==> #[trigger] a.drop_first()[k] == b.drop_first()[k]) by {
            assert(forall|k: int| 0 <= k < i - 1 ==> #[trigger] a.drop_first()[k] == a[k + 1]);
            assert(forall|k: int| 0 <= k < i - 1 ==> #[trigger] b.drop_first()[k] == b[k + 1]);
        }
    }
}

/// Compares two strings lexicographically by code point.
pub fn lex_le_exec(a: &str, b: &str) -> (r: bool)
    ensures
        r == lex_le(a@, b@),
{
    let an = a.unicode_len();
    let bn = b.unicode_len();
    let mut i: usize = 0;
    while i < an && i < bn
        invariant
            an == a@.len(),
            bn == b@.len(),
            0 <= i <= an,
            i <= bn,
            forall|k: int| 0 <= k < i ==> a@[k] == b@[k],
        decreases an - i,
    {
        let ca = a.get_char(i) as u32;
        let cb = b.get_char(i) as u32;
        if ca < cb {
            proof {
                lemma_lex_skip(a@, b@, i as int);
            }
            return true;
        }
        if ca > cb {
            proof {
                lemma_lex_skip(a@, b@, i as int);
            }
            return false;
        }
        proof {
            assert(a@[i as int] == b@[i as int]) by {
                assert(a@[i as int] as u32 == b@[i as int] as u32);
                crate::datetime::lemma_char_eq(a@[i as int], b@[i as int]);
            }
        }
        i = i + 1;
    }
    proof {
        lemma_lex_skip(a@, b@, i as int);
    }
    an <= bn
}

/// Characters with the same code point are the same character.
pub proof fn lemma_char_eq(a: char, b: char)
    requires
        a as u32 == b as u32,
    ensures
        a == b,
{
    assert((a as u32) as char == (b as u32) as char);
}

} // verus!
