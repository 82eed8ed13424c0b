//! Text building blocks shared by the rest of the crate: printing and
//! reading decimal numbers, collapsing repeated characters, trimming,
//! and searching for characters and patterns, each with its
//! mathematical description.

use vstd::prelude::*;

verus! {

/// Relies on `String::push`: appends one character at the end of the string.
#[verifier::external_body]
pub fn push_char(s: &mut String, c: char)
    ensures
        final(s)@ == old(s)@.push(c),
{
    s.push(c);
}

/// The decimal digit character for a value below ten.
pub open spec fn digit_char(d: int) -> char {
    ((d + 48) as u8) as char
}

/// The decimal representation of `n`, most significant digit first.
pub open spec fn spec_decimal(n: int) -> Seq<char>
    decreases n,
{
    if n < 10 {
        seq![digit_char(n)]
    } else {
        spec_decimal(n / 10).push(digit_char(n % 10))
    }
}

/// Prints `n` in decimal.
pub fn decimal_string(n: u64) -> (s: String)
    ensures
        s@ == spec_decimal(n as int),
    decreases n,
{
    if n < 10 {
        let d: u8 = (n as u8) + 48;
        let mut s = String::new();
        push_char(&mut s, d as char);
        s
    } else {
        let mut s = decimal_string(n / 10);
        let d: u8 = ((n % 10) as u8) + 48;
        push_char(&mut s, d as char);
        s
    }
}

/// A printed number is digits only, at least one, and reads back as the
/// number itself.
pub proof fn lemma_decimal_digits(n: int)
    requires
        n >= 0,
    ensures
        spec_decimal(n).len() >= 1,
        all_digits(spec_decimal(n)),
        digits_val(spec_decimal(n)) == n,
    decreases n,
{
    if n < 10 {
        reveal_with_fuel(digits_val, 2);
        assert(digit_char(n) as u32 == n + 48) by {
            assert(((n + 48) as u8) as char as u32 == n + 48);
        }
        assert(is_digit(digit_char(n)));
        assert(spec_decimal(n).drop_last() =~= Seq::<char>::empty());
        assert(digits_val(spec_decimal(n)) == digit_char(n) as u32 - 48);
    } else {
        lemma_decimal_digits(n / 10);
        let d = spec_decimal(n);
        assert(d.drop_last() =~= spec_decimal(n / 10));
        assert(d.last() == digit_char(n % 10));
        assert(is_digit(digit_char(n % 10)));
        assert(forall|i: int|
            0 <= i < d.len() ==> #[trigger] d[i] == if i < d.len() - 1 {
                spec_decimal(n / 10)[i]
            } else {
                digit_char(n % 10)
            });
        assert(digits_val(d) == (n / 10) * 10 + (n % 10));
    }
}

/// `spec_decimal(n)`, left-padded with `'0'` to at least two characters.
pub open spec fn spec_decimal_pad2(n: int) -> Seq<char> {
    if n < 10 {
        seq!['0'].add(spec_decimal(n))
    } else {
        spec_decimal(n)
    }
}

/// Prints `n` in decimal with at least two digits.
pub fn decimal_string_pad2(n: u64) -> (s: String)
    ensures
        s@ == spec_decimal_pad2(n as int),
{
    if n < 10 {
        let mut s = String::new();
        push_char(&mut s, '0');
        let d: u8 = (n as u8) + 48;
        push_char(&mut s, d as char);
        assert(s@ =~= spec_decimal_pad2(n as int));
        s
    } else {
        decimal_string(n)
    }
}

/// Blank characters for trimming: space, tab, newline, carriage return.
pub open spec fn is_blank(c: char) -> bool {
    c == ' ' || c == '\t' || c == '\n' || c == '\r'
}

/// `s` with every `t` that directly follows another `t` removed; `prev`
/// says whether the character just before `s` was a `t`.
pub open spec fn collapse_runs(s: Seq<char>, t: char, prev: bool) -> Seq<char>
    decreases s.len(),
{
    if s.len() == 0 {
        Seq::empty()
    } else {
        let tail = collapse_runs(s.drop_first(), t, s[0] == t);
        if s[0] == t && prev {
            tail
        } else {
            seq![s[0]] + tail
        }
    }
}

/// Whether the last character before the position right after `s` is `t`,
/// with `prev` covering the empty case.
pub open spec fn ends_in(s: Seq<char>, t: char, prev: bool) -> bool {
    if s.len() == 0 {
        prev
    } else {
        s.last() == t
    }
}

/// No two adjacent occurrences of `t` in `s`.
pub open spec fn no_run(s: Seq<char>, t: char) -> bool {
    forall|i: int| 0 <= i < s.len() - 1 ==> !(#[trigger] s[i] == t && s[i + 1] == t)
}

pub proof fn lemma_collapse_snoc(s: Seq<char>, t: char, prev: bool, c: char)
    ensures
        collapse_runs(s.push(c), t, prev) == if c == t && ends_in(s, t, prev) {
            collapse_runs(s, t, prev)
        } else {
            collapse_runs(s, t, prev).push(c)
        },
    decreases s.len(),
{
    if s.len() == 0 {
        let sc = s.push(c);
        assert(sc.len() == 1 && sc[0] == c);
        assert(sc.drop_first() =~= Seq::<char>::empty());
        assert(collapse_runs(sc.drop_first(), t, sc[0] == t) == Seq::<char>::empty());
        assert(collapse_runs(s, t, prev) == Seq::<char>::empty());
        if c == t && prev {
            assert(collapse_runs(sc, t, prev) =~= collapse_runs(s, t, prev));
        } else {
            assert(collapse_runs(sc, t, prev) =~= collapse_runs(s, t, prev).push(c));
        }
    } else {
        assert(s.push(c).drop_first() =~= s.drop_first().push(c));
        lemma_collapse_snoc(s.drop_first(), t, s[0] == t, c);
        assert(ends_in(s.drop_first(), t, s[0] == t) == ends_in(s, t, prev));
        if c == t && ends_in(s, t, prev) {
            assert(collapse_runs(s.push(c), t, prev) =~= collapse_runs(s, t, prev));
        } else {
            assert(seq![s[0]] + collapse_runs(s.drop_first(), t, s[0] == t).push(c) =~= (seq![
                s[0],
            ] + collapse_runs(s.drop_first(), t, s[0] == t)).push(c));
            assert(collapse_runs(s.push(c), t, prev) =~= collapse_runs(s, t, prev).push(c));
        }
    }
}

pub proof fn lemma_collapse_no_run(s: Seq<char>, t: char, prev: bool)
    ensures
        no_run(collapse_runs(s, t, prev), t),
        prev && collapse_runs(s, t, prev).len() > 0 ==> collapse_runs(s, t, prev)[0] != t,
    decreases s.len(),
{
    if s.len() > 0 {
        lemma_collapse_no_run(s.drop_first(), t, s[0] == t);
        let tail = collapse_runs(s.drop_first(), t, s[0] == t);
        if !(s[0] == t && prev) {
            let r = seq![s[0]] + tail;
            assert forall|i: int| 0 <= i < r.len() - 1 implies !(#[trigger] r[i] == t && r[i + 1]
                == t) by {
                if i == 0 {
                    if s[0] == t {
                        assert(tail.len() > 0 ==> tail[0] != t);
                    }
                } else {
                    assert(r[i] == tail[i - 1] && r[i + 1] == tail[i]);
                }
            }
        }
    }
}

pub proof fn lemma_collapse_id(s: Seq<char>, t: char, prev: bool)
    requires
        no_run(s, t),
        prev ==> (s.len() == 0 || s[0] != t),
    ensures
        collapse_runs(s, t, prev) == s,
    decreases s.len(),
{
    if s.len() > 0 {
        assert(forall|i: int|
            0 <= i < s.drop_first().len() - 1 ==> !(#[trigger] s.drop_first()[i] == t
                && s.drop_first()[i + 1] == t)) by {
            assert(forall|i: int|
                0 <= i < s.drop_first().len() ==> #[trigger] s.drop_first()[i] == s[i + 1]);
        }
        lemma_collapse_id(s.drop_first(), t, s[0] == t);
        assert(seq![s[0]] + s.drop_first() =~= s);
    }
}

pub proof fn lemma_collapse_len(s: Seq<char>, t: char, prev: bool)
    ensures
        collapse_runs(s, t, prev).len() <= s.len(),
    decreases s.len(),
{
    if s.len() > 0 {
        lemma_collapse_len(s.drop_first(), t, s[0] == t);
    }
}

/// Every character of the collapsed sequence already stood in `s`.
pub proof fn lemma_collapse_chars(s: Seq<char>, t: char, prev: bool, p: spec_fn(char) -> bool)
    requires
        forall|i: int| 0 <= i < s.len() ==> p(s[i]),
    ensures
        forall|i: int|
            0 <= i < collapse_runs(s, t, prev).len() ==> p(collapse_runs(s, t, prev)[i]),
    decreases s.len(),
{
    if s.len() > 0 {
        lemma_collapse_chars(s.drop_first(), t, s[0] == t, p);
        let tail = collapse_runs(s.drop_first(), t, s[0] == t);
        let r = collapse_runs(s, t, prev);
        if s[0] == t && prev {
            assert(r == tail);
        } else {
            assert(r == seq![s[0]] + tail);
            assert forall|i: int| 0 <= i < r.len() implies p(r[i]) by {
                if i == 0 {
                    assert(r[i] == s[0]);
                } else {
                    assert(r[i] == tail[i - 1]);
                }
            }
        }
    }
}

/// Removes, left to right, every `t` that directly follows another `t`.
pub fn collapse_runs_exec(s: &str, t: char) -> (r: String)
    ensures
        r@ == collapse_runs(s@, t, false),
{
    let n = s.unicode_len();
    let mut r = String::new();
    let mut prev: bool = false;
    let mut i: usize = 0;
    while i < n
        invariant
            n == s@.len(),
            0 <= i <= n,
            r@ == collapse_runs(s@.take(i as int), t, false),
            prev == ends_in(s@.take(i as int), t, false),
        decreases n - i,
    {
        let c = s.get_char(i);
        proof {
            lemma_collapse_snoc(s@.take(i as int), t, false, c);
            assert(s@.take(i as int).push(c) =~= s@.take(i + 1 as int));
        }
        if c == t && prev {
            // a repeated occurrence is dropped
        } else {
            push_char(&mut r, c);
        }
        prev = c == t;
        i = i + 1;
    }
    proof {
        assert(s@.take(n as int) =~= s@);
    }
    r
}

/// `s` without its leading blank characters.
pub open spec fn spec_trim_start(s: Seq<char>) -> Seq<char>
    decreases s.len(),
{
    if s.len() > 0 && is_blank(s[0]) {
        spec_trim_start(s.drop_first())
    } else {
        s
    }
}

/// `s` without its trailing blank characters.
pub open spec fn spec_trim_end(s: Seq<char>) -> Seq<char>
    decreases s.len(),
{
    if s.len() > 0 && is_blank(s.last()) {
        spec_trim_end(s.drop_last())
    } else {
        s
    }
}

/// `s` without leading and trailing blank characters.
pub open spec fn spec_trim(s: Seq<char>) -> Seq<char> {
    spec_trim_end(spec_trim_start(s))
}

pub proof fn lemma_trim_start_skip(s: Seq<char>, i: int)
    requires
        0 <= i <= s.len(),
        forall|k: int| 0 <= k < i ==> is_blank(s[k]),
        i < s.len() ==> !is_blank(s[i]),
    ensures
        spec_trim_start(s) == s.skip(i),
    decreases i,
{
    if i == 0 {
        assert(s.skip(0) =~= s);
    } else {
        lemma_trim_start_skip(s.drop_first(), i - 1);
        assert(s.drop_first().skip(i - 1) =~= s.skip(i));
    }
}

pub proof fn lemma_trim_end_take(s: Seq<char>, j: int)
    requires
        0 <= j <= s.len(),
        forall|k: int| j <= k < s.len() ==> is_blank(s[k]),
        j > 0 ==> !is_blank(s[j - 1]),
    ensures
        spec_trim_end(s) == s.take(j),
    decreases s.len() - j,
{
    if j == s.len() {
        assert(s.take(j) =~= s);
    } else {
        lemma_trim_end_take(s.drop_last(), j);
        assert(s.drop_last().take(j) =~= s.take(j));
    }
}

pub proof fn lemma_trim_len(s: Seq<char>)
    ensures
        spec_trim(s).len() <= s.len(),
{
    lemma_trim_start_len(s);
    lemma_trim_end_len(spec_trim_start(s));
}

pub proof fn lemma_trim_start_len(s: Seq<char>)
    ensures
        spec_trim_start(s).len() <= s.len(),
    decreases s.len(),
{
    if s.len() > 0 && is_blank(s[0]) {
        lemma_trim_start_len(s.drop_first());
    }
}

pub proof fn lemma_trim_end_len(s: Seq<char>)
    ensures
        spec_trim_end(s).len() <= s.len(),
    decreases s.len(),
{
    if s.len() > 0 && is_blank(s.last()) {
        lemma_trim_end_len(s.drop_last());
    }
}

/// Removes leading and trailing blanks.
pub fn trim_exec(s: &str) -> (r: String)
    ensures
        r@ == spec_trim(s@),
{
    let n = s.unicode_len();
    let mut i: usize = 0;
    while i < n && is_blank_exec(s.get_char(i))
        invariant
            n == s@.len(),
            0 <= i <= n,
            forall|k: int| 0 <= k < i ==> is_blank(s@[k]),
        decreases n - i,
    {
        i = i + 1;
    }
    proof {
        lemma_trim_start_skip(s@, i as int);
    }
    if i == n {
        proof {
            assert(s@.skip(i as int) =~= Seq::<char>::empty());
        }
        return String::new();
    }
    let mut j: usize = n;
    while j > i && is_blank_exec(s.get_char(j - 1))
        invariant
            n == s@.len(),
            i <= j <= n,
            i < n,
            !is_blank(s@[i as int]),
            forall|k: int| j <= k < n ==> is_blank(s@[k]),
        decreases j,
    {
        j = j - 1;
    }
    // the character at i is not blank, so the scan from the right stops at or after it
    let r = s.substring_char(i, j);
    proof {
        let st = s@.skip(i as int);
        assert(forall|k: int| j - i <= k < st.len() ==> is_blank(#[trigger] st[k]));
        assert(st[j - i - 1] == s@[j as int - 1]);
        lemma_trim_end_take(st, j - i);
        assert(st.take(j - i) =~= s@.subrange(i as int, j as int));
    }
    String::from_str(r)
}

/// Whether `c` is a blank character.
pub fn is_blank_exec(c: char) -> (b: bool)
    ensures
        b == is_blank(c),
{
    c == ' ' || c == '\t' || c == '\n' || c == '\r'
}

/// Whether `c` is a decimal digit.
pub open spec fn is_digit(c: char) -> bool {
    48 <= c as u32 <= 57
}

/// All characters of `s` are decimal digits.
pub open spec fn all_digits(s: Seq<char>) -> bool {
    forall|i: int| 0 <= i < s.len() ==> is_digit(s[i])
}

/// The number a digit sequence denotes in decimal.
pub open spec fn digits_val(s: Seq<char>) -> int
    decreases s.len(),
{
    if s.len() == 0 {
        0
    } else {
        digits_val(s.drop_last()) * 10 + (s.last() as u32 - 48)
    }
}

proof fn lemma_digits_val_monotone(s: Seq<char>, i: int)
    requires
        0 <= i <= s.len(),
        all_digits(s),
    ensures
        digits_val(s.take(i)) <= digits_val(s),
    decreases s.len() - i,
{
    if i < s.len() {
        lemma_digits_val_monotone(s, i + 1);
        assert(s.take(i + 1).drop_last() =~= s.take(i));
        assert(digits_val(s.take(i + 1)) == digits_val(s.take(i)) * 10 + (s[i] as u32 - 48));
        assert(digits_val(s.take(i)) * 10 >= digits_val(s.take(i))) by {
            assert(forall|k: int| 0 <= k < i ==> #[trigger] s.take(i)[k] == s[k]);
            assert(all_digits(s.take(i)));
            lemma_digits_val_nonneg(s.take(i));
        }
    } else {
        assert(s.take(i) =~= s);
    }
}

proof fn lemma_digits_val_nonneg(s: Seq<char>)
    requires
        all_digits(s),
    ensures
        digits_val(s) >= 0,
    decreases s.len(),
{
    if s.len() > 0 {
        assert(all_digits(s.drop_last())) by {
            assert(forall|i: int|
                0 <= i < s.drop_last().len() ==> #[trigger] s.drop_last()[i] == s[i]);
        }
        lemma_digits_val_nonneg(s.drop_last());
        assert(is_digit(s.last()));
    }
}

/// The position of the first occurrence of `c` in `s`, or `s.len()` when
/// `c` does not occur.
pub open spec fn find_char(s: Seq<char>, c: char) -> int
    decreases s.len(),
{
    if s.len() == 0 {
        0
    } else if s[0] == c {
        0
    } else {
        1 + find_char(s.drop_first(), c)
    }
}

pub proof fn lemma_find_char(s: Seq<char>, c: char)
    ensures
        0 <= find_char(s, c) <= s.len(),
        find_char(s, c) < s.len() ==> s[find_char(s, c)] == c,
        forall|k: int| 0 <= k < find_char(s, c) ==> s[k] != c,
    decreases s.len(),
{
    if s.len() > 0 && s[0] != c {
        lemma_find_char(s.drop_first(), c);
        assert forall|k: int| 0 <= k < find_char(s, c) implies s[k] != c by {
            if k > 0 {
                assert(s.drop_first()[k - 1] == s[k]);
            }
        }
    }
}

pub proof fn lemma_find_char_at(s: Seq<char>, c: char, i: int)
    requires
        0 <= i <= s.len(),
        forall|k: int| 0 <= k < i ==> s[k] != c,
        i < s.len() ==> s[i] == c,
    ensures
        find_char(s, c) == i,
    decreases i,
{
    if s.len() > 0 {
        if i > 0 {
            assert(forall|k: int|
                0 <= k < i - 1 ==> #[trigger] s.drop_first()[k] == s[k + 1]);
            lemma_find_char_at(s.drop_first(), c, i - 1);
        }
    }
}

/// Finds the first occurrence of `c` in `s` at or after `from`; `s.len()`
/// when there is none.
pub fn find_char_exec(s: &str, from: usize, c: char) -> (q: usize)
    requires
        from <= s@.len(),
    ensures
        q == from + find_char(s@.skip(from as int), c),
        from <= q <= s@.len(),
        q < s@.len() ==> s@[q as int] == c,
        forall|k: int| from <= k < q ==> s@[k] != c,
{
    let n = s.unicode_len();
    let mut q = from;
    while q < n && s.get_char(q) != c
        invariant
            n == s@.len(),
            from <= q <= n,
            forall|k: int| from <= k < q ==> s@[k] != c,
        decreases n - q,
    {
        q = q + 1;
    }
    proof {
        let t = s@.skip(from as int);
        assert(forall|k: int| 0 <= k < q - from ==> #[trigger] t[k] == s@[k + from]);
        lemma_find_char_at(t, c, q - from);
    }
    q
}

/// Whether `pat` stands in `text` at position `i`.
pub open spec fn match_at(text: Seq<char>, pat: Seq<char>, i: int) -> bool {
    0 <= i && i + pat.len() <= text.len() && text.subrange(i, i + pat.len()) == pat
}

/// Compares the characters of `text` from `i` on with `pat`.
pub fn match_at_exec(text: &str, pat: &str, i: usize) -> (b: bool)
    ensures
        b == match_at(text@, pat@, i as int),
{
    let n = text.unicode_len();
    let m = pat.unicode_len();
    if i > n || m > n - i {
        return false;
    }
    let mut k: usize = 0;
    while k < m
        invariant
            n == text@.len(),
            m == pat@.len(),
            0 <= i,
            i + m <= n,
            0 <= k <= m,
            forall|j: int| 0 <= j < k ==> text@[i + j] == pat@[j],
        decreases m - k,
    {
        if text.get_char(i + k) != pat.get_char(k) {
            proof {
                assert(text@.subrange(i as int, i + m) != pat@) by {
                    assert(text@.subrange(i as int, i + m)[k as int] == text@[i + k]);
                }
            }
            return false;
        }
        k = k + 1;
    }
    proof {
        assert(text@.subrange(i as int, i + m) =~= pat@);
    }
    true
}

/// Whether the two strings hold the same characters.
pub fn str_eq(a: &str, b: &str) -> (r: bool)
    ensures
        r == (a@ == b@),
{
    let an = a.unicode_len();
    let bn = b.unicode_len();
    if an != bn {
        proof {
            assert(a@.len() != b@.len());
        }
        return false;
    }
    let m = match_at_exec(a, b, 0);
    proof {
        assert(a@.subrange(0, a@.len() as int) =~= a@);
        if m {
            assert(a@ == b@);
        }
    }
    m
}

/// Reads an unsigned decimal number; `None` when `s` is empty, holds a
/// character that is no digit, or denotes a value above `u64::MAX`.
pub fn parse_u64(s: &str) -> (r: Option<u64>)
    ensures
        match r {
            Some(v) => s@.len() > 0 && all_digits(s@) && v == digits_val(s@),
            None => s@.len() == 0 || !all_digits(s@) || digits_val(s@) > u64::MAX,
        },
{
    let n = s.unicode_len();
    if n == 0 {
        return None;
    }
    let mut acc: u64 = 0;
    let mut i: usize = 0;
    while i < n
        invariant
            n == s@.len(),
            0 <= i <= n,
            all_digits(s@.take(i as int)),
            acc == digits_val(s@.take(i as int)),
        decreases n - i,
    {
        let c = s.get_char(i);
        let u = c as u32;
        if u < 48 || u > 57 {
            assert(!is_digit(s@[i as int]));
            return None;
        }
        let d: u64 = (u - 48) as u64;
        proof {
            assert(s@.take(i + 1 as int).drop_last() =~= s@.take(i as int));
        }
        if acc > (u64::MAX - d) / 10 {
            proof {
                assert(acc * 10 + d > u64::MAX) by (nonlinear_arith)
                    requires
                        acc > (u64::MAX - d) / 10,
                        d <= 9,
                ;
                if all_digits(s@) {
                    lemma_digits_val_monotone(s@, i + 1 as int);
                }
            }
            return None;
        }
        acc = acc * 10 + d;
        i = i + 1;
    }
    proof {
        assert(s@.take(n as int) =~= s@);
    }
    Some(acc)
}

} // verus!
