//! Excerpt extraction, markup stripping, and the small formatting
//! helpers the rendered site leans on.

use vstd::prelude::*;
use crate::text::{decimal_string, decimal_string_pad2, spec_decimal, spec_decimal_pad2,
    collapse_runs, collapse_runs_exec, lemma_collapse_len, spec_trim, trim_exec};

verus! {

/// How many word boundaries an excerpt runs up to.
pub const EXCERPT_LENGTH: usize = 55;

/// A character that separates words: space, newline or tab.
pub open spec fn is_word_sep(c: char) -> bool {
    c == ' ' || c == '\n' || c == '\t'
}

/// The text with runs of repeated spaces, then newlines, then tabs, each
/// collapsed to a single occurrence.
pub open spec fn spec_clean(s: Seq<char>) -> Seq<char> {
    collapse_runs(collapse_runs(collapse_runs(s, ' ', false), '\n', false), '\t', false)
}

/// How many word separators `s` holds.
pub open spec fn count_sep(s: Seq<char>) -> int
    decreases s.len(),
{
    if s.len() == 0 {
        0
    } else {
        count_sep(s.drop_last()) + if is_word_sep(s.last()) {
            1int
        } else {
            0int
        }
    }
}

/// Position `i` carries the `n`-th word separator of `s`, counting from zero.
pub open spec fn is_nth_sep(s: Seq<char>, n: int, i: int) -> bool {
    0 <= i < s.len() && is_word_sep(s[i]) && count_sep(s.take(i)) == n
}

/// The position of the `n`-th word separator of `s`.
pub open spec fn nth_sep(s: Seq<char>, n: int) -> int {
    choose|i: int| is_nth_sep(s, n, i)
}

proof fn lemma_count_sep_mono(s: Seq<char>, a: int, b: int)
    requires
        0 <= a <= b <= s.len(),
    ensures
        count_sep(s.take(a)) <= count_sep(s.take(b)),
    decreases b - a,
{
    if a < b {
        lemma_count_sep_mono(s, a + 1, b);
        assert(s.take(a + 1).drop_last() =~= s.take(a));
    }
}

proof fn lemma_nth_sep_unique(s: Seq<char>, n: int, i: int, j: int)
    requires
        is_nth_sep(s, n, i),
        is_nth_sep(s, n, j),
    ensures
        i == j,
{
    if i < j {
        assert(s.take(i + 1).drop_last() =~= s.take(i));
        assert(count_sep(s.take(i + 1)) == n + 1);
        lemma_count_sep_mono(s, i + 1, j);
    } else if j < i {
        assert(s.take(j + 1).drop_last() =~= s.take(j));
        assert(count_sep(s.take(j + 1)) == n + 1);
        lemma_count_sep_mono(s, j + 1, i);
    }
}

proof fn lemma_nth_sep_exists(s: Seq<char>, n: int)
    requires
        0 <= n < count_sep(s),
    ensures
        is_nth_sep(s, n, nth_sep(s, n)),
    decreases s.len(),
{
    let d = s.drop_last();
    if is_word_sep(s.last()) && n == count_sep(d) {
        assert(s.take(s.len() - 1) =~= d);
        assert(is_nth_sep(s, n, s.len() - 1));
    } else {
        lemma_nth_sep_exists(d, n);
        let i = nth_sep(d, n);
        assert(d.take(i) =~= s.take(i));
        assert(is_nth_sep(s, n, i));
    }
    let w = choose|i: int| is_nth_sep(s, n, i);
    assert(is_nth_sep(s, n, w));
}

/// The first words of the text: runs of repeated whitespace are collapsed,
/// and the text is cut at its `number`-th word separator, counting from
/// zero; a text with no more than `number` separators comes back whole.
/// Either way the result is trimmed.
pub open spec fn spec_first_words(content: Seq<char>, number: int) -> Seq<char> {
    let clean = spec_clean(content);
    if count_sep(clean) > number {
        spec_trim(clean.take(nth_sep(clean, number)))
    } else {
        spec_trim(content)
    }
}

/// Whether `c` separates words.
fn is_word_sep_exec(c: char) -> (b: bool)
    ensures
        b == is_word_sep(c),
{
    c == ' ' || c == '\n' || c == '\t'
}

/// Cuts `content` at its `number`-th word separator, after collapsing
/// repeated whitespace; shorter texts come back whole, trimmed.
pub fn get_first_words(content: &str, number: usize) -> (r: String)
    ensures
        r@ == spec_first_words(content@, number as int),
{
    let c1 = collapse_runs_exec(content, ' ');
    let c2 = collapse_runs_exec(c1.as_str(), '\n');
    let c3 = collapse_runs_exec(c2.as_str(), '\t');
    let clean = c3.as_str();
    let ghost cl = spec_clean(content@);
    let n = clean.unicode_len();
    let mut cnt: usize = 0;
    let mut i: usize = 0;
    while i < n
        invariant
            cl == spec_clean(content@),
            clean@ == cl,
            n == cl.len(),
            0 <= i <= n,
            cnt == count_sep(cl.take(i as int)),
            cnt <= i,
            cnt <= number,
        decreases n - i,
    {
        let c = clean.get_char(i);
        proof {
            assert(cl.take(i + 1 as int).drop_last() =~= cl.take(i as int));
        }
        if is_word_sep_exec(c) {
            if cnt == number {
                // this is the separator the excerpt stops at
                proof {
                    assert(is_nth_sep(cl, number as int, i as int));
                    lemma_count_sep_mono(cl, i + 1 as int, n as int);
                    assert(cl.take(n as int) =~= cl);
                    assert(count_sep(cl) > number);
                    lemma_nth_sep_exists(cl, number as int);
                    lemma_nth_sep_unique(cl, number as int, i as int, nth_sep(cl, number as int));
                }
                let prefix = clean.substring_char(0, i);
                proof {
                    assert(cl.subrange(0, i as int) =~= cl.take(i as int));
                    assert(prefix@ == cl.take(i as int));
                    assert(i as int == nth_sep(cl, number as int));
                    assert(spec_first_words(content@, number as int) == spec_trim(
                        cl.take(i as int),
                    ));
                }
                return trim_exec(prefix);
            }
            cnt = cnt + 1;
        }
        i = i + 1;
    }
    proof {
        assert(cl.take(n as int) =~= cl);
        assert(count_sep(cl) <= number);
    }
    trim_exec(content)
}

/// Extracts the excerpt: the text up to its 55th word boundary.
pub fn get_excerpt(content: &str) -> (r: String)
    ensures
        r@ == spec_first_words(content@, EXCERPT_LENGTH as int),
{
    get_first_words(content, EXCERPT_LENGTH)
}

/// An excerpt never exceeds the source length, and a text with no more
/// than `number` word separators comes back whole, only trimmed.
pub proof fn lemma_first_words_len(content: Seq<char>, number: int)
    requires
        number >= 0,
    ensures
        spec_first_words(content, number).len() <= content.len(),
        count_sep(spec_clean(content)) <= number ==> spec_first_words(content, number)
            == spec_trim(content),
{
    let clean = spec_clean(content);
    assert(clean.len() <= content.len()) by {
        lemma_collapse_len(content, ' ', false);
        lemma_collapse_len(collapse_runs(content, ' ', false), '\n', false);
        lemma_collapse_len(
            collapse_runs(collapse_runs(content, ' ', false), '\n', false),
            '\t',
            false,
        );
    }
    if count_sep(clean) > number {
        lemma_nth_sep_exists(clean, number);
        let i = nth_sep(clean, number);
        crate::text::lemma_trim_len(clean.take(i));
    } else {
        crate::text::lemma_trim_len(content);
    }
}

/// Splits a number of seconds into hours, minutes and seconds.
pub fn to_time(secs: u64) -> (r: (u64, u8, u8))
    ensures
        r.0 == secs / 60 / 60,
        r.1 == (secs / 60) % 60,
        r.2 == secs % 60,
{
    let sec = (secs % 60) as u8;
    let min = ((secs / 60) % 60) as u8;
    let hrs = secs / 60 / 60;
    (hrs, min, sec)
}

/// What `from_sec` prints: `h:mm:ss`, `m:ss` or `s`, leaving out the
/// leading parts that are zero.
pub open spec fn spec_from_sec(secs: int) -> Seq<char> {
    let hrs = secs / 3600;
    let min = (secs / 60) % 60;
    let sec = secs % 60;
    if hrs > 0 {
        spec_decimal(hrs) + seq![':'] + spec_decimal_pad2(min) + seq![':'] + spec_decimal_pad2(sec)
    } else if min > 0 {
        spec_decimal(min) + seq![':'] + spec_decimal_pad2(sec)
    } else {
        spec_decimal(sec)
    }
}

/// Formats a duration in seconds as a clock-style string.
pub fn from_sec(seconds: u64) -> (r: String)
    ensures
        r@ == spec_from_sec(seconds as int),
{
    let (hrs, min, sec) = to_time(seconds);
    proof {
        assert(seconds / 60 / 60 == seconds as int / 3600) by (nonlinear_arith);
    }
    if hrs > 0 {
        let mut s = decimal_string(hrs);
        push_sep(&mut s);
        let m = decimal_string_pad2(min as u64);
        s.append(m.as_str());
        push_sep(&mut s);
        let sc = decimal_string_pad2(sec as u64);
        s.append(sc.as_str());
        assert(s@ =~= spec_from_sec(seconds as int));
        s
    } else if min > 0 {
        let mut s = decimal_string(min as u64);
        push_sep(&mut s);
        let sc = decimal_string_pad2(sec as u64);
        s.append(sc.as_str());
        assert(s@ =~= spec_from_sec(seconds as int));
        s
    } else {
        let s = decimal_string(sec as u64);
        assert(s@ =~= spec_from_sec(seconds as int));
        s
    }
}

/// Appends the `:` separator.
fn push_sep(s: &mut String)
    ensures
        final(s)@ == old(s)@.push(':'),
{
    crate::text::push_char(s, ':');
}


/// Whether the position right after `s` stands inside markup: an
/// unclosed `<` is still open.
pub open spec fn tag_state(s: Seq<char>) -> bool
    decreases s.len(),
{
    if s.len() == 0 {
        false
    } else if s.last() == '<' {
        true
    } else if s.last() == '>' {
        false
    } else {
        tag_state(s.drop_last())
    }
}

/// The text with markup removed: everything between `<` and `>` is
/// dropped, the brackets themselves included.
pub open spec fn spec_striptags(s: Seq<char>) -> Seq<char>
    decreases s.len(),
{
    if s.len() == 0 {
        Seq::empty()
    } else {
        let head = spec_striptags(s.drop_last());
        let c = s.last();
        if c == '<' || c == '>' || tag_state(s.drop_last()) {
            head
        } else {
            head.push(c)
        }
    }
}

/// Strips markup out of a rendered value.
pub fn striptags(value: String) -> (r: String)
    ensures
        r@ == spec_striptags(value@),
{
    let s = value.as_str();
    let n = s.unicode_len();
    let mut data = String::new();
    let mut inside: bool = false;
    let mut i: usize = 0;
    while i < n
        invariant
            n == s@.len(),
            s@ == value@,
            0 <= i <= n,
            data@ == spec_striptags(s@.take(i as int)),
            inside == tag_state(s@.take(i as int)),
        decreases n - i,
    {
        let c = s.get_char(i);
        proof {
            assert(s@.take(i + 1 as int).drop_last() =~= s@.take(i as int));
        }
        if c == '<' {
            inside = true;
        } else if c == '>' {
            inside = false;
        } else if !inside {
            crate::text::push_char(&mut data, c);
        }
        i = i + 1;
    }
    proof {
        assert(s@.take(n as int) =~= s@);
    }
    data
}

/// Cuts a rendered value at `length` characters; shorter values come back
/// whole.
pub fn truncate_chars(s: &str, length: usize) -> (r: String)
    ensures
        r@ == if s@.len() <= length {
            s@
        } else {
            s@.take(length as int)
        },
{
    let n = s.unicode_len();
    if n <= length {
        String::from_str(s)
    } else {
        String::from_str(s.substring_char(0, length))
    }
}

} // verus!
