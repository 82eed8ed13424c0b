//! URL-safe slugs derived from titles: lowercase, accented Latin vowels and
//! n-tilde mapped to their plain base letter, every other character to `-`,
//! runs of dashes collapsed, and one leading or trailing dash stripped.

use vstd::prelude::*;
use crate::text::{collapse_runs, no_run, ends_in, is_digit, lemma_collapse_snoc,
    lemma_collapse_no_run, lemma_collapse_id, lemma_collapse_chars, push_char};

verus! {

/// Characters that a slug keeps as they stand: `a`-`z` and `0`-`9`.
pub open spec fn slug_keep(c: char) -> bool {
    (97 <= c as u32 <= 122) || is_digit(c)
}

/// An uppercase ASCII letter.
pub open spec fn is_upper(c: char) -> bool {
    65 <= c as u32 <= 90
}

/// Where one character of the title lands in the slug.
pub open spec fn slug_char(c: char) -> char {
    if slug_keep(c) {
        c
    } else if is_upper(c) {
        (((c as u32) + 32) as u8) as char
    } else if c == '\u{e1}' || c == '\u{e0}' || c == '\u{e2}' || c == '\u{e4}' || c == '\u{c1}'
        || c == '\u{c0}' || c == '\u{c2}' || c == '\u{c4}' {
        'a'
    } else if c == '\u{e9}' || c == '\u{e8}' || c == '\u{ea}' || c == '\u{eb}' || c == '\u{c9}'
        || c == '\u{c8}' || c == '\u{ca}' || c == '\u{cb}' {
        'e'
    } else if c == '\u{ed}' || c == '\u{ec}' || c == '\u{ee}' || c == '\u{ef}' || c == '\u{cd}'
        || c == '\u{cc}' || c == '\u{ce}' || c == '\u{cf}' {
        'i'
    } else if c == '\u{f3}' || c == '\u{f2}' || c == '\u{f4}' || c == '\u{f6}' || c == '\u{d3}'
        || c == '\u{d2}' || c == '\u{d4}' || c == '\u{d6}' {
        'o'
    } else if c == '\u{fa}' || c == '\u{f9}' || c == '\u{fb}' || c == '\u{fc}' || c == '\u{da}'
        || c == '\u{d9}' || c == '\u{db}' || c == '\u{dc}' {
        'u'
    } else if c == '\u{f1}' || c == '\u{d1}' {
        'n'
    } else {
        '-'
    }
}

/// `s` without one leading dash.
pub open spec fn spec_strip_lead(s: Seq<char>) -> Seq<char> {
    if s.len() > 0 && s[0] == '-' {
        s.drop_first()
    } else {
        s
    }
}

/// `s` without one trailing dash.
pub open spec fn spec_strip_trail(s: Seq<char>) -> Seq<char> {
    if s.len() > 0 && s.last() == '-' {
        s.drop_last()
    } else {
        s
    }
}

/// The slug of a title: characters mapped one by one, dash runs collapsed,
/// one leading and one trailing dash stripped.
pub open spec fn spec_slug(s: Seq<char>) -> Seq<char> {
    spec_strip_trail(
        spec_strip_lead(collapse_runs(s.map_values(|c: char| slug_char(c)), '-', false)),
    )
}

/// Maps one character of a title to its slug form.
fn map_char(c: char) -> (r: char)
    ensures
        r == slug_char(c),
{
    let u = c as u32;
    if (97 <= u && u <= 122) || (48 <= u && u <= 57) {
        c
    } else if 65 <= u && u <= 90 {
        ((u + 32) as u8) as char
    } else if c == '\u{e1}' || c == '\u{e0}' || c == '\u{e2}' || c == '\u{e4}' || c == '\u{c1}'
        || c == '\u{c0}' || c == '\u{c2}' || c == '\u{c4}' {
        'a'
    } else if c == '\u{e9}' || c == '\u{e8}' || c == '\u{ea}' || c == '\u{eb}' || c == '\u{c9}'
        || c == '\u{c8}' || c == '\u{ca}' || c == '\u{cb}' {
        'e'
    } else if c == '\u{ed}' || c == '\u{ec}' || c == '\u{ee}' || c == '\u{ef}' || c == '\u{cd}'
        || c == '\u{cc}' || c == '\u{ce}' || c == '\u{cf}' {
        'i'
    } else if c == '\u{f3}' || c == '\u{f2}' || c == '\u{f4}' || c == '\u{f6}' || c == '\u{d3}'
        || c == '\u{d2}' || c == '\u{d4}' || c == '\u{d6}' {
        'o'
    } else if c == '\u{fa}' || c == '\u{f9}' || c == '\u{fb}' || c == '\u{fc}' || c == '\u{da}'
        || c == '\u{d9}' || c == '\u{db}' || c == '\u{dc}' {
        'u'
    } else if c == '\u{f1}' || c == '\u{d1}' {
        'n'
    } else {
        '-'
    }
}

/// Derives the URL-safe slug of `title`.
pub fn get_slug(title: &str) -> (r: String)
    ensures
        r@ == spec_slug(title@),
{
    let n = title.unicode_len();
    let ghost mapped = title@.map_values(|c: char| slug_char(c));
    let mut out = String::new();
    let mut prev: bool = false;
    let mut i: usize = 0;
    while i < n
        invariant
            n == title@.len(),
            0 <= i <= n,
            mapped == title@.map_values(|c: char| slug_char(c)),
            out@ == collapse_runs(mapped.take(i as int), '-', false),
            prev == ends_in(mapped.take(i as int), '-', false),
        decreases n - i,
    {
        let c = map_char(title.get_char(i));
        proof {
            lemma_collapse_snoc(mapped.take(i as int), '-', false, c);
            assert(mapped.take(i as int).push(c) =~= mapped.take(i + 1 as int));
        }
        if c == '-' && prev {
            // a repeated dash collapses away
        } else {
            push_char(&mut out, c);
        }
        prev = c == '-';
        i = i + 1;
    }
    proof {
        assert(mapped.take(n as int) =~= mapped);
        lemma_collapse_no_run(mapped, '-', false);
    }
    let m = out.as_str();
    let len = m.unicode_len();
    let start: usize = if len > 0 && m.get_char(0) == '-' {
        1
    } else {
        0
    };
    let end: usize = if len > start && m.get_char(len - 1) == '-' {
        len - 1
    } else {
        len
    };
    let r = m.substring_char(start, end);
    proof {
        let col = collapse_runs(mapped, '-', false);
        assert(spec_strip_lead(col) =~= col.subrange(start as int, col.len() as int));
        assert(spec_strip_trail(spec_strip_lead(col)) =~= col.subrange(start as int, end as int));
    }
    String::from_str(r)
}

/// A slug never holds two dashes in a row, and neither starts nor ends
/// with a dash.
pub proof fn lemma_slug_wellformed(s: Seq<char>)
    ensures
        no_run(spec_slug(s), '-'),
        spec_slug(s).len() > 0 ==> spec_slug(s)[0] != '-',
        spec_slug(s).len() > 0 ==> spec_slug(s).last() != '-',
        forall|i: int|
            0 <= i < spec_slug(s).len() ==> slug_keep(#[trigger] spec_slug(s)[i]) || spec_slug(
                s,
            )[i] == '-',
{
    let mapped = s.map_values(|c: char| slug_char(c));
    let col = collapse_runs(mapped, '-', false);
    lemma_collapse_no_run(mapped, '-', false);
    assert(forall|i: int| 0 <= i < mapped.len() ==> slug_keep(#[trigger] mapped[i]) || mapped[i]
        == '-') by {
        assert(forall|c: char| slug_keep(#[trigger] slug_char(c)) || slug_char(c) == '-');
    }
    lemma_collapse_chars(mapped, '-', false, |c: char| slug_keep(c) || c == '-');
    let l = spec_strip_lead(col);
    let r = spec_strip_trail(l);
    assert(no_run(l, '-')) by {
        if col.len() > 0 && col[0] == '-' {
            assert(forall|i: int| 0 <= i < l.len() ==> #[trigger] l[i] == col[i + 1]);
        }
    }
    assert(l.len() > 0 ==> l[0] != '-') by {
        if col.len() > 0 && col[0] == '-' && col.len() > 1 {
            assert(!(col[0] == '-' && col[1] == '-'));
        }
    }
    assert(no_run(r, '-') && (r.len() > 0 ==> r[0] != '-')) by {
        if l.len() > 0 && l.last() == '-' {
            assert(forall|i: int| 0 <= i < r.len() ==> #[trigger] r[i] == l[i]);
        }
    }
    assert(r.len() > 0 ==> r.last() != '-') by {
        if l.len() > 0 && l.last() == '-' {
            if r.len() > 0 {
                assert(r.last() == l[l.len() - 2]);
                assert(!(l[l.len() - 2] == '-' && l[l.len() - 1] == '-'));
            }
        }
    }
    assert(forall|i: int| 0 <= i < r.len() ==> slug_keep(#[trigger] r[i]) || r[i] == '-') by {
        assert(forall|i: int| 0 <= i < l.len() ==> slug_keep(#[trigger] l[i]) || l[i] == '-') by {
            if col.len() > 0 && col[0] == '-' {
                assert(forall|i: int| 0 <= i < l.len() ==> #[trigger] l[i] == col[i + 1]);
            }
        }
        assert(forall|i: int| 0 <= i < r.len() ==> #[trigger] r[i] == l[i]);
    }
}

/// Slugification is idempotent: the slug of a slug is that slug itself.
pub proof fn lemma_slug_idempotent(s: Seq<char>)
    ensures
        spec_slug(spec_slug(s)) == spec_slug(s),
{
    let r = spec_slug(s);
    lemma_slug_wellformed(s);
    assert(r.map_values(|c: char| slug_char(c)) =~= r) by {
        assert(forall|i: int| 0 <= i < r.len() ==> (slug_keep(#[trigger] r[i]) || r[i] == '-')
            ==> slug_char(r[i]) == r[i]);
    }
    lemma_collapse_id(r, '-', false);
    assert(spec_strip_lead(r) == r);
    assert(spec_strip_trail(r) == r);
}

} // verus!
