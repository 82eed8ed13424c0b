//! The record file format: a front-matter block of fixed keys — scalar
//! values, a tag list, decimal numbers — between `---` fences, followed by
//! the free-text body. The emitter writes the canonical form; the parser
//! reads it back exactly, and rejects what it cannot account for.

use vstd::prelude::*;
use crate::error::Error;
use crate::episode::{Episode, EpisodeV, Metadata, MetadataV};
use crate::slug::{get_slug, spec_slug};
use crate::text::{all_digits, decimal_string, digits_val, find_char, find_char_exec, is_digit,
    match_at, match_at_exec, parse_u64, push_char, spec_decimal, str_eq};
use crate::utils::{get_excerpt, spec_first_words, EXCERPT_LENGTH};

verus! {

/// A value that must be written quoted: it holds a line break or a
/// carriage return, or starts with a double quote.
pub open spec fn needs_quote(s: Seq<char>) -> bool {
    (exists|i: int| 0 <= i < s.len() && (s[i] == '\n' || s[i] == '\r')) || (s.len() > 0 && s[0]
        == '"')
}

/// One character in its escaped form.
pub open spec fn esc_char(c: char) -> Seq<char> {
    if c == '\\' {
        seq!['\\', '\\']
    } else if c == '"' {
        seq!['\\', '"']
    } else if c == '\n' {
        seq!['\\', 'n']
    } else if c == '\r' {
        seq!['\\', 'r']
    } else {
        seq![c]
    }
}

/// The escaped form of a value: backslash, quote, line break and carriage
/// return each get a backslash escape.
pub open spec fn escape(s: Seq<char>) -> Seq<char>
    decreases s.len(),
{
    if s.len() == 0 {
        Seq::empty()
    } else {
        esc_char(s[0]) + escape(s.drop_first())
    }
}

/// How a value stands on its line: plain when it can, quoted and escaped
/// when it cannot.
pub open spec fn enc_value(s: Seq<char>) -> Seq<char> {
    if needs_quote(s) {
        seq!['"'] + escape(s) + seq!['"']
    } else {
        s
    }
}

/// Reads an escaped region back; `None` on a bare quote, an unfinished
/// escape, or an unknown escape.
pub open spec fn unescape(s: Seq<char>) -> Option<Seq<char>>
    decreases s.len(),
{
    if s.len() == 0 {
        Some(Seq::empty())
    } else if s[0] == '\\' {
        if s.len() >= 2 {
            match unesc_char(s[1]) {
                Some(c) => match unescape(s.skip(2)) {
                    Some(r) => Some(seq![c] + r),
                    None => None,
                },
                None => None,
            }
        } else {
            None
        }
    } else if s[0] == '"' {
        None
    } else {
        match unescape(s.drop_first()) {
            Some(r) => Some(seq![s[0]] + r),
            None => None,
        }
    }
}

/// The character an escape stands for.
pub open spec fn unesc_char(c: char) -> Option<char> {
    if c == '\\' {
        Some('\\')
    } else if c == '"' {
        Some('"')
    } else if c == 'n' {
        Some('\n')
    } else if c == 'r' {
        Some('\r')
    } else {
        None
    }
}

/// Reads a value token back: a token in quotes is unescaped, any other
/// token stands for itself.
pub open spec fn dec_value(v: Seq<char>) -> Option<Seq<char>> {
    if v.len() == 0 || v[0] != '"' {
        Some(v)
    } else if v.len() >= 2 && v.last() == '"' {
        unescape(v.subrange(1, v.len() - 1))
    } else {
        None
    }
}

/// Escaping is reversible.
pub proof fn lemma_unescape_escape(s: Seq<char>)
    ensures
        unescape(escape(s)) == Some(s),
    decreases s.len(),
{
    if s.len() > 0 {
        lemma_unescape_escape(s.drop_first());
        let e = escape(s);
        let c = s[0];
        if c == '\\' || c == '"' || c == '\n' || c == '\r' {
            assert(e.len() >= 2 && e[0] == '\\');
            assert(e.skip(2) =~= escape(s.drop_first()));
            assert(unesc_char(e[1]) == Some(c));
            assert(seq![c] + s.drop_first() =~= s);
        } else {
            assert(e[0] == c);
            assert(e.drop_first() =~= escape(s.drop_first()));
            assert(seq![c] + s.drop_first() =~= s);
        }
    }
}

/// An escaped value holds no line break and no carriage return.
pub proof fn lemma_escape_no_newline(s: Seq<char>)
    ensures
        forall|i: int|
            0 <= i < escape(s).len() ==> escape(s)[i] != '\n' && #[trigger] escape(s)[i] != '\r',
    decreases s.len(),
{
    if s.len() > 0 {
        lemma_escape_no_newline(s.drop_first());
        assert(forall|i: int|
            0 <= i < escape(s).len() ==> #[trigger] escape(s)[i] == if i < esc_char(s[0]).len() {
                esc_char(s[0])[i]
            } else {
                escape(s.drop_first())[i - esc_char(s[0]).len()]
            });
    }
}

/// An encoded value holds no line break and no carriage return.
pub proof fn lemma_enc_value_no_newline(s: Seq<char>)
    ensures
        forall|i: int|
            0 <= i < enc_value(s).len() ==> enc_value(s)[i] != '\n' && #[trigger] enc_value(
                s,
            )[i] != '\r',
{
    if needs_quote(s) {
        lemma_escape_no_newline(s);
        let e = enc_value(s);
        assert(forall|i: int|
            0 <= i < e.len() ==> #[trigger] e[i] == if i == 0 {
                '"'
            } else if i <= escape(s).len() {
                escape(s)[i - 1]
            } else {
                '"'
            });
    } else {
        assert(forall|i: int| 0 <= i < s.len() ==> s[i] != '\n' && #[trigger] s[i] != '\r');
    }
}

/// Encoding a value is reversible.
pub proof fn lemma_dec_enc_value(s: Seq<char>)
    ensures
        dec_value(enc_value(s)) == Some(s),
{
    if needs_quote(s) {
        let e = enc_value(s);
        assert(e[0] == '"' && e.last() == '"' && e.len() >= 2);
        assert(e.subrange(1, e.len() - 1) =~= escape(s));
        lemma_unescape_escape(s);
    }
}

/// Whether the value must be quoted on its line.
fn needs_quote_exec(s: &str) -> (b: bool)
    ensures
        b == needs_quote(s@),
{
    let n = s.unicode_len();
    if n > 0 && s.get_char(0) == '"' {
        return true;
    }
    let mut i: usize = 0;
    while i < n
        invariant
            n == s@.len(),
            0 <= i <= n,
            forall|k: int| 0 <= k < i ==> s@[k] != '\n' && s@[k] != '\r',
        decreases n - i,
    {
        let c = s.get_char(i);
        if c == '\n' || c == '\r' {
            return true;
        }
        i = i + 1;
    }
    false
}

/// Writes a value as it stands on its line.
fn enc_value_exec(s: &str) -> (r: String)
    ensures
        r@ == enc_value(s@),
{
    if !needs_quote_exec(s) {
        return String::from_str(s);
    }
    let n = s.unicode_len();
    let mut out = String::new();
    push_char(&mut out, '"');
    let mut i: usize = 0;
    while i < n
        invariant
            n == s@.len(),
            0 <= i <= n,
            out@ == seq!['"'] + escape(s@.take(i as int)),
        decreases n - i,
    {
        let c = s.get_char(i);
        proof {
            lemma_escape_snoc(s@.take(i as int), c);
            assert(s@.take(i as int).push(c) =~= s@.take(i + 1 as int));
        }
        if c == '\\' {
            push_char(&mut out, '\\');
            push_char(&mut out, '\\');
        } else if c == '"' {
            push_char(&mut out, '\\');
            push_char(&mut out, '"');
        } else if c == '\n' {
            push_char(&mut out, '\\');
            push_char(&mut out, 'n');
        } else if c == '\r' {
            push_char(&mut out, '\\');
            push_char(&mut out, 'r');
        } else {
            push_char(&mut out, c);
        }
        proof {
            assert(out@ =~= seq!['"'] + escape(s@.take(i + 1 as int)));
        }
        i = i + 1;
    }
    push_char(&mut out, '"');
    proof {
        assert(s@.take(n as int) =~= s@);
        assert(out@ =~= enc_value(s@));
    }
    out
}

proof fn lemma_escape_snoc(s: Seq<char>, c: char)
    ensures
        escape(s.push(c)) == escape(s) + esc_char(c),
    decreases s.len(),
{
    if s.len() == 0 {
        assert(s.push(c).drop_first() =~= Seq::<char>::empty());
        assert(s.push(c)[0] == c);
        assert(escape(s.push(c).drop_first()) == Seq::<char>::empty());
        assert(escape(s.push(c)) == esc_char(c) + Seq::<char>::empty());
        assert(esc_char(c) + Seq::<char>::empty() =~= Seq::<char>::empty() + esc_char(c));
    } else {
        assert(s.push(c).drop_first() =~= s.drop_first().push(c));
        lemma_escape_snoc(s.drop_first(), c);
        assert(s.push(c)[0] == s[0]);
        assert(escape(s.push(c)) == esc_char(s[0]) + (escape(s.drop_first()) + esc_char(c)));
        assert(esc_char(s[0]) + (escape(s.drop_first()) + esc_char(c)) =~= (esc_char(s[0])
            + escape(s.drop_first())) + esc_char(c));
    }
}

/// Reads a value token back from its line.
fn dec_value_exec(v: &str) -> (r: Option<String>)
    ensures
        match r {
            Some(w) => dec_value(v@) == Some(w@),
            None => dec_value(v@) is None,
        },
{
    let n = v.unicode_len();
    if n == 0 || v.get_char(0) != '"' {
        return Some(String::from_str(v));
    }
    if n < 2 || v.get_char(n - 1) != '"' {
        return None;
    }
    let ghost inner = v@.subrange(1, n - 1);
    let mut out = String::new();
    let mut p: usize = 1;
    while p < n - 1
        invariant
            n == v@.len(),
            n >= 2,
            v@[0] == '"',
            v@[n - 1] == '"',
            inner == v@.subrange(1, n - 1),
            1 <= p <= n - 1,
            unescape(inner) == (match unescape(v@.subrange(p as int, n - 1)) {
                Some(w) => Some(out@ + w),
                None => None::<Seq<char>>,
            }),
        decreases n - p,
    {
        let ghost rem = v@.subrange(p as int, n - 1);
        let c = v.get_char(p);
        if c == '\\' {
            if p + 1 >= n - 1 {
                proof {
                    assert(rem.len() == 1 && rem[0] == '\\');
                }
                return None;
            }
            let d = v.get_char(p + 1);
            let u = if d == '\\' {
                Some('\\')
            } else if d == '"' {
                Some('"')
            } else if d == 'n' {
                Some('\n')
            } else if d == 'r' {
                Some('\r')
            } else {
                None
            };
            proof {
                assert(rem[0] == '\\' && rem.len() >= 2 && rem[1] == v@[p + 1]);
            }
            match u {
                Some(w) => {
                    push_char(&mut out, w);
                    proof {
                        assert(rem.skip(2) =~= v@.subrange(p + 2 as int, n - 1));
                        assert(unesc_char(v@[p + 1]) == Some(w));
                    }
                    p = p + 2;
                },
                None => {
                    proof {
                        assert(unesc_char(v@[p + 1]) is None);
                    }
                    return None;
                },
            }
        } else if c == '"' {
            proof {
                assert(rem[0] == '"');
            }
            return None;
        } else {
            push_char(&mut out, c);
            proof {
                assert(rem.drop_first() =~= v@.subrange(p + 1 as int, n - 1));
            }
            p = p + 1;
        }
    }
    proof {
        assert(v@.subrange(p as int, n - 1) =~= Seq::<char>::empty());
        assert(unescape(inner) == Some(out@));
    }
    Some(out)
}

/// The line break.
pub open spec fn nl() -> Seq<char> {
    seq!['\n']
}

/// One tag per line, each introduced by a dash.
pub open spec fn item_lines(items: Seq<Seq<char>>) -> Seq<char>
    decreases items.len(),
{
    if items.len() == 0 {
        Seq::empty()
    } else {
        "- "@ + enc_value(items[0]) + nl() + item_lines(items.drop_first())
    }
}

/// The tag list as it stands in the front matter.
pub open spec fn subject_block(items: Seq<Seq<char>>) -> Seq<char> {
    if items.len() == 0 {
        "subject: []"@ + nl()
    } else {
        "subject:"@ + nl() + item_lines(items)
    }
}

/// The datetime value token: the instant, or `null` when unknown.
pub open spec fn dt_token(d: Option<Seq<char>>) -> Seq<char> {
    match d {
        Some(v) => enc_value(v),
        None => "null"@,
    }
}

/// The canonical front matter of a record: the fixed keys in order
/// between two fences.
pub open spec fn spec_emit_meta(m: MetadataV) -> Seq<char> {
    "---"@ + nl() + "number: "@ + spec_decimal(m.number) + nl() + "identifier: "@ + enc_value(
        m.identifier,
    ) + nl() + "title: "@ + enc_value(m.title) + nl() + subject_block(m.subject) + "downloads: "@
        + spec_decimal(m.downloads) + nl() + "filename: "@ + enc_value(m.filename) + nl()
        + "mtime: "@ + spec_decimal(m.mtime) + nl() + "datetime: "@ + dt_token(m.datetime) + nl() + "size: "@ + spec_decimal(m.size) + nl()
        + "length: "@ + spec_decimal(m.length) + nl() + "excerpt: "@ + enc_value(m.excerpt) + nl()
        + "slug: "@ + enc_value(m.slug) + nl() + "---"@ + nl()
}

/// A whole record file: front matter, then the body verbatim.
pub open spec fn spec_emit(e: EpisodeV) -> Seq<char> {
    spec_emit_meta(e.metadata) + e.content
}

/// Writes one scalar line: the key, the encoded value, a line break.
fn emit_kv(out: &mut String, key: &str, value: &str)
    ensures
        final(out)@ == old(out)@ + key@ + enc_value(value@) + nl(),
{
    out.append(key);
    let v = enc_value_exec(value);
    out.append(v.as_str());
    push_char(out, '\n');
    proof {
        assert(final(out)@ =~= old(out)@ + key@ + enc_value(value@) + nl());
    }
}

/// Writes one numeric line: the key, the number in decimal, a line break.
fn emit_kv_num(out: &mut String, key: &str, value: u64)
    ensures
        final(out)@ == old(out)@ + key@ + spec_decimal(value as int) + nl(),
{
    out.append(key);
    let v = decimal_string(value);
    out.append(v.as_str());
    push_char(out, '\n');
    proof {
        assert(final(out)@ =~= old(out)@ + key@ + spec_decimal(value as int) + nl());
    }
}

proof fn lemma_item_lines_snoc(items: Seq<Seq<char>>, w: Seq<char>)
    ensures
        item_lines(items.push(w)) == item_lines(items) + ("- "@ + enc_value(w) + nl()),
    decreases items.len(),
{
    if items.len() == 0 {
        assert(items.push(w).drop_first() =~= Seq::<Seq<char>>::empty());
        assert(items.push(w)[0] == w);
        assert(item_lines(items.push(w).drop_first()) == Seq::<char>::empty());
        assert(item_lines(items.push(w)) =~= "- "@ + enc_value(w) + nl() + Seq::<char>::empty());
        assert("- "@ + enc_value(w) + nl() + Seq::<char>::empty() =~= Seq::<char>::empty() + ("- "@
            + enc_value(w) + nl()));
    } else {
        assert(items.push(w).drop_first() =~= items.drop_first().push(w));
        lemma_item_lines_snoc(items.drop_first(), w);
        assert(items.push(w)[0] == items[0]);
        assert(item_lines(items.push(w)) == "- "@ + enc_value(items[0]) + nl() + (item_lines(
            items.drop_first(),
        ) + ("- "@ + enc_value(w) + nl())));
        assert("- "@ + enc_value(items[0]) + nl() + (item_lines(items.drop_first()) + ("- "@
            + enc_value(w) + nl())) =~= ("- "@ + enc_value(items[0]) + nl() + item_lines(
            items.drop_first(),
        )) + ("- "@ + enc_value(w) + nl()));
    }
}

/// Writes the tag list.
fn emit_subject(out: &mut String, items: &Vec<String>)
    ensures
        final(out)@ == old(out)@ + subject_block(items.deep_view()),
{
    let ghost iv = items.deep_view();
    if items.len() == 0 {
        out.append("subject: []");
        push_char(out, '\n');
        proof {
            assert(final(out)@ =~= old(out)@ + subject_block(iv));
        }
        return ;
    }
    out.append("subject:");
    push_char(out, '\n');
    let mut i: usize = 0;
    proof {
        assert(item_lines(iv.take(0)) =~= Seq::<char>::empty());
        assert(out@ =~= old(out)@ + "subject:"@ + nl() + item_lines(iv.take(0)));
    }
    while i < items.len()
        invariant
            iv == items.deep_view(),
            0 <= i <= items.len(),
            out@ == old(out)@ + "subject:"@ + nl() + item_lines(iv.take(i as int)),
        decreases items.len() - i,
    {
        out.append("- ");
        let v = enc_value_exec(items[i].as_str());
        out.append(v.as_str());
        push_char(out, '\n');
        proof {
            lemma_item_lines_snoc(iv.take(i as int), iv[i as int]);
            assert(iv.take(i as int).push(iv[i as int]) =~= iv.take(i + 1 as int));
            assert(out@ =~= old(out)@ + "subject:"@ + nl() + item_lines(iv.take(i + 1 as int)));
        }
        i = i + 1;
    }
    proof {
        assert(iv.take(items.len() as int) =~= iv);
        assert(out@ =~= old(out)@ + subject_block(iv));
    }
}

/// Writes a record to its file form: canonical front matter, then the
/// body.
#[verifier::rlimit(100)]
pub fn serialize_episode(e: &Episode) -> (r: String)
    ensures
        r@ == spec_emit(e@),
{
    let mut out = String::new();
    out.append("---");
    push_char(&mut out, '\n');
    emit_kv_num(&mut out, "number: ", e.metadata.number as u64);
    emit_kv(&mut out, "identifier: ", e.metadata.identifier.as_str());
    emit_kv(&mut out, "title: ", e.metadata.title.as_str());
    emit_subject(&mut out, &e.metadata.subject);
    emit_kv_num(&mut out, "downloads: ", e.metadata.downloads);
    emit_kv(&mut out, "filename: ", e.metadata.filename.as_str());
    emit_kv_num(&mut out, "mtime: ", e.metadata.mtime);
    match &e.metadata.datetime {
        Some(d) => {
            emit_kv(&mut out, "datetime: ", d.as_str());
        },
        None => {
            out.append("datetime: ");
            out.append("null");
            push_char(&mut out, '\n');
        },
    }
    emit_kv_num(&mut out, "size: ", e.metadata.size);
    emit_kv_num(&mut out, "length: ", e.metadata.length);
    emit_kv(&mut out, "excerpt: ", e.metadata.excerpt.as_str());
    emit_kv(&mut out, "slug: ", e.metadata.slug.as_str());
    out.append("---");
    push_char(&mut out, '\n');
    out.append(e.content.as_str());
    proof {
        assert(out@ =~= spec_emit(e@));
    }
    out
}

/// Reads one numeric line off the front of `s`: the key, a decimal number
/// of at most `max`, a line break.
pub open spec fn parse_kv_num(s: Seq<char>, key: Seq<char>, max: int) -> Option<(int, Seq<char>)> {
    let i = find_char(s, '\n');
    if !(0 <= i && i < s.len()) {
        None
    } else {
        let line = s.take(i);
        let rest = s.skip(i + 1);
        if match_at(line, key, 0) {
            let tok = line.skip(key.len() as int);
            if tok.len() > 0 && all_digits(tok) && digits_val(tok) <= max {
                Some((digits_val(tok), rest))
            } else {
                None
            }
        } else {
            None
        }
    }
}

/// Reads one scalar line off the front of `s`: the key, a value token, a
/// line break.
pub open spec fn parse_kv_str(s: Seq<char>, key: Seq<char>) -> Option<(Seq<char>, Seq<char>)> {
    let i = find_char(s, '\n');
    if !(0 <= i && i < s.len()) {
        None
    } else {
        let line = s.take(i);
        let rest = s.skip(i + 1);
        if match_at(line, key, 0) {
            match dec_value(line.skip(key.len() as int)) {
                Some(w) => Some((w, rest)),
                None => None,
            }
        } else {
            None
        }
    }
}

/// Reads tag lines off the front of `s` until a line that introduces no
/// tag; that line is left in place.
pub open spec fn parse_items(s: Seq<char>) -> Option<(Seq<Seq<char>>, Seq<char>)>
    decreases s.len(),
{
    let i = find_char(s, '\n');
    if !(0 <= i && i < s.len()) {
        Some((Seq::empty(), s))
    } else {
        let line = s.take(i);
        let rest = s.skip(i + 1);
        if match_at(line, "- "@, 0) {
            match dec_value(line.skip(2)) {
                Some(w) => match parse_items(rest) {
                    Some((ws, r2)) => Some((seq![w] + ws, r2)),
                    None => None,
                },
                None => None,
            }
        } else {
            Some((Seq::empty(), s))
        }
    }
}

/// Reads the tag list off the front of `s`: an empty list on its own
/// line, or the bare key followed by tag lines.
pub open spec fn parse_subject_block(s: Seq<char>) -> Option<(Seq<Seq<char>>, Seq<char>)> {
    let i = find_char(s, '\n');
    if !(0 <= i && i < s.len()) {
        None
    } else {
        let line = s.take(i);
        let rest = s.skip(i + 1);
        if line == "subject: []"@ {
            Some((Seq::empty(), rest))
        } else if line == "subject:"@ {
            parse_items(rest)
        } else {
            None
        }
    }
}

/// Reads the datetime line off the front of `s`: the instant's token, or
/// `null` for none.
pub open spec fn parse_dt(s: Seq<char>) -> Option<(Option<Seq<char>>, Seq<char>)> {
    let i = find_char(s, '\n');
    if !(0 <= i && i < s.len()) {
        None
    } else {
        let line = s.take(i);
        let rest = s.skip(i + 1);
        if match_at(line, "datetime: "@, 0) {
            let tok = line.skip("datetime: "@.len() as int);
            if tok == "null"@ {
                Some((None, rest))
            } else {
                match dec_value(tok) {
                    Some(w) => Some((Some(w), rest)),
                    None => None,
                }
            }
        } else {
            None
        }
    }
}

/// Reads a whole record file: the fenced front matter with its fixed keys
/// in order, then the body verbatim.
pub open spec fn spec_parse(text: Seq<char>) -> Option<(MetadataV, Seq<char>)> {
    if !match_at(text, "---"@ + nl(), 0) {
        None
    } else {
        let s0 = text.skip(("---"@ + nl()).len() as int);
        match parse_kv_num(s0, "number: "@, usize::MAX as int) {
            None => None,
            Some((number, s1)) => match parse_kv_str(s1, "identifier: "@) {
                None => None,
                Some((identifier, s2)) => match parse_kv_str(s2, "title: "@) {
                    None => None,
                    Some((title, s3)) => match parse_subject_block(s3) {
                        None => None,
                        Some((subject, s4)) => match parse_kv_num(
                            s4,
                            "downloads: "@,
                            u64::MAX as int,
                        ) {
                            None => None,
                            Some((downloads, s5)) => match parse_kv_str(s5, "filename: "@) {
                                None => None,
                                Some((filename, s5m)) => match parse_kv_num(
                                    s5m,
                                    "mtime: "@,
                                    u64::MAX as int,
                                ) {
                                    None => None,
                                    Some((mtime, s6)) => match parse_dt(s6) {
                                        None => None,
                                        Some((datetime, s7)) => match parse_kv_num(
                                            s7,
                                            "size: "@,
                                            u64::MAX as int,
                                        ) {
                                            None => None,
                                            Some((size, s8)) => match parse_kv_num(
                                                s8,
                                                "length: "@,
                                                u64::MAX as int,
                                            ) {
                                                None => None,
                                                Some((length, s9)) => match parse_kv_str(
                                                    s9,
                                                    "excerpt: "@,
                                                ) {
                                                    None => None,
                                                    Some((excerpt, s10)) => match parse_kv_str(
                                                        s10,
                                                        "slug: "@,
                                                    ) {
                                                        None => None,
                                                        Some((slug, s11)) => {
                                                            let i = find_char(s11, '\n');
                                                            if 0 <= i && i < s11.len() && s11.take(i)
                                                                == "---"@ {
                                                                Some(
                                                                    (
                                                                        MetadataV {
                                                                            number,
                                                                            identifier,
                                                                            title,
                                                                            subject,
                                                                            downloads,
                                                                            filename,
                                                                            mtime,
                                                                            datetime,
                                                                            size,
                                                                            length,
                                                                            excerpt,
                                                                            slug,
                                                                        },
                                                                        s11.skip(i + 1),
                                                                    ),
                                                                )
                                                            } else {
                                                                None
                                                            }
                                                        },
                                                    },
                                                },
                                            },
                                        },
                                    },
                                },
                            },
                        },
                    },
                },
            },
        }
    }
}

/// Reads one numeric line.
fn kv_num_exec(s: &str, key: &str, max: u64) -> (r: Option<(u64, String)>)
    ensures
        match r {
            Some(p) => parse_kv_num(s@, key@, max as int) == Some((p.0 as int, p.1@)),
            None => parse_kv_num(s@, key@, max as int) is None,
        },
{
    let n = s.unicode_len();
    let i = find_char_exec(s, 0, '\n');
    proof {
        assert(s@.skip(0) =~= s@);
    }
    if i == n {
        return None;
    }
    let line = s.substring_char(0, i);
    let rest = s.substring_char(i + 1, n);
    proof {
        assert(line@ =~= s@.take(i as int));
        assert(rest@ =~= s@.skip(i + 1));
    }
    if !match_at_exec(line, key, 0) {
        return None;
    }
    let klen = key.unicode_len();
    let tok = line.substring_char(klen, i);
    proof {
        assert(tok@ =~= s@.take(i as int).skip(key@.len() as int));
    }
    match parse_u64(tok) {
        Some(v) => {
            if v <= max {
                Some((v, String::from_str(rest)))
            } else {
                None
            }
        },
        None => None,
    }
}

/// Reads one scalar line.
fn kv_str_exec(s: &str, key: &str) -> (r: Option<(String, String)>)
    ensures
        match r {
            Some(p) => parse_kv_str(s@, key@) == Some((p.0@, p.1@)),
            None => parse_kv_str(s@, key@) is None,
        },
{
    let n = s.unicode_len();
    let i = find_char_exec(s, 0, '\n');
    proof {
        assert(s@.skip(0) =~= s@);
    }
    if i == n {
        return None;
    }
    let line = s.substring_char(0, i);
    let rest = s.substring_char(i + 1, n);
    proof {
        assert(line@ =~= s@.take(i as int));
        assert(rest@ =~= s@.skip(i + 1));
    }
    if !match_at_exec(line, key, 0) {
        return None;
    }
    let klen = key.unicode_len();
    let tok = line.substring_char(klen, i);
    proof {
        assert(tok@ =~= s@.take(i as int).skip(key@.len() as int));
    }
    match dec_value_exec(tok) {
        Some(w) => Some((w, String::from_str(rest))),
        None => None,
    }
}

/// Reads the datetime line.
fn dt_exec(s: &str) -> (r: Option<(Option<String>, String)>)
    ensures
        match r {
            Some(p) => ({
                let dv = match p.0 {
                    Some(ref w) => Some(w@),
                    None => None::<Seq<char>>,
                };
                parse_dt(s@) == Some((dv, p.1@))
            }),
            None => parse_dt(s@) is None,
        },
{
    let n = s.unicode_len();
    let i = find_char_exec(s, 0, '\n');
    proof {
        assert(s@.skip(0) =~= s@);
    }
    if i == n {
        return None;
    }
    let line = s.substring_char(0, i);
    let rest = s.substring_char(i + 1, n);
    proof {
        assert(line@ =~= s@.take(i as int));
        assert(rest@ =~= s@.skip(i + 1));
    }
    if !match_at_exec(line, "datetime: ", 0) {
        return None;
    }
    let klen = "datetime: ".unicode_len();
    let tok = line.substring_char(klen, i);
    proof {
        assert(tok@ =~= s@.take(i as int).skip("datetime: "@.len() as int));
    }
    if str_eq(tok, "null") {
        return Some((None, String::from_str(rest)));
    }
    match dec_value_exec(tok) {
        Some(w) => Some((Some(w), String::from_str(rest))),
        None => None,
    }
}

/// Reads the tag list.
fn subject_exec(s: &str) -> (r: Option<(Vec<String>, String)>)
    ensures
        match r {
            Some(p) => parse_subject_block(s@) == Some((p.0.deep_view(), p.1@)),
            None => parse_subject_block(s@) is None,
        },
{
    let n = s.unicode_len();
    let i = find_char_exec(s, 0, '\n');
    proof {
        assert(s@.skip(0) =~= s@);
    }
    if i == n {
        return None;
    }
    let line = s.substring_char(0, i);
    let rest = s.substring_char(i + 1, n);
    proof {
        assert(line@ =~= s@.take(i as int));
        assert(rest@ =~= s@.skip(i + 1));
    }
    if str_eq(line, "subject: []") {
        let items: Vec<String> = Vec::new();
        proof {
            assert(items.deep_view() =~= Seq::<Seq<char>>::empty());
        }
        return Some((items, String::from_str(rest)));
    }
    if !str_eq(line, "subject:") {
        return None;
    }
    let ghost rest0 = s@.skip(i + 1);
    let mut items: Vec<String> = Vec::new();
    let mut cur = String::from_str(rest);
    proof {
        assert(items.deep_view() =~= Seq::<Seq<char>>::empty());
        assert(Seq::<Seq<char>>::empty() + Seq::<Seq<char>>::empty() =~= Seq::<
            Seq<char>,
        >::empty());
    }
    loop
        invariant
            ({
                let b = parse_items(cur@);
                match b {
                    Some(p) => parse_subject_block(s@) == Some((items.deep_view() + p.0, p.1)),
                    None => parse_subject_block(s@) is None,
                }
            }),
        decreases cur@.len(),
    {
        let m = cur.as_str().unicode_len();
        let j = find_char_exec(cur.as_str(), 0, '\n');
        proof {
            assert(cur@.skip(0) =~= cur@);
        }
        if j == m {
            proof {
                assert(items.deep_view() + Seq::<Seq<char>>::empty() =~= items.deep_view());
            }
            return Some((items, cur));
        }
        let lline = cur.as_str().substring_char(0, j);
        proof {
            assert(lline@ =~= cur@.take(j as int));
        }
        if !match_at_exec(lline, "- ", 0) {
            proof {
                assert(items.deep_view() + Seq::<Seq<char>>::empty() =~= items.deep_view());
            }
            return Some((items, cur));
        }
        let two = "- ".unicode_len();
        let tok = lline.substring_char(two, j);
        proof {
            reveal_strlit("- ");
            assert(tok@ =~= cur@.take(j as int).skip(2));
        }
        let next = cur.as_str().substring_char(j + 1, m);
        proof {
            assert(next@ =~= cur@.skip(j + 1));
        }
        match dec_value_exec(tok) {
            Some(w) => {
                let ghost before = items.deep_view();
                let ghost wv = w@;
                items.push(w);
                proof {
                    assert(items.deep_view() =~= before.push(wv));
                    if parse_items(next@) is Some {
                        let p = parse_items(next@)->Some_0;
                        assert(before + (seq![wv] + p.0) =~= before.push(wv) + p.0);
                    }
                }
                cur = String::from_str(next);
            },
            None => {
                return None;
            },
        }
    }
}

/// Reads a record file into an episode. An error names the first thing
/// the parser could not account for.
#[verifier::rlimit(100)]
pub fn parse_episode(text: &str) -> (r: Result<Episode, Error>)
    ensures
        match r {
            Ok(e) => spec_parse(text@) == Some((e@.metadata, e@.content)),
            Err(_) => spec_parse(text@) is None,
        },
{
    let n = text.unicode_len();
    proof {
        reveal_strlit("---\n");
        reveal_strlit("---");
        assert("---\n"@ =~= "---"@ + nl());
    }
    if !match_at_exec(text, "---\n", 0) {
        return Err(Error::new("the file does not open with a front-matter fence"));
    }
    let s0 = text.substring_char(4, n);
    proof {
        assert(s0@ =~= text@.skip(("---"@ + nl()).len() as int));
    }
    let number = match kv_num_exec(s0, "number: ", usize::MAX as u64) {
        Some(p) => p,
        None => { return Err(Error::new("the number line cannot be read")); },
    };
    let identifier = match kv_str_exec(number.1.as_str(), "identifier: ") {
        Some(p) => p,
        None => { return Err(Error::new("the identifier line cannot be read")); },
    };
    let title = match kv_str_exec(identifier.1.as_str(), "title: ") {
        Some(p) => p,
        None => { return Err(Error::new("the title line cannot be read")); },
    };
    let subject = match subject_exec(title.1.as_str()) {
        Some(p) => p,
        None => { return Err(Error::new("the subject list cannot be read")); },
    };
    let downloads = match kv_num_exec(subject.1.as_str(), "downloads: ", u64::MAX) {
        Some(p) => p,
        None => { return Err(Error::new("the downloads line cannot be read")); },
    };
    let filename = match kv_str_exec(downloads.1.as_str(), "filename: ") {
        Some(p) => p,
        None => { return Err(Error::new("the filename line cannot be read")); },
    };
    let mtime = match kv_num_exec(filename.1.as_str(), "mtime: ", u64::MAX) {
        Some(p) => p,
        None => { return Err(Error::new("the mtime line cannot be read")); },
    };
    let datetime = match dt_exec(mtime.1.as_str()) {
        Some(p) => p,
        None => { return Err(Error::new("the datetime line cannot be read")); },
    };
    let size = match kv_num_exec(datetime.1.as_str(), "size: ", u64::MAX) {
        Some(p) => p,
        None => { return Err(Error::new("the size line cannot be read")); },
    };
    let length = match kv_num_exec(size.1.as_str(), "length: ", u64::MAX) {
        Some(p) => p,
        None => { return Err(Error::new("the length line cannot be read")); },
    };
    let excerpt = match kv_str_exec(length.1.as_str(), "excerpt: ") {
        Some(p) => p,
        None => { return Err(Error::new("the excerpt line cannot be read")); },
    };
    let slug = match kv_str_exec(excerpt.1.as_str(), "slug: ") {
        Some(p) => p,
        None => { return Err(Error::new("the slug line cannot be read")); },
    };
    let tail = slug.1.as_str();
    let tn = tail.unicode_len();
    let j = find_char_exec(tail, 0, '\n');
    proof {
        assert(tail@.skip(0) =~= tail@);
    }
    if j == tn {
        return Err(Error::new("the closing fence is missing"));
    }
    let fence = tail.substring_char(0, j);
    proof {
        assert(fence@ =~= tail@.take(j as int));
    }
    if !str_eq(fence, "---") {
        return Err(Error::new("the closing fence is missing"));
    }
    let body = tail.substring_char(j + 1, tn);
    proof {
        assert(body@ =~= tail@.skip(j + 1));
    }
    let metadata = Metadata {
        number: number.0 as usize,
        identifier: identifier.0,
        title: title.0,
        subject: subject.0,
        downloads: downloads.0,
        filename: filename.0,
        mtime: mtime.0,
        datetime: datetime.0,
        size: size.0,
        length: length.0,
        excerpt: excerpt.0,
        slug: slug.0,
    };
    let e = Episode { metadata, content: String::from_str(body) };
    Ok(e)
}

/// The metadata after the derived fields are filled in: an empty slug is
/// computed from the title, an empty excerpt from the body's first words.
pub open spec fn normalized_meta(m: MetadataV, content: Seq<char>) -> MetadataV {
    MetadataV {
        slug: if m.slug.len() == 0 {
            spec_slug(m.title)
        } else {
            m.slug
        },
        excerpt: if m.excerpt.len() == 0 {
            spec_first_words(content, EXCERPT_LENGTH as int)
        } else {
            m.excerpt
        },
        ..m
    }
}

/// Reads a record file and fills in missing derived fields. The flag says
/// whether anything was filled in, so that the caller persists exactly
/// then; a record that is already normalized reads back unchanged.
pub fn load_episode(text: &str) -> (r: Result<(Episode, bool), Error>)
    ensures
        match r {
            Ok(p) => match spec_parse(text@) {
                Some((m, b)) => {
                    &&& p.0@.content == b
                    &&& p.0@.metadata == normalized_meta(m, b)
                    &&& p.1 == (m.slug.len() == 0 || m.excerpt.len() == 0)
                },
                None => false,
            },
            Err(_) => spec_parse(text@) is None,
        },
{
    let mut e = match parse_episode(text) {
        Ok(e) => e,
        Err(err) => { return Err(err); },
    };
    let mut dirty = false;
    if e.metadata.slug.as_str().unicode_len() == 0 {
        e.metadata.slug = get_slug(e.metadata.title.as_str());
        dirty = true;
    }
    if e.metadata.excerpt.as_str().unicode_len() == 0 {
        e.metadata.excerpt = get_excerpt(e.content.as_str());
        dirty = true;
    }
    Ok((e, dirty))
}

/// Filling the derived fields in twice changes nothing beyond the first
/// time: re-loading an already normalized record alters no field.
pub proof fn lemma_normalize_idempotent(m: MetadataV, content: Seq<char>)
    ensures
        normalized_meta(normalized_meta(m, content), content) == normalized_meta(m, content),
{
}

proof fn lemma_line_split(a: Seq<char>, rest: Seq<char>)
    requires
        forall|k: int| 0 <= k < a.len() ==> a[k] != '\n',
    ensures
        find_char(a + nl() + rest, '\n') == a.len(),
        (a + nl() + rest).take(a.len() as int) == a,
        (a + nl() + rest).skip(a.len() as int + 1) == rest,
{
    let s = a + nl() + rest;
    assert(s[a.len() as int] == '\n');
    assert(forall|k: int| 0 <= k < a.len() ==> s[k] == a[k] && a[k] != '\n');
    crate::text::lemma_find_char_at(s, '\n', a.len() as int);
    assert(s.take(a.len() as int) =~= a);
    assert(s.skip(a.len() as int + 1) =~= rest);
}

proof fn lemma_no_nl_concat(a: Seq<char>, b: Seq<char>)
    requires
        forall|k: int| 0 <= k < a.len() ==> a[k] != '\n',
        forall|k: int| 0 <= k < b.len() ==> b[k] != '\n',
    ensures
        forall|k: int| 0 <= k < (a + b).len() ==> (a + b)[k] != '\n',
{
    assert(forall|k: int|
        0 <= k < (a + b).len() ==> (a + b)[k] == if k < a.len() {
            a[k]
        } else {
            b[k - a.len()]
        });
}

proof fn lemma_kv_num_line(key: Seq<char>, v: int, rest: Seq<char>, max: int)
    requires
        0 <= v <= max,
        max <= u64::MAX,
        forall|k: int| 0 <= k < key.len() ==> key[k] != '\n',
    ensures
        parse_kv_num(key + spec_decimal(v) + nl() + rest, key, max) == Some((v, rest)),
{
    crate::text::lemma_decimal_digits(v);
    let d = spec_decimal(v);
    assert(forall|k: int| 0 <= k < d.len() ==> d[k] != '\n') by {
        assert(forall|k: int| 0 <= k < d.len() ==> is_digit(#[trigger] d[k]));
    }
    let a = key + d;
    lemma_no_nl_concat(key, d);
    lemma_line_split(a, rest);
    let s = key + d + nl() + rest;
    assert(s =~= a + nl() + rest);
    let i = find_char(s, '\n');
    assert(i == a.len());
    let line = s.take(i);
    assert(line == a);
    assert(line.subrange(0, key.len() as int) =~= key);
    assert(match_at(line, key, 0));
    assert(line.skip(key.len() as int) =~= d);
    assert(s.skip(i + 1) == rest);
}

proof fn lemma_kv_str_line(key: Seq<char>, v: Seq<char>, rest: Seq<char>)
    requires
        forall|k: int| 0 <= k < key.len() ==> key[k] != '\n',
    ensures
        parse_kv_str(key + enc_value(v) + nl() + rest, key) == Some((v, rest)),
{
    let e = enc_value(v);
    lemma_enc_value_no_newline(v);
    let a = key + e;
    lemma_no_nl_concat(key, e);
    lemma_line_split(a, rest);
    let s = key + e + nl() + rest;
    assert(s =~= a + nl() + rest);
    let i = find_char(s, '\n');
    assert(i == a.len());
    let line = s.take(i);
    assert(line == a);
    assert(line.subrange(0, key.len() as int) =~= key);
    assert(match_at(line, key, 0));
    assert(line.skip(key.len() as int) =~= e);
    lemma_dec_enc_value(v);
}

proof fn lemma_dt_line(v: Option<Seq<char>>, rest: Seq<char>)
    requires
        v matches Some(d) ==> d != "null"@,
    ensures
        parse_dt("datetime: "@ + dt_token(v) + nl() + rest) == Some((v, rest)),
{
    reveal_strlit("datetime: ");
    reveal_strlit("null");
    let key = "datetime: "@;
    let t = dt_token(v);
    assert(forall|k: int| 0 <= k < t.len() ==> t[k] != '\n') by {
        match v {
            Some(d) => {
                lemma_enc_value_no_newline(d);
            },
            None => {},
        }
    }
    let a = key + t;
    lemma_no_nl_concat(key, t);
    lemma_line_split(a, rest);
    let s = key + t + nl() + rest;
    assert(s =~= a + nl() + rest);
    let i = find_char(s, '\n');
    assert(i == a.len());
    let line = s.take(i);
    assert(line == a);
    assert(line.subrange(0, key.len() as int) =~= key);
    assert(match_at(line, key, 0));
    assert(line.skip(key.len() as int) =~= t);
    match v {
        Some(d) => {
            assert(t != "null"@) by {
                if needs_quote(d) {
                    assert(t[0] == '"');
                } else {
                    assert(t == d);
                }
            }
            lemma_dec_enc_value(d);
        },
        None => {
            assert(t == "null"@);
        },
    }
}

proof fn lemma_items_round(items: Seq<Seq<char>>, rest: Seq<char>)
    requires
        rest.len() > 0 ==> rest[0] != '-',
    ensures
        parse_items(item_lines(items) + rest) == Some((items, rest)),
    decreases items.len(),
{
    reveal_strlit("- ");
    if items.len() == 0 {
        assert(item_lines(items) + rest =~= rest);
        let i = find_char(rest, '\n');
        crate::text::lemma_find_char(rest, '\n');
        if 0 <= i && i < rest.len() {
            let line = rest.take(i);
            assert(!match_at(line, "- "@, 0)) by {
                if match_at(line, "- "@, 0) {
                    assert(line.subrange(0, 2)[0] == rest[0]);
                    assert("- "@[0] == '-');
                }
            }
            assert(parse_items(rest) == Some((Seq::<Seq<char>>::empty(), rest)));
        }
        assert(parse_items(item_lines(items) + rest) == Some((items, rest))) by {
            assert(items =~= Seq::<Seq<char>>::empty());
        }
    } else {
        lemma_items_round(items.drop_first(), rest);
        let w = items[0];
        let e = enc_value(w);
        lemma_enc_value_no_newline(w);
        let key = "- "@;
        let a = key + e;
        lemma_no_nl_concat(key, e);
        let tail = item_lines(items.drop_first()) + rest;
        lemma_line_split(a, tail);
        let s = item_lines(items) + rest;
        assert(s =~= a + nl() + tail);
        let i = find_char(s, '\n');
        assert(i == a.len());
        let line = s.take(i);
        assert(line == a);
        assert(line.subrange(0, 2) =~= key);
        assert(match_at(line, key, 0));
        assert(line.skip(2) =~= e);
        lemma_dec_enc_value(w);
        assert(s.skip(i + 1) == tail);
        assert(seq![w] + items.drop_first() =~= items);
    }
}

proof fn lemma_subject_round(items: Seq<Seq<char>>, rest: Seq<char>)
    requires
        rest.len() > 0 ==> rest[0] != '-',
    ensures
        parse_subject_block(subject_block(items) + rest) == Some((items, rest)),
{
    reveal_strlit("subject: []");
    reveal_strlit("subject:");
    if items.len() == 0 {
        let key = "subject: []"@;
        let s = subject_block(items) + rest;
        lemma_line_split(key, rest);
        assert(s =~= key + nl() + rest);
        let i = find_char(s, '\n');
        assert(i == key.len());
        assert(s.take(i) == key);
        assert(s.take(i) != "subject:"@);
        assert(s.skip(i + 1) == rest);
    } else {
        let key = "subject:"@;
        let tail = item_lines(items) + rest;
        lemma_line_split(key, tail);
        let s = subject_block(items) + rest;
        assert(s =~= key + nl() + tail);
        let i = find_char(s, '\n');
        assert(i == key.len());
        assert(s.take(i) == key);
        assert(s.take(i) != "subject: []"@);
        assert(s.skip(i + 1) == tail);
        lemma_items_round(items, rest);
    }
}

/// The values a record can actually hold: counts within the machine's
/// integer ranges, and a publication instant that is not the word the
/// format writes for an absent one.
pub open spec fn valid_metadata(m: MetadataV) -> bool {
    &&& 0 <= m.number <= usize::MAX
    &&& 0 <= m.downloads <= u64::MAX
    &&& 0 <= m.mtime <= u64::MAX
    &&& 0 <= m.size <= u64::MAX
    &&& 0 <= m.length <= u64::MAX
    &&& (m.datetime matches Some(d) ==> d != "null"@)
}

/// What remains of an emitted record after the closing fence's line is
/// still to come.
pub open spec fn rem11(m: MetadataV, body: Seq<char>) -> Seq<char> {
    "---"@ + nl() + body
}

pub open spec fn rem10(m: MetadataV, body: Seq<char>) -> Seq<char> {
    "slug: "@ + enc_value(m.slug) + nl() + rem11(m, body)
}

pub open spec fn rem9(m: MetadataV, body: Seq<char>) -> Seq<char> {
    "excerpt: "@ + enc_value(m.excerpt) + nl() + rem10(m, body)
}

pub open spec fn rem8(m: MetadataV, body: Seq<char>) -> Seq<char> {
    "length: "@ + spec_decimal(m.length) + nl() + rem9(m, body)
}

pub open spec fn rem7(m: MetadataV, body: Seq<char>) -> Seq<char> {
    "size: "@ + spec_decimal(m.size) + nl() + rem8(m, body)
}

pub open spec fn rem6(m: MetadataV, body: Seq<char>) -> Seq<char> {
    "datetime: "@ + dt_token(m.datetime) + nl() + rem7(m, body)
}

pub open spec fn rem5a(m: MetadataV, body: Seq<char>) -> Seq<char> {
    "mtime: "@ + spec_decimal(m.mtime) + nl() + rem6(m, body)
}

pub open spec fn rem5(m: MetadataV, body: Seq<char>) -> Seq<char> {
    "filename: "@ + enc_value(m.filename) + nl() + rem5a(m, body)
}

pub open spec fn rem4(m: MetadataV, body: Seq<char>) -> Seq<char> {
    "downloads: "@ + spec_decimal(m.downloads) + nl() + rem5(m, body)
}

pub open spec fn rem3(m: MetadataV, body: Seq<char>) -> Seq<char> {
    subject_block(m.subject) + rem4(m, body)
}

pub open spec fn rem2(m: MetadataV, body: Seq<char>) -> Seq<char> {
    "title: "@ + enc_value(m.title) + nl() + rem3(m, body)
}

pub open spec fn rem1(m: MetadataV, body: Seq<char>) -> Seq<char> {
    "identifier: "@ + enc_value(m.identifier) + nl() + rem2(m, body)
}

pub open spec fn rem0(m: MetadataV, body: Seq<char>) -> Seq<char> {
    "number: "@ + spec_decimal(m.number) + nl() + rem1(m, body)
}

#[verifier::rlimit(100)]
proof fn lemma_emit_shape(m: MetadataV, body: Seq<char>)
    ensures
        spec_emit_meta(m) + body == ("---"@ + nl()) + rem0(m, body),
{
    let p35 = "---"@ + nl() + "number: "@ + spec_decimal(m.number) + nl() + "identifier: "@ + enc_value(m.identifier) + nl() + "title: "@ + enc_value(m.title) + nl() + subject_block(m.subject) + "downloads: "@ + spec_decimal(m.downloads) + nl() + "filename: "@ + enc_value(m.filename) + nl() + "mtime: "@ + spec_decimal(m.mtime) + nl() + "datetime: "@ + dt_token(m.datetime) + nl() + "size: "@ + spec_decimal(m.size) + nl() + "length: "@ + spec_decimal(m.length) + nl() + "excerpt: "@ + enc_value(m.excerpt) + nl() + "slug: "@ + enc_value(m.slug) + nl();
    lemma_shift2(p35, "---"@, nl(), body);
    assert(spec_emit_meta(m) + body == p35 + rem11(m, body));
    let p32 = "---"@ + nl() + "number: "@ + spec_decimal(m.number) + nl() + "identifier: "@ + enc_value(m.identifier) + nl() + "title: "@ + enc_value(m.title) + nl() + subject_block(m.subject) + "downloads: "@ + spec_decimal(m.downloads) + nl() + "filename: "@ + enc_value(m.filename) + nl() + "mtime: "@ + spec_decimal(m.mtime) + nl() + "datetime: "@ + dt_token(m.datetime) + nl() + "size: "@ + spec_decimal(m.size) + nl() + "length: "@ + spec_decimal(m.length) + nl() + "excerpt: "@ + enc_value(m.excerpt) + nl();
    lemma_shift_line(p32, "slug: "@, enc_value(m.slug), nl(), rem11(m, body));
    assert(spec_emit_meta(m) + body == p32 + rem10(m, body));
    let p29 = "---"@ + nl() + "number: "@ + spec_decimal(m.number) + nl() + "identifier: "@ + enc_value(m.identifier) + nl() + "title: "@ + enc_value(m.title) + nl() + subject_block(m.subject) + "downloads: "@ + spec_decimal(m.downloads) + nl() + "filename: "@ + enc_value(m.filename) + nl() + "mtime: "@ + spec_decimal(m.mtime) + nl() + "datetime: "@ + dt_token(m.datetime) + nl() + "size: "@ + spec_decimal(m.size) + nl() + "length: "@ + spec_decimal(m.length) + nl();
    lemma_shift_line(p29, "excerpt: "@, enc_value(m.excerpt), nl(), rem10(m, body));
    assert(spec_emit_meta(m) + body == p29 + rem9(m, body));
    let p26 = "---"@ + nl() + "number: "@ + spec_decimal(m.number) + nl() + "identifier: "@ + enc_value(m.identifier) + nl() + "title: "@ + enc_value(m.title) + nl() + subject_block(m.subject) + "downloads: "@ + spec_decimal(m.downloads) + nl() + "filename: "@ + enc_value(m.filename) + nl() + "mtime: "@ + spec_decimal(m.mtime) + nl() + "datetime: "@ + dt_token(m.datetime) + nl() + "size: "@ + spec_decimal(m.size) + nl();
    lemma_shift_line(p26, "length: "@, spec_decimal(m.length), nl(), rem9(m, body));
    assert(spec_emit_meta(m) + body == p26 + rem8(m, body));
    let p23 = "---"@ + nl() + "number: "@ + spec_decimal(m.number) + nl() + "identifier: "@ + enc_value(m.identifier) + nl() + "title: "@ + enc_value(m.title) + nl() + subject_block(m.subject) + "downloads: "@ + spec_decimal(m.downloads) + nl() + "filename: "@ + enc_value(m.filename) + nl() + "mtime: "@ + spec_decimal(m.mtime) + nl() + "datetime: "@ + dt_token(m.datetime) + nl();
    lemma_shift_line(p23, "size: "@, spec_decimal(m.size), nl(), rem8(m, body));
    assert(spec_emit_meta(m) + body == p23 + rem7(m, body));
    let p20 = "---"@ + nl() + "number: "@ + spec_decimal(m.number) + nl() + "identifier: "@ + enc_value(m.identifier) + nl() + "title: "@ + enc_value(m.title) + nl() + subject_block(m.subject) + "downloads: "@ + spec_decimal(m.downloads) + nl() + "filename: "@ + enc_value(m.filename) + nl() + "mtime: "@ + spec_decimal(m.mtime) + nl();
    lemma_shift_line(p20, "datetime: "@, dt_token(m.datetime), nl(), rem7(m, body));
    assert(spec_emit_meta(m) + body == p20 + rem6(m, body));
    let p17 = "---"@ + nl() + "number: "@ + spec_decimal(m.number) + nl() + "identifier: "@ + enc_value(m.identifier) + nl() + "title: "@ + enc_value(m.title) + nl() + subject_block(m.subject) + "downloads: "@ + spec_decimal(m.downloads) + nl() + "filename: "@ + enc_value(m.filename) + nl();
    lemma_shift_line(p17, "mtime: "@, spec_decimal(m.mtime), nl(), rem6(m, body));
    assert(spec_emit_meta(m) + body == p17 + rem5a(m, body));
    let p14 = "---"@ + nl() + "number: "@ + spec_decimal(m.number) + nl() + "identifier: "@ + enc_value(m.identifier) + nl() + "title: "@ + enc_value(m.title) + nl() + subject_block(m.subject) + "downloads: "@ + spec_decimal(m.downloads) + nl();
    lemma_shift_line(p14, "filename: "@, enc_value(m.filename), nl(), rem5a(m, body));
    assert(spec_emit_meta(m) + body == p14 + rem5(m, body));
    let p11 = "---"@ + nl() + "number: "@ + spec_decimal(m.number) + nl() + "identifier: "@ + enc_value(m.identifier) + nl() + "title: "@ + enc_value(m.title) + nl() + subject_block(m.subject);
    lemma_shift_line(p11, "downloads: "@, spec_decimal(m.downloads), nl(), rem5(m, body));
    assert(spec_emit_meta(m) + body == p11 + rem4(m, body));
    let p10 = "---"@ + nl() + "number: "@ + spec_decimal(m.number) + nl() + "identifier: "@ + enc_value(m.identifier) + nl() + "title: "@ + enc_value(m.title) + nl();
    lemma_shift1(p10, subject_block(m.subject), rem4(m, body));
    assert(spec_emit_meta(m) + body == p10 + rem3(m, body));
    let p7 = "---"@ + nl() + "number: "@ + spec_decimal(m.number) + nl() + "identifier: "@ + enc_value(m.identifier) + nl();
    lemma_shift_line(p7, "title: "@, enc_value(m.title), nl(), rem3(m, body));
    assert(spec_emit_meta(m) + body == p7 + rem2(m, body));
    let p4 = "---"@ + nl() + "number: "@ + spec_decimal(m.number) + nl();
    lemma_shift_line(p4, "identifier: "@, enc_value(m.identifier), nl(), rem2(m, body));
    assert(spec_emit_meta(m) + body == p4 + rem1(m, body));
    let p1 = "---"@ + nl();
    lemma_shift_line(p1, "number: "@, spec_decimal(m.number), nl(), rem1(m, body));
    assert(spec_emit_meta(m) + body == p1 + rem0(m, body));
}

proof fn lemma_shift1(q: Seq<char>, a: Seq<char>, t: Seq<char>)
    ensures
        (q + a) + t == q + (a + t),
{
    assert((q + a) + t =~= q + (a + t));
}

proof fn lemma_shift2(q: Seq<char>, a: Seq<char>, b: Seq<char>, t: Seq<char>)
    ensures
        ((q + a) + b) + t == q + ((a + b) + t),
{
    assert(((q + a) + b) + t =~= q + ((a + b) + t));
}

proof fn lemma_shift_line(q: Seq<char>, k: Seq<char>, v: Seq<char>, w: Seq<char>, t: Seq<char>)
    ensures
        (((q + k) + v) + w) + t == q + (((k + v) + w) + t),
{
    assert((((q + k) + v) + w) + t =~= q + (((k + v) + w) + t));
}

#[verifier::rlimit(100)]
proof fn lemma_parse_emit_head1(m: MetadataV, body: Seq<char>)
    requires
        valid_metadata(m),
    ensures
        match_at(spec_emit_meta(m) + body, "---"@ + nl(), 0),
        (spec_emit_meta(m) + body).skip(("---"@ + nl()).len() as int) == rem0(m, body),
        parse_kv_num(rem0(m, body), "number: "@, usize::MAX as int) == Some((m.number, rem1(m, body))),
        parse_kv_str(rem1(m, body), "identifier: "@) == Some((m.identifier, rem2(m, body))),
        parse_kv_str(rem2(m, body), "title: "@) == Some((m.title, rem3(m, body))),
{
    reveal_strlit("---");
    reveal_strlit("number: ");
    reveal_strlit("identifier: ");
    reveal_strlit("title: ");
    let fence = "---"@ + nl();
    let text = spec_emit_meta(m) + body;
    lemma_emit_shape(m, body);
    assert(match_at(text, fence, 0)) by {
        assert(text.subrange(0, fence.len() as int) =~= fence);
    }
    assert(text.skip(fence.len() as int) =~= rem0(m, body));
    lemma_kv_num_line("number: "@, m.number, rem1(m, body), usize::MAX as int);
    lemma_kv_str_line("identifier: "@, m.identifier, rem2(m, body));
    lemma_kv_str_line("title: "@, m.title, rem3(m, body));
}

#[verifier::rlimit(100)]
proof fn lemma_parse_emit_head2(m: MetadataV, body: Seq<char>)
    requires
        valid_metadata(m),
    ensures
        parse_subject_block(rem3(m, body)) == Some((m.subject, rem4(m, body))),
        parse_kv_num(rem4(m, body), "downloads: "@, u64::MAX as int) == Some((m.downloads, rem5(m, body))),
        parse_kv_str(rem5(m, body), "filename: "@) == Some((m.filename, rem5a(m, body))),
        parse_kv_num(rem5a(m, body), "mtime: "@, u64::MAX as int) == Some((m.mtime, rem6(m, body))),
{
    reveal_strlit("downloads: ");
    reveal_strlit("filename: ");
    reveal_strlit("mtime: ");
    assert(rem4(m, body).len() > 0 && rem4(m, body)[0] != '-');
    lemma_subject_round(m.subject, rem4(m, body));
    lemma_kv_num_line("downloads: "@, m.downloads, rem5(m, body), u64::MAX as int);
    lemma_kv_str_line("filename: "@, m.filename, rem5a(m, body));
    lemma_kv_num_line("mtime: "@, m.mtime, rem6(m, body), u64::MAX as int);
}

#[verifier::rlimit(100)]
proof fn lemma_parse_emit_tail(m: MetadataV, body: Seq<char>)
    requires
        valid_metadata(m),
    ensures
        parse_dt(rem6(m, body)) == Some((m.datetime, rem7(m, body))),
        parse_kv_num(rem7(m, body), "size: "@, u64::MAX as int) == Some((m.size, rem8(m, body))),
        parse_kv_num(rem8(m, body), "length: "@, u64::MAX as int) == Some((m.length, rem9(m, body))),
        parse_kv_str(rem9(m, body), "excerpt: "@) == Some((m.excerpt, rem10(m, body))),
        parse_kv_str(rem10(m, body), "slug: "@) == Some((m.slug, rem11(m, body))),
        ({
            let i = find_char(rem11(m, body), '\n');
            0 <= i && i < rem11(m, body).len() && rem11(m, body).take(i) == "---"@ && rem11(
                m,
                body,
            ).skip(i + 1) == body
        }),
{
    reveal_strlit("---");
    reveal_strlit("size: ");
    reveal_strlit("length: ");
    reveal_strlit("excerpt: ");
    reveal_strlit("slug: ");
    reveal_strlit("datetime: ");
    lemma_dt_line(m.datetime, rem7(m, body));
    lemma_kv_num_line("size: "@, m.size, rem8(m, body), u64::MAX as int);
    lemma_kv_num_line("length: "@, m.length, rem9(m, body), u64::MAX as int);
    lemma_kv_str_line("excerpt: "@, m.excerpt, rem10(m, body));
    lemma_kv_str_line("slug: "@, m.slug, rem11(m, body));
    lemma_line_split("---"@, body);
    assert(rem11(m, body) =~= "---"@ + nl() + body);
}

/// Writing a record and reading it back returns the record unchanged:
/// the store loses nothing and invents nothing.
#[verifier::rlimit(100)]
pub proof fn lemma_parse_emit(m: MetadataV, body: Seq<char>)
    requires
        valid_metadata(m),
    ensures
        spec_parse(spec_emit_meta(m) + body) == Some((m, body)),
{
    lemma_parse_emit_head1(m, body);
    lemma_parse_emit_head2(m, body);
    lemma_parse_emit_tail(m, body);
    let text = spec_emit_meta(m) + body;
    assert(spec_parse(text) == Some(
        (
            MetadataV {
                number: m.number,
                identifier: m.identifier,
                title: m.title,
                subject: m.subject,
                downloads: m.downloads,
                filename: m.filename,
                mtime: m.mtime,
                datetime: m.datetime,
                size: m.size,
                length: m.length,
                excerpt: m.excerpt,
                slug: m.slug,
            },
            body,
        ),
    ));
}

} // verus!
