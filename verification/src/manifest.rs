//! Scraping audio metadata out of a per-item manifest document: an XML-like
//! text listing the item's files. The scanner walks the document line by
//! line, keeps the first block that opens with a `file` entry whose name
//! ends in an audio extension and is marked as the original source, stops at
//! that block's closing tag, and reads the fields out of the kept lines.

use vstd::prelude::*;
use crate::text::{find_char, find_char_exec, match_at, match_at_exec, push_char};

verus! {

/// `l` without one trailing carriage return.
pub open spec fn strip_cr(l: Seq<char>) -> Seq<char> {
    if l.len() > 0 && l.last() == '\r' {
        l.drop_last()
    } else {
        l
    }
}

/// The lines of `s`: split at every newline, one trailing carriage return
/// removed from each piece, and no empty piece after a final newline.
pub open spec fn spec_lines(s: Seq<char>) -> Seq<Seq<char>>
    decreases s.len(),
{
    if s.len() == 0 {
        Seq::empty()
    } else {
        let i = find_char(s, '\n');
        if 0 <= i && i < s.len() {
            seq![strip_cr(s.take(i))] + spec_lines(s.skip(i + 1))
        } else {
            seq![strip_cr(s)]
        }
    }
}

/// Splits a document into its lines.
pub fn split_lines(s: &str) -> (r: Vec<String>)
    ensures
        r.deep_view() == spec_lines(s@),
{
    let n = s.unicode_len();
    let mut out: Vec<String> = Vec::new();
    let mut p: usize = 0;
    proof {
        assert(s@.skip(0) =~= s@);
        assert(out.deep_view() =~= Seq::<Seq<char>>::empty());
        assert(out.deep_view() + spec_lines(s@.skip(0)) =~= spec_lines(s@));
    }
    while p < n
        invariant
            n == s@.len(),
            0 <= p <= n,
            spec_lines(s@) == out.deep_view() + spec_lines(s@.skip(p as int)),
        decreases n - p,
    {
        let q = find_char_exec(s, p, '\n');
        proof {
            let t = s@.skip(p as int);
            assert(find_char(t, '\n') == q - p);
            if q < n {
                assert(t.take(q - p) =~= s@.subrange(p as int, q as int));
                assert(t.skip(q - p + 1) =~= s@.skip(q + 1 as int));
            } else {
                assert(t =~= s@.subrange(p as int, n as int));
            }
        }
        let line = if q > p && s.get_char(q - 1) == '\r' {
            s.substring_char(p, q - 1)
        } else {
            s.substring_char(p, q)
        };
        proof {
            assert(line@ == strip_cr(s@.subrange(p as int, q as int))) by {
                if q > p && s@[q - 1] == '\r' {
                    assert(s@.subrange(p as int, q - 1 as int) =~= s@.subrange(
                        p as int,
                        q as int,
                    ).drop_last());
                }
            }
        }
        let ghost old_out = out.deep_view();
        out.push(String::from_str(line));
        proof {
            assert(out.deep_view() =~= old_out.push(line@));
        }
        if q == n {
            p = n;
            proof {
                assert(spec_lines(s@.skip(p as int)) =~= Seq::<Seq<char>>::empty());
                assert(out.deep_view() + spec_lines(s@.skip(p as int)) =~= spec_lines(s@));
            }
        } else {
            p = q + 1;
            proof {
                assert(out.deep_view() + spec_lines(s@.skip(p as int)) =~= spec_lines(s@));
            }
        }
    }
    proof {
        assert(spec_lines(s@.skip(p as int)) =~= Seq::<Seq<char>>::empty());
        assert(out.deep_view() =~= spec_lines(s@));
    }
    out
}

/// A whitespace character as the manifest scanner sees it.
pub open spec fn is_ws(c: char) -> bool {
    c == ' ' || c == '\t' || c == '\n' || c == '\r' || c == '\u{b}' || c == '\u{c}'
}

/// Whether `c` is whitespace to the scanner.
fn is_ws_exec(c: char) -> (b: bool)
    ensures
        b == is_ws(c),
{
    c == ' ' || c == '\t' || c == '\n' || c == '\r' || c == '\u{b}' || c == '\u{c}'
}

/// How many whitespace characters `l` starts with.
pub open spec fn count_leading_ws(l: Seq<char>) -> int
    decreases l.len(),
{
    if l.len() > 0 && is_ws(l[0]) {
        1 + count_leading_ws(l.drop_first())
    } else {
        0
    }
}

proof fn lemma_count_leading_ws_at(l: Seq<char>, w: int)
    requires
        0 <= w <= l.len(),
        forall|k: int| 0 <= k < w ==> is_ws(l[k]),
        w < l.len() ==> !is_ws(l[w]),
    ensures
        count_leading_ws(l) == w,
    decreases w,
{
    if l.len() > 0 && w > 0 {
        assert(forall|k: int| 0 <= k < w - 1 ==> #[trigger] l.drop_first()[k] == l[k + 1]);
        lemma_count_leading_ws_at(l.drop_first(), w - 1);
    }
}

/// Counts the whitespace characters `l` starts with.
fn count_leading_ws_exec(l: &str) -> (w: usize)
    ensures
        w == count_leading_ws(l@),
        w <= l@.len(),
{
    let n = l.unicode_len();
    let mut w: usize = 0;
    while w < n && is_ws_exec(l.get_char(w))
        invariant
            n == l@.len(),
            0 <= w <= n,
            forall|k: int| 0 <= k < w ==> is_ws(l@[k]),
        decreases n - w,
    {
        w = w + 1;
    }
    proof {
        lemma_count_leading_ws_at(l@, w as int);
    }
    w
}

/// The text `<file name="` that opens a file entry.
pub open spec fn lit_file_open() -> Seq<char> {
    seq!['<', 'f', 'i', 'l', 'e', ' ', 'n', 'a', 'm', 'e', '=', '"']
}

/// The text `.mp3" source="original">` that closes the opening tag of an
/// original MP3 entry.
pub open spec fn lit_mp3_suffix() -> Seq<char> {
    seq![
        '.',
        'm',
        'p',
        '3',
        '"',
        ' ',
        's',
        'o',
        'u',
        'r',
        'c',
        'e',
        '=',
        '"',
        'o',
        'r',
        'i',
        'g',
        'i',
        'n',
        'a',
        'l',
        '"',
        '>',
    ]
}

/// The same closing text for an original M4A entry.
pub open spec fn lit_m4a_suffix() -> Seq<char> {
    seq![
        '.',
        'm',
        '4',
        'a',
        '"',
        ' ',
        's',
        'o',
        'u',
        'r',
        'c',
        'e',
        '=',
        '"',
        'o',
        'r',
        'i',
        'g',
        'i',
        'n',
        'a',
        'l',
        '"',
        '>',
    ]
}

/// The closing tag `</file>` of a file entry.
pub open spec fn lit_file_close() -> Seq<char> {
    seq!['<', '/', 'f', 'i', 'l', 'e', '>']
}

/// The text `" source="original">` that follows a captured file name.
pub open spec fn lit_name_close() -> Seq<char> {
    seq![
        '"',
        ' ',
        's',
        'o',
        'u',
        'r',
        'c',
        'e',
        '=',
        '"',
        'o',
        'r',
        'i',
        'g',
        'i',
        'n',
        'a',
        'l',
        '"',
        '>',
    ]
}

fn file_open_str() -> (r: &'static str)
    ensures
        r@ == lit_file_open(),
{
    let s = "<file name=\"";
    proof {
        reveal_strlit("<file name=\"");
        assert(s@ =~= lit_file_open());
    }
    s
}

fn mp3_suffix_str() -> (r: &'static str)
    ensures
        r@ == lit_mp3_suffix(),
{
    let s = ".mp3\" source=\"original\">";
    proof {
        reveal_strlit(".mp3\" source=\"original\">");
        assert(s@ =~= lit_mp3_suffix());
    }
    s
}

fn m4a_suffix_str() -> (r: &'static str)
    ensures
        r@ == lit_m4a_suffix(),
{
    let s = ".m4a\" source=\"original\">";
    proof {
        reveal_strlit(".m4a\" source=\"original\">");
        assert(s@ =~= lit_m4a_suffix());
    }
    s
}

fn file_close_str() -> (r: &'static str)
    ensures
        r@ == lit_file_close(),
{
    let s = "</file>";
    proof {
        reveal_strlit("</file>");
        assert(s@ =~= lit_file_close());
    }
    s
}

fn name_close_str() -> (r: &'static str)
    ensures
        r@ == lit_name_close(),
{
    let s = "\" source=\"original\">";
    proof {
        reveal_strlit("\" source=\"original\">");
        assert(s@ =~= lit_name_close());
    }
    s
}

/// A line that opens an original audio file entry: one or more whitespace
/// characters, the opening tag, and a name ending in `.mp3` (or `.m4a`
/// where those are allowed).
pub open spec fn is_start_line(l: Seq<char>, allow_m4a: bool) -> bool {
    let w = count_leading_ws(l);
    &&& w >= 1
    &&& match_at(l, lit_file_open(), w)
    &&& exists|j: int|
        w + 12 <= j && (match_at(l, lit_mp3_suffix(), j) || (allow_m4a && match_at(
            l,
            lit_m4a_suffix(),
            j,
        )))
}

/// A line that closes a file entry: whitespace, then `</file>`.
pub open spec fn is_end_line(l: Seq<char>) -> bool {
    let w = count_leading_ws(l);
    w >= 1 && match_at(l, lit_file_close(), w)
}

/// Whether this line opens an original audio file entry.
fn is_start_line_exec(l: &str, allow_m4a: bool) -> (b: bool)
    ensures
        b == is_start_line(l@, allow_m4a),
{
    let n = l.unicode_len();
    let w = count_leading_ws_exec(l);
    if w < 1 {
        return false;
    }
    if !match_at_exec(l, file_open_str(), w) {
        return false;
    }
    if n < 24 {
        return false;
    }
    let mut j: usize = w + 12;
    while j <= n - 24
        invariant
            n == l@.len(),
            n >= 24,
            w == count_leading_ws(l@),
            w >= 1,
            match_at(l@, lit_file_open(), w as int),
            w + 12 <= j,
            forall|k: int|
                w + 12 <= k < j ==> !(match_at(l@, lit_mp3_suffix(), k) || (allow_m4a && match_at(
                    l@,
                    lit_m4a_suffix(),
                    k,
                ))),
        decreases n - j,
    {
        if match_at_exec(l, mp3_suffix_str(), j) {
            proof {
                assert(w as int + 12 <= j as int && match_at(l@, lit_mp3_suffix(), j as int));
            }
            return true;
        }
        if allow_m4a && match_at_exec(l, m4a_suffix_str(), j) {
            proof {
                assert(w as int + 12 <= j as int && match_at(l@, lit_m4a_suffix(), j as int));
            }
            return true;
        }
        j = j + 1;
    }
    proof {
        assert forall|k: int|
            w + 12 <= k implies !(match_at(l@, lit_mp3_suffix(), k) || (allow_m4a && match_at(
            l@,
            lit_m4a_suffix(),
            k,
        ))) by {
            if k >= j {
                assert(k + 24 > n);
            }
        }
    }
    false
}

/// Whether this line closes a file entry.
fn is_end_line_exec(l: &str) -> (b: bool)
    ensures
        b == is_end_line(l@),
{
    let w = count_leading_ws_exec(l);
    w >= 1 && match_at_exec(l, file_close_str(), w)
}

/// The position of the first line that opens an original audio block, or
/// the number of lines when none does.
pub open spec fn find_start_line(ls: Seq<Seq<char>>, allow_m4a: bool) -> int
    decreases ls.len(),
{
    if ls.len() == 0 {
        0
    } else if is_start_line(ls[0], allow_m4a) {
        0
    } else {
        1 + find_start_line(ls.drop_first(), allow_m4a)
    }
}

pub proof fn lemma_find_start_line_at(ls: Seq<Seq<char>>, allow_m4a: bool, i: int)
    requires
        0 <= i <= ls.len(),
        forall|k: int| 0 <= k < i ==> !is_start_line(#[trigger] ls[k], allow_m4a),
        i < ls.len() ==> is_start_line(ls[i], allow_m4a),
    ensures
        find_start_line(ls, allow_m4a) == i,
    decreases i,
{
    if ls.len() > 0 && i > 0 {
        assert(forall|k: int| 0 <= k < i - 1 ==> #[trigger] ls.drop_first()[k] == ls[k + 1]);
        lemma_find_start_line_at(ls.drop_first(), allow_m4a, i - 1);
    }
}

/// The position of the first line that closes a file entry, or the number
/// of lines when none does.
pub open spec fn find_end_line(ls: Seq<Seq<char>>) -> int
    decreases ls.len(),
{
    if ls.len() == 0 {
        0
    } else if is_end_line(ls[0]) {
        0
    } else {
        1 + find_end_line(ls.drop_first())
    }
}

pub proof fn lemma_find_end_line_at(ls: Seq<Seq<char>>, i: int)
    requires
        0 <= i <= ls.len(),
        forall|k: int| 0 <= k < i ==> !is_end_line(#[trigger] ls[k]),
        i < ls.len() ==> is_end_line(ls[i]),
    ensures
        find_end_line(ls) == i,
    decreases i,
{
    if ls.len() > 0 && i > 0 {
        assert(forall|k: int| 0 <= k < i - 1 ==> #[trigger] ls.drop_first()[k] == ls[k + 1]);
        lemma_find_end_line_at(ls.drop_first(), i - 1);
    }
}

/// The lines of `ls` joined with nothing in between.
pub open spec fn concat_lines(ls: Seq<Seq<char>>) -> Seq<char>
    decreases ls.len(),
{
    if ls.len() == 0 {
        Seq::empty()
    } else {
        concat_lines(ls.drop_last()) + ls.last()
    }
}

/// The text of the first original audio block of the manifest: the lines
/// from the first opening line through the first closing line after it,
/// joined without separators; empty when no block opens.
pub open spec fn spec_block_text(s: Seq<char>, allow_m4a: bool) -> Seq<char> {
    let ls = spec_lines(s);
    let a = find_start_line(ls, allow_m4a);
    if a == ls.len() {
        Seq::empty()
    } else {
        let b = a + find_end_line(ls.skip(a));
        if b == ls.len() {
            concat_lines(ls.skip(a))
        } else {
            concat_lines(ls.subrange(a, b + 1))
        }
    }
}

/// Collects the first original audio block of the manifest.
pub fn block_text(s: &str, allow_m4a: bool) -> (r: String)
    ensures
        r@ == spec_block_text(s@, allow_m4a),
{
    let lines = split_lines(s);
    let ghost ls = spec_lines(s@);
    let n = lines.len();
    let mut a: usize = 0;
    while a < n && !is_start_line_exec(lines[a].as_str(), allow_m4a)
        invariant
            ls == spec_lines(s@),
            lines.deep_view() == ls,
            n == lines.len(),
            0 <= a <= n,
            forall|k: int| 0 <= k < a ==> !is_start_line(#[trigger] ls[k], allow_m4a),
        decreases n - a,
    {
        a = a + 1;
    }
    proof {
        lemma_find_start_line_at(ls, allow_m4a, a as int);
    }
    if a == n {
        return String::new();
    }
    let mut out = String::new();
    let mut b: usize = a;
    proof {
        assert(ls.subrange(a as int, a as int) =~= Seq::<Seq<char>>::empty());
    }
    loop
        invariant
            ls == spec_lines(s@),
            lines.deep_view() == ls,
            n == lines.len(),
            find_start_line(ls, allow_m4a) == a as int,
            a <= b < n,
            out@ == concat_lines(ls.subrange(a as int, b as int)),
            forall|k: int| a <= k < b ==> !is_end_line(#[trigger] ls[k]),
        decreases n - b,
    {
        out.append(lines[b].as_str());
        proof {
            assert(ls.subrange(a as int, b + 1 as int).drop_last() =~= ls.subrange(
                a as int,
                b as int,
            ));
            assert(out@ == concat_lines(ls.subrange(a as int, b + 1 as int)));
        }
        if is_end_line_exec(lines[b].as_str()) {
            proof {
                let sk = ls.skip(a as int);
                assert(forall|k: int| 0 <= k <= b - a ==> #[trigger] sk[k] == ls[k + a]);
                lemma_find_end_line_at(sk, b - a);
                assert(out@ == spec_block_text(s@, allow_m4a));
            }
            return out;
        }
        b = b + 1;
        if b == n {
            proof {
                let sk = ls.skip(a as int);
                assert(forall|k: int| 0 <= k < b - a ==> #[trigger] sk[k] == ls[k + a]);
                lemma_find_end_line_at(sk, b - a);
                assert(ls.subrange(a as int, n as int) =~= ls.skip(a as int));
                assert(out@ == spec_block_text(s@, allow_m4a));
            }
            return out;
        }
    }
}

/// An `open` tag at `i`, a value free of `stop`, and `close` right after
/// the value. This is how the scraper captures one field.
pub open spec fn delim_match_at(
    text: Seq<char>,
    open: Seq<char>,
    close: Seq<char>,
    stop: char,
    i: int,
) -> bool {
    &&& match_at(text, open, i)
    &&& {
        let v = i + open.len();
        let e = v + find_char(text.skip(v), stop);
        match_at(text, close, e)
    }
}

/// The captured value of a match at `i`: the characters between the open
/// tag and the first `stop` after it.
pub open spec fn delim_value_at(text: Seq<char>, open: Seq<char>, stop: char, i: int) -> Seq<
    char,
> {
    let v = i + open.len();
    let e = v + find_char(text.skip(v), stop);
    text.subrange(v, e)
}

/// `i` is the first position where the delimited pattern matches.
pub open spec fn is_first_delim(
    text: Seq<char>,
    open: Seq<char>,
    close: Seq<char>,
    stop: char,
    i: int,
) -> bool {
    delim_match_at(text, open, close, stop, i) && forall|k: int|
        0 <= k < i ==> !delim_match_at(text, open, close, stop, k)
}

/// The value of the first match of the delimited pattern, if any.
pub open spec fn spec_find_delimited(
    text: Seq<char>,
    open: Seq<char>,
    close: Seq<char>,
    stop: char,
) -> Option<Seq<char>> {
    if exists|i: int| is_first_delim(text, open, close, stop, i) {
        Some(
            delim_value_at(
                text,
                open,
                stop,
                choose|i: int| is_first_delim(text, open, close, stop, i),
            ),
        )
    } else {
        None
    }
}

proof fn lemma_first_delim_unique(
    text: Seq<char>,
    open: Seq<char>,
    close: Seq<char>,
    stop: char,
    i: int,
    j: int,
)
    requires
        is_first_delim(text, open, close, stop, i),
        is_first_delim(text, open, close, stop, j),
    ensures
        i == j,
{
}

/// Finds the first place where `open`, a value free of `stop`, and `close`
/// stand in a row, and hands the value out.
pub fn find_delimited(text: &str, open: &str, close: &str, stop: char) -> (r: Option<String>)
    requires
        open@.len() >= 1,
    ensures
        match r {
            Some(v) => spec_find_delimited(text@, open@, close@, stop) == Some(v@),
            None => spec_find_delimited(text@, open@, close@, stop) is None,
        },
{
    let n = text.unicode_len();
    let olen = open.unicode_len();
    if olen > n {
        proof {
            assert(forall|k: int| !match_at(text@, open@, k));
        }
        return None;
    }
    let last = n - olen;
    let mut i: usize = 0;
    while i <= last
        invariant
            n == text@.len(),
            olen == open@.len(),
            olen >= 1,
            last == n - olen,
            0 <= i <= last + 1,
            forall|k: int| 0 <= k < i ==> !delim_match_at(text@, open@, close@, stop, k),
        decreases n - i,
    {
        if match_at_exec(text, open, i) {
            let v = i + olen;
            let e = find_char_exec(text, v, stop);
            if match_at_exec(text, close, e) {
                proof {
                    assert(delim_match_at(text@, open@, close@, stop, i as int));
                    assert(is_first_delim(text@, open@, close@, stop, i as int));
                    let cc = choose|k: int| is_first_delim(text@, open@, close@, stop, k);
                    lemma_first_delim_unique(text@, open@, close@, stop, i as int, cc);
                }
                return Some(String::from_str(text.substring_char(v, e)));
            }
            proof {
                assert(!delim_match_at(text@, open@, close@, stop, i as int));
            }
        }
        i = i + 1;
    }
    proof {
        assert forall|k: int| true implies !delim_match_at(
            text@,
            open@,
            close@,
            stop,
            k,
        ) by {
            if 0 <= k < i {
            } else if k + open@.len() > text@.len() || k < 0 {
                assert(!match_at(text@, open@, k));
            }
        }
    }
    None
}

/// The opening tag `<t>`.
pub open spec fn tag_open(t: Seq<char>) -> Seq<char> {
    seq!['<'] + t + seq!['>']
}

/// The closing tag `</t>`.
pub open spec fn tag_close(t: Seq<char>) -> Seq<char> {
    seq!['<', '/'] + t + seq!['>']
}

/// The value of the first `<tag>value</tag>` in `xml`, where the value
/// holds no `<`; empty when there is none.
pub open spec fn spec_get_value(tag: Seq<char>, xml: Seq<char>) -> Seq<char> {
    match spec_find_delimited(xml, tag_open(tag), tag_close(tag), '<') {
        Some(v) => v,
        None => Seq::empty(),
    }
}

/// Reads the first `<tag>value</tag>` field out of `xml`.
pub fn get_value(tag: &str, xml: &str) -> (r: String)
    ensures
        r@ == spec_get_value(tag@, xml@),
{
    let mut o = String::new();
    push_char(&mut o, '<');
    o.append(tag);
    push_char(&mut o, '>');
    let mut c = String::new();
    push_char(&mut c, '<');
    push_char(&mut c, '/');
    c.append(tag);
    push_char(&mut c, '>');
    proof {
        assert(o@ =~= tag_open(tag@));
        assert(c@ =~= tag_close(tag@));
    }
    match find_delimited(xml, o.as_str(), c.as_str(), '<') {
        Some(v) => v,
        None => String::new(),
    }
}

/// A digit string parses as a `u64`.
pub open spec fn parses_u64(s: Seq<char>) -> bool {
    s.len() > 0 && crate::text::all_digits(s) && crate::text::digits_val(s) <= u64::MAX
}

/// The `length` field cut at its decimal point: the whole seconds, not
/// rounded.
pub open spec fn spec_length_digits(text: Seq<char>) -> Seq<char> {
    let l = spec_get_value("length"@, text);
    l.take(find_char(l, '.'))
}

/// The audio fields of one scraped block.
pub struct AudioFields {
    /// The file name captured from the block's opening tag.
    pub filename: String,
    /// Modification time, seconds since the epoch.
    pub mtime: u64,
    /// Size in bytes.
    pub size: u64,
    /// Duration in whole seconds, truncated.
    pub length: u64,
}

/// The scraped file name of a block: the first capture of
/// `<file name="..." source="original">`.
pub open spec fn spec_block_filename(text: Seq<char>) -> Option<Seq<char>> {
    spec_find_delimited(text, lit_file_open(), lit_name_close(), '"')
}

/// Reads the audio fields out of one block's text. `None` when a numeric
/// field is missing or malformed, or no file name can be captured.
pub fn parse_block_fields(text: &str) -> (r: Option<AudioFields>)
    ensures
        match r {
            Some(f) => {
                &&& parses_u64(spec_get_value("mtime"@, text@))
                &&& parses_u64(spec_get_value("size"@, text@))
                &&& parses_u64(spec_length_digits(text@))
                &&& spec_block_filename(text@) is Some
                &&& f.mtime == crate::text::digits_val(spec_get_value("mtime"@, text@))
                &&& f.size == crate::text::digits_val(spec_get_value("size"@, text@))
                &&& f.length == crate::text::digits_val(spec_length_digits(text@))
                &&& f.filename@ == spec_block_filename(text@)->Some_0
            },
            None => {
                ||| !parses_u64(spec_get_value("mtime"@, text@))
                ||| !parses_u64(spec_get_value("size"@, text@))
                ||| !parses_u64(spec_length_digits(text@))
                ||| spec_block_filename(text@) is None
            },
        },
{
    let mtime_s = get_value("mtime", text);
    let size_s = get_value("size", text);
    let length_s = get_value("length", text);
    let pos = find_char_exec(length_s.as_str(), 0, '.');
    let length_d = length_s.as_str().substring_char(0, pos);
    proof {
        assert(length_s@.skip(0) =~= length_s@);
        assert(length_d@ =~= spec_length_digits(text@));
    }
    let mtime = match crate::text::parse_u64(mtime_s.as_str()) {
        Some(v) => v,
        None => { return None; },
    };
    let size = match crate::text::parse_u64(size_s.as_str()) {
        Some(v) => v,
        None => { return None; },
    };
    let length = match crate::text::parse_u64(length_d) {
        Some(v) => v,
        None => { return None; },
    };
    let filename = match find_delimited(text, file_open_str(), name_close_str(), '"') {
        Some(v) => v,
        None => { return None; },
    };
    Some(AudioFields { filename, mtime, size, length })
}

/// The metadata scraped for one episode's MP3 file.
pub struct Mp3Metadata {
    /// Title named inside the block, empty when absent.
    pub title: String,
    /// The audio file's name.
    pub filename: String,
    /// Modification time, seconds since the epoch.
    pub mtime: u64,
    /// Size in bytes.
    pub size: u64,
    /// Duration in whole seconds, truncated.
    pub length: u64,
    /// Comment named inside the block, empty when absent.
    pub comment: String,
}

impl Mp3Metadata {
    /// Reads the first `<tag>value</tag>` field out of `xml`.
    pub fn get_value(tag: &str, xml: &str) -> (r: String)
        ensures
            r@ == spec_get_value(tag@, xml@),
    {
        get_value(tag, xml)
    }

    /// Scrapes the first original MP3 block of a manifest document.
    /// `None` when no block opens, or its numeric fields do not parse.
    pub fn new(content: &str) -> (r: Option<Mp3Metadata>)
        ensures
            ({
                let text = spec_block_text(content@, false);
                match r {
                    Some(m) => {
                        &&& text.len() > 0
                        &&& m.title@ == spec_get_value("title"@, text)
                        &&& m.comment@ == spec_get_value("comment"@, text)
                        &&& parses_u64(spec_get_value("mtime"@, text))
                        &&& parses_u64(spec_get_value("size"@, text))
                        &&& parses_u64(spec_length_digits(text))
                        &&& spec_block_filename(text) is Some
                        &&& m.mtime == crate::text::digits_val(spec_get_value("mtime"@, text))
                        &&& m.size == crate::text::digits_val(spec_get_value("size"@, text))
                        &&& m.length == crate::text::digits_val(spec_length_digits(text))
                        &&& m.filename@ == spec_block_filename(text)->Some_0
                    },
                    None => {
                        ||| text.len() == 0
                        ||| !parses_u64(spec_get_value("mtime"@, text))
                        ||| !parses_u64(spec_get_value("size"@, text))
                        ||| !parses_u64(spec_length_digits(text))
                        ||| spec_block_filename(text) is None
                    },
                }
            }),
    {
        let text = block_text(content, false);
        if text.as_str().unicode_len() == 0 {
            return None;
        }
        let title = get_value("title", text.as_str());
        let comment = get_value("comment", text.as_str());
        match parse_block_fields(text.as_str()) {
            Some(f) => Some(
                Mp3Metadata {
                    title,
                    filename: f.filename,
                    mtime: f.mtime,
                    size: f.size,
                    length: f.length,
                    comment,
                },
            ),
            None => None,
        }
    }
}

} // verus!
