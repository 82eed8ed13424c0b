//! Reading one page of the catalog search response. What the JSON decoder
//! finds in the response text is a function of the text alone, so each
//! piece of the decoded shape gets a name; every decision about it —
//! which entries are structurally sound, what sequence number each one
//! gets, how many are skipped — is made here, in verified code, and the
//! page parser's contract fixes its whole result over those names.

use vstd::prelude::*;
use crate::catalog::{PageData, PAGESIZE};
use crate::datetime::{check_datetime, wellformed_datetime};
use crate::doc::{Doc, DocV};
use crate::error::Error;

verus! {

/// The mathematical shape of one raw entry: each required field as the
/// response carries it, present only when it is there with a usable type.
pub ghost struct RawDocV {
    pub identifier: Option<Seq<char>>,
    pub publicdate: Option<Seq<char>>,
    pub title: Option<Seq<char>>,
    pub description: Option<Seq<char>>,
    pub downloads: Option<int>,
}

/// One raw entry of the response, fields as carried.
pub struct RawDoc {
    /// The entry's identifier, when it is a string.
    pub identifier: Option<String>,
    /// The publication instant, when it is a string.
    pub publicdate: Option<String>,
    /// The title, when it is a string.
    pub title: Option<String>,
    /// The description, when it is a string.
    pub description: Option<String>,
    /// The download count, when it is an unsigned integer.
    pub downloads: Option<u64>,
}

impl DeepView for RawDoc {
    type V = RawDocV;

    open spec fn deep_view(&self) -> RawDocV {
        RawDocV {
            identifier: self.identifier.deep_view(),
            publicdate: self.publicdate.deep_view(),
            title: self.title.deep_view(),
            description: self.description.deep_view(),
            downloads: match self.downloads {
                Some(d) => Some(d as int),
                None => None,
            },
        }
    }
}

/// The mathematical shape of a raw `subject` field.
pub ghost enum RawSubjectV {
    /// Missing, or neither a string nor an array.
    Absent,
    /// A single string.
    Text(Seq<char>),
    /// An array; each element is present when it is a string.
    List(Seq<Option<Seq<char>>>),
}

/// The raw `subject` field of one entry, as carried.
pub enum RawSubject {
    /// Missing, or neither a string nor an array.
    Absent,
    /// A single string.
    Text(String),
    /// An array; each element is present when it is a string.
    List(Vec<Option<String>>),
}

impl DeepView for RawSubject {
    type V = RawSubjectV;

    open spec fn deep_view(&self) -> RawSubjectV {
        match self {
            RawSubject::Absent => RawSubjectV::Absent,
            RawSubject::Text(t) => RawSubjectV::Text(t@),
            RawSubject::List(l) => RawSubjectV::List(l.deep_view()),
        }
    }
}

/// What the JSON decoder finds at `response.numFound` of the text: the
/// total, when the text is valid JSON and the field is an unsigned
/// integer. A function of the text alone.
pub uninterp spec fn raw_num_found(s: Seq<char>) -> Option<int>;

/// What the JSON decoder finds at `response.start`, on the same terms.
pub uninterp spec fn raw_start(s: Seq<char>) -> Option<int>;

/// How many entries the decoder finds in `response.docs`, when that is
/// an array. A function of the text alone.
pub uninterp spec fn raw_docs_count(s: Seq<char>) -> Option<int>;

/// The fields the decoder finds in entry `i` of `response.docs`, when
/// that entry exists. A function of the text alone.
pub uninterp spec fn raw_doc_of(s: Seq<char>, i: int) -> Option<RawDocV>;

/// The `subject` field the decoder finds in entry `i` of
/// `response.docs`. A function of the text alone.
pub uninterp spec fn raw_subject_of(s: Seq<char>, i: int) -> RawSubjectV;

/// Relies on `serde_json::from_str`, `Value::get` and `Value::as_u64`:
/// reads `response.numFound` out of the text, a fixed accessor path whose
/// outcome depends on the text alone.
#[verifier::external_body]
fn decode_num_found(s: &str) -> (r: Option<u64>)
    ensures
        (match r {
            Some(v) => Some(v as int),
            None => None::<int>,
        }) == raw_num_found(s@),
{
    let v: serde_json::Value = serde_json::from_str(s).ok()?;
    v.get("response")?.get("numFound")?.as_u64()
}

/// Relies on `serde_json::from_str`, `Value::get` and `Value::as_u64`:
/// reads `response.start` out of the text, on the same terms.
#[verifier::external_body]
fn decode_start(s: &str) -> (r: Option<u64>)
    ensures
        (match r {
            Some(v) => Some(v as int),
            None => None::<int>,
        }) == raw_start(s@),
{
    let v: serde_json::Value = serde_json::from_str(s).ok()?;
    v.get("response")?.get("start")?.as_u64()
}

/// Relies on `serde_json::from_str`, `Value::get` and `Value::as_array`:
/// counts the entries of `response.docs`, on the same terms.
#[verifier::external_body]
fn decode_docs_count(s: &str) -> (r: Option<usize>)
    ensures
        (match r {
            Some(v) => Some(v as int),
            None => None::<int>,
        }) == raw_docs_count(s@),
{
    let v: serde_json::Value = serde_json::from_str(s).ok()?;
    Some(v.get("response")?.get("docs")?.as_array()?.len())
}

/// Relies on `serde_json::from_str` and `Value`'s accessors (`get`,
/// `as_array`, `as_str`, `as_u64`): reads entry `i` of `response.docs`
/// out of the text, each field moved over as carried, a fixed accessor
/// path whose outcome depends on the text alone.
#[verifier::external_body]
fn decode_doc(s: &str, i: usize) -> (r: Option<RawDoc>)
    ensures
        r.deep_view() == raw_doc_of(s@, i as int),
{
    let v: serde_json::Value = serde_json::from_str(s).ok()?;
    let d = v.get("response")?.get("docs")?.as_array()?.get(i)?;
    Some(RawDoc {
        identifier: d.get("identifier").and_then(|f| f.as_str()).map(|x| x.to_string()),
        publicdate: d.get("publicdate").and_then(|f| f.as_str()).map(|x| x.to_string()),
        title: d.get("title").and_then(|f| f.as_str()).map(|x| x.to_string()),
        description: d.get("description").and_then(|f| f.as_str()).map(|x| x.to_string()),
        downloads: d.get("downloads").and_then(|f| f.as_u64()),
    })
}

/// Relies on `serde_json::from_str` and `Value`'s accessors: reads the
/// `subject` field of entry `i` as carried — a string, an array with each
/// element moved over when it is a string, or nothing — a fixed accessor
/// path whose outcome depends on the text alone.
#[verifier::external_body]
fn decode_subject(s: &str, i: usize) -> (r: RawSubject)
    ensures
        r.deep_view() == raw_subject_of(s@, i as int),
{
    let v: serde_json::Value = match serde_json::from_str(s) {
        Ok(v) => v,
        Err(_) => return RawSubject::Absent,
    };
    let f = v.get("response").and_then(|r| r.get("docs")).and_then(|d| d.as_array()).and_then(
        |a| a.get(i),
    ).and_then(|d| d.get("subject"));
    if let Some(t) = f.and_then(|f| f.as_str()) {
        RawSubject::Text(t.to_string())
    } else if let Some(a) = f.and_then(|f| f.as_array()) {
        RawSubject::List(a.iter().map(|e| e.as_str().map(|x| x.to_string())).collect())
    } else {
        RawSubject::Absent
    }
}

/// The tags a raw `subject` field stands for: a single string is one
/// tag, an array of strings is the tags in order, and anything else —
/// missing, another type, or an array with a non-string element — is
/// none.
pub open spec fn spec_subject_tags(s: RawSubjectV) -> Option<Seq<Seq<char>>> {
    match s {
        RawSubjectV::Absent => None,
        RawSubjectV::Text(t) => Some(seq![t]),
        RawSubjectV::List(l) => {
            if forall|k: int| 0 <= k < l.len() ==> l[k] is Some {
                Some(Seq::new(l.len(), |k: int| l[k]->Some_0))
            } else {
                None
            }
        },
    }
}

/// Resolves a raw `subject` field to its tags.
fn subject_tags(rs: RawSubject) -> (r: Option<Vec<String>>)
    ensures
        match r {
            Some(v) => spec_subject_tags(rs.deep_view()) == Some(v.deep_view()),
            None => spec_subject_tags(rs.deep_view()) is None,
        },
{
    match rs {
        RawSubject::Absent => None,
        RawSubject::Text(t) => {
            let ghost tv = t@;
            let mut tags: Vec<String> = Vec::new();
            tags.push(t);
            proof {
                assert(tags.deep_view() =~= seq![tv]);
            }
            Some(tags)
        },
        RawSubject::List(l) => {
            let ghost lv = l.deep_view();
            let mut tags: Vec<String> = Vec::new();
            let mut i: usize = 0;
            while i < l.len()
                invariant
                    lv == l.deep_view(),
                    rs.deep_view() == RawSubjectV::List(lv),
                    0 <= i <= l.len(),
                    forall|k: int| 0 <= k < i ==> lv[k] is Some,
                    tags.deep_view() == Seq::new(i as nat, |k: int| lv[k]->Some_0),
                decreases l.len() - i,
            {
                let ghost before = tags.deep_view();
                match &l[i] {
                    Some(s) => {
                        proof {
                            assert(l@[i as int] == Some(*s));
                            assert(lv[i as int] == Some(s@));
                        }
                        let c = s.clone();
                        let ghost cv = c@;
                        tags.push(c);
                        proof {
                            assert(cv == s@);
                            assert(tags.deep_view() =~= before.push(s@));
                            assert(tags.deep_view() =~= Seq::new(
                                (i + 1) as nat,
                                |k: int| lv[k]->Some_0,
                            ));
                        }
                    },
                    None => {
                        proof {
                            assert(lv[i as int] is None);
                        }
                        return None;
                    },
                }
                i = i + 1;
            }
            proof {
                assert(tags.deep_view() =~= Seq::new(lv.len(), |k: int| lv[k]->Some_0));
            }
            Some(tags)
        },
    }
}

/// Entry `i` of the response as a catalog entry. It is present exactly
/// when every required field is carried with a usable type, the
/// publication instant is a well-formed timestamp, the tags resolve, and
/// its sequence number fits the machine; the sequence number is the
/// entry's index in the page, plus one, plus the page offset, and the
/// audio fields start out empty.
pub open spec fn spec_doc_at(body: Seq<char>, i: int, base: int) -> Option<DocV> {
    match raw_doc_of(body, i) {
        None => None,
        Some(rd) => {
            if rd.identifier is Some && rd.publicdate is Some && wellformed_datetime(
                rd.publicdate->Some_0,
            ) && rd.title is Some && rd.description is Some && rd.downloads is Some
                && spec_subject_tags(raw_subject_of(body, i)) is Some && base + i + 1
                <= usize::MAX {
                Some(
                    DocV {
                        number: base + i + 1,
                        identifier: rd.identifier->Some_0,
                        version: 0,
                        publicdate: rd.publicdate->Some_0,
                        subject: spec_subject_tags(raw_subject_of(body, i))->Some_0,
                        description: rd.description->Some_0,
                        title: rd.title->Some_0,
                        downloads: rd.downloads->Some_0,
                        filename: Seq::empty(),
                        mtime: 0,
                        size: 0,
                        length: 0,
                    },
                )
            } else {
                None
            }
        },
    }
}

/// The first `n` entries of the page that pass the structural parse, in
/// response order.
pub open spec fn spec_page_docs(body: Seq<char>, n: int, base: int) -> Seq<DocV>
    decreases n,
{
    if n <= 0 {
        Seq::empty()
    } else {
        spec_page_docs(body, n - 1, base) + (match spec_doc_at(body, n - 1, base) {
            Some(d) => seq![d],
            None => Seq::<DocV>::empty(),
        })
    }
}

/// Reads entry `i` of the page, deciding as `spec_doc_at` says.
fn build_doc(body: &str, i: usize, base: usize) -> (r: Option<Doc>)
    requires
        base <= usize::MAX - 1,
    ensures
        match r {
            Some(d) => spec_doc_at(body@, i as int, base as int) == Some(d@),
            None => spec_doc_at(body@, i as int, base as int) is None,
        },
{
    let rd = match decode_doc(body, i) {
        Some(rd) => rd,
        None => { return None; },
    };
    let ghost rdv = rd.deep_view();
    let identifier = match rd.identifier {
        Some(x) => x,
        None => { return None; },
    };
    let publicdate = match rd.publicdate {
        Some(x) => x,
        None => { return None; },
    };
    if !check_datetime(publicdate.as_str()) {
        return None;
    }
    let title = match rd.title {
        Some(x) => x,
        None => { return None; },
    };
    let description = match rd.description {
        Some(x) => x,
        None => { return None; },
    };
    let downloads = match rd.downloads {
        Some(x) => x,
        None => { return None; },
    };
    let rs = decode_subject(body, i);
    let subject = match subject_tags(rs) {
        Some(v) => v,
        None => { return None; },
    };
    if i >= usize::MAX - base {
        // a sequence number past the machine's range
        return None;
    }
    let mut d = Doc::new(identifier, publicdate, subject, description, title, downloads);
    d.set_number(base + i + 1);
    proof {
        assert(spec_doc_at(body@, i as int, base as int) == Some(d@));
    }
    Some(d)
}

/// Reads one page of the search response. On success the result is fixed
/// by what the decoder finds in the text: the server's totals as carried,
/// the entries that pass the structural parse in response order — each
/// with sequence number index-in-page plus one plus the page offset — and
/// the rest counted as skipped. An answer without the `response`
/// envelope, its totals, or its entry array is an error, and only such an
/// answer is.
pub fn parse_page(body: &str, page: usize) -> (r: Result<PageData, Error>)
    requires
        1 <= page,
        (page - 1) * PAGESIZE <= usize::MAX - 1,
    ensures
        match r {
            Ok(p) => {
                &&& raw_num_found(body@) == Some(p@.num_found)
                &&& raw_start(body@) == Some(p@.start)
                &&& raw_docs_count(body@) is Some
                &&& p@.docs == spec_page_docs(
                    body@,
                    raw_docs_count(body@)->Some_0,
                    PAGESIZE * (page - 1),
                )
                &&& p@.skipped == raw_docs_count(body@)->Some_0 - p@.docs.len()
            },
            Err(_) => raw_num_found(body@) is None || raw_start(body@) is None || raw_docs_count(
                body@,
            ) is None,
        },
{
    let num_found = match decode_num_found(body) {
        Some(v) => v,
        None => { return Err(Error::new("the numFound total cannot be read")); },
    };
    let start = match decode_start(body) {
        Some(v) => v,
        None => { return Err(Error::new("the start index cannot be read")); },
    };
    let count = match decode_docs_count(body) {
        Some(v) => v,
        None => { return Err(Error::new("the entry array cannot be read")); },
    };
    let base = (page - 1) * PAGESIZE;
    let mut docs: Vec<Doc> = Vec::new();
    let mut skipped: u64 = 0;
    let mut i: usize = 0;
    proof {
        assert(docs.deep_view() =~= spec_page_docs(body@, 0, base as int));
    }
    while i < count
        invariant
            base == (page - 1) * PAGESIZE,
            base <= usize::MAX - 1,
            0 <= i <= count,
            skipped <= i,
            docs.deep_view() == spec_page_docs(body@, i as int, base as int),
            skipped as int == i - docs.deep_view().len(),
        decreases count - i,
    {
        let ghost before = docs.deep_view();
        match build_doc(body, i, base) {
            Some(d) => {
                let ghost dv = d@;
                docs.push(d);
                proof {
                    assert(docs.deep_view() =~= before.push(dv));
                    assert(before.push(dv) =~= spec_page_docs(body@, i + 1 as int, base as int));
                }
            },
            None => {
                skipped = skipped + 1;
                proof {
                    assert(spec_page_docs(body@, i + 1 as int, base as int) =~= before);
                }
            },
        }
        i = i + 1;
    }
    Ok(PageData { num_found, start, docs, skipped })
}

} // verus!
