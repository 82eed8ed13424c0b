//! Paginated retrieval of the remote catalog. The client builds the fixed
//! search query; each fetched page is handed back as plain data, merged by
//! an accumulating merger that also decides whether another page must be
//! fetched, and the full set is finally ordered by publication date, most
//! recent first.

use vstd::prelude::*;
use vstd::seq_lib::{lemma_multiset_commutative, group_to_multiset_ensures};
use vstd::multiset::{Multiset, group_multiset_axioms};
use crate::datetime::{lex_le, lemma_lex_total, lemma_lex_trans, lex_le_exec};
use crate::doc::{Doc, DocV};

verus! {

/// How many entries one search page asks for.
pub const PAGESIZE: usize = 200;

/// The client for the remote catalog's search interface: a fixed query
/// over one uploader and one podcast.
#[derive(Debug, Clone)]
pub struct IAClient {
    /// The uploader the query is restricted to.
    pub uploader: String,
    /// The podcast the query is restricted to.
    pub podcast: String,
}

impl IAClient {
    /// A client for the given uploader and podcast.
    pub fn new(uploader: &str, podcast: &str) -> (c: IAClient)
        ensures
            c.uploader@ == uploader@,
            c.podcast@ == podcast@,
    {
        IAClient { uploader: String::from_str(uploader), podcast: String::from_str(podcast) }
    }

    /// The fixed search predicate: uploader match, publication date since
    /// the epoch, podcast match, and audio media only.
    pub fn get_query(&self) -> (q: String)
        ensures
            q@ == "uploader:("@ + self.uploader@ + ") AND publicdate:[1970-01-01 TO 9999-12-31] AND podcast:("@
                + self.podcast@ + ") AND mediatype:(audio)"@,
    {
        let mut q = String::from_str("uploader:(");
        q.append(self.uploader.as_str());
        q.append(") AND publicdate:[1970-01-01 TO 9999-12-31] AND podcast:(");
        q.append(self.podcast.as_str());
        q.append(") AND mediatype:(audio)");
        q
    }
}

/// The older name of the catalog client, kept for callers that still use
/// it; the behaviour is the same.
#[derive(Debug, Clone)]
pub struct ArchiveOrg {
    /// The uploader the query is restricted to.
    pub uploader: String,
    /// The podcast the query is restricted to.
    pub podcast: String,
}

impl ArchiveOrg {
    /// A client for the given uploader and podcast.
    pub fn new(uploader: &str, podcast: &str) -> (c: ArchiveOrg)
        ensures
            c.uploader@ == uploader@,
            c.podcast@ == podcast@,
    {
        ArchiveOrg { uploader: String::from_str(uploader), podcast: String::from_str(podcast) }
    }
}

/// The mathematical shape of one fetched page.
pub ghost struct PageDataV {
    pub num_found: int,
    pub start: int,
    pub docs: Seq<DocV>,
    pub skipped: int,
}

/// One page of the search response, already parsed: the server's totals
/// and the entries that survived the structural parse.
pub struct PageData {
    /// The total number of matching entries the server reports.
    pub num_found: u64,
    /// The index of this page's first entry.
    pub start: u64,
    /// The entries of this page, in server order.
    pub docs: Vec<Doc>,
    /// How many entries of this page failed the structural parse.
    pub skipped: u64,
}

impl View for PageData {
    type V = PageDataV;

    open spec fn view(&self) -> PageDataV {
        PageDataV {
            num_found: self.num_found as int,
            start: self.start as int,
            docs: self.docs.deep_view(),
            skipped: self.skipped as int,
        }
    }
}

/// `a` was published at or after `b`.
pub open spec fn date_ge(a: DocV, b: DocV) -> bool {
    lex_le(b.publicdate, a.publicdate)
}

/// Publication dates never increase along the sequence.
pub open spec fn sorted_by_date_desc(s: Seq<DocV>) -> bool {
    forall|i: int, j: int| 0 <= i < j < s.len() ==> date_ge(#[trigger] s[i], #[trigger] s[j])
}

/// No two entries share an identifier.
pub open spec fn distinct_ids(s: Seq<DocV>) -> bool {
    forall|i: int, j: int|
        0 <= i < j < s.len() ==> (#[trigger] s[i]).identifier != (#[trigger] s[j]).identifier
}

/// Inserting anywhere adds exactly that entry to the sequence's multiset.
pub proof fn lemma_insert_multiset<A>(s: Seq<A>, j: int, x: A)
    requires
        0 <= j <= s.len(),
    ensures
        s.insert(j, x).to_multiset() =~= s.to_multiset().insert(x),
{
    broadcast use group_to_multiset_ensures, group_multiset_axioms;

    assert(s.insert(j, x) =~= s.take(j) + (seq![x] + s.skip(j)));
    lemma_multiset_commutative(s.take(j), seq![x] + s.skip(j));
    lemma_multiset_commutative(seq![x], s.skip(j));
    lemma_multiset_commutative(s.take(j), s.skip(j));
    assert(s.take(j) + s.skip(j) =~= s);
    assert(seq![x] =~= Seq::<A>::empty().push(x));
    assert(Seq::<A>::empty().push(x).to_multiset() =~= Multiset::<A>::empty().insert(x));
}

/// A permutation of entries with pairwise different identifiers again has
/// pairwise different identifiers.
pub proof fn lemma_perm_distinct_ids(a: Seq<DocV>, b: Seq<DocV>)
    requires
        a.to_multiset() == b.to_multiset(),
        distinct_ids(a),
    ensures
        distinct_ids(b),
{
    broadcast use group_to_multiset_ensures, group_multiset_axioms;

    assert(a.no_duplicates()) by {
        assert(forall|i: int, j: int|
            0 <= i < a.len() && 0 <= j < a.len() && i != j ==> #[trigger] a[i] != #[trigger] a[j])
            by {
            assert(forall|i: int, j: int|
                0 <= i < j < a.len() ==> (#[trigger] a[i]).identifier != (#[trigger] a[j]).identifier);
        }
    }
    a.lemma_multiset_has_no_duplicates();
    b.lemma_multiset_has_no_duplicates_conv();
    assert forall|i: int, j: int| 0 <= i < j < b.len() implies (#[trigger] b[i]).identifier != (
    #[trigger] b[j]).identifier by {
        if b[i].identifier == b[j].identifier {
            assert(b[i] != b[j]);  // b has no duplicate values
            assert(b.contains(b[i]) && b.contains(b[j]));
            assert(a.to_multiset().count(b[i]) > 0 && a.to_multiset().count(b[j]) > 0);
            assert(a.contains(b[i]) && a.contains(b[j]));
            let p = choose|p: int| 0 <= p < a.len() && a[p] == b[i];
            let q = choose|q: int| 0 <= q < a.len() && a[q] == b[j];
            assert(a[p].identifier == a[q].identifier && p != q);
        }
    }
}

/// Orders the entries by publication date, most recent first, moving no
/// entry in or out.
pub fn sort_docs_by_date_desc(docs: Vec<Doc>) -> (r: Vec<Doc>)
    ensures
        r.deep_view().len() == docs.deep_view().len(),
        sorted_by_date_desc(r.deep_view()),
        r.deep_view().to_multiset() == docs.deep_view().to_multiset(),
{
    let ghost orig = docs.deep_view();
    let mut input = docs;
    let mut out: Vec<Doc> = Vec::new();
    proof {
        broadcast use group_to_multiset_ensures, group_multiset_axioms;

        assert(out.deep_view() =~= Seq::<DocV>::empty());
        assert(out.deep_view().to_multiset().add(input.deep_view().to_multiset())
            =~= orig.to_multiset());
    }
    while input.len() > 0
        invariant
            sorted_by_date_desc(out.deep_view()),
            out.deep_view().to_multiset().add(input.deep_view().to_multiset())
                == orig.to_multiset(),
            out.deep_view().len() + input.deep_view().len() == orig.len(),
        decreases input.len(),
    {
        let ghost old_in = input.deep_view();
        let ghost old_out = out.deep_view();
        let d = input.remove(0);
        proof {
            broadcast use group_to_multiset_ensures, group_multiset_axioms;

            assert(input.deep_view() =~= old_in.remove(0));
            assert(old_in.remove(0).to_multiset() =~= old_in.to_multiset().remove(old_in[0]));
            assert(d@ == old_in[0]);
        }
        let mut j: usize = 0;
        while j < out.len() && date_ge_exec(&out[j], &d)
            invariant
                0 <= j <= out.len(),
                forall|k: int| 0 <= k < j ==> date_ge(#[trigger] out.deep_view()[k], d@),
            decreases out.len() - j,
        {
            j = j + 1;
        }
        proof {
            broadcast use group_to_multiset_ensures, group_multiset_axioms;

            let ov = out.deep_view();
            lemma_insert_multiset(ov, j as int, d@);
            // everything after the insertion point dates at or before the new entry
            if (j as int) < ov.len() {
                assert(!date_ge(ov[j as int], d@));
                lemma_lex_total(ov[j as int].publicdate, d@.publicdate);
                assert(date_ge(d@, ov[j as int]));
                assert forall|k: int| j <= k < ov.len() implies date_ge(d@, #[trigger] ov[k]) by {
                    if k > j {
                        assert(date_ge(ov[j as int], ov[k]));
                        lemma_lex_trans(
                            ov[k].publicdate,
                            ov[j as int].publicdate,
                            d@.publicdate,
                        );
                    }
                }
            }
            let nv = ov.insert(j as int, d@);
            assert(sorted_by_date_desc(nv)) by {
                assert forall|x: int, y: int| 0 <= x < y < nv.len() implies date_ge(
                    #[trigger] nv[x],
                    #[trigger] nv[y],
                ) by {
                    if y < j {
                        assert(nv[x] == ov[x] && nv[y] == ov[y]);
                    } else if x > j {
                        assert(nv[x] == ov[x - 1] && nv[y] == ov[y - 1]);
                    } else if y == j {
                        assert(nv[x] == ov[x] && nv[y] == d@);
                    } else if x == j {
                        assert(nv[x] == d@ && nv[y] == ov[y - 1]);
                        assert(date_ge(d@, ov[y - 1]));
                    } else {
                        // x < j < y
                        assert(nv[x] == ov[x] && nv[y] == ov[y - 1]);
                        assert(date_ge(ov[x], d@));
                        if y - 1 == j {
                        } else {
                            assert(date_ge(ov[j as int], ov[y - 1]));
                        }
                        assert(date_ge(d@, ov[y - 1]));
                        lemma_lex_trans(ov[y - 1].publicdate, d@.publicdate, ov[x].publicdate);
                    }
                }
            }
        }
        let ghost before = out.deep_view();
        out.insert(j, d);
        proof {
            broadcast use group_to_multiset_ensures, group_multiset_axioms;

            assert(out.deep_view() =~= before.insert(j as int, d@));
            assert(out.deep_view().to_multiset().add(input.deep_view().to_multiset())
                =~= orig.to_multiset());
        }
    }
    proof {
        broadcast use group_to_multiset_ensures, group_multiset_axioms;

        assert(input.deep_view().to_multiset() =~= Multiset::<DocV>::empty());
        assert(out.deep_view().to_multiset() =~= orig.to_multiset());
    }
    out
}

/// Whether `a` was published at or after `b`.
fn date_ge_exec(a: &Doc, b: &Doc) -> (r: bool)
    ensures
        r == date_ge(a@, b@),
{
    lex_le_exec(b.publicdate.as_str(), a.publicdate.as_str())
}

/// Accumulates the pages of one catalog fetch and decides when the last
/// page has been seen.
pub struct CatalogMerger {
    /// All entries taken in so far, in page order.
    pub entries: Vec<Doc>,
}

impl View for CatalogMerger {
    type V = Seq<DocV>;

    open spec fn view(&self) -> Seq<DocV> {
        self.entries.deep_view()
    }
}

impl CatalogMerger {
    /// A merger with no pages taken in yet.
    pub fn new() -> (m: CatalogMerger)
        ensures
            m@ == Seq::<DocV>::empty(),
    {
        let m = CatalogMerger { entries: Vec::new() };
        proof {
            assert(m@ =~= Seq::<DocV>::empty());
        }
        m
    }

    /// Takes in one fetched page. The result says whether the server holds
    /// entries beyond this page, so that the next page must be fetched
    /// before the merge is complete.
    pub fn add_page(&mut self, page: PageData) -> (more: bool)
        ensures
            final(self)@ == old(self)@ + page@.docs,
            more == (page@.num_found > page@.start + PAGESIZE),
    {
        let more = page.num_found > page.start && page.num_found - page.start > PAGESIZE as u64;
        let mut docs = page.docs;
        let ghost added = docs.deep_view();
        let ghost before = self.entries.deep_view();
        let mut k: usize = 0;
        while docs.len() > 0
            invariant
                before + added == self.entries.deep_view() + docs.deep_view(),
            decreases docs.len(),
        {
            let ghost din = docs.deep_view();
            let ghost eout = self.entries.deep_view();
            let d = docs.remove(0);
            self.entries.push(d);
            proof {
                assert(docs.deep_view() =~= din.remove(0));
                assert(self.entries.deep_view() =~= eout.push(din[0]));
                assert(eout.push(din[0]) + din.remove(0) =~= eout + din);
            }
        }
        proof {
            assert(docs.deep_view() =~= Seq::<DocV>::empty());
            assert(final(self)@ =~= before + added);
        }
        more
    }

    /// Hands the merged entries out, ordered by publication date, most
    /// recent first.
    pub fn finish(self) -> (r: Vec<Doc>)
        ensures
            r.deep_view().len() == self@.len(),
            sorted_by_date_desc(r.deep_view()),
            r.deep_view().to_multiset() == self@.to_multiset(),
    {
        sort_docs_by_date_desc(self.entries)
    }
}

/// All entries of a page sequence, page after page in order.
pub open spec fn merged_docs(pages: Seq<PageDataV>) -> Seq<DocV>
    decreases pages.len(),
{
    if pages.len() == 0 {
        Seq::empty()
    } else {
        merged_docs(pages.drop_last()) + pages.last().docs
    }
}

/// The entries skipped over the whole page sequence.
pub open spec fn total_skipped(pages: Seq<PageDataV>) -> int
    decreases pages.len(),
{
    if pages.len() == 0 {
        0
    } else {
        total_skipped(pages.drop_last()) + pages.last().skipped
    }
}

/// A complete, non-racing fetch of one dataset: every page reports the
/// same total, pages follow each other at the fixed page size, each page
/// accounts for its quota as parsed or skipped entries, and the last page
/// exhausts the total.
pub open spec fn pages_consistent(pages: Seq<PageDataV>, total: int) -> bool {
    &&& pages.len() >= 1
    &&& total >= 0
    &&& PAGESIZE * (pages.len() - 1) <= total <= PAGESIZE * pages.len()
    &&& forall|i: int| 0 <= i < pages.len() ==> (#[trigger] pages[i]).num_found == total
    &&& forall|i: int| 0 <= i < pages.len() ==> (#[trigger] pages[i]).start == PAGESIZE * i
    &&& forall|i: int|
        0 <= i < pages.len() - 1 ==> (#[trigger] pages[i]).docs.len() + pages[i].skipped
            == PAGESIZE
    &&& pages.last().docs.len() + pages.last().skipped == total - PAGESIZE * (pages.len() - 1)
    &&& forall|i: int| 0 <= i < pages.len() ==> (#[trigger] pages[i]).skipped >= 0
}

/// How many entries all pages together parsed.
pub open spec fn sum_docs(pages: Seq<PageDataV>) -> int
    decreases pages.len(),
{
    if pages.len() == 0 {
        0
    } else {
        sum_docs(pages.drop_last()) + pages.last().docs.len()
    }
}

proof fn lemma_merged_is_sum(pages: Seq<PageDataV>)
    ensures
        merged_docs(pages).len() == sum_docs(pages),
    decreases pages.len(),
{
    if pages.len() > 0 {
        lemma_merged_is_sum(pages.drop_last());
    }
}

proof fn lemma_sum_full_pages(pages: Seq<PageDataV>)
    requires
        forall|i: int|
            0 <= i < pages.len() ==> (#[trigger] pages[i]).docs.len() + pages[i].skipped
                == PAGESIZE,
    ensures
        sum_docs(pages) + total_skipped(pages) == PAGESIZE * pages.len(),
    decreases pages.len(),
{
    if pages.len() > 0 {
        let front = pages.drop_last();
        assert(forall|i: int| 0 <= i < front.len() ==> #[trigger] front[i] == pages[i]);
        lemma_sum_full_pages(front);
        assert(pages.last().docs.len() + pages.last().skipped == PAGESIZE);
        assert(front.len() == pages.len() - 1);
        assert(PAGESIZE * pages.len() == PAGESIZE * front.len() + PAGESIZE) by (nonlinear_arith)
            requires
                front.len() == pages.len() - 1,
                pages.len() >= 1,
        ;
    }
}

proof fn lemma_merged_len(pages: Seq<PageDataV>, total: int)
    requires
        pages_consistent(pages, total),
    ensures
        merged_docs(pages).len() == total - total_skipped(pages),
{
    let front = pages.drop_last();
    assert(forall|i: int| 0 <= i < front.len() ==> #[trigger] front[i] == pages[i]);
    lemma_sum_full_pages(front);
    lemma_merged_is_sum(pages);
    assert(sum_docs(pages) == sum_docs(front) + pages.last().docs.len());
    assert(total_skipped(pages) == total_skipped(front) + pages.last().skipped);
    assert(PAGESIZE * front.len() == PAGESIZE * (pages.len() - 1));
}

/// A complete, non-racing fetch merges to exactly the server-reported
/// total minus the entries skipped as malformed; and when no identifier
/// repeats across the dataset, none repeats in the ordered result.
pub proof fn lemma_pagination_merge(pages: Seq<PageDataV>, total: int, sorted: Seq<DocV>)
    requires
        pages_consistent(pages, total),
        sorted.to_multiset() == merged_docs(pages).to_multiset(),
        distinct_ids(merged_docs(pages)),
    ensures
        sorted.len() == total - total_skipped(pages),
        distinct_ids(sorted),
{
    broadcast use group_to_multiset_ensures, group_multiset_axioms;

    lemma_merged_len(pages, total);
    assert(sorted.to_multiset().len() == sorted.len());
    assert(merged_docs(pages).to_multiset().len() == merged_docs(pages).len());
    lemma_perm_distinct_ids(merged_docs(pages), sorted);
}

} // verus!
