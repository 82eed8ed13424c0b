//! Run configuration and the renderable shapes handed to the site
//! templates: the podcast's presentation data and the per-episode `Post`.

use vstd::prelude::*;
use crate::catalog::IAClient;

verus! {

/// Presentation data of the podcast, read from the configuration file.
#[derive(Debug, Clone)]
pub struct Podcast {
    pub base_url: String,
    pub feed_url: String,
    pub url: String,
    pub author: String,
    pub email: String,
    pub image_url: String,
    pub category: String,
    pub subcategory: Option<String>,
    pub explicit: bool,
    pub title: String,
    pub description: String,
    pub keywords: Vec<String>,
    pub license: String,
}

/// The mathematical shape of a renderable post.
pub ghost struct PostV {
    pub slug: Seq<char>,
    pub excerpt: Seq<char>,
    pub title: Seq<char>,
    pub content: Seq<char>,
    pub subject: Seq<Seq<char>>,
    pub date: Seq<char>,
    pub identifier: Seq<char>,
    pub filename: Seq<char>,
    pub size: int,
    pub length: int,
    pub number: int,
    pub downloads: int,
}

/// One episode or page as the templates see it: body and excerpt already
/// rendered to HTML.
#[derive(Debug)]
pub struct Post {
    pub slug: String,
    pub excerpt: String,
    pub title: String,
    pub content: String,
    pub subject: Vec<String>,
    pub date: String,
    pub identifier: String,
    pub filename: String,
    pub size: u64,
    pub length: u64,
    pub number: usize,
    pub downloads: u64,
}

impl View for Post {
    type V = PostV;

    open spec fn view(&self) -> PostV {
        PostV {
            slug: self.slug@,
            excerpt: self.excerpt@,
            title: self.title@,
            content: self.content@,
            subject: self.subject.deep_view(),
            date: self.date@,
            identifier: self.identifier@,
            filename: self.filename@,
            size: self.size as int,
            length: self.length as int,
            number: self.number as int,
            downloads: self.downloads as int,
        }
    }
}

impl DeepView for Post {
    type V = PostV;

    open spec fn deep_view(&self) -> PostV {
        self.view()
    }
}

/// Presentation data of the site, an older configuration shape kept for
/// callers that still read it.
#[derive(Debug, Clone)]
pub struct Site {
    pub author: String,
    pub title: String,
    pub description: String,
    pub podcast_feed: String,
    pub baseurl: String,
    pub url: String,
    pub avatar: String,
    pub category: String,
    pub subcategory: String,
    pub explicit: bool,
}

/// The run's configuration: where output goes, where assets come from,
/// the podcast's presentation data and the catalog client.
#[derive(Debug, Clone)]
pub struct Configuration {
    public: String,
    assets: String,
    podcast: Podcast,
    iaclient: IAClient,
}

impl Configuration {
    /// Binds the configuration values read at startup.
    pub fn new(public: String, assets: String, podcast: Podcast, iaclient: IAClient) -> (c:
        Configuration)
        ensures
            c.get_public_spec() == public@,
            c.get_assets_spec() == assets@,
            c.get_podcast_spec() == podcast,
            c.get_iaclient_spec() == iaclient,
    {
        Configuration { public, assets, podcast, iaclient }
    }

    /// The configured podcast data.
    pub closed spec fn get_podcast_spec(&self) -> Podcast {
        self.podcast
    }

    /// The configured catalog client.
    pub closed spec fn get_iaclient_spec(&self) -> IAClient {
        self.iaclient
    }

    /// The configured output directory.
    pub closed spec fn get_public_spec(&self) -> Seq<char> {
        self.public@
    }

    /// The configured assets directory.
    pub closed spec fn get_assets_spec(&self) -> Seq<char> {
        self.assets@
    }

    /// The podcast's presentation data.
    pub fn get_podcast(&self) -> (r: &Podcast)
        ensures
            *r == self.get_podcast_spec(),
    {
        &self.podcast
    }

    /// The catalog client to fetch with.
    pub fn get_iaclient(&self) -> (r: &IAClient)
        ensures
            *r == self.get_iaclient_spec(),
    {
        &self.iaclient
    }

    /// The output directory.
    pub fn get_public(&self) -> (r: &str)
        ensures
            r@ == self.get_public_spec(),
    {
        self.public.as_str()
    }

    /// The assets directory.
    pub fn get_assets(&self) -> (r: &str)
        ensures
            r@ == self.get_assets_spec(),
    {
        self.assets.as_str()
    }
}


/// `a` was published at or after `b`.
pub open spec fn post_date_ge(a: PostV, b: PostV) -> bool {
    crate::datetime::lex_le(b.date, a.date)
}

/// Publication dates never increase along the sequence.
pub open spec fn posts_sorted_by_date_desc(s: Seq<PostV>) -> bool {
    forall|i: int, j: int| 0 <= i < j < s.len() ==> post_date_ge(#[trigger] s[i], #[trigger] s[j])
}

/// Whether `a` was published at or after `b`.
fn post_date_ge_exec(a: &Post, b: &Post) -> (r: bool)
    ensures
        r == post_date_ge(a@, b@),
{
    crate::datetime::lex_le_exec(b.date.as_str(), a.date.as_str())
}

/// Orders posts by date, most recent first, moving no post in or out.
pub fn sort_posts_by_date_desc(posts: Vec<Post>) -> (r: Vec<Post>)
    ensures
        r.deep_view().len() == posts.deep_view().len(),
        posts_sorted_by_date_desc(r.deep_view()),
        r.deep_view().to_multiset() == posts.deep_view().to_multiset(),
{
    let ghost orig = posts.deep_view();
    let mut input = posts;
    let mut out: Vec<Post> = Vec::new();
    proof {
        broadcast use vstd::seq_lib::group_to_multiset_ensures, vstd::multiset::group_multiset_axioms;

        assert(out.deep_view() =~= Seq::<PostV>::empty());
        assert(out.deep_view().to_multiset().add(input.deep_view().to_multiset())
            =~= orig.to_multiset());
    }
    while input.len() > 0
        invariant
            posts_sorted_by_date_desc(out.deep_view()),
            out.deep_view().to_multiset().add(input.deep_view().to_multiset())
                == orig.to_multiset(),
            out.deep_view().len() + input.deep_view().len() == orig.len(),
        decreases input.len(),
    {
        let ghost old_in = input.deep_view();
        let d = input.remove(0);
        proof {
            broadcast use vstd::seq_lib::group_to_multiset_ensures, vstd::multiset::group_multiset_axioms;

            assert(input.deep_view() =~= old_in.remove(0));
            assert(old_in.remove(0).to_multiset() =~= old_in.to_multiset().remove(old_in[0]));
            assert(d@ == old_in[0]);
        }
        let mut j: usize = 0;
        while j < out.len() && post_date_ge_exec(&out[j], &d)
            invariant
                0 <= j <= out.len(),
                forall|k: int| 0 <= k < j ==> post_date_ge(#[trigger] out.deep_view()[k], d@),
            decreases out.len() - j,
        {
            j = j + 1;
        }
        proof {
            broadcast use vstd::seq_lib::group_to_multiset_ensures, vstd::multiset::group_multiset_axioms;

            let ov = out.deep_view();
            crate::catalog::lemma_insert_multiset(ov, j as int, d@);
            if (j as int) < ov.len() {
                assert(!post_date_ge(ov[j as int], d@));
                crate::datetime::lemma_lex_total(ov[j as int].date, d@.date);
                assert(post_date_ge(d@, ov[j as int]));
                assert forall|k: int| j <= k < ov.len() implies post_date_ge(
                    d@,
                    #[trigger] ov[k],
                ) by {
                    if k > j {
                        assert(post_date_ge(ov[j as int], ov[k]));
                        crate::datetime::lemma_lex_trans(ov[k].date, ov[j as int].date, d@.date);
                    }
                }
            }
            let nv = ov.insert(j as int, d@);
            assert(posts_sorted_by_date_desc(nv)) by {
                assert forall|x: int, y: int| 0 <= x < y < nv.len() implies post_date_ge(
                    #[trigger] nv[x],
                    #[trigger] nv[y],
                ) by {
                    if y < j {
                        assert(nv[x] == ov[x] && nv[y] == ov[y]);
                    } else if x > j {
                        assert(nv[x] == ov[x - 1] && nv[y] == ov[y - 1]);
                    } else if y == j {
                        assert(nv[x] == ov[x] && nv[y] == d@);
                    } else if x == j {
                        assert(nv[x] == d@ && nv[y] == ov[y - 1]);
                        assert(post_date_ge(d@, ov[y - 1]));
                    } else {
                        assert(nv[x] == ov[x] && nv[y] == ov[y - 1]);
                        assert(post_date_ge(ov[x], d@));
                        if y - 1 == j {
                        } else {
                            assert(post_date_ge(ov[j as int], ov[y - 1]));
                        }
                        assert(post_date_ge(d@, ov[y - 1]));
                        crate::datetime::lemma_lex_trans(ov[y - 1].date, d@.date, ov[x].date);
                    }
                }
            }
        }
        let ghost before = out.deep_view();
        out.insert(j, d);
        proof {
            broadcast use vstd::seq_lib::group_to_multiset_ensures, vstd::multiset::group_multiset_axioms;

            assert(out.deep_view() =~= before.insert(j as int, d@));
            assert(out.deep_view().to_multiset().add(input.deep_view().to_multiset())
                =~= orig.to_multiset());
        }
    }
    proof {
        broadcast use vstd::seq_lib::group_to_multiset_ensures, vstd::multiset::group_multiset_axioms;

        assert(input.deep_view().to_multiset() =~= vstd::multiset::Multiset::<PostV>::empty());
        assert(out.deep_view().to_multiset() =~= orig.to_multiset());
    }
    out
}

/// The output directory for the podcast: the configured public directory,
/// with the podcast's base path appended when one is set.
pub fn public_root(public: &str, base_url: &str) -> (r: String)
    ensures
        r@ == if base_url@.len() == 0 {
            public@
        } else {
            public@ + "/"@ + base_url@
        },
{
    if base_url.unicode_len() == 0 {
        String::from_str(public)
    } else {
        let mut s = String::from_str(public);
        s.append("/");
        s.append(base_url);
        s
    }
}

/// The site-relative URL prefix: empty without a base path, otherwise the
/// base path with exactly one leading slash.
pub fn url_prefix(base_url: &str) -> (r: String)
    ensures
        r@ == if base_url@.len() == 0 {
            Seq::<char>::empty()
        } else if base_url@[0] == '/' {
            base_url@
        } else {
            "/"@ + base_url@
        },
{
    let n = base_url.unicode_len();
    if n == 0 {
        String::new()
    } else if base_url.get_char(0) == '/' {
        String::from_str(base_url)
    } else {
        let mut s = String::from_str("/");
        s.append(base_url);
        s
    }
}

} // verus!
