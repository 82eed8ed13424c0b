//! The durable local record of one episode: metadata and free-text body.
//! Identity is the `identifier`; one record file per episode.

use vstd::prelude::*;
use crate::config::Post;
use crate::doc::{Doc, DocV};
use crate::slug::spec_slug;
use crate::utils::{spec_first_words, EXCERPT_LENGTH};

verus! {

/// The mathematical shape of a record's metadata.
pub ghost struct MetadataV {
    pub number: int,
    pub identifier: Seq<char>,
    pub title: Seq<char>,
    pub subject: Seq<Seq<char>>,
    pub downloads: int,
    pub filename: Seq<char>,
    pub mtime: int,
    pub datetime: Option<Seq<char>>,
    pub size: int,
    pub length: int,
    pub excerpt: Seq<char>,
    pub slug: Seq<char>,
}

/// The metadata block of a record.
#[derive(Debug)]
pub struct Metadata {
    /// Position assigned while paging through the catalog.
    pub number: usize,
    /// The episode's unique identifier.
    pub identifier: String,
    /// Title.
    pub title: String,
    /// Ordered tags.
    pub subject: Vec<String>,
    /// Download count at the last synchronization.
    pub downloads: u64,
    /// Audio file name.
    pub filename: String,
    /// Audio modification time, seconds since the epoch.
    pub mtime: u64,
    /// Publication instant, if known.
    pub datetime: Option<String>,
    /// Audio size in bytes.
    pub size: u64,
    /// Audio length in whole seconds.
    pub length: u64,
    /// Short teaser derived from the description.
    pub excerpt: String,
    /// URL-safe slug derived from the title.
    pub slug: String,
}

impl View for Metadata {
    type V = MetadataV;

    open spec fn view(&self) -> MetadataV {
        MetadataV {
            number: self.number as int,
            identifier: self.identifier@,
            title: self.title@,
            subject: self.subject.deep_view(),
            downloads: self.downloads as int,
            filename: self.filename@,
            mtime: self.mtime as int,
            datetime: match self.datetime {
                Some(ref d) => Some(d@),
                None => None,
            },
            size: self.size as int,
            length: self.length as int,
            excerpt: self.excerpt@,
            slug: self.slug@,
        }
    }
}

impl Metadata {
    /// The path of the record file, under the episodes directory.
    pub fn get_filename(&self) -> (r: String)
        ensures
            r@ == "episodes/"@ + self@.identifier + ".md"@,
    {
        let mut s = String::from_str("episodes/");
        s.append(self.identifier.as_str());
        s.append(".md");
        s
    }
}

/// The mathematical shape of an episode record.
pub ghost struct EpisodeV {
    pub metadata: MetadataV,
    pub content: Seq<char>,
}

/// One episode's durable record: metadata and body.
#[derive(Debug)]
pub struct Episode {
    /// The metadata block.
    pub metadata: Metadata,
    /// The free-text body.
    pub content: String,
}

impl View for Episode {
    type V = EpisodeV;

    open spec fn view(&self) -> EpisodeV {
        EpisodeV { metadata: self.metadata@, content: self.content@ }
    }
}

/// What `comrak::markdown_to_html` returns for a markdown text under
/// default options. The result depends on the text alone.
pub uninterp spec fn html_of(md: Seq<char>) -> Seq<char>;

/// Relies on `comrak::markdown_to_html` with default options: renders
/// markdown as HTML, a function of the text alone.
#[verifier::external_body]
fn render_markdown(s: &str) -> (r: String)
    ensures
        r@ == html_of(s@),
{
    comrak::markdown_to_html(s, &comrak::Options::default())
}

/// The record built for a completed catalog entry: remote fields carried
/// over, the slug derived from the title, the excerpt from the first words
/// of the description, and the description as the body.
pub open spec fn episode_of_doc(d: DocV) -> EpisodeV {
    EpisodeV {
        metadata: MetadataV {
            number: d.number,
            identifier: d.identifier,
            title: d.title,
            subject: d.subject,
            downloads: d.downloads,
            filename: d.filename,
            mtime: d.mtime,
            datetime: Some(d.publicdate),
            size: d.size,
            length: d.length,
            excerpt: spec_first_words(d.description, EXCERPT_LENGTH as int),
            slug: spec_slug(d.title),
        },
        content: d.description,
    }
}

impl Episode {
    /// The path of the record file.
    pub fn get_filename(&self) -> (r: String)
        ensures
            r@ == "episodes/"@ + self@.metadata.identifier + ".md"@,
    {
        self.metadata.get_filename()
    }

    /// The episode's identifier.
    pub fn get_identifier(&self) -> (r: &str)
        ensures
            r@ == self@.metadata.identifier,
    {
        self.metadata.identifier.as_str()
    }

    /// The renderable view of the record: body and excerpt turned into
    /// HTML, every other field carried over.
    pub fn get_post(&self) -> (p: Post)
        requires
            self@.metadata.datetime is Some,
        ensures
            p@.slug == self@.metadata.slug,
            p@.excerpt == html_of(self@.metadata.excerpt),
            p@.title == self@.metadata.title,
            p@.content == html_of(self@.content),
            p@.subject == self@.metadata.subject,
            p@.date == self@.metadata.datetime->Some_0,
            p@.identifier == self@.metadata.identifier,
            p@.filename == self@.metadata.filename,
            p@.length == self@.metadata.length,
            p@.size == self@.metadata.size,
            p@.number == self@.metadata.number,
            p@.downloads == self@.metadata.downloads,
    {
        let content = render_markdown(self.content.as_str());
        let excerpt = render_markdown(self.metadata.excerpt.as_str());
        let date = match &self.metadata.datetime {
            Some(d) => d.clone(),
            None => String::new(),  // unreachable under the precondition
        };
        Post {
            slug: self.metadata.slug.clone(),
            excerpt,
            title: self.metadata.title.clone(),
            content,
            subject: self.metadata.subject.clone(),
            date,
            identifier: self.metadata.identifier.clone(),
            filename: self.metadata.filename.clone(),
            length: self.metadata.length,
            size: self.metadata.size,
            number: self.metadata.number,
            downloads: self.metadata.downloads,
        }
    }

    /// The download count stored in the record.
    pub fn get_downloads(&self) -> (r: u64)
        ensures
            r == self@.metadata.downloads,
    {
        self.metadata.downloads
    }

    /// Replaces the download count and nothing else.
    pub fn set_downloads(&mut self, downloads: u64)
        ensures
            final(self)@ == (EpisodeV {
                metadata: MetadataV { downloads: downloads as int, ..old(self)@.metadata },
                ..old(self)@
            }),
    {
        self.metadata.downloads = downloads;
    }

    /// Builds the record for a completed catalog entry: remote fields are
    /// carried over, the slug comes from the title, the excerpt from the
    /// first words of the description, and the description is the body.
    pub fn from_doc(doc: Doc) -> (e: Episode)
        ensures
            e@ == episode_of_doc(doc@),
    {
        let excerpt = doc.get_exceprt();
        let slug = doc.get_slug();
        let metadata = Metadata {
            number: doc.number,
            identifier: doc.identifier,
            subject: doc.subject,
            downloads: doc.downloads,
            datetime: Some(doc.publicdate),
            title: doc.title,
            excerpt,
            filename: doc.filename,
            mtime: doc.mtime,
            size: doc.size,
            length: doc.length,
            slug,
        };
        Episode { metadata, content: doc.description }
    }
}

} // verus!
