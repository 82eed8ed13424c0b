//! One remote catalog entry. Created per run from a search response page,
//! completed with audio fields scraped from the item's manifest, and
//! discarded once the reconciliation pass is over.

use vstd::prelude::*;
use crate::error::Error;
use crate::manifest::{block_text, parse_block_fields, parses_u64, spec_block_text,
    spec_block_filename, spec_get_value, spec_length_digits};
use crate::slug::{get_slug, spec_slug};
use crate::text::digits_val;
use crate::utils::{get_excerpt, spec_first_words, EXCERPT_LENGTH};

verus! {

/// The mathematical shape of a catalog entry.
pub ghost struct DocV {
    pub number: int,
    pub identifier: Seq<char>,
    pub version: int,
    pub publicdate: Seq<char>,
    pub subject: Seq<Seq<char>>,
    pub description: Seq<char>,
    pub title: Seq<char>,
    pub downloads: int,
    pub filename: Seq<char>,
    pub mtime: int,
    pub size: int,
    pub length: int,
}

/// One remote catalog entry.
#[derive(Debug)]
pub struct Doc {
    /// Position assigned while paging through the catalog.
    pub number: usize,
    /// The entry's unique identifier.
    pub identifier: String,
    /// Record shape version.
    pub version: usize,
    /// Publication instant, `YYYY-MM-DDTHH:MM:SSZ`.
    pub publicdate: String,
    /// Ordered tags.
    pub subject: Vec<String>,
    /// Raw description text.
    pub description: String,
    /// Title.
    pub title: String,
    /// Download count reported by the remote catalog.
    pub downloads: u64,
    /// Audio file name, empty until completed.
    pub filename: String,
    /// Audio modification time, zero until completed.
    pub mtime: u64,
    /// Audio size in bytes, zero until completed.
    pub size: u64,
    /// Audio length in whole seconds, zero until completed.
    pub length: u64,
}

impl View for Doc {
    type V = DocV;

    open spec fn view(&self) -> DocV {
        DocV {
            number: self.number as int,
            identifier: self.identifier@,
            version: self.version as int,
            publicdate: self.publicdate@,
            subject: self.subject.deep_view(),
            description: self.description@,
            title: self.title@,
            downloads: self.downloads as int,
            filename: self.filename@,
            mtime: self.mtime as int,
            size: self.size as int,
            length: self.length as int,
        }
    }
}

impl DeepView for Doc {
    type V = DocV;

    open spec fn deep_view(&self) -> DocV {
        self.view()
    }
}

impl Doc {
    /// A fresh entry as one page of the search response reports it: the
    /// audio fields start out empty and the position unassigned.
    pub fn new(
        identifier: String,
        publicdate: String,
        subject: Vec<String>,
        description: String,
        title: String,
        downloads: u64,
    ) -> (d: Doc)
        ensures
            d@ == (DocV {
                number: 0,
                identifier: identifier@,
                version: 0,
                publicdate: publicdate@,
                subject: subject.deep_view(),
                description: description@,
                title: title@,
                downloads: downloads as int,
                filename: Seq::<char>::empty(),
                mtime: 0,
                size: 0,
                length: 0,
            }),
    {
        let d = Doc {
            number: 0,
            identifier,
            version: 0,
            publicdate,
            subject,
            description,
            title,
            downloads,
            filename: String::new(),
            mtime: 0,
            size: 0,
            length: 0,
        };
        proof {
            assert(d.filename@ =~= Seq::<char>::empty());
        }
        d
    }

    /// Fills the audio fields from the manifest document's first original
    /// audio block. A manifest without such a block leaves the entry as it
    /// stands; a block whose numeric fields do not parse is an error.
    pub fn complete(&mut self, manifest: &str) -> (r: Result<(), Error>)
        ensures
            ({
                let text = spec_block_text(manifest@, true);
                match r {
                    Ok(_) => {
                        if text.len() == 0 {
                            final(self)@ == old(self)@
                        } else {
                            &&& parses_u64(spec_get_value("mtime"@, text))
                            &&& parses_u64(spec_get_value("size"@, text))
                            &&& parses_u64(spec_length_digits(text))
                            &&& spec_block_filename(text) is Some
                            &&& final(self)@ == (DocV {
                                filename: spec_block_filename(text)->Some_0,
                                mtime: digits_val(spec_get_value("mtime"@, text)),
                                size: digits_val(spec_get_value("size"@, text)),
                                length: digits_val(spec_length_digits(text)),
                                ..old(self)@
                            })
                        }
                    },
                    Err(_) => {
                        &&& text.len() > 0
                        &&& (!parses_u64(spec_get_value("mtime"@, text)) || !parses_u64(
                            spec_get_value("size"@, text),
                        ) || !parses_u64(spec_length_digits(text)) || spec_block_filename(text)
                            is None)
                        &&& final(self)@ == old(self)@
                    },
                }
            }),
    {
        let text = block_text(manifest, true);
        if text.as_str().unicode_len() == 0 {
            return Ok(());
        }
        match parse_block_fields(text.as_str()) {
            Some(f) => {
                self.filename = f.filename;
                self.mtime = f.mtime;
                self.size = f.size;
                self.length = f.length;
                Ok(())
            },
            None => Err(Error::new("no audio fields could be read from the manifest block")),
        }
    }

    /// The position assigned during pagination.
    pub fn get_number(&self) -> (r: usize)
        ensures
            r == self@.number,
    {
        self.number
    }

    /// Assigns the pagination position.
    pub fn set_number(&mut self, number: usize)
        ensures
            final(self)@ == (DocV { number: number as int, ..old(self)@ }),
    {
        self.number = number;
    }

    /// The record shape version.
    pub fn get_version(&self) -> (r: usize)
        ensures
            r == self@.version,
    {
        self.version
    }

    /// Assigns the record shape version.
    pub fn set_version(&mut self, version: usize)
        ensures
            final(self)@ == (DocV { version: version as int, ..old(self)@ }),
    {
        self.version = version;
    }

    /// The entry's title.
    pub fn get_title(&self) -> (r: &str)
        ensures
            r@ == self@.title,
    {
        self.title.as_str()
    }

    /// The publication instant string.
    pub fn get_datetime(&self) -> (r: &str)
        ensures
            r@ == self@.publicdate,
    {
        self.publicdate.as_str()
    }

    /// The entry's unique identifier.
    pub fn get_identifier(&self) -> (r: &str)
        ensures
            r@ == self@.identifier,
    {
        self.identifier.as_str()
    }

    /// The entry's tags.
    pub fn get_subject(&self) -> (r: Vec<String>)
        ensures
            r.deep_view() == self@.subject,
    {
        let r = self.subject.clone();
        proof {
            assert(r.deep_view() =~= self.subject.deep_view());
        }
        r
    }

    /// The raw description.
    pub fn get_description(&self) -> (r: &str)
        ensures
            r@ == self@.description,
    {
        self.description.as_str()
    }

    /// The excerpt derived from the description: its first words.
    pub fn get_exceprt(&self) -> (r: String)
        ensures
            r@ == spec_first_words(self@.description, EXCERPT_LENGTH as int),
    {
        get_excerpt(self.description.as_str())
    }

    /// The URL-safe slug derived from the title.
    pub fn get_slug(&self) -> (r: String)
        ensures
            r@ == spec_slug(self@.title),
    {
        get_slug(self.title.as_str())
    }

    /// The name of the record file this entry persists under.
    pub fn get_post_filename(&self) -> (r: String)
        ensures
            r@ == self@.identifier + ".md"@,
    {
        let mut s = self.identifier.clone();
        s.append(".md");
        s
    }

    /// The download count the remote catalog reports.
    pub fn get_downloads(&self) -> (r: u64)
        ensures
            r == self@.downloads,
    {
        self.downloads
    }

    /// The audio file name.
    pub fn get_audio_filename(&self) -> (r: &str)
        ensures
            r@ == self@.filename,
    {
        self.filename.as_str()
    }

    /// The audio modification time.
    pub fn get_mtime(&self) -> (r: u64)
        ensures
            r == self@.mtime,
    {
        self.mtime
    }

    /// The audio size in bytes.
    pub fn get_size(&self) -> (r: u64)
        ensures
            r == self@.size,
    {
        self.size
    }

    /// The audio length in whole seconds.
    pub fn get_length(&self) -> (r: u64)
        ensures
            r == self@.length,
    {
        self.length
    }
}

} // verus!
