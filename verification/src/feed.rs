//! The feed builder's verified half: it binds the podcast data that the
//! feed is assembled from. The assembly itself writes RSS through an
//! outside crate and lives with the rest of the unverified output code.

use vstd::prelude::*;
use crate::config::Podcast;

verus! {

/// The data an RSS feed is assembled from.
#[derive(Debug, Clone)]
pub struct Feed {
    podcast: Podcast,
}

impl Feed {
    /// Binds the podcast whose feed is to be assembled.
    pub fn new(podcast: Podcast) -> (f: Feed)
        ensures
            f.get_podcast_spec() == podcast,
    {
        Feed { podcast }
    }

    /// The bound podcast data.
    pub closed spec fn get_podcast_spec(&self) -> Podcast {
        self.podcast
    }

    /// Reads the bound podcast data.
    pub fn get_podcast(&self) -> (r: &Podcast)
        ensures
            *r == self.get_podcast_spec(),
    {
        &self.podcast
    }
}

} // verus!
