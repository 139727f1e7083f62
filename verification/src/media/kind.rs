//! The two kinds of media.

use crate::text::{eq_ignore_case, same_ignoring_case, same_text};
use vstd::prelude::*;

verus! {

/// What is generated.
#[derive(Debug, Clone, Copy, PartialEq, Eq, Structural)]
pub enum MediaKind {
    Image,
    Video,
}

/// The kind that a name stands for: a video for `video`, in any case, and for `t2v`; an
/// image for every other name.
pub open spec fn kind_of(s: Seq<char>) -> MediaKind {
    if same_ignoring_case(s, "video"@) || s == "t2v"@ {
        MediaKind::Video
    } else {
        MediaKind::Image
    }
}

impl MediaKind {
    /// The name under which tasks are stored.
    pub open spec fn spec_name(self) -> Seq<char> {
        match self {
            MediaKind::Image => "image"@,
            MediaKind::Video => "video"@,
        }
    }

    /// The chat type of the upstream.
    pub open spec fn spec_chat_type(self) -> Seq<char> {
        match self {
            MediaKind::Image => "t2i"@,
            MediaKind::Video => "t2v"@,
        }
    }

    /// The endpoint that a request came through.
    pub open spec fn spec_surface(self) -> Seq<char> {
        match self {
            MediaKind::Image => "images"@,
            MediaKind::Video => "videos"@,
        }
    }

    /// The file extension where a link tells none.
    pub open spec fn spec_default_ext(self) -> Seq<char> {
        match self {
            MediaKind::Image => "png"@,
            MediaKind::Video => "mp4"@,
        }
    }

    /// The name under which tasks are stored.
    pub fn as_str(&self) -> (r: &'static str)
        ensures
            r@ == self.spec_name(),
    {
        match self {
            MediaKind::Image => "image",
            MediaKind::Video => "video",
        }
    }

    /// The chat type of the upstream.
    pub fn chat_type(&self) -> (r: &'static str)
        ensures
            r@ == self.spec_chat_type(),
    {
        match self {
            MediaKind::Image => "t2i",
            MediaKind::Video => "t2v",
        }
    }

    /// The endpoint that a request came through.
    pub fn surface(&self) -> (r: &'static str)
        ensures
            r@ == self.spec_surface(),
    {
        match self {
            MediaKind::Image => "images",
            MediaKind::Video => "videos",
        }
    }

    /// The kind that a name stands for.
    pub fn parse(s: &str) -> (r: MediaKind)
        ensures
            r == kind_of(s@),
    {
        if eq_ignore_case(s, "video") || same_text(s, "t2v") {
            MediaKind::Video
        } else {
            MediaKind::Image
        }
    }

    /// The file extension where a link tells none.
    pub fn default_ext(&self) -> (r: &'static str)
        ensures
            r@ == self.spec_default_ext(),
    {
        match self {
            MediaKind::Image => "png",
            MediaKind::Video => "mp4",
        }
    }
}

/// A kind is found again under the name that it is stored under, and under the chat type of
/// the upstream.
pub proof fn kind_names_round_trip(kind: MediaKind)
    ensures
        kind_of(kind.spec_name()) == kind,
        kind_of(kind.spec_chat_type()) == kind,
{
    reveal_strlit("video");
    reveal_strlit("image");
    reveal_strlit("t2v");
    reveal_strlit("t2i");
    let low = |c: char| crate::text::ascii_lower(c);
    let v = "video"@.map_values(low);
    assert("image"@.map_values(low)[0] == 'i' && v[0] == 'v');
    assert("t2i"@.map_values(low).len() != v.len());
    assert("t2i"@[2] == 'i' && "t2v"@[2] == 'v');
    assert("image"@.len() != "t2v"@.len());
}

} // verus!
