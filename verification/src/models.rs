use vstd::prelude::*;

verus! {

/// Provenance of a text fragment: where in a post the text was found.
#[derive(Clone, Copy, PartialEq, Eq, Structural)]
pub enum FragmentKind {
    Post,
    Picture,
    Video,
    External,
}

/// Spec-level image of a text fragment: its provenance tag and its characters.
pub struct FragmentV {
    pub kind: FragmentKind,
    pub text: Seq<char>,
}

/// One tagged unit of classifiable text drawn from a post's body or from its
/// attached media and link metadata.
#[derive(Clone)]
pub enum TextInPost {
    Post(String),
    Picture(String),
    Video(String),
    External(String),
}

impl View for TextInPost {
    type V = FragmentV;

    open spec fn view(&self) -> FragmentV {
        match self {
            TextInPost::Post(s) => FragmentV { kind: FragmentKind::Post, text: s@ },
            TextInPost::Picture(s) => FragmentV { kind: FragmentKind::Picture, text: s@ },
            TextInPost::Video(s) => FragmentV { kind: FragmentKind::Video, text: s@ },
            TextInPost::External(s) => FragmentV { kind: FragmentKind::External, text: s@ },
        }
    }
}

impl TextInPost {
    /// The fragment's text, with the provenance tag discarded.
    pub fn to_string(self) -> (r: String)
        ensures
            r@ == self@.text,
    {
        match self {
            TextInPost::Post(value) => value,
            TextInPost::Picture(value) => value,
            TextInPost::Video(value) => value,
            TextInPost::External(value) => value,
        }
    }
}

/// The classifier's verdict for an accepted post: the initial lifecycle flags
/// and the priority score that the scanned fragments earned.
#[derive(Clone, Copy, Debug, PartialEq, Eq, Structural)]
pub struct PostScoring {
    pub pinned: bool,
    pub deleted: bool,
    pub priority: i64,
}

/// Spec-level image of a stored post row as the read interface returns it.
#[verifier::ext_equal]
pub struct DbPostV {
    pub uri: Seq<char>,
    pub text: Seq<char>,
    pub pinned: bool,
    pub deleted: bool,
    pub priority: int,
}

/// A stored post row as the read interface returns it.
pub struct DbPost {
    pub uri: String,
    pub text: String,
    pub pinned: bool,
    pub deleted: bool,
    pub priority: i64,
}

impl View for DbPost {
    type V = DbPostV;

    open spec fn view(&self) -> DbPostV {
        DbPostV {
            uri: self.uri@,
            text: self.text@,
            pinned: self.pinned,
            deleted: self.deleted,
            priority: self.priority as int,
        }
    }
}

} // verus!
