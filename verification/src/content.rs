//! The ancillary `Content` tagged union and the `Post` record.
//!
//! A `Content` value tags a byte payload with an encoding discriminator (raw
//! bytes, IPFS CIDv0, Hypercore id) or holds no payload at all.  It carries no
//! behaviour beyond classification and byte extraction and is not consulted by
//! the claim registry.

use vstd::prelude::*;

verus! {

/// Unique sequential identifier of a post. Examples of post ids: `1`, `2`, `3`, and so on.
pub type PostId = u64;

/// A byte payload tagged with how the bytes are to be interpreted.
#[derive(Debug)]
pub enum Content {
    /// No content.
    Empty,
    /// A raw vector of bytes.
    Raw(Vec<u8>),
    /// IPFS CID v0 of content.
    IPFS(Vec<u8>),
    /// Hypercore protocol (former DAT) id of content.
    Hyper(Vec<u8>),
}

/// The mathematical shape of a [`Content`] value: the same four variants over
/// an abstract byte sequence.
pub enum ContentModel {
    Empty,
    Raw(Seq<u8>),
    IPFS(Seq<u8>),
    Hyper(Seq<u8>),
}

impl View for Content {
    type V = ContentModel;

    open spec fn view(&self) -> ContentModel {
        match *self {
            Content::Empty => ContentModel::Empty,
            Content::Raw(ref v) => ContentModel::Raw(v@),
            Content::IPFS(ref v) => ContentModel::IPFS(v@),
            Content::Hyper(ref v) => ContentModel::Hyper(v@),
        }
    }
}

/// The raw payload carried by a content value; empty when there is none.
pub open spec fn spec_payload(c: ContentModel) -> Seq<u8> {
    match c {
        ContentModel::Empty => Seq::empty(),
        ContentModel::Raw(b) => b,
        ContentModel::IPFS(b) => b,
        ContentModel::Hyper(b) => b,
    }
}

impl Content {
    /// True exactly when the value holds no content.
    pub fn is_none(&self) -> (r: bool)
        ensures
            r == (self@ is Empty),
    {
        matches!(self, Content::Empty)
    }

    /// True exactly when the value holds some content.
    pub fn is_some(&self) -> (r: bool)
        ensures
            r == !(self@ is Empty),
    {
        !self.is_none()
    }

    /// True exactly when the payload is an IPFS CID v0.
    pub fn is_ipfs(&self) -> (r: bool)
        ensures
            r == (self@ is IPFS),
    {
        matches!(self, Content::IPFS(_))
    }

    /// Extracts the payload bytes: the tagged bytes for the three tagged
    /// variants, the empty vector when there is no content.
    pub fn into_bytes(self) -> (r: Vec<u8>)
        ensures
            r@ == spec_payload(self@),
    {
        match self {
            Content::Empty => Vec::new(),
            Content::Raw(v) => v,
            Content::IPFS(v) => v,
            Content::Hyper(v) => v,
        }
    }
}

impl Default for Content {
    /// The default content is the absence of content.
    fn default() -> (r: Self)
        ensures
            r@ is Empty,
    {
        Content::Empty
    }
}

impl From<Content> for Vec<u8> {
    /// Conversion to the raw payload; the contract lives on
    /// [`Content::into_bytes`], to which this delegates.
    fn from(content: Content) -> (r: Vec<u8>) {
        content.into_bytes()
    }
}

impl vstd::std_specs::convert::FromSpecImpl<Content> for Vec<u8> {
    open spec fn obeys_from_spec() -> bool {
        false
    }

    open spec fn from_spec(content: Content) -> Self {
        arbitrary()
    }
}

impl PartialEq for Content {
    /// Structural equality: same variant, same payload bytes.
    fn eq(&self, other: &Content) -> (r: bool) {
        match (self, other) {
            (Content::Empty, Content::Empty) => true,
            (Content::Raw(a), Content::Raw(b)) => {
                let r: bool = a == b;
                proof {
                    if r {
                        assert(a@ =~= b@);
                    }
                }
                r
            },
            (Content::IPFS(a), Content::IPFS(b)) => {
                let r: bool = a == b;
                proof {
                    if r {
                        assert(a@ =~= b@);
                    }
                }
                r
            },
            (Content::Hyper(a), Content::Hyper(b)) => {
                let r: bool = a == b;
                proof {
                    if r {
                        assert(a@ =~= b@);
                    }
                }
                r
            },
            _ => false,
        }
    }
}

impl vstd::std_specs::cmp::PartialEqSpecImpl for Content {
    open spec fn obeys_eq_spec() -> bool {
        true
    }

    open spec fn eq_spec(&self, other: &Content) -> bool {
        self@ == other@
    }
}

/// Pairs a sequential numeric identifier with a content value; pure data.
#[derive(Debug)]
pub struct Post {
    /// Unique sequential identifier of the post.
    pub id: PostId,
    /// The post's content.
    pub content: Content,
}

/// The mathematical shape of a [`Post`].
pub struct PostModel {
    pub id: u64,
    pub content: ContentModel,
}

impl View for Post {
    type V = PostModel;

    open spec fn view(&self) -> PostModel {
        PostModel { id: self.id, content: self.content@ }
    }
}

impl PartialEq for Post {
    /// Structural equality: same identifier, same content.
    fn eq(&self, other: &Post) -> (r: bool) {
        self.id == other.id && self.content == other.content
    }
}

impl vstd::std_specs::cmp::PartialEqSpecImpl for Post {
    open spec fn obeys_eq_spec() -> bool {
        true
    }

    open spec fn eq_spec(&self, other: &Post) -> bool {
        self@ == other@
    }
}

} // verus!
