//! The data model: notes, links, metadata, configuration, and the errors
//! the core can report.
//!
//! All text is held as UTF-8 bytes, so that every field is a plain value
//! the contracts can speak about directly.
use vstd::prelude::*;

verus! {

/// Structured frontmatter of one document.  Fields of the delimited block
/// that carry an unexpected type count as absent; the whole block is kept
/// verbatim in `raw` as the open bag of unknown fields.
#[derive(Clone, Debug, PartialEq, Eq)]
pub struct Metadata {
    pub note_type: Option<Vec<u8>>,
    pub public: Option<bool>,
    pub title: Option<Vec<u8>>,
    pub created: Option<Vec<u8>>,
    pub updated: Option<Vec<u8>>,
    pub aliases: Option<Vec<Vec<u8>>>,
    pub tags: Option<Vec<Vec<u8>>>,
    pub summary: Option<Vec<u8>>,
    pub raw: Vec<u8>,
}

impl Metadata {
    /// The metadata of a document without a delimited frontmatter block:
    /// explicitly private, everything else empty.
    pub fn private_default() -> (m: Metadata)
        ensures
            m.note_type is None,
            m.public == Some(false),
            m.title is None,
            m.created is None,
            m.updated is None,
            m.aliases is None,
            m.tags is None,
            m.summary is None,
            m.raw@ == Seq::<u8>::empty(),
    {
        Metadata {
            note_type: None,
            public: Some(false),
            title: None,
            created: None,
            updated: None,
            aliases: None,
            tags: None,
            summary: None,
            raw: Vec::new(),
        }
    }

    /// A document is public only when its frontmatter says `public: true`.
    pub open spec fn spec_is_public(&self) -> bool {
        self.public == Some(true)
    }

    /// Whether the document is public.
    pub fn is_public(&self) -> (r: bool)
        ensures
            r == self.spec_is_public(),
    {
        match self.public {
            Some(b) => b,
            None => false,
        }
    }
}

/// One discovered cross-document reference: from the note `source` to the
/// note id `target`, which was looked up at `target_path`.
/// `target_public` is `None` when the target could not be read.
#[derive(Debug, PartialEq, Eq)]
pub struct Link {
    pub source: Vec<u8>,
    pub target: Vec<u8>,
    pub target_path: Vec<u8>,
    pub target_public: Option<bool>,
}

/// The mathematical content of a link record.
pub ghost struct LinkV {
    pub source: Seq<u8>,
    pub target: Seq<u8>,
    pub target_path: Seq<u8>,
    pub target_public: Option<bool>,
}

impl View for Link {
    type V = LinkV;

    open spec fn view(&self) -> LinkV {
        LinkV {
            source: self.source@,
            target: self.target@,
            target_path: self.target_path@,
            target_public: self.target_public,
        }
    }
}

impl Clone for Link {
    /// A clone carries the same content.
    fn clone(&self) -> (r: Link)
        ensures
            r@ == self@,
    {
        let r = Link {
            source: self.source.clone(),
            target: self.target.clone(),
            target_path: self.target_path.clone(),
            target_public: self.target_public,
        };
        proof {
            assert(r.source@ =~= self.source@);
            assert(r.target@ =~= self.target@);
            assert(r.target_path@ =~= self.target_path@);
        }
        r
    }
}

/// The indexed form of one vault document.  `slug` is the canonical note
/// id and the key of the note store; `name` is the display name.
#[derive(Clone, Debug, PartialEq, Eq)]
pub struct Note {
    pub public: bool,
    pub name: Vec<u8>,
    pub slug: Vec<u8>,
    pub path: Vec<u8>,
    pub data: NoteData,
    pub content: Vec<u8>,
}

/// The structured part of a note: its metadata and its outbound links.
#[derive(Clone, Debug, PartialEq, Eq)]
pub struct NoteData {
    pub metadata: Metadata,
    pub links: Vec<Link>,
}

/// One entry of the listing: a note id with its visibility and display
/// path.
#[derive(Clone, Debug, PartialEq, Eq)]
pub struct NodeInfo {
    pub id: Vec<u8>,
    pub public: bool,
    pub path: Vec<u8>,
    pub note_type: Vec<u8>,
}

/// How private targets are treated in rendered output: whether they may
/// be exposed, and the marker put before the text of a disabled link.
#[derive(Clone, Debug, PartialEq, Eq)]
pub struct PrivateConfig {
    pub expose: bool,
    pub icon: Vec<u8>,
}

/// The read-only configuration shared by scanner and watcher.
#[derive(Clone, Debug, PartialEq, Eq)]
pub struct UserConfig {
    pub root_path: Vec<u8>,
    pub ignore: Vec<Vec<u8>>,
    pub private: PrivateConfig,
}

/// Failure of the transform pipeline on one document.
#[derive(Clone, Debug, PartialEq, Eq)]
pub enum TransformError {
    /// The delimited frontmatter block is not well-formed structured text.
    MalformedMetadata { message: Vec<u8> },
}

/// Failure of configuration loading, fatal at startup.
#[derive(Clone, Debug, PartialEq, Eq)]
pub enum ConfigError {
    /// The configuration text is empty.
    Empty,
    /// The configuration text is not well-formed structured text.
    Malformed { message: Vec<u8> },
    /// The vault root path is missing.
    MissingRootPath,
}

} // verus!
