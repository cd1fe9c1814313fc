//! The entries of a declared layout and their mathematical model.

use vstd::prelude::*;
use crate::path::chars_of;

verus! {

/// What an entry asks for on disk.
#[derive(Clone, Copy, Debug, PartialEq, Eq, Structural)]
pub enum EntryKind {
    Directory,
    File,
}

/// The model of an entry: its fields as mathematical values.
pub struct EntryModel {
    pub path: Seq<char>,
    pub kind: EntryKind,
    pub content: Seq<char>,
    pub children: Seq<EntryModel>,
}

/// One entry of a declared layout.
///
/// `path` is relative to the resolved path of the parent entry, or to the
/// root for a top-level entry. `content` is read only for a file, `children`
/// only for a directory.
#[derive(Debug, PartialEq, Eq)]
pub struct FileStructureEntry {
    pub path: String,
    pub kind: EntryKind,
    pub content: String,
    pub children: Vec<FileStructureEntry>,
}

/// The model of `entry`: its own fields, and the models of its children in
/// order.
pub open spec fn model_of(entry: FileStructureEntry) -> EntryModel
    decreases entry,
{
    EntryModel {
        path: entry.path@,
        kind: entry.kind,
        content: entry.content@,
        children: Seq::new(
            entry.children@.len(),
            |i: int|
                if 0 <= i < entry.children@.len() {
                    model_of(entry.children@[i])
                } else {
                    arbitrary()
                },
        ),
    }
}

impl View for FileStructureEntry {
    type V = EntryModel;

    open spec fn view(&self) -> EntryModel {
        model_of(*self)
    }
}

/// The models of a sequence of entries.
pub open spec fn models_of(entries: Seq<FileStructureEntry>) -> Seq<EntryModel> {
    Seq::new(entries.len(), |i: int| entries[i]@)
}

impl FileStructureEntry {
    /// The model of an entry holds the models of its children, in order.
    pub proof fn lemma_view(&self)
        ensures
            self@.path == self.path@,
            self@.kind == self.kind,
            self@.content == self.content@,
            self@.children == models_of(self.children@),
    {
        assert(self@.children =~= models_of(self.children@));
    }
}

/// Why a declared entry is not an entry.
#[derive(Clone, Debug, PartialEq, Eq)]
pub enum DecodeError {
    /// The entry declares no path.
    MissingPath,
    /// The entry declares no type.
    MissingType,
    /// The entry declares a type that is neither `dir` nor `file`.
    UnknownType { found: String },
}

/// The model of a decoding failure.
pub enum DecodeErrorModel {
    MissingPath,
    MissingType,
    UnknownType { found: Seq<char> },
}

impl View for DecodeError {
    type V = DecodeErrorModel;

    open spec fn view(&self) -> DecodeErrorModel {
        match self {
            DecodeError::MissingPath => DecodeErrorModel::MissingPath,
            DecodeError::MissingType => DecodeErrorModel::MissingType,
            DecodeError::UnknownType { found } => DecodeErrorModel::UnknownType { found: found@ },
        }
    }
}

/// The kind that a declared type stands for: `dir` for a directory, `file`
/// for a file, and nothing else for either.
pub open spec fn kind_of_tag(tag: Seq<char>) -> Option<EntryKind> {
    if tag == seq!['d', 'i', 'r'] {
        Some(EntryKind::Directory)
    } else if tag == seq!['f', 'i', 'l', 'e'] {
        Some(EntryKind::File)
    } else {
        None
    }
}

/// What the declared fields of an entry decode to. The path and the type
/// are required, the path is asked for first; an absent content is the
/// empty string, and absent children are no children.
pub open spec fn decode_parts(
    path: Option<Seq<char>>,
    tag: Option<Seq<char>>,
    content: Option<Seq<char>>,
    children: Option<Seq<EntryModel>>,
) -> Result<EntryModel, DecodeErrorModel> {
    if path is None {
        Err(DecodeErrorModel::MissingPath)
    } else if tag is None {
        Err(DecodeErrorModel::MissingType)
    } else if kind_of_tag(tag->0) is None {
        Err(DecodeErrorModel::UnknownType { found: tag->0 })
    } else {
        Ok(
            EntryModel {
                path: path->0,
                kind: kind_of_tag(tag->0)->0,
                content: match content {
                    Some(text) => text,
                    None => Seq::empty(),
                },
                children: match children {
                    Some(below) => below,
                    None => Seq::empty(),
                },
            },
        )
    }
}

/// The model of an optional string.
pub open spec fn text_model(text: Option<String>) -> Option<Seq<char>> {
    match text {
        Some(t) => Some(t@),
        None => None,
    }
}

/// The model of optional children.
pub open spec fn children_model(children: Option<Vec<FileStructureEntry>>) -> Option<
    Seq<EntryModel>,
> {
    match children {
        Some(below) => Some(models_of(below@)),
        None => None,
    }
}

/// The model of a decoding result.
pub open spec fn decoded_model(result: Result<FileStructureEntry, DecodeError>) -> Result<
    EntryModel,
    DecodeErrorModel,
> {
    match result {
        Ok(entry) => Ok(entry@),
        Err(e) => Err(e@),
    }
}

impl EntryKind {
    /// The kind that the declared type `tag` stands for.
    pub fn from_tag(tag: &str) -> (kind: Option<EntryKind>)
        ensures
            kind == kind_of_tag(tag@),
    {
        proof {
            reveal_strlit("dir");
            reveal_strlit("file");
        }
        let cs = chars_of(tag);
        if cs.len() == 3 && cs[0] == 'd' && cs[1] == 'i' && cs[2] == 'r' {
            assert(tag@ =~= seq!['d', 'i', 'r']);
            Some(EntryKind::Directory)
        } else if cs.len() == 4 && cs[0] == 'f' && cs[1] == 'i' && cs[2] == 'l' && cs[3] == 'e' {
            assert(tag@ =~= seq!['f', 'i', 'l', 'e']);
            Some(EntryKind::File)
        } else {
            None
        }
    }
}

impl FileStructureEntry {
    /// Decodes an entry from its declared fields, each absent or present.
    pub fn from_parts(
        path: Option<String>,
        tag: Option<String>,
        content: Option<String>,
        children: Option<Vec<FileStructureEntry>>,
    ) -> (result: Result<FileStructureEntry, DecodeError>)
        ensures
            decoded_model(result) == decode_parts(
                text_model(path),
                text_model(tag),
                text_model(content),
                children_model(children),
            ),
    {
        let own_path = match path {
            Some(p) => p,
            None => {
                return Err(DecodeError::MissingPath);
            },
        };
        let own_tag = match tag {
            Some(t) => t,
            None => {
                return Err(DecodeError::MissingType);
            },
        };
        let kind = match EntryKind::from_tag(own_tag.as_str()) {
            Some(k) => k,
            None => {
                return Err(DecodeError::UnknownType { found: own_tag });
            },
        };
        let own_content = match content {
            Some(text) => text,
            None => String::new(),
        };
        let below = match children {
            Some(given) => given,
            None => Vec::new(),
        };
        let entry = FileStructureEntry {
            path: own_path,
            kind,
            content: own_content,
            children: below,
        };
        proof {
            entry.lemma_view();
            assert(children is None ==> models_of(entry.children@) =~= Seq::empty());
        }
        Ok(entry)
    }
}

} // verus!
