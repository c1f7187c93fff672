//! Which dropped files the viewer takes, and what it does with each kind.

use vstd::prelude::*;

verus! {

/// The kinds of file that the viewer can show, told apart by the file
/// name's extension.
#[derive(Clone, Copy, Debug, PartialEq, Eq, Structural)]
pub enum FileKind {
    /// A 3MF package (`3mf`): an archive whose model file is XML.
    ThreeMf,
    /// Plain text (`txt`).
    Text,
    /// A Wavefront object file (`obj`), shown as text.
    Obj,
    /// An XML document (`xml`).
    Xml,
}

/// The kind of file that an extension stands for, if the viewer knows it.
pub open spec fn kind_of_extension(extension: Seq<char>) -> Option<FileKind> {
    if extension == "3mf"@ {
        Some(FileKind::ThreeMf)
    } else if extension == "txt"@ {
        Some(FileKind::Text)
    } else if extension == "obj"@ {
        Some(FileKind::Obj)
    } else if extension == "xml"@ {
        Some(FileKind::Xml)
    } else {
        None
    }
}

/// Whether two texts are the same, letter for letter.
fn same_text(left: &str, right: &str) -> (same: bool)
    ensures
        same == (left@ == right@),
{
    left.to_owned() == right.to_owned()
}

impl FileKind {
    /// Tells the kind of a file from its extension, written without the
    /// dot and compared letter for letter.
    pub fn from_extension(extension: &str) -> (kind: Option<FileKind>)
        ensures
            kind == kind_of_extension(extension@),
    {
        if same_text(extension, "3mf") {
            Some(FileKind::ThreeMf)
        } else if same_text(extension, "txt") {
            Some(FileKind::Text)
        } else if same_text(extension, "obj") {
            Some(FileKind::Obj)
        } else if same_text(extension, "xml") {
            Some(FileKind::Xml)
        } else {
            None
        }
    }

    /// Whether a file of this kind is an archive, whose text has to be
    /// extracted before it can be shown.
    pub fn is_archive(&self) -> (archive: bool)
        ensures
            archive == (*self == FileKind::ThreeMf),
    {
        match self {
            FileKind::ThreeMf => true,
            _ => false,
        }
    }

    /// Whether the text of a file of this kind is XML, of which the viewer
    /// shows a tree beside the text.
    pub fn has_tree(&self) -> (tree: bool)
        ensures
            tree == (*self == FileKind::ThreeMf || *self == FileKind::Xml),
    {
        match self {
            FileKind::ThreeMf | FileKind::Xml => true,
            _ => false,
        }
    }
}

/// Whether the viewer can show a file with this extension, if it has one.
pub fn can_process_file(extension: Option<&str>) -> (can: bool)
    ensures
        can == match extension {
            Some(extension) => kind_of_extension(extension@) is Some,
            None => false,
        },
{
    match extension {
        Some(extension) => FileKind::from_extension(extension).is_some(),
        None => false,
    }
}

} // verus!
