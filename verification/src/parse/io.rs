//! Which parser reads a file, as its name says.

use vstd::prelude::*;
use vstd::string::StringExecFns;
use crate::model::{LogSource, LogSourceContents, LogSourceContentsView, LogSourceView};
use crate::parse::glog;
use crate::parse::sfile;
use crate::parse::sfile::{
    member_views, spec_archive_tree, spec_extension, spec_file_name, ArchiveMember,
};
use crate::text::{lowercase, str_eq, to_lowercase};

verus! {

/// Why a file was not read.
#[derive(Debug)]
pub enum LogParseError {
    /// The file or the archive could not be read: what went wrong.
    IoError(String),
    /// The name of the file has an extension that names no format.
    UnrecognizedFileExtension(String),
    /// The name of the file has no extension.
    NoFileExtension,
}

impl LogParseError {
    /// What the error tells the user.
    pub open spec fn spec_message(&self) -> Seq<char> {
        match self {
            LogParseError::IoError(err) => err@,
            LogParseError::UnrecognizedFileExtension(ext) => "Unrecognized file extension: "@
                + ext@,
            LogParseError::NoFileExtension => "No file extension"@,
        }
    }

    /// What the error tells the user.
    pub fn message(&self) -> (r: String)
        ensures
            r@ == self.spec_message(),
    {
        match self {
            LogParseError::IoError(err) => err.clone(),
            LogParseError::UnrecognizedFileExtension(ext) => {
                let mut message = "Unrecognized file extension: ".to_owned();
                message.append(ext.as_str());
                message
            },
            LogParseError::NoFileExtension => "No file extension".to_owned(),
        }
    }
}

/// The kinds of files that are read.
#[derive(Clone, Copy, Debug, PartialEq, Eq, Structural)]
pub enum FileKind {
    /// One log in the delimited-section format.
    Glog,
    /// An archive of logs.
    Archive,
}

/// What was read of a file: the bytes of a log, or the members of an
/// archive.
#[derive(Debug)]
pub enum FileContents {
    Bytes(Vec<u8>),
    Members(Vec<ArchiveMember>),
}

/// The kind of the file of the name `path`, by the extension of the name,
/// whatever the case of its letters: `glog` names a log, `sfile` and `lfile`
/// name archives.
pub open spec fn spec_file_kind(path: Seq<char>) -> Option<FileKind> {
    match spec_path_extension(path) {
        Some(extension) => spec_kind_of_extension(lowercase(extension)),
        None => None,
    }
}

/// The kind of file that an extension in lower case names.
pub open spec fn spec_kind_of_extension(extension: Seq<char>) -> Option<FileKind> {
    if extension == "glog"@ {
        Some(FileKind::Glog)
    } else if extension == "sfile"@ || extension == "lfile"@ {
        Some(FileKind::Archive)
    } else {
        None
    }
}

/// The kind of file that an extension in lower case names, if it names
/// one.
pub fn kind_of_extension(extension: &str) -> (r: Option<FileKind>)
    ensures
        r == spec_kind_of_extension(extension@),
{
    if str_eq(extension, "glog") {
        Some(FileKind::Glog)
    } else if str_eq(extension, "sfile") || str_eq(extension, "lfile") {
        Some(FileKind::Archive)
    } else {
        None
    }
}

/// The extension of the name of the file that a path leads to.
pub open spec fn spec_path_extension(path: Seq<char>) -> Option<Seq<char>> {
    match spec_file_name(path) {
        Some(file) => spec_extension(file),
        None => None,
    }
}

/// The name of the file that a path leads to, or the path itself where it
/// leads to no file.
pub open spec fn spec_source_name(path: Seq<char>) -> Seq<char> {
    match spec_file_name(path) {
        Some(file) => file,
        None => path,
    }
}

/// The extension of the name of the file that a path leads to.
pub fn path_extension(path: &str) -> (r: Option<String>)
    ensures
        r is Some <==> spec_path_extension(path@) is Some,
        r is Some ==> r.unwrap()@ == spec_path_extension(path@).unwrap(),
{
    sfile::member_extension(path)
}

/// The kind of the file of the name `path`. A name without extension and a
/// name with an extension that names no format are errors.
pub fn file_kind(path: &str) -> (r: Result<FileKind, LogParseError>)
    ensures
        match r {
            Ok(kind) => spec_file_kind(path@) == Some(kind),
            Err(LogParseError::NoFileExtension) => spec_path_extension(path@) is None,
            Err(LogParseError::UnrecognizedFileExtension(extension)) => spec_path_extension(path@)
                == Some(extension@) && spec_file_kind(path@) is None,
            Err(LogParseError::IoError(_)) => false,
        },
{
    match path_extension(path) {
        Some(extension) => {
            let lower = to_lowercase(extension.as_str());
            match kind_of_extension(lower.as_str()) {
                Some(kind) => Ok(kind),
                None => Err(LogParseError::UnrecognizedFileExtension(extension)),
            }
        },
        None => Err(LogParseError::NoFileExtension),
    }
}

/// What the error tells when the contents of a file are not of the kind
/// that its name calls for.
pub open spec fn wrong_contents() -> Seq<char> {
    "The contents are not of the kind that the name of the file calls for"@
}

/// `r` is what reading the file of the name `path` with the contents
/// `contents` gives: the source of the log or the tree of the archive, under
/// the name of the file, or the error that the name calls for.
pub open spec fn spec_from_file(
    path: Seq<char>,
    contents: FileContents,
    r: Result<LogSource, LogParseError>,
) -> bool {
    match spec_file_kind(path) {
        Some(FileKind::Glog) => match contents {
            FileContents::Bytes(bytes) => r matches Ok(source) && glog::spec_finalize(
                glog::spec_read_bytes(
                    glog::spec_new(
                        LogSourceView {
                            name: spec_source_name(path),
                            children: LogSourceContentsView::Entries(Seq::empty()),
                        },
                    ),
                    bytes@,
                ),
                source@,
            ),
            FileContents::Members(_) => r matches Err(LogParseError::IoError(message))
                && message@ == wrong_contents(),
        },
        Some(FileKind::Archive) => match contents {
            FileContents::Members(members) => r matches Ok(source) && spec_archive_tree(
                spec_source_name(path),
                member_views(members@),
                source@,
            ),
            FileContents::Bytes(_) => r matches Err(LogParseError::IoError(message)) && message@
                == wrong_contents(),
        },
        None => match spec_path_extension(path) {
            Some(extension) => r matches Err(LogParseError::UnrecognizedFileExtension(found))
                && found@ == extension,
            None => r matches Err(LogParseError::NoFileExtension),
        },
    }
}

/// Reads the file of the name `path`, of which `contents` was read, with the
/// parser that its name calls for.
pub fn from_file(path: &str, contents: FileContents) -> (r: Result<LogSource, LogParseError>)
    ensures
        spec_from_file(path@, contents, r),
{
    let kind = match file_kind(path) {
        Ok(kind) => kind,
        Err(error) => { return Err(error); },
    };
    let name = sfile::source_name(path);
    match (kind, contents) {
        (FileKind::Glog, FileContents::Bytes(bytes)) => {
            let root = LogSource { name, children: LogSourceContents::Entries(Vec::new()) };
            assert(root@.children->Entries_0 =~= Seq::empty());
            Ok(glog::to_log_entries(bytes.as_slice(), root))
        },
        (FileKind::Archive, FileContents::Members(members)) => Ok(
            sfile::from_file(name.as_str(), &members),
        ),
        _ => Err(
            LogParseError::IoError(
                "The contents are not of the kind that the name of the file calls for".to_owned(),
            ),
        ),
    }
}

} // verus!
