//! What can go wrong with a local library.
use vstd::prelude::*;
use vstd::string::{to_string_from_display_ensures, StringExecFns};

verus! {

#[derive(Debug)]
pub enum LocalError {
    /// Reading a file or folder failed, with this message.
    Io(String),
    /// The file at this path is no manga.
    UnsupportedFile(String),
    /// The file at this path is no archive that can be read.
    UnsupportedArchive(String),
    /// The folder or archive at this path holds no image.
    NoImages(String),
    /// There is no `file:` URL for this path.
    NoFileUrl(String),
    /// This text is no URL.
    InvalidUrl(String, url::ParseError),
    /// This URL leads to no file.
    NotFileUrl(String),
    /// The library at this path holds no manga.
    NoManga(String),
    /// The counts or the size of the library at this path are too large.
    TooLarge(String),
    /// There is no manga with this identifier.
    MangaNotFound(String),
    /// There is no chapter with this identifier.
    ChapterNotFound(String),
    /// The program has no data directory.
    NoDataDirectory,
    /// The archive entry of this name has no part that is safe as a file name.
    UnsafeEntry(String),
}

pub enum ErrorModel {
    Io(Seq<char>),
    UnsupportedFile(Seq<char>),
    UnsupportedArchive(Seq<char>),
    NoImages(Seq<char>),
    NoFileUrl(Seq<char>),
    InvalidUrl(Seq<char>, url::ParseError),
    NotFileUrl(Seq<char>),
    NoManga(Seq<char>),
    TooLarge(Seq<char>),
    MangaNotFound(Seq<char>),
    ChapterNotFound(Seq<char>),
    NoDataDirectory,
    UnsafeEntry(Seq<char>),
}

impl View for LocalError {
    type V = ErrorModel;

    open spec fn view(&self) -> ErrorModel {
        match self {
            LocalError::Io(s) => ErrorModel::Io(s@),
            LocalError::UnsupportedFile(s) => ErrorModel::UnsupportedFile(s@),
            LocalError::UnsupportedArchive(s) => ErrorModel::UnsupportedArchive(s@),
            LocalError::NoImages(s) => ErrorModel::NoImages(s@),
            LocalError::NoFileUrl(s) => ErrorModel::NoFileUrl(s@),
            LocalError::InvalidUrl(s, e) => ErrorModel::InvalidUrl(s@, *e),
            LocalError::NotFileUrl(s) => ErrorModel::NotFileUrl(s@),
            LocalError::NoManga(s) => ErrorModel::NoManga(s@),
            LocalError::TooLarge(s) => ErrorModel::TooLarge(s@),
            LocalError::MangaNotFound(s) => ErrorModel::MangaNotFound(s@),
            LocalError::ChapterNotFound(s) => ErrorModel::ChapterNotFound(s@),
            LocalError::NoDataDirectory => ErrorModel::NoDataDirectory,
            LocalError::UnsafeEntry(s) => ErrorModel::UnsafeEntry(s@),
        }
    }
}

/// The message of an error; that of a text which is no URL is the parser's own.
pub open spec fn error_message(e: ErrorModel) -> Option<Seq<char>> {
    match e {
        ErrorModel::Io(s) => Some(s),
        ErrorModel::UnsupportedFile(s) => Some("Unsupported local manga file: "@ + s),
        ErrorModel::UnsupportedArchive(s) => Some("Unsupported local archive: "@ + s),
        ErrorModel::NoImages(s) => Some("No readable images found in "@ + s),
        ErrorModel::NoFileUrl(s) => Some("Could not build file URL for "@ + s),
        ErrorModel::InvalidUrl(_, _) => None,
        ErrorModel::NotFileUrl(s) => Some("Local provider can only read file URLs, got "@ + s),
        ErrorModel::NoManga(s) => Some("No readable local manga found in "@ + s
            + ". Supported inputs: image folders, chapter folders, CBZ, CBR, ZIP, RAR, and EPUB."@),
        ErrorModel::TooLarge(s) => Some("Local library is too large: "@ + s),
        ErrorModel::MangaNotFound(s) => Some("Local manga not found: "@ + s),
        ErrorModel::ChapterNotFound(s) => Some("Local chapter not found: "@ + s),
        ErrorModel::NoDataDirectory => Some("manga-tui data directory is not available"@),
        ErrorModel::UnsafeEntry(s) => Some("Could not build safe cache path for archive entry "@ + s),
    }
}

fn joined(start: &str, end: &str) -> (r: String)
    ensures
        r@ == start@ + end@,
{
    let mut r: String = start.to_owned();
    r.append(end);
    r
}

impl LocalError {
    /// The message for people.
    pub fn message(&self) -> (r: String)
        ensures
            match self {
                LocalError::InvalidUrl(_, e) => to_string_from_display_ensures(e, r),
                _ => error_message(self@) == Some(r@),
            },
    {
        match self {
            LocalError::Io(s) => s.clone(),
            LocalError::UnsupportedFile(s) => joined("Unsupported local manga file: ", s.as_str()),
            LocalError::UnsupportedArchive(s) => joined("Unsupported local archive: ", s.as_str()),
            LocalError::NoImages(s) => joined("No readable images found in ", s.as_str()),
            LocalError::NoFileUrl(s) => joined("Could not build file URL for ", s.as_str()),
            LocalError::InvalidUrl(_, e) => e.to_string(),
            LocalError::NotFileUrl(s) => joined(
                "Local provider can only read file URLs, got ",
                s.as_str(),
            ),
            LocalError::NoManga(s) => {
                let mut r: String = joined("No readable local manga found in ", s.as_str());
                r.append(
                    ". Supported inputs: image folders, chapter folders, CBZ, CBR, ZIP, RAR, and EPUB.",
                );
                r
            },
            LocalError::TooLarge(s) => joined("Local library is too large: ", s.as_str()),
            LocalError::MangaNotFound(s) => joined("Local manga not found: ", s.as_str()),
            LocalError::ChapterNotFound(s) => joined("Local chapter not found: ", s.as_str()),
            LocalError::NoDataDirectory => "manga-tui data directory is not available".to_owned(),
            LocalError::UnsafeEntry(s) => joined(
                "Could not build safe cache path for archive entry ",
                s.as_str(),
            ),
        }
    }
}

} // verus!
