//! The file formats that are read: images by their extension, and archives.
use crate::error::LocalError;
use crate::path::{opt_view, path_of, LocalPath, PathModel};
use crate::text::{chars_of, lower, lowered, same, text_of};
use vstd::prelude::*;

verus! {

/// What a chapter is stored as.
#[derive(Clone, Copy, Debug, PartialEq, Eq, Structural)]
pub enum LocalChapterFormat {
    ImageFolder,
    Cbz,
    Cbr,
    Epub,
}

/// The extension of a path, in lower case.
pub open spec fn lower_extension(path: PathModel) -> Option<Seq<char>> {
    match path.extension {
        Some(e) => Some(lower(e)),
        None => None,
    }
}

/// The format of the archives with this extension.
pub open spec fn archive_format(extension: Option<Seq<char>>) -> Option<LocalChapterFormat> {
    match extension {
        None => None,
        Some(e) => if e == "cbz"@ || e == "zip"@ {
            Some(LocalChapterFormat::Cbz)
        } else if e == "cbr"@ || e == "rar"@ {
            Some(LocalChapterFormat::Cbr)
        } else if e == "epub"@ {
            Some(LocalChapterFormat::Epub)
        } else {
            None
        },
    }
}

/// Whether a path has the extension of an archive.
pub open spec fn is_archive(path: PathModel) -> bool {
    archive_format(lower_extension(path)) is Some
}

/// Whether a path has the extension of an image.
pub open spec fn is_image(path: PathModel) -> bool {
    match lower_extension(path) {
        None => false,
        Some(e) => {
            ||| e == "jpg"@
            ||| e == "jpeg"@
            ||| e == "png"@
            ||| e == "webp"@
            ||| e == "gif"@
            ||| e == "bmp"@
            ||| e == "avif"@
        },
    }
}

fn lower_extension_of(path: &LocalPath) -> (r: Option<Vec<char>>)
    ensures
        match r {
            Some(e) => lower_extension(path@) == Some(e@),
            None => lower_extension(path@) is None,
        },
{
    match &path.extension {
        Some(e) => Some(lowered(&chars_of(e.as_str()))),
        None => None,
    }
}

/// The extension of `path`, in lower case.
pub fn extension(path: &LocalPath) -> (r: Option<String>)
    ensures
        opt_view(r) == lower_extension(path@),
{
    match lower_extension_of(path) {
        Some(e) => Some(text_of(&e)),
        None => None,
    }
}

/// The extension of the file `name`, in lower case.
pub fn extension_from_name(name: &str) -> (r: Option<String>)
    ensures
        opt_view(r) == lower_extension(path_of(name@)),
{
    extension(&LocalPath::new(name))
}

fn is_word(chars: &Vec<char>, word: &str) -> (r: bool)
    ensures
        r == (chars@ == word@),
{
    same(chars, &chars_of(word))
}

impl LocalChapterFormat {
    fn of_extension(path: &LocalPath) -> (r: Option<LocalChapterFormat>)
        ensures
            r == archive_format(lower_extension(path@)),
    {
        match lower_extension_of(path) {
            None => None,
            Some(e) => if is_word(&e, "cbz") || is_word(&e, "zip") {
                Some(LocalChapterFormat::Cbz)
            } else if is_word(&e, "cbr") || is_word(&e, "rar") {
                Some(LocalChapterFormat::Cbr)
            } else if is_word(&e, "epub") {
                Some(LocalChapterFormat::Epub)
            } else {
                None
            },
        }
    }

    /// The format of the archive at `path`, by its extension.
    pub fn try_from_path(path: &LocalPath) -> (r: Result<LocalChapterFormat, LocalError>)
        ensures
            match archive_format(lower_extension(path@)) {
                Some(format) => r == Ok::<LocalChapterFormat, LocalError>(format),
                None => r matches Err(LocalError::UnsupportedArchive(p)) && p@ == path@.text,
            },
    {
        match LocalChapterFormat::of_extension(path) {
            Some(format) => Ok(format),
            None => Err(LocalError::UnsupportedArchive(path.text.clone())),
        }
    }
}

/// Whether `path` has the extension of an archive.
pub fn is_supported_archive(path: &LocalPath) -> (r: bool)
    ensures
        r == is_archive(path@),
{
    LocalChapterFormat::of_extension(path).is_some()
}

/// Whether `path` has the extension of an image.
pub fn is_supported_image_path(path: &LocalPath) -> (r: bool)
    ensures
        r == is_image(path@),
{
    match lower_extension_of(path) {
        None => false,
        Some(e) => is_word(&e, "jpg") || is_word(&e, "jpeg") || is_word(&e, "png") || is_word(
            &e,
            "webp",
        ) || is_word(&e, "gif") || is_word(&e, "bmp") || is_word(&e, "avif"),
    }
}

/// Whether the file `name` has the extension of an image.
pub fn is_supported_image_name(name: &str) -> (r: bool)
    ensures
        r == is_image(path_of(name@)),
{
    is_supported_image_path(&LocalPath::new(name))
}

} // verus!
