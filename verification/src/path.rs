//! Paths as text: file names, stems, extensions, joining, and the part of an
//! archive entry's name that is safe to use below a folder.
use crate::text::{chars_of, slice, text_of};
use vstd::prelude::*;

verus! {

/// The text of an optional string.
pub open spec fn opt_view(o: Option<String>) -> Option<Seq<char>> {
    match o {
        Some(s) => Some(s@),
        None => None,
    }
}

/// A copy of an optional string.
pub fn copy_opt(o: &Option<String>) -> (r: Option<String>)
    ensures
        r == *o,
{
    match o {
        Some(s) => Some(s.clone()),
        None => None,
    }
}

/// What is kept of a path that is not text: its bytes, and its `file:` URL
/// where it has one.
#[derive(Clone, Debug, PartialEq, Eq)]
pub struct RawPath {
    pub bytes: Vec<u8>,
    pub url: Option<String>,
}

/// A path, and what the rules of this crate read of it.
#[derive(Clone, Debug, PartialEq, Eq)]
pub struct LocalPath {
    /// The whole path; what is no text in it is replaced.
    pub text: String,
    /// The final component, empty where there is none; what is no text in it
    /// is replaced.
    pub name: String,
    /// Whether the final component is text.
    pub name_is_text: bool,
    /// The final component without its extension, where that is text.
    pub stem: Option<String>,
    /// The extension of the final component, where there is one and it is text.
    pub extension: Option<String>,
    /// What stands for the path where it is not text.
    pub raw: Option<RawPath>,
}

pub struct RawPathModel {
    pub bytes: Seq<u8>,
    pub url: Option<Seq<char>>,
}

pub struct PathModel {
    pub text: Seq<char>,
    pub name: Seq<char>,
    pub name_is_text: bool,
    pub stem: Option<Seq<char>>,
    pub extension: Option<Seq<char>>,
    pub raw: Option<RawPathModel>,
}

impl View for RawPath {
    type V = RawPathModel;

    open spec fn view(&self) -> RawPathModel {
        RawPathModel { bytes: self.bytes@, url: opt_view(self.url) }
    }
}

impl View for LocalPath {
    type V = PathModel;

    open spec fn view(&self) -> PathModel {
        PathModel {
            text: self.text@,
            name: self.name@,
            name_is_text: self.name_is_text,
            stem: opt_view(self.stem),
            extension: opt_view(self.extension),
            raw: match self.raw {
                Some(raw) => Some(raw@),
                None => None,
            },
        }
    }
}

pub open spec fn opt_path(path: Option<LocalPath>) -> Option<PathModel> {
    match path {
        Some(path) => Some(path@),
        None => None,
    }
}

/// The position of the last `c` in `s`, `-1` where there is none.
pub open spec fn last_position(s: Seq<char>, c: char) -> int
    decreases s.len(),
{
    if s.len() == 0 {
        -1
    } else if s.last() == c {
        s.len() - 1
    } else {
        last_position(s.drop_last(), c)
    }
}

pub proof fn lemma_last_position(s: Seq<char>, c: char)
    ensures
        -1 <= last_position(s, c) < s.len(),
        last_position(s, c) >= 0 ==> s[last_position(s, c)] == c,
        forall|i: int| last_position(s, c) < i < s.len() ==> #[trigger] s[i] != c,
    decreases s.len(),
{
    if s.len() > 0 && s.last() != c {
        let t = s.drop_last();
        lemma_last_position(t, c);
        assert forall|i: int| last_position(s, c) < i < s.len() implies #[trigger] s[i] != c by {
            if i < t.len() {
                assert(t[i] == s[i]);
            }
        }
    }
}

/// What comes after the last `c` in `chars`: its start.
pub fn after_last(chars: &Vec<char>, end: usize, c: char) -> (r: usize)
    requires
        end <= chars.len(),
    ensures
        r == last_position(chars@.take(end as int), c) + 1,
        r <= end,
{
    let mut i: usize = end;
    while 0 < i && chars[i - 1] != c
        invariant
            i <= end <= chars.len(),
            last_position(chars@.take(end as int), c) == last_position(chars@.take(i as int), c),
        decreases i,
    {
        assert(chars@.take(i as int).drop_last() == chars@.take(i - 1));
        i -= 1;
    }
    proof {
        if i > 0 {
            assert(chars@.take(i as int).last() == c);
        }
    }
    i
}

/// The final component of a path: its last piece that is neither empty nor
/// `.`; none where that piece is `..`.
pub open spec fn file_name_of(s: Seq<char>) -> Option<Seq<char>>
    decreases s.len(),
    via file_name_of_decreases
{
    let slash = last_position(s, '/');
    let piece = s.skip(slash + 1);
    if piece == Seq::<char>::empty() || piece == seq!['.'] {
        if slash < 0 {
            None
        } else {
            file_name_of(s.take(slash))
        }
    } else if piece == seq!['.', '.'] {
        None
    } else {
        Some(piece)
    }
}

#[via_fn]
proof fn file_name_of_decreases(s: Seq<char>) {
    lemma_last_position(s, '/');
}

/// Where the extension of a file name starts: behind its last `.`, unless that
/// is its first character; `None` where it has no extension.
pub open spec fn extension_start(name: Seq<char>) -> Option<int> {
    let dot = last_position(name, '.');
    if dot <= 0 {
        None
    } else {
        Some(dot + 1)
    }
}

/// A file name without its extension.
pub open spec fn stem_of(name: Seq<char>) -> Seq<char> {
    match extension_start(name) {
        Some(start) => name.take(start - 1),
        None => name,
    }
}

/// The extension of a file name.
pub open spec fn extension_of(name: Seq<char>) -> Option<Seq<char>> {
    match extension_start(name) {
        Some(start) => Some(name.skip(start)),
        None => None,
    }
}

/// The path that a text stands for.
pub open spec fn path_of(text: Seq<char>) -> PathModel {
    let name = file_name_of(text);
    PathModel {
        text,
        name: match name {
            Some(n) => n,
            None => Seq::<char>::empty(),
        },
        name_is_text: true,
        stem: match name {
            Some(n) => Some(stem_of(n)),
            None => None,
        },
        extension: match name {
            Some(n) => extension_of(n),
            None => None,
        },
        raw: None,
    }
}

/// The final component of the path in `chars`.
fn file_name(chars: &Vec<char>) -> (r: Option<Vec<char>>)
    ensures
        match r {
            Some(name) => file_name_of(chars@) == Some(name@),
            None => file_name_of(chars@) is None,
        },
{
    let mut end: usize = chars.len();
    assert(chars@.take(end as int) == chars@);
    loop
        invariant
            end <= chars.len(),
            file_name_of(chars@) == file_name_of(chars@.take(end as int)),
        decreases end,
    {
        let start: usize = after_last(chars, end, '/');
        let ghost s = chars@.take(end as int);
        let ghost piece = s.skip(start as int);
        proof {
            lemma_last_position(s, '/');
            assert(piece == chars@.subrange(start as int, end as int));
        }
        if end == start || (end - start == 1 && chars[start] == '.') {
            assert(piece == Seq::<char>::empty() || piece == seq!['.']);
            if start == 0 {
                return None;
            }
            assert(s.take(start - 1) == chars@.take(start - 1));
            end = start - 1;
        } else if end - start == 2 && chars[start] == '.' && chars[start + 1] == '.' {
            assert(piece == seq!['.', '.']);
            return None;
        } else {
            proof {
                if piece == seq!['.'] {
                    assert(piece[0] == '.');
                }
                if piece == seq!['.', '.'] {
                    assert(piece[0] == '.' && piece[1] == '.');
                }
            }
            return Some(slice(chars, start, end));
        }
    }
}

impl LocalPath {
    /// The path that `text` stands for, with `/` between its components.
    pub fn new(text: &str) -> (r: LocalPath)
        ensures
            r@ == path_of(text@),
    {
        let chars: Vec<char> = chars_of(text);
        match file_name(&chars) {
            None => LocalPath {
                text: text_of(&chars),
                name: String::new(),
                name_is_text: true,
                stem: None,
                extension: None,
                raw: None,
            },
            Some(name) => {
                let start: usize = after_last(&name, name.len(), '.');
                assert(name@.take(name@.len() as int) == name@);
                let (stem, extension) = if start <= 1 {
                    (text_of(&name), None)
                } else {
                    proof {
                        lemma_last_position(name@, '.');
                        assert(name@.subrange(0, start - 1) == name@.take(start - 1));
                        assert(name@.subrange(start as int, name@.len() as int) == name@.skip(
                            start as int,
                        ));
                    }
                    (
                        text_of(&slice(&name, 0, start - 1)),
                        Some(text_of(&slice(&name, start, name.len()))),
                    )
                };
                LocalPath {
                    text: text_of(&chars),
                    name: text_of(&name),
                    name_is_text: true,
                    stem: Some(stem),
                    extension,
                    raw: None,
                }
            },
        }
    }

    /// A copy of the path.
    pub fn copy(&self) -> (r: LocalPath)
        ensures
            r@ == self@,
    {
        LocalPath {
            text: self.text.clone(),
            name: self.name.clone(),
            name_is_text: self.name_is_text,
            stem: copy_opt(&self.stem),
            extension: copy_opt(&self.extension),
            raw: match &self.raw {
                Some(raw) => Some(RawPath { bytes: copy_bytes(&raw.bytes), url: copy_opt(&raw.url) }),
                None => None,
            },
        }
    }
}

/// A copy of the bytes.
pub fn copy_bytes(bytes: &Vec<u8>) -> (r: Vec<u8>)
    ensures
        r@ == bytes@,
{
    let mut r: Vec<u8> = Vec::new();
    let mut i: usize = 0;
    while i < bytes.len()
        invariant
            i <= bytes.len(),
            r@ == bytes@.take(i as int),
        decreases bytes.len() - i,
    {
        r.push(bytes[i]);
        i += 1;
    }
    r
}

} // verus!
