//! Paths as text, or as bytes where they are no text.
use crate::path::copy_bytes;
use crate::text::{chars_of, slice, text_of};
use vstd::prelude::*;
use vstd::string::StrSliceExecFns;
use vstd::utf8::{char_u32_cast, decode_first_scalar, encode_utf8, encode_utf8_first_scalar};

verus! {

/// A path.
#[derive(Debug, PartialEq, Eq)]
pub enum AnyPath {
    /// The path is this text.
    Text(String),
    /// The path is no text; these are its bytes.
    Bytes(Vec<u8>),
}

pub enum AnyPathModel {
    Text(Seq<char>),
    Bytes(Seq<u8>),
}

impl View for AnyPath {
    type V = AnyPathModel;

    open spec fn view(&self) -> AnyPathModel {
        match self {
            AnyPath::Text(text) => AnyPathModel::Text(text@),
            AnyPath::Bytes(bytes) => AnyPathModel::Bytes(bytes@),
        }
    }
}

pub open spec fn any_view(path: Option<AnyPath>) -> Option<AnyPathModel> {
    match path {
        Some(path) => Some(path@),
        None => None,
    }
}

/// `base` followed by `part`: with one `/` between, unless `base` ends in one
/// or is empty; `part` alone where it is absolute.
pub open spec fn joined(base: Seq<char>, part: Seq<char>) -> Seq<char> {
    if part.len() > 0 && part[0] == '/' {
        part
    } else if base.len() > 0 && base.last() != '/' {
        base.push('/') + part
    } else {
        base + part
    }
}

/// `part` as a path below `base`.
pub fn join(base: &Vec<char>, part: &Vec<char>) -> (r: Vec<char>)
    ensures
        r@ == joined(base@, part@),
{
    if part.len() > 0 && part[0] == '/' {
        let all: Vec<char> = slice(part, 0, part.len());
        assert(part@.subrange(0, part@.len() as int) == part@);
        return all;
    }
    let mut r: Vec<char> = slice(base, 0, base.len());
    assert(base@.subrange(0, base@.len() as int) == base@);
    if base.len() > 0 && base[base.len() - 1] != '/' {
        r.push('/');
    }
    let ghost start = r@;
    let mut i: usize = 0;
    assert(start + part@.take(0) == start);
    while i < part.len()
        invariant
            i <= part.len(),
            r@ == start + part@.take(i as int),
        decreases part.len() - i,
    {
        r.push(part[i]);
        i += 1;
        assert(part@.take(i as int) == part@.take(i - 1).push(part@[i - 1]));
        assert(start + part@.take(i as int) == (start + part@.take(i - 1)).push(part@[i - 1]));
    }
    assert(part@.take(part@.len() as int) == part@);
    r
}

/// The bytes of a path.
pub open spec fn path_bytes(path: AnyPathModel) -> Seq<u8> {
    match path {
        AnyPathModel::Text(text) => encode_utf8(text),
        AnyPathModel::Bytes(bytes) => bytes,
    }
}

/// `part` as a path below `base`, in bytes.
pub open spec fn joined_bytes(base: Seq<u8>, part: Seq<u8>) -> Seq<u8> {
    if part.len() > 0 && part[0] == 0x2f {
        part
    } else if base.len() > 0 && base.last() != 0x2f {
        base.push(0x2f) + part
    } else {
        base + part
    }
}

/// `part` as a path below `base`: text if both are.
pub open spec fn joined_path(base: AnyPathModel, part: AnyPathModel) -> AnyPathModel {
    match (base, part) {
        (AnyPathModel::Text(b), AnyPathModel::Text(p)) => AnyPathModel::Text(joined(b, p)),
        _ => AnyPathModel::Bytes(joined_bytes(path_bytes(base), path_bytes(part))),
    }
}

/// Whether a path is absolute.
pub open spec fn is_rooted(path: AnyPathModel) -> bool {
    match path {
        AnyPathModel::Text(text) => text.len() > 0 && text[0] == '/',
        AnyPathModel::Bytes(bytes) => bytes.len() > 0 && bytes[0] == 0x2f,
    }
}

/// Whether a path starts with another one.
pub open spec fn starts_with(path: AnyPathModel, start: AnyPathModel) -> bool {
    match (path, start) {
        (AnyPathModel::Text(p), AnyPathModel::Text(s)) => s.is_prefix_of(p),
        (AnyPathModel::Bytes(p), AnyPathModel::Bytes(s)) => s.is_prefix_of(p),
        _ => false,
    }
}

/// How long a path is.
pub open spec fn path_len(path: AnyPathModel) -> nat {
    match path {
        AnyPathModel::Text(text) => text.len(),
        AnyPathModel::Bytes(bytes) => bytes.len(),
    }
}

pub proof fn lemma_starts_with_itself(path: AnyPathModel)
    ensures
        starts_with(path, path),
{
    match path {
        AnyPathModel::Text(text) => assert(text.take(text.len() as int) == text),
        AnyPathModel::Bytes(bytes) => assert(bytes.take(bytes.len() as int) == bytes),
    }
}

/// A part that does not start at the root is put behind a base, and behind all
/// that the base starts with.
pub proof fn lemma_joined_below(base: AnyPathModel, part: Seq<char>)
    requires
        part.len() > 0,
        part[0] != '/',
    ensures
        path_len(joined_path(base, AnyPathModel::Text(part))) > path_len(base),
        forall|start: AnyPathModel| #[trigger]
            starts_with(base, start) ==> starts_with(
                joined_path(base, AnyPathModel::Text(part)),
                start,
            ),
{
    let all = joined_path(base, AnyPathModel::Text(part));
    encode_utf8_first_scalar(part);
    let bytes = encode_utf8(part);
    assert(bytes.len() > 0);
    if bytes[0] == 0x2f {
        assert(0x2fu8 & 0x7f == 0x2f) by (bit_vector);
        assert(decode_first_scalar(bytes) == 0x2f);
        char_u32_cast(part[0], 0x2f);
    }
    assert(bytes[0] != 0x2f);
    assert forall|start: AnyPathModel| #[trigger] starts_with(base, start) implies starts_with(
        all,
        start,
    ) by {
        match (base, start) {
            (AnyPathModel::Text(b), AnyPathModel::Text(s)) => {
                let a = all->Text_0;
                assert(a.take(s.len() as int) == b.take(s.len() as int));
            },
            (AnyPathModel::Bytes(b), AnyPathModel::Bytes(s)) => {
                let a = all->Bytes_0;
                assert(a.take(s.len() as int) == b.take(s.len() as int));
            },
            _ => {},
        }
    }
}

/// `part` as a path below `base`, in bytes.
pub fn join_bytes(base: &Vec<u8>, part: &Vec<u8>) -> (r: Vec<u8>)
    ensures
        r@ == joined_bytes(base@, part@),
{
    if part.len() > 0 && part[0] == 0x2f {
        return copy_bytes(part);
    }
    let mut r: Vec<u8> = copy_bytes(base);
    if base.len() > 0 && base[base.len() - 1] != 0x2f {
        r.push(0x2f);
    }
    let mut rest: Vec<u8> = copy_bytes(part);
    r.append(&mut rest);
    r
}

impl AnyPath {
    pub fn copy(&self) -> (r: AnyPath)
        ensures
            r@ == self@,
    {
        match self {
            AnyPath::Text(text) => AnyPath::Text(text.clone()),
            AnyPath::Bytes(bytes) => AnyPath::Bytes(copy_bytes(bytes)),
        }
    }

    /// The bytes of the path.
    pub fn bytes(&self) -> (r: Vec<u8>)
        ensures
            r@ == path_bytes(self@),
    {
        match self {
            AnyPath::Text(text) => text.as_str().as_bytes_vec(),
            AnyPath::Bytes(bytes) => copy_bytes(bytes),
        }
    }

    /// Whether the path is absolute.
    pub fn is_rooted(&self) -> (r: bool)
        ensures
            r == is_rooted(self@),
    {
        match self {
            AnyPath::Text(text) => {
                let chars: Vec<char> = chars_of(text.as_str());
                chars.len() > 0 && chars[0] == '/'
            },
            AnyPath::Bytes(bytes) => bytes.len() > 0 && bytes[0] == 0x2f,
        }
    }

    /// `part` as a path below this one.
    pub fn join(&self, part: &AnyPath) -> (r: AnyPath)
        ensures
            r@ == joined_path(self@, part@),
    {
        match (self, part) {
            (AnyPath::Text(base), AnyPath::Text(part)) => AnyPath::Text(
                text_of(&join(&chars_of(base.as_str()), &chars_of(part.as_str()))),
            ),
            _ => AnyPath::Bytes(join_bytes(&self.bytes(), &part.bytes())),
        }
    }
}

} // verus!
