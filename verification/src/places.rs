//! Identifiers and URLs of local things, and where extracted archive entries
//! are kept.
use crate::anypath::{
    any_view, is_rooted, joined_path, lemma_joined_below, lemma_starts_with_itself, path_len, starts_with, AnyPath,
    AnyPathModel,
};
use crate::digits::{
    decimal, hexadecimal, lemma_decimal_digits, lemma_decimal_injective, lemma_hexadecimal_digits,
    print_decimal, print_number,
};
use crate::error::{ErrorModel, LocalError};
use crate::outside::{hash_text, hash_writes, is_page_url, parse_url, parsed_url};
use crate::path::{after_last, last_position, lemma_last_position, LocalPath};
use crate::text::{chars_of, is_digit, slice, text_of, views};
use std::collections::hash_map::DefaultHasher;
use std::hash::Hasher;
use vstd::prelude::*;
use vstd::std_specs::hash::DefaultHasherAdditionalSpecFns;
use vstd::string::StringExecFns;

verus! {

/// The folder in the data directory that extracted archive entries go to.
pub const LOCAL_CACHE_DIR: &'static str = "localCache";

/// The hash of a text.
pub open spec fn text_hash(text: Seq<char>) -> u64 {
    DefaultHasher::spec_finish(hash_writes(text))
}

/// The hash of `text`.
pub fn hash_of_text(text: &str) -> (r: u64)
    ensures
        r == text_hash(text@),
{
    let mut hasher: DefaultHasher = DefaultHasher::new();
    hash_text(text, &mut hasher);
    proof {
        let writes = hash_writes(text@);
        assert(Seq::<Seq<u8>>::empty() + writes == writes);
    }
    hasher.finish()
}

/// The identifier of the manga or chapter at the path `text`: its hash.
pub open spec fn id_of(text: Seq<char>) -> Seq<char> {
    "local-"@ + hexadecimal(text_hash(text) as nat)
}

/// The identifier of the manga or chapter at `path`.
pub fn local_id(path: &LocalPath) -> (r: String)
    ensures
        r@ == id_of(path@.text),
{
    id_from_hash(hash_of_text(path.text.as_str()))
}

/// The identifier of what has a path with this hash.
pub fn id_from_hash(hash: u64) -> (r: String)
    ensures
        r@ == "local-"@ + hexadecimal(hash as nat),
{
    let mut r: String = "local-".to_owned();
    r.append(text_of(&print_number(hash, 16)).as_str());
    r
}

/// The URL of page `index` of the archive chapter `id`, as text.
pub open spec fn page_url(id: Seq<char>, index: nat) -> Seq<char> {
    "local://page/"@ + id + "/"@ + decimal(index)
}

/// Whether an identifier has only lower-case letters, digits and hyphens.
pub open spec fn is_plain_id(id: Seq<char>) -> bool {
    &&& id.len() > 0
    &&& forall|i: int|
        0 <= i < id.len() ==> (is_digit(#[trigger] id[i]) || 'a' <= id[i] <= 'z' || id[i] == '-')
}

/// Local identifiers have only lower-case letters, digits and hyphens.
pub proof fn local_ids_are_plain(text: Seq<char>)
    ensures
        is_plain_id(id_of(text)),
{
    reveal_strlit("local-");
    let n = DefaultHasher::spec_finish(hash_writes(text)) as nat;
    lemma_hexadecimal_digits(n);
    let id = id_of(text);
    assert forall|i: int| 0 <= i < id.len() implies (is_digit(#[trigger] id[i]) || 'a' <= id[i]
        <= 'z' || id[i] == '-') by {
        if i >= 6 {
            assert(id[i] == hexadecimal(n)[i - 6]);
        }
    }
}

/// The URL of page `page_index` of the archive chapter `chapter_id`.
pub fn local_page_url(chapter_id: &str, page_index: usize) -> (r: Result<String, LocalError>)
    ensures
        match r {
            Ok(url) => parsed_url(page_url(chapter_id@, page_index as nat)) == Ok::<
                Seq<char>,
                url::ParseError,
            >(url@),
            Err(e) => parsed_url(page_url(chapter_id@, page_index as nat)) matches Err(x) && e@
                == ErrorModel::InvalidUrl(page_url(chapter_id@, page_index as nat), x),
        },
        is_plain_id(chapter_id@) ==> r is Ok && r->Ok_0@ == page_url(
            chapter_id@,
            page_index as nat,
        ),
{
    let mut text: String = "local://page/".to_owned();
    text.append(chapter_id);
    text.append("/");
    text.append(print_decimal(page_index as u64).as_str());
    proof {
        lemma_decimal_digits(page_index as nat);
        if is_plain_id(chapter_id@) {
            assert(is_page_url(text@, chapter_id@, decimal(page_index as nat)));
        }
    }
    match parse_url(text.as_str()) {
        Ok(url) => Ok(url),
        Err(e) => Err(LocalError::InvalidUrl(text, e)),
    }
}

proof fn lemma_split_at_slash(a: Seq<char>, b: Seq<char>, x: Seq<char>, y: Seq<char>)
    requires
        a + "/"@ + x == b + "/"@ + y,
        forall|i: int| 0 <= i < a.len() ==> #[trigger] a[i] != '/',
        forall|i: int| 0 <= i < b.len() ==> #[trigger] b[i] != '/',
    ensures
        a == b,
        x == y,
{
    reveal_strlit("/");
    let s = a + "/"@ + x;
    let t = b + "/"@ + y;
    assert(s[a.len() as int] == '/');
    assert(t[b.len() as int] == '/');
    if a.len() < b.len() {
        assert(t[a.len() as int] == b[a.len() as int]);
    }
    if b.len() < a.len() {
        assert(s[b.len() as int] == a[b.len() as int]);
    }
    assert(a == s.take(a.len() as int));
    assert(b == t.take(a.len() as int));
    assert(x == s.skip(a.len() as int + 1));
    assert(y == t.skip(a.len() as int + 1));
}

/// Different pages of archives have different URLs.
pub proof fn page_urls_are_distinct(id: Seq<char>, index: nat, other: Seq<char>, other_index: nat)
    requires
        is_plain_id(id),
        is_plain_id(other),
        page_url(id, index) == page_url(other, other_index),
    ensures
        id == other,
        index == other_index,
{
    let start = "local://page/"@;
    let s = page_url(id, index);
    let t = page_url(other, other_index);
    assert(s.skip(start.len() as int) == id + "/"@ + decimal(index));
    assert(t.skip(start.len() as int) == other + "/"@ + decimal(other_index));
    lemma_split_at_slash(id, other, decimal(index), decimal(other_index));
    lemma_decimal_injective(index, other_index);
}

/// Whether a piece of a path names something: it is neither empty, nor the
/// current folder, nor the parent folder.
pub open spec fn is_normal(piece: Seq<char>) -> bool {
    piece.len() > 0 && piece != seq!['.'] && piece != seq!['.', '.']
}

/// The pieces of a path that name something, in order.
pub open spec fn normal_parts(s: Seq<char>) -> Seq<Seq<char>>
    decreases s.len(),
    via normal_parts_decreases
{
    let slash = last_position(s, '/');
    let piece = s.skip(slash + 1);
    let before = if slash < 0 {
        seq![]
    } else {
        normal_parts(s.take(slash))
    };
    if is_normal(piece) {
        before.push(piece)
    } else {
        before
    }
}

#[via_fn]
proof fn normal_parts_decreases(s: Seq<char>) {
    lemma_last_position(s, '/');
}

/// `base` followed by the parts, one after the other.
pub open spec fn joined_all(base: AnyPathModel, parts: Seq<Seq<char>>) -> AnyPathModel
    decreases parts.len(),
{
    if parts.len() == 0 {
        base
    } else {
        joined_path(joined_all(base, parts.drop_last()), AnyPathModel::Text(parts.last()))
    }
}

/// The path of an archive entry below a folder: its parts that name something;
/// none where it has no such part.
pub open spec fn safe_path(destination: AnyPathModel, name: Seq<char>) -> Option<AnyPathModel> {
    if normal_parts(name).len() == 0 {
        None
    } else {
        Some(joined_all(destination, normal_parts(name)))
    }
}

fn split_parts(chars: &Vec<char>) -> (r: Vec<Vec<char>>)
    ensures
        views(r@) == normal_parts(chars@),
    decreases chars.len(),
{
    let slash: usize = after_last(chars, chars.len(), '/');
    proof {
        lemma_last_position(chars@, '/');
        assert(chars@.take(chars@.len() as int) == chars@);
    }
    let piece: Vec<char> = slice(chars, slash, chars.len());
    assert(piece@ == chars@.skip(slash as int));
    let mut parts: Vec<Vec<char>> = if slash == 0 {
        Vec::new()
    } else {
        let before: Vec<char> = slice(chars, 0, slash - 1);
        assert(before@ == chars@.take(slash - 1));
        split_parts(&before)
    };
    let ghost before = views(parts@);
    let dots: bool = (piece.len() == 1 && piece[0] == '.') || (piece.len() == 2 && piece[0] == '.'
        && piece[1] == '.');
    proof {
        if piece.len() == 1 && piece@[0] == '.' {
            assert(piece@ == seq!['.']);
        }
        if piece.len() == 2 && piece@[0] == '.' && piece@[1] == '.' {
            assert(piece@ == seq!['.', '.']);
        }
        if piece@ == seq!['.'] {
            assert(piece@[0] == '.');
        }
        if piece@ == seq!['.', '.'] {
            assert(piece@[0] == '.' && piece@[1] == '.');
        }
    }
    if piece.len() > 0 && !dots {
        let ghost p = piece@;
        parts.push(piece);
        assert(views(parts@) == before.push(p));
    }
    parts
}

/// The path of the archive entry `name` below `destination`.
pub fn safe_archive_path(destination: &AnyPath, name: &str) -> (r: Option<AnyPath>)
    ensures
        any_view(r) == safe_path(destination@, name@),
{
    let parts: Vec<Vec<char>> = split_parts(&chars_of(name));
    if parts.len() == 0 {
        return None;
    }
    let mut output: AnyPath = destination.copy();
    let mut i: usize = 0;
    while i < parts.len()
        invariant
            i <= parts.len(),
            output@ == joined_all(destination@, views(parts@).take(i as int)),
        decreases parts.len() - i,
    {
        output = output.join(&AnyPath::Text(text_of(&parts[i])));
        i += 1;
        proof {
            let t = views(parts@).take(i as int);
            assert(t.drop_last() == views(parts@).take(i - 1));
        }
    }
    assert(views(parts@).take(parts@.len() as int) == views(parts@));
    Some(output)
}

/// Every part that an entry's name contributes to its path names something
/// within one folder: it is not the parent folder and has no `/`.
pub proof fn parts_name_something(name: Seq<char>)
    ensures
        forall|i: int|
            0 <= i < normal_parts(name).len() ==> is_normal(#[trigger] normal_parts(name)[i])
                && !normal_parts(name)[i].contains('/'),
    decreases name.len(),
{
    lemma_last_position(name, '/');
    let slash = last_position(name, '/');
    let piece = name.skip(slash + 1);
    if slash >= 0 {
        parts_name_something(name.take(slash));
    }
    assert(!piece.contains('/')) by {
        assert forall|j: int| 0 <= j < piece.len() implies piece[j] != '/' by {
            assert(piece[j] == name[slash + 1 + j]);
        }
    }
    let before = if slash < 0 {
        seq![]
    } else {
        normal_parts(name.take(slash))
    };
    assert forall|i: int| 0 <= i < normal_parts(name).len() implies is_normal(
        #[trigger] normal_parts(name)[i],
    ) && !normal_parts(name)[i].contains('/') by {
        if i < before.len() {
            assert(normal_parts(name)[i] == before[i]);
        }
    }
}

/// Parts that name something are put behind the base, which stays as it is.
proof fn lemma_joined_all_below(base: AnyPathModel, parts: Seq<Seq<char>>)
    requires
        forall|i: int|
            0 <= i < parts.len() ==> is_normal(#[trigger] parts[i]) && !parts[i].contains('/'),
    ensures
        starts_with(joined_all(base, parts), base),
        parts.len() > 0 ==> path_len(joined_all(base, parts)) > path_len(base),
    decreases parts.len(),
{
    if parts.len() > 0 {
        let init = parts.drop_last();
        assert forall|i: int| 0 <= i < init.len() implies is_normal(#[trigger] init[i])
            && !init[i].contains('/') by {
            assert(init[i] == parts[i]);
        }
        lemma_joined_all_below(base, init);
        let last = parts.last();
        assert(is_normal(parts[parts.len() - 1]));
        assert(last[0] != '/') by {
            if last[0] == '/' {
                assert(last.contains('/'));
            }
        }
        lemma_joined_below(joined_all(base, init), last);
    } else {
        lemma_starts_with_itself(base);
    }
}

/// An archive entry, whatever its name, goes below the destination: the path
/// is the destination followed by parts that name something, so that no entry
/// leads out of it.
pub proof fn safe_path_stays_below(destination: AnyPathModel, name: Seq<char>)
    ensures
        safe_path(destination, name) matches Some(path) ==> {
            &&& starts_with(path, destination)
            &&& path_len(path) > path_len(destination)
            &&& path == joined_all(destination, normal_parts(name))
            &&& forall|i: int|
                0 <= i < normal_parts(name).len() ==> is_normal(#[trigger] normal_parts(name)[i])
                    && !normal_parts(name)[i].contains('/')
        },
{
    parts_name_something(name);
    lemma_joined_all_below(destination, normal_parts(name));
}

/// Where the entries of the archive at the path `archive` are kept: below the
/// data directory, which if it is relative lies below the current folder.
pub open spec fn cache_path(
    data_dir: Option<AnyPathModel>,
    current_dir: Result<AnyPathModel, Seq<char>>,
    archive: Seq<char>,
) -> Result<AnyPathModel, ErrorModel> {
    let base = match data_dir {
        None => Err(ErrorModel::NoDataDirectory),
        Some(dir) => if is_rooted(dir) {
            Ok(dir)
        } else {
            match current_dir {
                Ok(current) => Ok(joined_path(current, dir)),
                Err(message) => Err(ErrorModel::Io(message)),
            }
        },
    };
    match base {
        Err(x) => Err(x),
        Ok(base) => Ok(
            joined_path(
                joined_path(base, AnyPathModel::Text("localCache"@)),
                AnyPathModel::Text(id_of(archive)),
            ),
        ),
    }
}

/// Where an entry of the archive at the path `archive` is kept.
pub open spec fn entry_cache_path(
    data_dir: Option<AnyPathModel>,
    current_dir: Result<AnyPathModel, Seq<char>>,
    archive: Seq<char>,
    entry_name: Seq<char>,
) -> Result<AnyPathModel, ErrorModel> {
    match cache_path(data_dir, current_dir, archive) {
        Err(x) => Err(x),
        Ok(folder) => match safe_path(folder, entry_name) {
            Some(path) => Ok(path),
            None => Err(ErrorModel::UnsafeEntry(entry_name)),
        },
    }
}

pub open spec fn folder_view(folder: Result<AnyPath, String>) -> Result<AnyPathModel, Seq<char>> {
    match folder {
        Ok(path) => Ok(path@),
        Err(message) => Err(message@),
    }
}

pub open spec fn place_view(place: Result<AnyPath, LocalError>) -> Result<AnyPathModel, ErrorModel> {
    match place {
        Ok(path) => Ok(path@),
        Err(e) => Err(e@),
    }
}

/// Where the entries of the archive at `path` are kept. `data_dir` is the data
/// directory, if there is one, and `current_dir` the current folder or why it
/// could not be told.
pub fn local_cache_path(
    data_dir: &Option<AnyPath>,
    current_dir: &Result<AnyPath, String>,
    path: &LocalPath,
) -> (r: Result<AnyPath, LocalError>)
    ensures
        place_view(r) == cache_path(any_view(*data_dir), folder_view(*current_dir), path@.text),
{
    match data_dir {
        None => Err(LocalError::NoDataDirectory),
        Some(dir) => {
            let base: AnyPath = if dir.is_rooted() {
                dir.copy()
            } else {
                match current_dir {
                    Ok(current) => current.join(dir),
                    Err(message) => {
                        return Err(LocalError::Io(message.clone()));
                    },
                }
            };
            let cache: AnyPath = base.join(&AnyPath::Text(LOCAL_CACHE_DIR.to_owned()));
            Ok(cache.join(&AnyPath::Text(local_id(path))))
        },
    }
}

/// Where the entry `entry_name` of the archive at `path` is kept once it is
/// extracted.
pub fn archive_entry_cache_path(
    data_dir: &Option<AnyPath>,
    current_dir: &Result<AnyPath, String>,
    path: &LocalPath,
    entry_name: &str,
) -> (r: Result<AnyPath, LocalError>)
    ensures
        place_view(r) == entry_cache_path(
            any_view(*data_dir),
            folder_view(*current_dir),
            path@.text,
            entry_name@,
        ),
{
    match local_cache_path(data_dir, current_dir, path) {
        Err(e) => Err(e),
        Ok(folder) => match safe_archive_path(&folder, entry_name) {
            Some(p) => Ok(p),
            None => Err(LocalError::UnsafeEntry(entry_name.to_owned())),
        },
    }
}

} // verus!
