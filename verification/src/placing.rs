//! What paths are made of, and where things are kept.
use crate::anypath::{joined, joined_path, AnyPathModel};
use crate::components::{components, path_identity, paths_are_told_apart_by_components};
use crate::digits::hexadecimal;
use crate::error::ErrorModel;
use crate::path::{extension_of, file_name_of, last_position, lemma_last_position, path_of, stem_of};
use crate::places::{
    cache_path, entry_cache_path, id_of, is_normal, joined_all, normal_parts,
    parts_name_something, safe_path, text_hash,
};
use vstd::prelude::*;
use vstd::utf8::encode_utf8;

verus! {

/// Whether a text can be the name of something in a folder.
pub open spec fn can_name(piece: Seq<char>) -> bool {
    &&& piece.len() > 0
    &&& !(piece.len() == 1 && piece[0] == '.')
    &&& !(piece.len() == 2 && piece[0] == '.' && piece[1] == '.')
    &&& forall|i: int| 0 <= i < piece.len() ==> #[trigger] piece[i] != '/'
}

/// Whether a text stands for the folder that it is written in: it is empty or
/// one dot.
pub open spec fn names_itself(piece: Seq<char>) -> bool {
    piece.len() == 0 || piece.len() == 1 && piece[0] == '.'
}

proof fn lemma_last_position_is(s: Seq<char>, c: char, p: int)
    requires
        -1 <= p < s.len(),
        p >= 0 ==> s[p] == c,
        forall|i: int| p < i < s.len() ==> #[trigger] s[i] != c,
    ensures
        last_position(s, c) == p,
{
    lemma_last_position(s, c);
    let q = last_position(s, c);
    if q < p {
        assert(s[p] != c);
    }
    if p < q {
        assert(s[q] != c);
    }
}

proof fn lemma_last_piece(dir: Seq<char>, piece: Seq<char>)
    requires
        forall|i: int| 0 <= i < piece.len() ==> #[trigger] piece[i] != '/',
    ensures
        last_position(dir + seq!['/'] + piece, '/') == dir.len(),
        (dir + seq!['/'] + piece).skip(dir.len() as int + 1) == piece,
        (dir + seq!['/'] + piece).take(dir.len() as int) == dir,
        last_position(piece, '/') == -1,
        piece.skip(0) == piece,
{
    let s = dir + seq!['/'] + piece;
    assert forall|i: int| dir.len() < i < s.len() implies #[trigger] s[i] != '/' by {
        assert(s[i] == piece[i - dir.len() - 1]);
    }
    lemma_last_position_is(s, '/', dir.len() as int);
    lemma_last_position_is(piece, '/', -1);
    assert(s.skip(dir.len() as int + 1) =~= piece);
    assert(s.take(dir.len() as int) =~= dir);
    assert(piece.skip(0) =~= piece);
}

proof fn lemma_pieces(piece: Seq<char>)
    ensures
        can_name(piece) ==> is_normal(piece) && piece != Seq::<char>::empty() && piece != seq!['.'] && piece != seq![
            '.',
            '.',
        ],
        names_itself(piece) ==> !is_normal(piece) && (piece == Seq::<char>::empty() || piece == seq!['.']),
{
    if names_itself(piece) {
        if piece.len() == 0 {
            assert(piece =~= Seq::<char>::empty());
        } else {
            assert(piece =~= seq!['.']);
        }
    }
    assert(seq!['.'][0] == '.');
    assert(seq!['.', '.'][0] == '.' && seq!['.', '.'][1] == '.');
}

/// The name of a file is what stands behind the last `/` of its path; `/` and
/// `/.` at the end do not count, and `/..` at the end leaves no name.
pub proof fn file_names_stand_behind_the_last_slash(dir: Seq<char>, name: Seq<char>)
    ensures
        can_name(name) ==> file_name_of(dir + seq!['/'] + name) == Some(name) && file_name_of(name) == Some(name),
        names_itself(name) ==> file_name_of(dir + seq!['/'] + name) == file_name_of(dir),
        names_itself(name) ==> file_name_of(name) is None,
        file_name_of(dir + seq!['/'] + seq!['.', '.']) is None,
{
    lemma_pieces(name);
    if can_name(name) || names_itself(name) {
        assert forall|i: int| 0 <= i < name.len() implies #[trigger] name[i] != '/' by {}
        lemma_last_piece(dir, name);
    }
    lemma_last_piece(dir, seq!['.', '.']);
    assert(seq!['.', '.'].len() == 2);
}

/// The extension of a file is what stands behind the last dot of its name and
/// the stem what stands before it; a name without a dot, or with its only dot in
/// front, has no extension.
pub proof fn extensions_stand_behind_the_last_dot(stem: Seq<char>, x: Seq<char>)
    requires
        forall|i: int| 0 <= i < x.len() ==> #[trigger] x[i] != '.',
    ensures
        stem.len() > 0 ==> stem_of(stem + seq!['.'] + x) == stem && extension_of(stem + seq!['.'] + x) == Some(x),
        stem_of(x) == x && extension_of(x) is None,
        stem_of(seq!['.'] + x) == seq!['.'] + x && extension_of(seq!['.'] + x) is None,
{
    let s = stem + seq!['.'] + x;
    assert forall|i: int| stem.len() < i < s.len() implies #[trigger] s[i] != '.' by {
        assert(s[i] == x[i - stem.len() - 1]);
    }
    lemma_last_position_is(s, '.', stem.len() as int);
    assert(s.skip(stem.len() as int + 1) =~= x);
    assert(s.take(stem.len() as int) =~= stem);
    lemma_last_position_is(x, '.', -1);
    let t = seq!['.'] + x;
    assert forall|i: int| 0 < i < t.len() implies #[trigger] t[i] != '.' by {
        assert(t[i] == x[i - 1]);
    }
    lemma_last_position_is(t, '.', 0);
}

/// The path of a file in a folder has the name, the stem and the extension of
/// the file.
pub proof fn paths_end_in_their_file_name(dir: Seq<char>, stem: Seq<char>, x: Seq<char>)
    requires
        stem.len() > 0,
        can_name(stem + seq!['.'] + x),
        forall|i: int| 0 <= i < x.len() ==> #[trigger] x[i] != '.',
    ensures
        ({
            let name = stem + seq!['.'] + x;
            let path = path_of(dir + seq!['/'] + name);
            &&& path.text == dir + seq!['/'] + name
            &&& path.name == name
            &&& path.name_is_text
            &&& path.stem == Some(stem)
            &&& path.extension == Some(x)
            &&& path.raw is None
            &&& path_of(name).stem == Some(stem)
            &&& path_of(name).extension == Some(x)
        }),
{
    file_names_stand_behind_the_last_slash(dir, stem + seq!['.'] + x);
    extensions_stand_behind_the_last_dot(stem, x);
}

/// The parts of a path are those before a `/` and those behind it.
pub proof fn slashes_part_paths(a: Seq<char>, b: Seq<char>)
    ensures
        normal_parts(a + seq!['/'] + b) == normal_parts(a) + normal_parts(b),
    decreases b.len(),
{
    let s = a + seq!['/'] + b;
    lemma_last_position(b, '/');
    let slash = last_position(b, '/');
    if slash < 0 {
        assert forall|i: int| 0 <= i < b.len() implies #[trigger] b[i] != '/' by {}
        lemma_last_piece(a, b);
        if is_normal(b) {
            assert(normal_parts(b) =~= seq![b]);
            assert(normal_parts(s) =~= normal_parts(a) + normal_parts(b));
        } else {
            assert(normal_parts(b) =~= seq![]);
            assert(normal_parts(s) =~= normal_parts(a) + normal_parts(b));
        }
    } else {
        let front = b.take(slash);
        let piece = b.skip(slash + 1);
        let at = a.len() + 1 + slash;
        assert(s[at] == b[slash]);
        assert forall|i: int| at < i < s.len() implies #[trigger] s[i] != '/' by {
            assert(s[i] == b[i - a.len() - 1]);
        }
        lemma_last_position_is(s, '/', at);
        assert(s.take(at) =~= a + seq!['/'] + front);
        assert(s.skip(at + 1) =~= piece);
        slashes_part_paths(a, front);
        if is_normal(piece) {
            assert(normal_parts(s) =~= normal_parts(a) + normal_parts(b));
        } else {
            assert(normal_parts(s) =~= normal_parts(a) + normal_parts(b));
        }
    }
}

/// A name is one part of a path; the empty text, `.` and `..` are none.
pub proof fn names_are_parts(piece: Seq<char>)
    ensures
        can_name(piece) ==> normal_parts(piece) == seq![piece],
        names_itself(piece) ==> normal_parts(piece).len() == 0,
        normal_parts(seq!['.', '.']).len() == 0,
{
    lemma_pieces(piece);
    if can_name(piece) || names_itself(piece) {
        assert forall|i: int| 0 <= i < piece.len() implies #[trigger] piece[i] != '/' by {}
        lemma_last_piece(Seq::empty(), piece);
        if can_name(piece) {
            assert(normal_parts(piece) =~= seq![piece]);
        }
    }
    let up = seq!['.', '.'];
    lemma_last_piece(Seq::empty(), up);
}

/// An entry is kept under its name below the folder of its archive. What stands
/// for no name in the path of an entry is left out, and an entry without any
/// name is not kept.
pub proof fn entries_are_kept_below_their_folder(folder: Seq<char>, a: Seq<char>, name: Seq<char>)
    requires
        folder.len() > 0,
        folder.last() != '/',
    ensures
        can_name(name) ==> safe_path(AnyPathModel::Text(folder), name) == Some(
            AnyPathModel::Text(folder + seq!['/'] + name),
        ),
        can_name(name) ==> (safe_path(AnyPathModel::Text(folder), a) matches Some(AnyPathModel::Text(p)) ==> safe_path(
            AnyPathModel::Text(folder),
            a + seq!['/'] + name,
        ) == Some(AnyPathModel::Text(p + seq!['/'] + name))),
        names_itself(name) || name == seq!['.', '.'] ==> {
            &&& safe_path(AnyPathModel::Text(folder), a + seq!['/'] + name) == safe_path(
                AnyPathModel::Text(folder),
                a,
            )
            &&& safe_path(AnyPathModel::Text(folder), name + seq!['/'] + a) == safe_path(
                AnyPathModel::Text(folder),
                a,
            )
            &&& safe_path(AnyPathModel::Text(folder), name) is None
        },
{
    let base = AnyPathModel::Text(folder);
    slashes_part_paths(a, name);
    slashes_part_paths(name, a);
    names_are_parts(name);
    let none = Seq::<Seq<char>>::empty();
    if can_name(name) {
        let one = normal_parts(name);
        assert(one.drop_last() =~= none);
        assert(one.last() == name);
        assert(joined_all(base, none) == base);
        assert(folder.push('/') + name =~= folder + seq!['/'] + name);
        assert(joined(folder, name) == folder + seq!['/'] + name);
        if let Some(AnyPathModel::Text(p)) = safe_path(base, a) {
            let parts = normal_parts(a);
            let all = normal_parts(a + seq!['/'] + name);
            assert(all.drop_last() =~= parts);
            assert(all.last() == name);
            lemma_joined_ends_in_a_name(folder, a);
            assert(p.push('/') + name =~= p + seq!['/'] + name);
            assert(joined(p, name) == p + seq!['/'] + name);
        }
    }
    if names_itself(name) || name == seq!['.', '.'] {
        assert(normal_parts(name) =~= none);
        assert(normal_parts(a) + none =~= normal_parts(a));
        assert(none + normal_parts(a) =~= normal_parts(a));
    }
}

proof fn lemma_joined_text(folder: Seq<char>, parts: Seq<Seq<char>>)
    requires
        folder.len() > 0,
        folder.last() != '/',
        forall|i: int| 0 <= i < parts.len() ==> is_normal(#[trigger] parts[i]) && !parts[i].contains('/'),
    ensures
        joined_all(AnyPathModel::Text(folder), parts) matches AnyPathModel::Text(p) && p.len() > 0 && p.last()
            != '/',
    decreases parts.len(),
{
    if parts.len() > 0 {
        let front = parts.drop_last();
        assert forall|i: int| 0 <= i < front.len() implies is_normal(#[trigger] front[i]) && !front[i].contains(
            '/',
        ) by {
            assert(front[i] == parts[i]);
        }
        lemma_joined_text(folder, front);
        let last = parts[parts.len() - 1];
        assert(is_normal(last) && !last.contains('/'));
        if last.last() == '/' {
            assert(last.contains(last[last.len() - 1]));
        }
        assert(last[0] != '/') by {
            if last[0] == '/' {
                assert(last.contains(last[0]));
            }
        }
        let p = joined_all(AnyPathModel::Text(folder), front)->Text_0;
        let q = p.push('/') + last;
        assert(q.last() == last.last());
    }
}

proof fn lemma_joined_ends_in_a_name(folder: Seq<char>, a: Seq<char>)
    requires
        folder.len() > 0,
        folder.last() != '/',
    ensures
        joined_all(AnyPathModel::Text(folder), normal_parts(a)) matches AnyPathModel::Text(p) && p.len() > 0
            && p.last() != '/',
{
    parts_name_something(a);
    lemma_joined_text(folder, normal_parts(a));
}

/// The entries of an archive are kept in the folder with the identifier of the
/// archive, in the folder `localCache` of the data directory; a relative data
/// directory lies in the current folder.
pub proof fn caches_lie_in_the_data_directory(
    dir: Seq<char>,
    current: Seq<char>,
    other: Result<AnyPathModel, Seq<char>>,
    message: Seq<char>,
    archive: Seq<char>,
)
    requires
        dir.len() > 0,
        dir.last() != '/',
        current.len() > 0,
        current.last() != '/',
    ensures
        dir[0] == '/' ==> cache_path(Some(AnyPathModel::Text(dir)), other, archive) == Ok::<AnyPathModel, ErrorModel>(
            AnyPathModel::Text(dir + "/localCache/"@ + id_of(archive)),
        ),
        dir[0] != '/' ==> cache_path(Some(AnyPathModel::Text(dir)), Ok(AnyPathModel::Text(current)), archive) == Ok::<
            AnyPathModel,
            ErrorModel,
        >(AnyPathModel::Text(current + "/"@ + dir + "/localCache/"@ + id_of(archive))),
        dir[0] != '/' ==> cache_path(Some(AnyPathModel::Text(dir)), Err(message), archive) == Err::<
            AnyPathModel,
            ErrorModel,
        >(ErrorModel::Io(message)),
        cache_path(None, other, archive) == Err::<AnyPathModel, ErrorModel>(ErrorModel::NoDataDirectory),
{
    reveal_strlit("/localCache/");
    reveal_strlit("localCache");
    reveal_strlit("/");
    reveal_strlit("local-");
    let id = id_of(archive);
    assert(id[0] == 'l');
    let cache = "localCache"@;
    let base = if dir[0] == '/' {
        dir
    } else {
        current + "/"@ + dir
    };
    assert(current.push('/') + dir =~= current + "/"@ + dir);
    assert(base.last() == dir.last());
    let folder = base.push('/') + cache;
    assert(joined(base, cache) == folder);
    assert(folder.last() == cache[9]);
    assert(joined(folder, id) == folder.push('/') + id);
    assert(folder.push('/') + id =~= base + "/localCache/"@ + id);
}

/// One more piece of a path is one more component, unless it is empty or `.`;
/// `..` is a component. A path that is one piece has that as its component.
pub proof fn pieces_are_components(dir: Seq<char>, piece: Seq<char>)
    requires
        forall|i: int| 0 <= i < piece.len() ==> #[trigger] piece[i] != '/',
    ensures
        names_itself(piece) ==> components(dir + seq!['/'] + piece) == components(dir),
        !names_itself(piece) ==> components(dir + seq!['/'] + piece) == components(dir).push(piece),
        piece.len() > 0 ==> components(piece) == seq![piece],
        piece.len() == 0 ==> components(piece).len() == 0,
{
    lemma_last_piece(dir, piece);
    lemma_pieces(piece);
    if !names_itself(piece) {
        assert(piece.len() != 1 || piece[0] != '.');
        assert(piece != seq!['.']) by {
            assert(seq!['.'].len() == 1 && seq!['.'][0] == '.');
        }
    }
    if piece.len() > 0 {
        assert(components(piece) =~= seq![piece]);
    }
}

/// Repeated slashes, `.` and slashes at the end do not make another path; another
/// name, or the way over the parent folder, does.
pub proof fn ways_of_writing_a_path(dir: Seq<char>, name: Seq<char>, other: Seq<char>)
    requires
        dir.len() > 0,
        can_name(name),
        forall|i: int| 0 <= i < other.len() ==> #[trigger] other[i] != '/',
    ensures
        ({
            let path = path_identity(path_of(dir + seq!['/'] + name));
            &&& path_identity(path_of(dir + seq!['/'] + seq!['/'] + name)) == path
            &&& path_identity(path_of(dir + seq!['/'] + seq!['.'] + seq!['/'] + name)) == path
            &&& path_identity(path_of(dir + seq!['/'] + name + seq!['/'])) == path
            &&& !names_itself(other) && other != name ==> path_identity(path_of(dir + seq!['/'] + other)) != path
        }),
{
    let none = Seq::<char>::empty();
    let dot = seq!['.'];
    let a = dir + seq!['/'] + name;
    let b = dir + seq!['/'] + seq!['/'] + name;
    let c = dir + seq!['/'] + dot + seq!['/'] + name;
    let d = dir + seq!['/'] + name + seq!['/'];
    let e = dir + seq!['/'] + other;
    assert(names_itself(none) && names_itself(dot));
    assert(!names_itself(name));
    pieces_are_components(dir, name);
    pieces_are_components(dir, none);
    pieces_are_components(dir, dot);
    pieces_are_components(dir, other);
    assert(dir + seq!['/'] + none =~= dir + seq!['/']);
    pieces_are_components(dir + seq!['/'], name);
    pieces_are_components(dir + seq!['/'] + dot, name);
    pieces_are_components(a, none);
    assert(a + seq!['/'] + none =~= d);
    assert(components(b) == components(a) && components(c) == components(a) && components(d) == components(a));
    assert(a[0] == dir[0] && b[0] == dir[0] && c[0] == dir[0] && d[0] == dir[0] && e[0] == dir[0]);
    paths_are_told_apart_by_components(path_of(a), path_of(b));
    paths_are_told_apart_by_components(path_of(a), path_of(c));
    paths_are_told_apart_by_components(path_of(a), path_of(d));
    paths_are_told_apart_by_components(path_of(a), path_of(e));
    if !names_itself(other) && other != name {
        assert(components(e).last() == other && components(a).last() == name);
    }
}

/// An entry of an archive is kept below the folder of the archive, and an entry
/// without a name is refused with what it is called.
pub proof fn entries_without_a_name_are_refused(
    data_dir: Option<AnyPathModel>,
    current_dir: Result<AnyPathModel, Seq<char>>,
    archive: Seq<char>,
    name: Seq<char>,
)
    ensures
        cache_path(data_dir, current_dir, archive) matches Ok(folder) ==> match safe_path(folder, name) {
            Some(path) => entry_cache_path(data_dir, current_dir, archive, name) == Ok::<AnyPathModel, ErrorModel>(
                path,
            ),
            None => entry_cache_path(data_dir, current_dir, archive, name) == Err::<AnyPathModel, ErrorModel>(
                ErrorModel::UnsafeEntry(name),
            ),
        },
        cache_path(data_dir, current_dir, archive) matches Err(x) ==> entry_cache_path(
            data_dir,
            current_dir,
            archive,
            name,
        ) == Err::<AnyPathModel, ErrorModel>(x),
{
}

/// An identifier is `local-` and the hash of the path in hexadecimal.
pub proof fn identifiers_are_hashes(text: Seq<char>)
    ensures
        id_of(text) == "local-"@ + hexadecimal(text_hash(text) as nat),
{
}

/// A path that is no text goes on with a slash and the bytes of what is joined
/// to it.
pub proof fn bytes_are_joined_like_text(base: Seq<u8>, part: Seq<char>)
    requires
        base.len() > 0,
        base.last() != 0x2f,
        encode_utf8(part).len() > 0,
        encode_utf8(part)[0] != 0x2f,
    ensures
        joined_path(AnyPathModel::Bytes(base), AnyPathModel::Text(part)) == AnyPathModel::Bytes(
            base + seq![0x2fu8] + encode_utf8(part),
        ),
{
    assert(base.push(0x2f) + encode_utf8(part) =~= base + seq![0x2fu8] + encode_utf8(part));
}

/// Text goes on with a slash and what is joined to it; where it ends in a slash
/// or is empty none is put between, and an absolute path stands alone.
pub proof fn texts_are_joined_by_one_slash(base: Seq<char>, part: Seq<char>)
    ensures
        ({
            let r = joined_path(AnyPathModel::Text(base), AnyPathModel::Text(part));
            let is_rooted = part.len() > 0 && part[0] == '/';
            &&& is_rooted ==> r == AnyPathModel::Text(part)
            &&& !is_rooted && (base.len() == 0 || base[base.len() - 1] == '/') ==> r == AnyPathModel::Text(base + part)
            &&& !is_rooted && base.len() > 0 && base[base.len() - 1] != '/' ==> r == AnyPathModel::Text(
                base + seq!['/'] + part,
            )
        }),
{
    assert(base.push('/') + part =~= base + seq!['/'] + part);
}

} // verus!
