//! The components of a path, by which paths are told apart.
use crate::path::{after_last, last_position, lemma_last_position, LocalPath, PathModel};
use crate::text::{chars_of, slice, text_of, views};
use vstd::prelude::*;

verus! {

/// The components of a path below its root: its pieces that are not empty, and
/// not `.` unless the path starts with that.
pub open spec fn components(s: Seq<char>) -> Seq<Seq<char>>
    decreases s.len(),
    via components_decreases
{
    let slash = last_position(s, '/');
    let piece = s.skip(slash + 1);
    let before = if slash < 0 {
        seq![]
    } else {
        components(s.take(slash))
    };
    if piece.len() == 0 || (piece == seq!['.'] && slash >= 0) {
        before
    } else {
        before.push(piece)
    }
}

#[via_fn]
proof fn components_decreases(s: Seq<char>) {
    lemma_last_position(s, '/');
}

pub open spec fn is_absolute(s: Seq<char>) -> bool {
    s.len() > 0 && s[0] == '/'
}

/// The pieces, each with a `/` behind it.
pub open spec fn pieces_text(pieces: Seq<Seq<char>>) -> Seq<char>
    decreases pieces.len(),
{
    if pieces.len() == 0 {
        Seq::empty()
    } else {
        (pieces_text(pieces.drop_last()) + pieces.last()).push('/')
    }
}

/// The components of a path as one text.
pub open spec fn components_text(s: Seq<char>) -> Seq<char> {
    if is_absolute(s) {
        seq!['/'] + pieces_text(components(s))
    } else {
        pieces_text(components(s))
    }
}

/// The bytes as characters, one for one.
pub open spec fn byte_text(bytes: Seq<u8>) -> Seq<char> {
    Seq::new(bytes.len(), |i: int| bytes[i] as char)
}

/// What stands for a path, as characters: its text, or its bytes where it is no
/// text.
pub open spec fn path_text(path: PathModel) -> Seq<char> {
    match path.raw {
        None => path.text,
        Some(raw) => byte_text(raw.bytes),
    }
}

/// What tells two paths apart: their components.
pub open spec fn path_identity(path: PathModel) -> Seq<char> {
    seq![if path.raw is Some { 'b' } else { 't' }] + components_text(path_text(path))
}

fn split_components(chars: &Vec<char>) -> (r: Vec<Vec<char>>)
    ensures
        views(r@) == components(chars@),
    decreases chars.len(),
{
    let start: usize = after_last(chars, chars.len(), '/');
    let piece: Vec<char> = slice(chars, start, chars.len());
    proof {
        lemma_last_position(chars@, '/');
        assert(chars@.take(chars@.len() as int) == chars@);
        assert(piece@ == chars@.skip(start as int));
    }
    let mut pieces: Vec<Vec<char>> = if start == 0 {
        Vec::new()
    } else {
        let before: Vec<char> = slice(chars, 0, start - 1);
        assert(before@ == chars@.take(start - 1));
        split_components(&before)
    };
    let ghost before = views(pieces@);
    proof {
        if piece.len() == 1 && piece@[0] == '.' {
            assert(piece@ == seq!['.']);
        }
        if piece@ == seq!['.'] {
            assert(piece@[0] == '.');
        }
    }
    if piece.len() == 0 || (piece.len() == 1 && piece[0] == '.' && start > 0) {
        return pieces;
    }
    let ghost last = piece@;
    pieces.push(piece);
    assert(views(pieces@) == before.push(last));
    pieces
}

fn push_all(r: &mut Vec<char>, piece: &Vec<char>)
    ensures
        final(r)@ == old(r)@ + piece@,
{
    let ghost start = r@;
    let mut i: usize = 0;
    while i < piece.len()
        invariant
            i <= piece.len(),
            r@ == start + piece@.take(i as int),
        decreases piece.len() - i,
    {
        r.push(piece[i]);
        assert(piece@.take(i + 1) == piece@.take(i as int).push(piece@[i as int]));
        i += 1;
    }
    assert(piece@.take(i as int) == piece@);
}

fn byte_chars(bytes: &Vec<u8>) -> (r: Vec<char>)
    ensures
        r@ == byte_text(bytes@),
{
    let mut r: Vec<char> = Vec::new();
    let mut i: usize = 0;
    while i < bytes.len()
        invariant
            i <= bytes.len(),
            r@ == byte_text(bytes@).take(i as int),
        decreases bytes.len() - i,
    {
        r.push(bytes[i] as char);
        i += 1;
    }
    assert(byte_text(bytes@).take(i as int) == byte_text(bytes@));
    r
}

/// What tells `path` apart from other paths.
pub fn identity_of(path: &LocalPath) -> (r: String)
    ensures
        r@ == path_identity(path@),
{
    let chars: Vec<char> = match &path.raw {
        None => chars_of(path.text.as_str()),
        Some(raw) => byte_chars(&raw.bytes),
    };
    let pieces: Vec<Vec<char>> = split_components(&chars);
    let ghost list = components(chars@);
    let mut r: Vec<char> = Vec::new();
    if path.raw.is_some() {
        r.push('b');
    } else {
        r.push('t');
    }
    if chars.len() > 0 && chars[0] == '/' {
        r.push('/');
    }
    let ghost start = r@;
    let mut i: usize = 0;
    while i < pieces.len()
        invariant
            i <= pieces.len(),
            list == views(pieces@),
            r@ == start + pieces_text(list.take(i as int)),
        decreases pieces.len() - i,
    {
        proof {
            let next = list.take(i + 1);
            assert(next.drop_last() == list.take(i as int));
            assert(next.last() == pieces@[i as int]@);
        }
        push_all(&mut r, &pieces[i]);
        r.push('/');
        assert(r@ == start + pieces_text(list.take(i + 1)));
        i += 1;
    }
    proof {
        assert(list.take(i as int) == list);
        assert(r@ == path_identity(path@));
    }
    text_of(&r)
}

spec fn no_slash(s: Seq<char>) -> bool {
    forall|i: int| 0 <= i < s.len() ==> #[trigger] s[i] != '/'
}

spec fn are_pieces(pieces: Seq<Seq<char>>) -> bool {
    forall|i: int|
        0 <= i < pieces.len() ==> (#[trigger] pieces[i]).len() > 0 && no_slash(pieces[i])
}

proof fn lemma_components(s: Seq<char>)
    ensures
        are_pieces(components(s)),
    decreases s.len(),
{
    lemma_last_position(s, '/');
    let slash = last_position(s, '/');
    let piece = s.skip(slash + 1);
    if slash >= 0 {
        lemma_components(s.take(slash));
    }
    assert(no_slash(piece)) by {
        assert forall|i: int| 0 <= i < piece.len() implies #[trigger] piece[i] != '/' by {
            assert(piece[i] == s[slash + 1 + i]);
        }
    }
}

/// Where the last piece begins is told by the text.
proof fn lemma_last_piece(front: Seq<char>, piece: Seq<char>, other: Seq<char>, other_piece: Seq<char>)
    requires
        front + piece == other + other_piece,
        no_slash(piece),
        no_slash(other_piece),
        front.len() > 0 ==> front.last() == '/',
        other.len() > 0 ==> other.last() == '/',
    ensures
        front == other,
        piece == other_piece,
{
    let s = front + piece;
    let t = other + other_piece;
    if front.len() < other.len() {
        assert(t[other.len() - 1] == '/');
        assert(s[other.len() - 1] == piece[other.len() - 1 - front.len()]);
    }
    if other.len() < front.len() {
        assert(s[front.len() - 1] == '/');
        assert(t[front.len() - 1] == other_piece[front.len() - 1 - other.len()]);
    }
    assert(front == s.take(front.len() as int));
    assert(other == t.take(front.len() as int));
    assert(piece == s.skip(front.len() as int));
    assert(other_piece == t.skip(front.len() as int));
}

proof fn lemma_pieces_text(a: Seq<Seq<char>>, b: Seq<Seq<char>>)
    requires
        are_pieces(a),
        are_pieces(b),
        pieces_text(a) == pieces_text(b),
    ensures
        a == b,
    decreases a.len(),
{
    if a.len() == 0 || b.len() == 0 {
        if a.len() > 0 {
            assert(pieces_text(a).len() > 0);
        }
        if b.len() > 0 {
            assert(pieces_text(b).len() > 0);
        }
        assert(a == b);
    } else {
        let x = pieces_text(a.drop_last()) + a.last();
        let y = pieces_text(b.drop_last()) + b.last();
        assert(x == x.push('/').drop_last());
        assert(y == y.push('/').drop_last());
        assert(no_slash(a[a.len() - 1]));
        assert(no_slash(b[b.len() - 1]));
        lemma_last_piece(
            pieces_text(a.drop_last()),
            a.last(),
            pieces_text(b.drop_last()),
            b.last(),
        );
        lemma_pieces_text(a.drop_last(), b.drop_last());
        assert(a == a.drop_last().push(a.last()));
        assert(b == b.drop_last().push(b.last()));
    }
}

proof fn lemma_no_root(pieces: Seq<Seq<char>>)
    requires
        are_pieces(pieces),
    ensures
        pieces.len() > 0 ==> pieces_text(pieces).len() > 0 && pieces_text(pieces)[0] != '/',
    decreases pieces.len(),
{
    if pieces.len() > 0 {
        let front = pieces.drop_last();
        lemma_no_root(front);
        assert(pieces[pieces.len() - 1].len() > 0);
        assert(no_slash(pieces[pieces.len() - 1]));
        if front.len() == 0 {
            assert(pieces_text(front) + pieces.last() == pieces.last());
            assert(pieces_text(pieces)[0] == pieces.last()[0]);
        } else {
            assert(pieces_text(pieces)[0] == pieces_text(front)[0]);
        }
    }
}

/// Two paths have one identity exactly where both are text or both are not, both
/// are absolute or both are not, and their components are the same.
pub proof fn paths_are_told_apart_by_components(a: PathModel, b: PathModel)
    ensures
        path_identity(a) == path_identity(b) <==> {
            &&& a.raw is Some == b.raw is Some
            &&& is_absolute(path_text(a)) == is_absolute(path_text(b))
            &&& components(path_text(a)) == components(path_text(b))
        },
{
    let s = path_text(a);
    let t = path_text(b);
    lemma_components(s);
    lemma_components(t);
    lemma_no_root(components(s));
    lemma_no_root(components(t));
    if path_identity(a) == path_identity(b) {
        assert(path_identity(a)[0] == path_identity(b)[0]);
        assert(components_text(s) == path_identity(a).skip(1));
        assert(components_text(t) == path_identity(b).skip(1));
        if is_absolute(s) {
            assert(components_text(s)[0] == '/');
            assert(components_text(s).skip(1) == pieces_text(components(s)));
        }
        if is_absolute(t) {
            assert(components_text(t)[0] == '/');
            assert(components_text(t).skip(1) == pieces_text(components(t)));
        }
        lemma_pieces_text(components(s), components(t));
    }
}

} // verus!
