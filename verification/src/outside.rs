//! The functions of other crates and of the standard library that this crate
//! calls and does not prove.
use crate::anypath::{AnyPath, AnyPathModel};
use crate::keys::{edit_of, EditRequest, KeyCode, KeyEvent};
use crate::text::is_digit;
use crossterm::event;
use std::collections::hash_map::DefaultHasher;
use std::hash::Hash;
use tui_input::backend::crossterm::EventHandler;
use tui_input::Input;
use vstd::prelude::*;

verus! {

/// `url::ParseError`: why a text is no URL.
#[verifier::external_type_specification]
#[verifier::external_body]
pub struct ExParseError(url::ParseError);

/// What `str::to_lowercase` makes of a text.
pub uninterp spec fn lowercase(text: Seq<char>) -> Seq<char>;

/// What hashing a text writes into a hasher.
pub uninterp spec fn hash_writes(text: Seq<char>) -> Seq<Seq<u8>>;

/// The serialization of the URL that `Url::parse` reads from a text, or why the
/// text is no URL.
pub uninterp spec fn parsed_url(text: Seq<char>) -> Result<Seq<char>, url::ParseError>;

/// The serialization of the URL that `Url::from_file_path` makes of a path.
pub uninterp spec fn path_url(path: Seq<char>) -> Option<Seq<char>>;

/// The path that `Url::to_file_path` gives of the URL in a text.
pub uninterp spec fn url_path(url: Seq<char>) -> Option<AnyPathModel>;

/// What `char::is_alphanumeric` says of a character.
pub uninterp spec fn is_alphanumeric(c: char) -> bool;

/// `marks` without those at its end that are `mark`.
pub open spec fn strip_end(marks: Seq<bool>, mark: bool) -> Seq<bool>
    decreases marks.len(),
{
    if marks.len() > 0 && marks.last() == mark {
        strip_end(marks.drop_last(), mark)
    } else {
        marks
    }
}

/// `marks` without those at its start that are `mark`.
pub open spec fn strip_start(marks: Seq<bool>, mark: bool) -> Seq<bool>
    decreases marks.len(),
{
    if marks.len() > 0 && marks[0] == mark {
        strip_start(marks.skip(1), mark)
    } else {
        marks
    }
}

/// Where the last word of a text begins, whose alphanumeric characters are
/// marked.
pub open spec fn last_word(marks: Seq<bool>) -> nat {
    strip_end(strip_end(marks, false), true).len()
}

/// How much of a text is left from its next word on, whose alphanumeric
/// characters are marked.
pub open spec fn rest_from_next_word(marks: Seq<bool>) -> nat {
    strip_start(strip_start(marks, true), false).len()
}

/// What a request makes of a line of text, whose alphanumeric characters are
/// marked, and a cursor in it.
pub open spec fn edited_line(
    value: Seq<char>,
    marks: Seq<bool>,
    cursor: nat,
    request: EditRequest,
) -> (Seq<char>, nat) {
    let at = cursor as int;
    let word = last_word(marks.take(at));
    let next_word = value.len() - rest_from_next_word(marks.skip(at));
    match request {
        EditRequest::InsertChar(c) => (value.insert(at, c), cursor + 1),
        EditRequest::GoToPrevChar => (value, if cursor == 0 { 0 } else { (at - 1) as nat }),
        EditRequest::GoToNextChar => (value, if at >= value.len() { cursor } else { cursor + 1 }),
        EditRequest::GoToPrevWord => (value, word),
        EditRequest::GoToNextWord => (value, next_word as nat),
        EditRequest::GoToStart => (value, 0),
        EditRequest::GoToEnd => (value, value.len()),
        EditRequest::DeletePrevChar => if cursor == 0 {
            (value, cursor)
        } else {
            (value.remove(at - 1), (at - 1) as nat)
        },
        EditRequest::DeleteNextChar => if at >= value.len() {
            (value, cursor)
        } else {
            (value.remove(at), cursor)
        },
        EditRequest::DeletePrevWord => (value.take(word as int) + value.skip(at), word),
        EditRequest::DeleteNextWord => (value.take(at) + value.skip(next_word), cursor),
        EditRequest::DeleteLine => (Seq::empty(), 0),
        EditRequest::DeleteTillEnd => (value.take(at), cursor),
    }
}

/// `tui_input`'s `EventHandler::handle_event` for `Input`, on an input with this
/// value and this cursor and a press of a key: the value and the cursor after
/// it. The cursor stays within the value. Which characters are alphanumeric
/// goes by the Unicode tables and stays unsaid.
#[verifier::external_body]
pub(crate) fn edit_line(value: &str, cursor: usize, key: KeyEvent) -> (r: (String, usize))
    requires
        cursor <= value@.len(),
    ensures
        (r.0@, r.1 as nat) == (match edit_of(key) {
            Some(request) => edited_line(
                value@,
                Seq::new(value@.len(), |i: int| is_alphanumeric(value@[i])),
                cursor as nat,
                request,
            ),
            None => (value@, cursor as nat),
        }),
        r.1 <= r.0@.len(),
{
    let code = match key.code {
        KeyCode::Char(c) => event::KeyCode::Char(c),
        KeyCode::Enter => event::KeyCode::Enter, KeyCode::Esc => event::KeyCode::Esc,
        KeyCode::Backspace => event::KeyCode::Backspace, KeyCode::Delete => event::KeyCode::Delete,
        KeyCode::Left => event::KeyCode::Left, KeyCode::Right => event::KeyCode::Right,
        KeyCode::Home => event::KeyCode::Home, KeyCode::End => event::KeyCode::End,
        KeyCode::Other => event::KeyCode::Null,
    };
    let modifiers = event::KeyModifiers::from_bits_retain(key.modifiers);
    let mut input = Input::new(value.to_owned()).with_cursor(cursor);
    input.handle_event(&event::Event::Key(event::KeyEvent::new(code, modifiers)));
    (input.value().to_owned(), input.cursor())
}

/// `str::to_lowercase`: the lower case of `text` by the Unicode rules, which
/// depends on the text alone. The Unicode tables are not written out here, so
/// which text that is stays unsaid.
#[verifier::external_body]
pub(crate) fn to_lowercase(text: &str) -> (r: String)
    ensures
        r@ == lowercase(text@),
{
    text.to_lowercase()
}

/// `<str as Hash>::hash`: feeds `text` to the hasher. What is written depends
/// on the text alone; which bytes these are is not documented and stays unsaid.
#[verifier::external_body]
pub(crate) fn hash_text(text: &str, hasher: &mut DefaultHasher)
    ensures
        final(hasher)@ == old(hasher)@ + hash_writes(text@),
{
    text.hash(hasher)
}

/// Whether `text` is the URL of a page in an archive: `local://page/`, an
/// identifier of lower-case letters, digits and hyphens, `/`, and a number.
pub open spec fn is_page_url(text: Seq<char>, id: Seq<char>, number: Seq<char>) -> bool {
    &&& text == "local://page/"@ + id + "/"@ + number
    &&& id.len() > 0
    &&& number.len() > 0
    &&& forall|i: int|
        0 <= i < id.len() ==> (is_digit(#[trigger] id[i]) || 'a' <= id[i] <= 'z' || id[i] == '-')
    &&& forall|i: int| 0 <= i < number.len() ==> is_digit(#[trigger] number[i])
}

/// Whether a character stands for itself in the path of a URL and is no
/// separator.
pub open spec fn is_plain_char(c: char) -> bool {
    is_digit(c) || 'a' <= c <= 'z' || 'A' <= c <= 'Z' || c == '-' || c == '_' || c == '.'
}

/// Whether `path` is absolute and made of components in plain characters, none
/// of which starts with a dot.
pub open spec fn is_plain_path(path: Seq<char>) -> bool {
    &&& path.len() > 1
    &&& path[0] == '/'
    &&& forall|i: int| 0 <= i < path.len() ==> #[trigger] path[i] == '/' || is_plain_char(path[i])
    &&& forall|i: int|
        0 <= i < path.len() && #[trigger] path[i] == '/' ==> i + 1 < path.len() && path[i + 1]
            != '/' && path[i + 1] != '.'
}

/// `url::Url::parse`: reads `text` as an absolute URL and gives its
/// serialization, or why it is no URL; both depend on the text alone. The URLs of pages in
/// archives, and the `file:` URLs of plain paths, are URLs and their own
/// serialization. Of other texts only that name is given.
#[verifier::external_body]
pub(crate) fn parse_url(text: &str) -> (r: Result<String, url::ParseError>)
    ensures
        match r {
            Ok(url) => parsed_url(text@) == Ok::<Seq<char>, url::ParseError>(url@),
            Err(e) => parsed_url(text@) == Err::<Seq<char>, url::ParseError>(e),
        },
        forall|id: Seq<char>, number: Seq<char>| #[trigger]
            is_page_url(text@, id, number) ==> r is Ok && r->Ok_0@ == text@,
        forall|path: Seq<char>| #[trigger]
            is_plain_path(path) && text@ == "file://"@ + path ==> r is Ok && r->Ok_0@ == text@,
{
    url::Url::parse(text).map(String::from)
}

/// `url::Url::from_file_path`, on Unix: the `file:` URL of the path `text`,
/// which depends on the text alone. There is one exactly for absolute paths. A
/// plain path stands in it as it is; how other characters are encoded stays
/// unsaid.
#[verifier::external_body]
pub(crate) fn url_of_path(text: &str) -> (r: Option<String>)
    ensures
        match r {
            Some(url) => path_url(text@) == Some(url@),
            None => path_url(text@) is None,
        },
        r is Some <==> (text@.len() > 0 && text@[0] == '/'),
        is_plain_path(text@) ==> r is Some && r->0@ == "file://"@ + text@,
{
    url::Url::from_file_path(text).ok().map(String::from)
}

/// `url::Url::to_file_path`, on Unix: the path that the URL with the serialization
/// `text` leads to, which depends on the text alone; `None` where the URL leads
/// to no path, and where the text is no URL. The `file:` URL of a plain path
/// leads to that path. Of other texts only that name is given.
#[verifier::external_body]
pub(crate) fn path_of_url(text: &str) -> (r: Option<AnyPath>)
    ensures
        match r {
            Some(path) => url_path(text@) == Some(path@),
            None => url_path(text@) is None,
        },
        forall|path: Seq<char>| #[trigger]
            is_plain_path(path) && text@ == "file://"@ + path ==> r is Some && r->0@
                == AnyPathModel::Text(path),
{
    let path = url::Url::parse(text).ok()?.to_file_path().ok()?;
    Some(match path.into_os_string().into_string() {
        Ok(text) => AnyPath::Text(text),
        Err(raw) => AnyPath::Bytes(raw.into_encoded_bytes()),
    })
}

} // verus!
