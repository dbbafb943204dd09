//! Titles of chapters and volumes, and the numbers that are read from them.
use crate::digits::{decimal, lemma_decimal_digits, print_decimal};
use crate::path::{opt_view, LocalPath, PathModel};
use crate::text::{
    chars_of, has_at, in_class, is_digit, lemma_run, lower, lower_char, lowered, occurs_at, run, run_end, same,
    slice, split_words, text_of, text_views, to_lower_char, trim, trimmed, views, words, CharClass,
};
use vstd::prelude::*;

verus! {

/// Whether `s` is a number as names hold it: a digit, then digits and dots.
pub open spec fn is_numeral(s: Seq<char>) -> bool {
    &&& s.len() > 0
    &&& is_digit(s[0])
    &&& forall|i: int| 0 <= i < s.len() ==> in_class(CharClass::Numeral, #[trigger] s[i])
}

/// What follows the characters before the first digit of `s`.
pub open spec fn from_first_digit(s: Seq<char>) -> Seq<char> {
    s.skip(run(s, CharClass::NonDigit) as int)
}

/// All numbers in `s`, in order: each starts with a digit and goes on as far
/// as there are digits and dots.
pub open spec fn numbers(s: Seq<char>) -> Seq<Seq<char>>
    decreases s.len(),
    via numbers_decreases
{
    let rest = from_first_digit(s);
    if rest.len() == 0 {
        seq![]
    } else {
        let n = run(rest, CharClass::Numeral) as int;
        seq![rest.take(n)] + numbers(rest.skip(n))
    }
}

#[via_fn]
proof fn numbers_decreases(s: Seq<char>) {
    lemma_number_is_read(s);
}

/// A number takes at least one character.
proof fn lemma_number_is_read(s: Seq<char>)
    ensures
        from_first_digit(s).len() <= s.len(),
        from_first_digit(s).len() > 0 ==> 0 < run(from_first_digit(s), CharClass::Numeral)
            <= from_first_digit(s).len(),
{
    lemma_run(s, CharClass::NonDigit);
    let rest = from_first_digit(s);
    lemma_run(rest, CharClass::Numeral);
    if rest.len() > 0 {
        assert(rest[0] == s[run(s, CharClass::NonDigit) as int]);
        assert(in_class(CharClass::Numeral, rest[0]));
    }
}

/// The first number in `s`.
pub open spec fn number_in(s: Seq<char>) -> Option<Seq<char>> {
    let rest = from_first_digit(s);
    if rest.len() == 0 {
        None
    } else {
        Some(rest.take(run(rest, CharClass::Numeral) as int))
    }
}

/// The first number of a text is the first of all its numbers.
pub proof fn first_number_leads_all_numbers(s: Seq<char>)
    ensures
        number_in(s) is Some <==> numbers(s).len() > 0,
        number_in(s) is Some ==> numbers(s)[0] == number_in(s)->0,
{
}

/// The first number of a text is a numeral.
pub proof fn first_number_is_numeral(s: Seq<char>)
    ensures
        number_in(s) matches Some(n) ==> is_numeral(n),
{
    let rest = from_first_digit(s);
    lemma_run(s, CharClass::NonDigit);
    lemma_run(rest, CharClass::Numeral);
    if rest.len() > 0 {
        assert(rest[0] == s[run(s, CharClass::NonDigit) as int]);
        assert(in_class(CharClass::Numeral, rest[0]));
        let n = rest.take(run(rest, CharClass::Numeral) as int);
        assert forall|i: int| 0 <= i < n.len() implies in_class(
            CharClass::Numeral,
            #[trigger] n[i],
        ) by {
            assert(n[i] == rest[i]);
        }
    }
}

/// Every number of a text is a numeral.
pub proof fn all_numbers_are_numerals(s: Seq<char>)
    ensures
        forall|i: int| 0 <= i < numbers(s).len() ==> is_numeral(#[trigger] numbers(s)[i]),
    decreases s.len(),
{
    let rest = from_first_digit(s);
    if rest.len() > 0 {
        lemma_number_is_read(s);
        let n = run(rest, CharClass::Numeral) as int;
        first_number_is_numeral(s);
        all_numbers_are_numerals(rest.skip(n));
        assert forall|i: int| 0 <= i < numbers(s).len() implies is_numeral(
            #[trigger] numbers(s)[i],
        ) by {
            if i > 0 {
                assert(numbers(s)[i] == numbers(rest.skip(n))[i - 1]);
            }
        }
    }
}

fn first_number_in(chars: &Vec<char>) -> (r: Option<Vec<char>>)
    ensures
        match r {
            Some(n) => number_in(chars@) == Some(n@),
            None => number_in(chars@) is None,
        },
{
    let start: usize = run_end(chars, 0, CharClass::NonDigit);
    assert(chars@.skip(0) == chars@);
    if start == chars.len() {
        return None;
    }
    let end: usize = run_end(chars, start, CharClass::Numeral);
    proof {
        let rest = chars@.skip(start as int);
        assert(rest.take(end - start) == chars@.subrange(start as int, end as int));
    }
    Some(slice(chars, start, end))
}

/// The first number in `value`.
pub fn first_number(value: &str) -> (r: Option<String>)
    ensures
        opt_view(r) == number_in(value@),
{
    match first_number_in(&chars_of(value)) {
        Some(n) => Some(text_of(&n)),
        None => None,
    }
}

fn all_numbers_in(chars: &Vec<char>) -> (r: Vec<Vec<char>>)
    ensures
        views(r@) == numbers(chars@),
{
    let mut r: Vec<Vec<char>> = Vec::new();
    let mut i: usize = 0;
    assert(chars@.skip(0) == chars@);
    assert(views(r@) + numbers(chars@) == numbers(chars@));
    loop
        invariant
            i <= chars.len(),
            views(r@) + numbers(chars@.skip(i as int)) == numbers(chars@),
        decreases chars.len() - i,
    {
        let ghost before = views(r@);
        let ghost s = chars@.skip(i as int);
        let start: usize = run_end(chars, i, CharClass::NonDigit);
        let ghost rest = from_first_digit(s);
        proof {
            lemma_number_is_read(s);
            lemma_run(s, CharClass::NonDigit);
            assert(rest == chars@.skip(start as int));
        }
        if start == chars.len() {
            assert(numbers(s) == Seq::<Seq<char>>::empty());
            return r;
        }
        let end: usize = run_end(chars, start, CharClass::Numeral);
        r.push(slice(chars, start, end));
        proof {
            assert(rest.take(end - start) == chars@.subrange(start as int, end as int));
            assert(rest.skip(end - start) == chars@.skip(end as int));
            assert(views(r@) == before.push(rest.take(end - start)));
            assert(views(r@) + numbers(chars@.skip(end as int)) == before + numbers(s));
        }
        i = end;
    }
}

/// All numbers in `value`.
pub fn all_numbers(value: &str) -> (r: Vec<String>)
    ensures
        text_views(r@) == numbers(value@),
{
    let found: Vec<Vec<char>> = all_numbers_in(&chars_of(value));
    let mut r: Vec<String> = Vec::new();
    let mut i: usize = 0;
    while i < found.len()
        invariant
            i <= found.len(),
            text_views(r@) == views(found@).take(i as int),
        decreases found.len() - i,
    {
        let ghost before = text_views(r@);
        r.push(text_of(&found[i]));
        assert(text_views(r@) == before.push(found@[i as int]@));
        assert(views(found@).take(i + 1) == views(found@).take(i as int).push(found@[i as int]@));
        i += 1;
    }
    r
}

/// `_` and `-` as spaces.
pub open spec fn spaced(s: Seq<char>) -> Seq<char> {
    Seq::new(
        s.len(),
        |i: int|
            if s[i] == '_' || s[i] == '-' {
                ' '
            } else {
                s[i]
            },
    )
}

/// The title that a path gives: its stem with `_` and `-` as spaces.
pub open spec fn title_of(path: PathModel) -> Seq<char> {
    match path.stem {
        Some(stem) => spaced(stem),
        None => "Local Manga"@,
    }
}

/// The title that `path` gives.
pub fn title_from_path(path: &LocalPath) -> (r: String)
    ensures
        r@ == title_of(path@),
{
    match &path.stem {
        None => "Local Manga".to_owned(),
        Some(stem) => {
            let chars: Vec<char> = chars_of(stem.as_str());
            let mut r: String = String::new();
            let mut i: usize = 0;
            while i < chars.len()
                invariant
                    i <= chars.len(),
                    r@ == spaced(chars@).take(i as int),
                decreases chars.len() - i,
            {
                let c: char = chars[i];
                if c == '_' || c == '-' {
                    r.push(' ');
                } else {
                    r.push(c);
                }
                i += 1;
            }
            r
        },
    }
}

/// In lower case, with `_`, `-` and brackets as spaces.
pub open spec fn normalized(s: Seq<char>) -> Seq<char> {
    Seq::new(
        s.len(),
        |i: int|
            if s[i] == '_' || s[i] == '-' || in_class(CharClass::Bracket, s[i]) {
                ' '
            } else {
                lower_char(s[i])
            },
    )
}

/// `value` in lower case, with `_`, `-` and brackets as spaces.
pub fn normalize_number_tokens(value: &str) -> (r: String)
    ensures
        r@ == normalized(value@),
{
    let chars: Vec<char> = chars_of(value);
    let mut r: String = String::new();
    let mut i: usize = 0;
    while i < chars.len()
        invariant
            i <= chars.len(),
            r@ == normalized(chars@).take(i as int),
        decreases chars.len() - i,
    {
        let c: char = chars[i];
        if c == '_' || c == '-' || CharClass::Bracket.holds(c) {
            r.push(' ');
        } else {
            r.push(to_lower_char(c));
        }
        i += 1;
    }
    assert(normalized(chars@).take(i as int) == normalized(chars@));
    r
}

/// The first number that follows a word which is a keyword but for dots.
pub open spec fn number_after_word(
    tokens: Seq<Seq<char>>,
    keywords: Seq<Seq<char>>,
    from: int,
) -> Option<Seq<char>>
    decreases tokens.len() - from,
{
    if from < 0 || from + 1 >= tokens.len() {
        None
    } else if keywords.contains(trim(tokens[from], CharClass::Dot)) && number_in(
        tokens[from + 1],
    ) is Some {
        number_in(tokens[from + 1])
    } else {
        number_after_word(tokens, keywords, from + 1)
    }
}

/// The first number within a word that starts with `keyword`, behind it.
pub open spec fn number_after_prefix(
    tokens: Seq<Seq<char>>,
    keyword: Seq<char>,
    from: int,
) -> Option<Seq<char>>
    decreases tokens.len() - from,
{
    if from < 0 || from >= tokens.len() {
        None
    } else {
        let token = trim(tokens[from], CharClass::Bracket);
        if occurs_at(token, keyword, 0) && number_in(token.skip(keyword.len() as int)) is Some {
            number_in(token.skip(keyword.len() as int))
        } else {
            number_after_prefix(tokens, keyword, from + 1)
        }
    }
}

/// The first number behind one of the keywords, tried in order, in one word.
pub open spec fn number_after_prefixes(
    tokens: Seq<Seq<char>>,
    keywords: Seq<Seq<char>>,
    from: int,
) -> Option<Seq<char>>
    decreases keywords.len() - from,
{
    if from < 0 || from >= keywords.len() {
        None
    } else if number_after_prefix(tokens, keywords[from], 0) is Some {
        number_after_prefix(tokens, keywords[from], 0)
    } else {
        number_after_prefixes(tokens, keywords, from + 1)
    }
}

/// The number that a title gives after one of the keywords: in the word after
/// a keyword, or else in a word that starts with one.
pub open spec fn keyword_number(title: Seq<char>, keywords: Seq<Seq<char>>) -> Option<Seq<char>> {
    let tokens = words(normalized(title));
    if number_after_word(tokens, keywords, 0) is Some {
        number_after_word(tokens, keywords, 0)
    } else {
        number_after_prefixes(tokens, keywords, 0)
    }
}

pub open spec fn volume_keywords() -> Seq<Seq<char>> {
    seq!["volume"@, "vol"@, "v"@]
}

pub open spec fn chapter_keywords() -> Seq<Seq<char>> {
    seq!["chapter"@, "chap"@, "ch"@, "c"@]
}

fn is_keyword(keywords: &Vec<Vec<char>>, word: &Vec<char>) -> (r: bool)
    ensures
        r == views(keywords@).contains(word@),
{
    let mut k: usize = 0;
    while k < keywords.len()
        invariant
            k <= keywords.len(),
            forall|j: int| 0 <= j < k ==> views(keywords@)[j] != word@,
        decreases keywords.len() - k,
    {
        if same(&keywords[k], word) {
            assert(views(keywords@)[k as int] == word@);
            return true;
        }
        k += 1;
    }
    false
}

fn find_after_prefix(tokens: &Vec<Vec<char>>, keyword: &Vec<char>) -> (r: Option<Vec<char>>)
    ensures
        match r {
            Some(n) => number_after_prefix(views(tokens@), keyword@, 0) == Some(n@),
            None => number_after_prefix(views(tokens@), keyword@, 0) is None,
        },
{
    let mut i: usize = 0;
    while i < tokens.len()
        invariant
            i <= tokens.len(),
            number_after_prefix(views(tokens@), keyword@, 0) == number_after_prefix(
                views(tokens@),
                keyword@,
                i as int,
            ),
        decreases tokens.len() - i,
    {
        let token: Vec<char> = trimmed(&tokens[i], CharClass::Bracket);
        if has_at(&token, keyword, 0) {
            let rest: Vec<char> = slice(&token, keyword.len(), token.len());
            assert(rest@ == token@.skip(keyword@.len() as int));
            if let Some(n) = first_number_in(&rest) {
                return Some(n);
            }
        }
        i += 1;
    }
    None
}

/// The number that `value` gives after one of the keywords.
pub fn number_after_keywords(value: &str, keywords: &Vec<Vec<char>>) -> (r: Option<String>)
    ensures
        opt_view(r) == keyword_number(value@, views(keywords@)),
{
    let tokens: Vec<Vec<char>> = split_words(
        &chars_of(normalize_number_tokens(value).as_str()),
    );
    let ghost ts = views(tokens@);
    let ghost ks = views(keywords@);
    let mut i: usize = 0;
    while i < tokens.len()
        invariant
            i <= tokens.len(),
            ts == views(tokens@),
            ts == words(normalized(value@)),
            ks == views(keywords@),
            number_after_word(ts, ks, 0) == number_after_word(ts, ks, i as int),
        decreases tokens.len() - i,
    {
        let token: Vec<char> = trimmed(&tokens[i], CharClass::Dot);
        if is_keyword(keywords, &token) && i + 1 < tokens.len() {
            if let Some(n) = first_number_in(&tokens[i + 1]) {
                return Some(text_of(&n));
            }
        }
        i += 1;
    }
    let mut k: usize = 0;
    while k < keywords.len()
        invariant
            k <= keywords.len(),
            ts == views(tokens@),
            ts == words(normalized(value@)),
            ks == views(keywords@),
            number_after_word(ts, ks, 0) is None,
            number_after_prefixes(ts, ks, 0) == number_after_prefixes(ts, ks, k as int),
        decreases keywords.len() - k,
    {
        if let Some(n) = find_after_prefix(&tokens, &keywords[k]) {
            return Some(text_of(&n));
        }
        k += 1;
    }
    None
}

/// The volume that a title names.
pub open spec fn volume_in(title: Seq<char>) -> Option<Seq<char>> {
    keyword_number(title, volume_keywords())
}

/// The chapter that a title names.
pub open spec fn chapter_in(title: Seq<char>) -> Option<Seq<char>> {
    keyword_number(title, chapter_keywords())
}

/// The volume that `title` names.
pub fn volume_number_from_title(title: &str) -> (r: Option<String>)
    ensures
        opt_view(r) == volume_in(title@),
{
    let mut keywords: Vec<Vec<char>> = Vec::new();
    keywords.push(chars_of("volume"));
    keywords.push(chars_of("vol"));
    keywords.push(chars_of("v"));
    assert(views(keywords@) == volume_keywords());
    number_after_keywords(title, &keywords)
}

/// The chapter that `title` names.
pub fn chapter_number_from_title(title: &str) -> (r: Option<String>)
    ensures
        opt_view(r) == chapter_in(title@),
{
    let mut keywords: Vec<Vec<char>> = Vec::new();
    keywords.push(chars_of("chapter"));
    keywords.push(chars_of("chap"));
    keywords.push(chars_of("ch"));
    keywords.push(chars_of("c"));
    assert(views(keywords@) == chapter_keywords());
    number_after_keywords(title, &keywords)
}

/// The volume that the title of a path names.
pub fn volume_number_from_path(path: &LocalPath) -> (r: Option<String>)
    ensures
        opt_view(r) == volume_in(title_of(path@)),
{
    volume_number_from_title(title_from_path(path).as_str())
}

/// The first of `numbers` that is not `volume`.
pub open spec fn first_other(numbers: Seq<Seq<char>>, volume: Option<Seq<char>>, from: int) -> Option<
    Seq<char>,
>
    decreases numbers.len() - from,
{
    if from < 0 || from >= numbers.len() {
        None
    } else if volume == Some(numbers[from]) {
        first_other(numbers, volume, from + 1)
    } else {
        Some(numbers[from])
    }
}

/// The first number of `title` that is not the volume.
pub fn number_after_volume(title: &str, volume: &Option<String>) -> (r: Option<String>)
    ensures
        opt_view(r) == first_other(numbers(title@), opt_view(*volume), 0),
{
    let found: Vec<Vec<char>> = all_numbers_in(&chars_of(title));
    let mut i: usize = 0;
    while i < found.len()
        invariant
            i <= found.len(),
            views(found@) == numbers(title@),
            first_other(numbers(title@), opt_view(*volume), 0) == first_other(
                numbers(title@),
                opt_view(*volume),
                i as int,
            ),
        decreases found.len() - i,
    {
        assert(numbers(title@)[i as int] == found@[i as int]@);
        let is_volume: bool = match volume {
            Some(v) => same(&chars_of(v.as_str()), &found[i]),
            None => false,
        };
        if !is_volume {
            return Some(text_of(&found[i]));
        }
        i += 1;
    }
    None
}

/// The numbers of a chapter.
#[derive(Debug, PartialEq, Eq)]
pub struct LocalChapterNumbers {
    pub volume: Option<String>,
    pub chapter: String,
}

/// The volume of a chapter: the one its title names, or else the default.
pub open spec fn chapter_volume(path: PathModel, default_volume: Option<Seq<char>>) -> Option<
    Seq<char>,
> {
    match volume_in(title_of(path)) {
        Some(v) => Some(v),
        None => default_volume,
    }
}

/// The number of a chapter: the one its title names, or else the first number
/// of the title that is not the volume, or else the fallback.
pub open spec fn chapter_number(
    path: PathModel,
    fallback: nat,
    default_volume: Option<Seq<char>>,
) -> Seq<char> {
    match chapter_in(title_of(path)) {
        Some(n) => n,
        None => match first_other(
            numbers(title_of(path)),
            chapter_volume(path, default_volume),
            0,
        ) {
            Some(n) => n,
            None => decimal(fallback),
        },
    }
}

/// The numbers of the chapter at `path`.
pub fn chapter_numbers_from_path(
    path: &LocalPath,
    fallback: usize,
    default_volume: Option<String>,
) -> (r: LocalChapterNumbers)
    ensures
        opt_view(r.volume) == chapter_volume(path@, opt_view(default_volume)),
        r.chapter@ == chapter_number(path@, fallback as nat, opt_view(default_volume)),
{
    let title: String = title_from_path(path);
    let volume: Option<String> = match volume_number_from_title(title.as_str()) {
        Some(v) => Some(v),
        None => default_volume,
    };
    let chapter: String = match chapter_number_from_title(title.as_str()) {
        Some(n) => n,
        None => match number_after_volume(title.as_str(), &volume) {
            Some(n) => n,
            None => print_decimal(fallback as u64),
        },
    };
    LocalChapterNumbers { volume, chapter }
}

/// Whether the title names a volume: one of its words is a volume keyword, or
/// it starts with `vol` and a number or dot, or with `v` and a digit.
pub open spec fn names_volume(title: Seq<char>) -> bool {
    let t = lower(title);
    ||| words(t).contains("volume"@)
    ||| words(t).contains("vol"@)
    ||| words(t).contains("vol."@)
    ||| words(t).contains("v"@)
    ||| occurs_at(t, "vol"@, 0) && starts_with_marker(t.skip(3))
    ||| t.len() > 1 && t[0] == 'v' && is_digit(t[1])
}

/// Whether `s` starts with a digit or a dot.
pub open spec fn starts_with_marker(s: Seq<char>) -> bool {
    s.len() > 0 && in_class(CharClass::Numeral, s[0])
}

/// Whether `value` starts with a digit or a dot.
pub fn starts_with_number_marker(value: &str) -> (r: bool)
    ensures
        r == starts_with_marker(value@),
{
    let chars: Vec<char> = chars_of(value);
    chars.len() > 0 && CharClass::Numeral.holds(chars[0])
}

/// Whether the folder at `path` looks like a volume.
pub fn looks_like_volume_path(path: &LocalPath) -> (r: bool)
    ensures
        r == names_volume(title_of(path@)),
{
    let title: Vec<char> = lowered(&chars_of(title_from_path(path).as_str()));
    let parts: Vec<Vec<char>> = split_words(&title);
    let vol: Vec<char> = chars_of("vol");
    proof {
        reveal_strlit("vol");
    }
    is_keyword(&parts, &chars_of("volume")) || is_keyword(&parts, &vol) || is_keyword(
        &parts,
        &chars_of("vol."),
    ) || is_keyword(&parts, &chars_of("v")) || (has_at(&title, &vol, 0)
        && starts_with_number_marker(text_of(&slice(&title, 3, title.len())).as_str())) || (title.len() > 1 && title[0] == 'v'
        && CharClass::Digit.holds(title[1]))
}

/// The number that keywords give is a numeral.
pub proof fn keyword_numbers_are_numerals(title: Seq<char>, keywords: Seq<Seq<char>>)
    ensures
        keyword_number(title, keywords) matches Some(n) ==> is_numeral(n),
{
    let tokens = words(normalized(title));
    lemma_after_word(tokens, keywords, 0);
    lemma_after_prefixes(tokens, keywords, 0);
}

proof fn lemma_after_word(tokens: Seq<Seq<char>>, keywords: Seq<Seq<char>>, from: int)
    requires
        from >= 0,
    ensures
        number_after_word(tokens, keywords, from) matches Some(n) ==> is_numeral(n),
    decreases tokens.len() - from,
{
    if from + 1 < tokens.len() {
        first_number_is_numeral(tokens[from + 1]);
        lemma_after_word(tokens, keywords, from + 1);
    }
}

proof fn lemma_after_prefix(tokens: Seq<Seq<char>>, keyword: Seq<char>, from: int)
    requires
        from >= 0,
    ensures
        number_after_prefix(tokens, keyword, from) matches Some(n) ==> is_numeral(n),
    decreases tokens.len() - from,
{
    if from < tokens.len() {
        first_number_is_numeral(
            trim(tokens[from], CharClass::Bracket).skip(keyword.len() as int),
        );
        lemma_after_prefix(tokens, keyword, from + 1);
    }
}

proof fn lemma_after_prefixes(tokens: Seq<Seq<char>>, keywords: Seq<Seq<char>>, from: int)
    requires
        from >= 0,
    ensures
        number_after_prefixes(tokens, keywords, from) matches Some(n) ==> is_numeral(n),
    decreases keywords.len() - from,
{
    if from < keywords.len() {
        lemma_after_prefix(tokens, keywords[from], 0);
        lemma_after_prefixes(tokens, keywords, from + 1);
    }
}

proof fn lemma_first_other(numbers: Seq<Seq<char>>, volume: Option<Seq<char>>, from: int)
    requires
        from >= 0,
        forall|i: int| 0 <= i < numbers.len() ==> is_numeral(#[trigger] numbers[i]),
    ensures
        first_other(numbers, volume, from) matches Some(n) ==> is_numeral(n) && volume != Some(n),
    decreases numbers.len() - from,
{
    if from < numbers.len() {
        lemma_first_other(numbers, volume, from + 1);
    }
}

/// A chapter's number is always a numeral, and so is its volume if the default
/// volume is.
pub proof fn chapter_numbers_are_numerals(
    path: PathModel,
    fallback: nat,
    default_volume: Option<Seq<char>>,
)
    requires
        default_volume matches Some(v) ==> is_numeral(v),
    ensures
        is_numeral(chapter_number(path, fallback, default_volume)),
        chapter_volume(path, default_volume) matches Some(v) ==> is_numeral(v),
{
    let title = title_of(path);
    keyword_numbers_are_numerals(title, volume_keywords());
    keyword_numbers_are_numerals(title, chapter_keywords());
    all_numbers_are_numerals(title);
    lemma_first_other(numbers(title), chapter_volume(path, default_volume), 0);
    lemma_decimal_digits(fallback);
}

/// A number that the title does not give by a chapter keyword differs from the
/// volume, unless it is the fallback.
pub proof fn chapter_number_is_not_the_volume(
    path: PathModel,
    fallback: nat,
    default_volume: Option<Seq<char>>,
)
    requires
        chapter_in(title_of(path)) is None,
    ensures
        chapter_number(path, fallback, default_volume) == decimal(fallback) || chapter_volume(
            path,
            default_volume,
        ) != Some(chapter_number(path, fallback, default_volume)),
{
    let title = title_of(path);
    all_numbers_are_numerals(title);
    lemma_first_other(numbers(title), chapter_volume(path, default_volume), 0);
}

} // verus!
