//! What names say: words, numbers, volumes and chapters.
use crate::digits::decimal;
use crate::numbering::{
    chapter_in, chapter_keywords, chapter_number, chapter_volume, first_other, keyword_number,
    names_volume, normalized, number_after_prefix, number_after_prefixes, number_after_word,
    number_in, numbers, spaced, title_of, volume_in, volume_keywords,
};
use crate::path::PathModel;
use crate::reading::spells;
use crate::text::{
    in_class, is_space, lemma_run, lemma_run_is, lemma_tail_run, lower, lower_char, occurs_at,
    run, tail_run, trim, words, CharClass,
};
use vstd::prelude::*;

verus! {

/// White space parts the words before it from those behind it.
pub proof fn white_space_parts_words(a: Seq<char>, c: char, b: Seq<char>)
    requires
        is_space(c),
    ensures
        words(a + seq![c] + b) == words(a) + words(b),
    decreases a.len(),
{
    let s = a + seq![c] + b;
    let r = run(a, CharClass::Space);
    lemma_run(a, CharClass::Space);
    if r == a.len() {
        let q = run(b, CharClass::Space);
        lemma_run(b, CharClass::Space);
        assert forall|i: int| 0 <= i < r + 1 + q implies in_class(CharClass::Space, #[trigger] s[i]) by {
            if i > r {
                assert(s[i] == b[i - r - 1]);
            }
        }
        if r + 1 + q < s.len() {
            assert(s[(r + 1 + q) as int] == b[q as int]);
        }
        lemma_run_is(s, CharClass::Space, r + 1 + q);
        assert(s.skip((r + 1 + q) as int) =~= b.skip(q as int));
        assert(a.skip(r as int).len() == 0);
        assert(words(a) =~= seq![]);
        assert(words(s) == words(b));
    } else {
        assert forall|i: int| 0 <= i < r implies in_class(CharClass::Space, #[trigger] s[i]) by {
            assert(s[i] == a[i]);
        }
        assert(s[r as int] == a[r as int]);
        lemma_run_is(s, CharClass::Space, r);
        let rest_a = a.skip(r as int);
        let rest = s.skip(r as int);
        assert(rest =~= rest_a + seq![c] + b);
        let n = run(rest_a, CharClass::NonSpace);
        lemma_run(rest_a, CharClass::NonSpace);
        assert(rest_a[0] == a[r as int]);
        assert(n > 0);
        assert forall|i: int| 0 <= i < n implies in_class(CharClass::NonSpace, #[trigger] rest[i]) by {
            assert(rest[i] == rest_a[i]);
        }
        assert(!in_class(CharClass::NonSpace, rest[n as int]));
        lemma_run_is(rest, CharClass::NonSpace, n);
        assert(rest.take(n as int) =~= rest_a.take(n as int));
        let behind = rest_a.skip(n as int);
        assert(rest.skip(n as int) =~= behind + seq![c] + b);
        white_space_parts_words(behind, c, b);
        assert(words(s) == seq![rest.take(n as int)] + words(rest.skip(n as int)));
        assert(words(a) == seq![rest_a.take(n as int)] + words(behind));
        assert(words(s) =~= words(a) + words(b));
    }
}

/// A text without white space is one word, the empty text none.
pub proof fn text_without_white_space_is_one_word(w: Seq<char>)
    requires
        forall|i: int| 0 <= i < w.len() ==> !is_space(#[trigger] w[i]),
    ensures
        w.len() > 0 ==> words(w) == seq![w],
        w.len() == 0 ==> words(w) == Seq::<Seq<char>>::empty(),
{
    lemma_run_is(w, CharClass::Space, 0);
    assert(w.skip(0) =~= w);
    if w.len() > 0 {
        lemma_run_is(w, CharClass::NonSpace, w.len());
        assert(w.take(w.len() as int) =~= w);
        let none = w.skip(w.len() as int);
        lemma_run_is(none, CharClass::Space, 0);
        assert(none.skip(0).len() == 0);
        assert(words(none) =~= seq![]);
        assert(words(w) =~= seq![w]);
    }
}

/// White space is what Unicode calls so.
pub proof fn white_space_is_that_of_unicode(c: char)
    ensures
        is_space(c) <==> {
            let u = c as u32;
            ||| u == 0x9 || u == 0xa || u == 0xb || u == 0xc || u == 0xd
            ||| u == 0x20 || u == 0x85 || u == 0xa0 || u == 0x1680
            ||| 0x2000 <= u <= 0x200a
            ||| u == 0x2028 || u == 0x2029 || u == 0x202f || u == 0x205f || u == 0x3000
        },
{
}

/// Every character of a word is one of the text, and none is white space.
proof fn lemma_words_chars(s: Seq<char>, i: int, j: int)
    requires
        0 <= i < words(s).len(),
        0 <= j < words(s)[i].len(),
    ensures
        s.contains(words(s)[i][j]),
    decreases s.len(),
{
    let r = run(s, CharClass::Space) as int;
    lemma_run(s, CharClass::Space);
    let rest = s.skip(r);
    let n = run(rest, CharClass::NonSpace) as int;
    lemma_run(rest, CharClass::NonSpace);
    if i == 0 {
        assert(words(s)[0] == rest.take(n));
        assert(s[r + j] == words(s)[i][j]);
    } else {
        let behind = rest.skip(n);
        assert(words(s)[i] == words(behind)[i - 1]);
        assert(n > 0);
        lemma_words_chars(behind, i - 1, j);
        let k = choose|k: int| 0 <= k < behind.len() && behind[k] == words(s)[i][j];
        assert(s[r + n + k] == words(s)[i][j]);
    }
}

/// Whether a text is a digit with digits and dots behind it.
pub open spec fn is_written_number(n: Seq<char>) -> bool {
    &&& n.len() > 0
    &&& '0' <= n[0] <= '9'
    &&& forall|i: int| 0 <= i < n.len() ==> ('0' <= #[trigger] n[i] <= '9' || n[i] == '.')
}

/// Any character but a digit or a dot parts the numbers before it from those
/// behind it.
pub proof fn other_characters_part_numbers(a: Seq<char>, c: char, b: Seq<char>)
    requires
        !('0' <= c <= '9'),
        c != '.',
    ensures
        numbers(a + seq![c] + b) == numbers(a) + numbers(b),
    decreases a.len(),
{
    let s = a + seq![c] + b;
    let r = run(a, CharClass::NonDigit);
    lemma_run(a, CharClass::NonDigit);
    if r == a.len() {
        let q = run(b, CharClass::NonDigit);
        lemma_run(b, CharClass::NonDigit);
        assert forall|i: int| 0 <= i < r + 1 + q implies in_class(CharClass::NonDigit, #[trigger] s[i]) by {
            if i > r {
                assert(s[i] == b[i - r - 1]);
            }
        }
        if r + 1 + q < s.len() {
            assert(s[(r + 1 + q) as int] == b[q as int]);
        }
        lemma_run_is(s, CharClass::NonDigit, r + 1 + q);
        assert(s.skip((r + 1 + q) as int) =~= b.skip(q as int));
        assert(a.skip(r as int).len() == 0);
        assert(numbers(a) =~= seq![]);
        assert(numbers(s) == numbers(b));
    } else {
        assert forall|i: int| 0 <= i < r implies in_class(CharClass::NonDigit, #[trigger] s[i]) by {
            assert(s[i] == a[i]);
        }
        assert(s[r as int] == a[r as int]);
        lemma_run_is(s, CharClass::NonDigit, r);
        let rest_a = a.skip(r as int);
        let rest = s.skip(r as int);
        assert(rest =~= rest_a + seq![c] + b);
        let n = run(rest_a, CharClass::Numeral);
        lemma_run(rest_a, CharClass::Numeral);
        assert(rest_a[0] == a[r as int]);
        assert(n > 0);
        assert forall|i: int| 0 <= i < n implies in_class(CharClass::Numeral, #[trigger] rest[i]) by {
            assert(rest[i] == rest_a[i]);
        }
        assert(!in_class(CharClass::Numeral, rest[n as int]));
        lemma_run_is(rest, CharClass::Numeral, n);
        assert(rest.take(n as int) =~= rest_a.take(n as int));
        let behind = rest_a.skip(n as int);
        assert(rest.skip(n as int) =~= behind + seq![c] + b);
        other_characters_part_numbers(behind, c, b);
        assert(numbers(s) == seq![rest.take(n as int)] + numbers(rest.skip(n as int)));
        assert(numbers(a) == seq![rest_a.take(n as int)] + numbers(behind));
        assert(numbers(s) =~= numbers(a) + numbers(b));
    }
}

/// A digit with digits and dots behind it is one number, the whole of it;
/// a text without digits has no number.
pub proof fn written_numbers_are_numbers(n: Seq<char>)
    ensures
        is_written_number(n) ==> numbers(n) == seq![n] && number_in(n) == Some(n),
        (forall|i: int| 0 <= i < n.len() ==> !('0' <= #[trigger] n[i] <= '9')) ==> numbers(n).len() == 0
            && number_in(n) is None,
{
    if is_written_number(n) {
        lemma_run_is(n, CharClass::NonDigit, 0);
        assert(n.skip(0) =~= n);
        lemma_run_is(n, CharClass::Numeral, n.len());
        assert(n.take(n.len() as int) =~= n);
        let none = n.skip(n.len() as int);
        lemma_run_is(none, CharClass::NonDigit, 0);
        assert(none.skip(0).len() == 0);
        assert(numbers(none) =~= seq![]);
        assert(numbers(n) =~= seq![n]);
    }
    if forall|i: int| 0 <= i < n.len() ==> !('0' <= #[trigger] n[i] <= '9') {
        lemma_run_is(n, CharClass::NonDigit, n.len());
        assert(n.skip(n.len() as int).len() == 0);
    }
}

/// The first number of a text is what stands behind what has no digit.
pub proof fn the_first_number_stands_behind_other_text(p: Seq<char>, n: Seq<char>)
    requires
        forall|i: int| 0 <= i < p.len() ==> !('0' <= #[trigger] p[i] <= '9'),
        is_written_number(n),
    ensures
        number_in(p + n) == Some(n),
        numbers(p + n) == seq![n],
{
    let s = p + n;
    assert forall|i: int| 0 <= i < p.len() implies in_class(CharClass::NonDigit, #[trigger] s[i]) by {
        assert(s[i] == p[i]);
    }
    assert(s[p.len() as int] == n[0]);
    lemma_run_is(s, CharClass::NonDigit, p.len());
    assert(s.skip(p.len() as int) =~= n);
    lemma_run_is(n, CharClass::Numeral, n.len());
    assert(n.take(n.len() as int) =~= n);
    let none = n.skip(n.len() as int);
    lemma_run_is(none, CharClass::NonDigit, 0);
    assert(none.skip(0).len() == 0);
    assert(numbers(none) =~= seq![]);
    assert(numbers(s) =~= seq![n]);
}

/// Whether a text has a digit.
pub open spec fn has_digit(s: Seq<char>) -> bool {
    exists|i: int| 0 <= i < s.len() && '0' <= #[trigger] s[i] <= '9'
}

/// Whether a word starts with a keyword and has a digit behind it.
pub open spec fn numbers_itself(word: Seq<char>, keyword: Seq<char>) -> bool {
    &&& word.len() >= keyword.len()
    &&& word.take(keyword.len() as int) == keyword
    &&& has_digit(word.skip(keyword.len() as int))
}

proof fn lemma_no_digit_no_number(s: Seq<char>)
    requires
        !has_digit(s),
    ensures
        number_in(s) is None,
{
    assert forall|i: int| 0 <= i < s.len() implies !('0' <= #[trigger] s[i] <= '9') by {}
    written_numbers_are_numbers(s);
}

proof fn lemma_trim_keeps(w: Seq<char>, class: CharClass)
    requires
        w.len() > 0 ==> !in_class(class, w[0]) && !in_class(class, w.last()),
    ensures
        trim(w, class) == w,
{
    lemma_run_is(w, class, 0);
    assert(w.skip(0) =~= w);
    assert(tail_run(w, class) == 0);
    assert(w.take(w.len() as int) =~= w);
}

proof fn lemma_token_has_no_bracket(title: Seq<char>, i: int)
    requires
        0 <= i < words(normalized(title)).len(),
    ensures
        trim(words(normalized(title))[i], CharClass::Bracket) == words(normalized(title))[i],
{
    let w = words(normalized(title))[i];
    assert forall|j: int| 0 <= j < w.len() implies !in_class(CharClass::Bracket, #[trigger] w[j]) by {
        lemma_words_chars(normalized(title), i, j);
        let k = choose|k: int| 0 <= k < normalized(title).len() && normalized(title)[k] == w[j];
        let c = title[k];
        if 'A' <= c <= 'Z' {
            let d = (c as u32 + 32) as char;
            assert(d as u32 == c as u32 + 32);
        }
    }
    lemma_trim_keeps(w, CharClass::Bracket);
}

proof fn lemma_no_number_after_word(tokens: Seq<Seq<char>>, keywords: Seq<Seq<char>>, from: int)
    requires
        0 <= from,
        forall|q: int|
            from <= q < tokens.len() - 1 && keywords.contains(trim(#[trigger] tokens[q], CharClass::Dot))
                ==> !has_digit(tokens[q + 1]),
    ensures
        number_after_word(tokens, keywords, from) is None,
    decreases tokens.len() - from,
{
    if from + 1 < tokens.len() {
        if keywords.contains(trim(tokens[from], CharClass::Dot)) {
            lemma_no_digit_no_number(tokens[from + 1]);
        }
        lemma_no_number_after_word(tokens, keywords, from + 1);
    }
}

proof fn lemma_prefix_step(title: Seq<char>, keyword: Seq<char>, q: int)
    requires
        0 <= q < words(normalized(title)).len(),
        !numbers_itself(words(normalized(title))[q], keyword),
    ensures
        number_after_prefix(words(normalized(title)), keyword, q) == number_after_prefix(
            words(normalized(title)),
            keyword,
            q + 1,
        ),
{
    let tokens = words(normalized(title));
    lemma_token_has_no_bracket(title, q);
    if occurs_at(tokens[q], keyword, 0) {
        assert(tokens[q].subrange(0, keyword.len() as int) =~= tokens[q].take(keyword.len() as int));
        lemma_no_digit_no_number(tokens[q].skip(keyword.len() as int));
    }
}

proof fn lemma_no_number_after_prefix(title: Seq<char>, keyword: Seq<char>, from: int)
    requires
        0 <= from,
        forall|q: int|
            from <= q < words(normalized(title)).len() ==> !numbers_itself(
                #[trigger] words(normalized(title))[q],
                keyword,
            ),
    ensures
        number_after_prefix(words(normalized(title)), keyword, from) is None,
    decreases words(normalized(title)).len() - from,
{
    if from < words(normalized(title)).len() {
        lemma_prefix_step(title, keyword, from);
        lemma_no_number_after_prefix(title, keyword, from + 1);
    }
}

proof fn lemma_number_after_prefix(title: Seq<char>, keyword: Seq<char>, from: int, t: int, n: Seq<char>)
    requires
        0 <= from <= t < words(normalized(title)).len(),
        words(normalized(title))[t] == keyword + n,
        number_in(n) is Some,
        forall|q: int|
            from <= q < t ==> !numbers_itself(#[trigger] words(normalized(title))[q], keyword),
    ensures
        number_after_prefix(words(normalized(title)), keyword, from) == number_in(n),
    decreases t - from,
{
    let tokens = words(normalized(title));
    if from < t {
        lemma_prefix_step(title, keyword, from);
        lemma_number_after_prefix(title, keyword, from + 1, t, n);
    } else {
        lemma_token_has_no_bracket(title, t);
        assert(tokens[t].subrange(0, keyword.len() as int) =~= keyword);
        assert(tokens[t].skip(keyword.len() as int) =~= n);
    }
}

proof fn lemma_prefixes(tokens: Seq<Seq<char>>, keywords: Seq<Seq<char>>, from: int, k: int)
    requires
        0 <= from <= k < keywords.len(),
        number_after_prefix(tokens, keywords[k], 0) is Some,
        forall|q: int| from <= q < k ==> number_after_prefix(tokens, #[trigger] keywords[q], 0) is None,
    ensures
        number_after_prefixes(tokens, keywords, from) == number_after_prefix(tokens, keywords[k], 0),
    decreases k - from,
{
    if from < k {
        lemma_prefixes(tokens, keywords, from + 1, k);
    }
}

/// A title that has a word made of a keyword and a number is numbered by it,
/// unless a number follows a word that is a keyword, or an earlier keyword, or
/// the same keyword in an earlier word, has a digit behind it.
pub proof fn words_with_keyword_and_number_count(
    title: Seq<char>,
    keywords: Seq<Seq<char>>,
    k: int,
    t: int,
    n: Seq<char>,
)
    requires
        0 <= k < keywords.len(),
        0 <= t < words(normalized(title)).len(),
        is_written_number(n),
        words(normalized(title))[t] == keywords[k] + n,
        forall|q: int|
            0 <= q < words(normalized(title)).len() - 1 && keywords.contains(
                trim(#[trigger] words(normalized(title))[q], CharClass::Dot),
            ) ==> !has_digit(words(normalized(title))[q + 1]),
        forall|j: int, q: int|
            0 <= j < k && 0 <= q < words(normalized(title)).len() ==> !numbers_itself(
                #[trigger] words(normalized(title))[q],
                #[trigger] keywords[j],
            ),
        forall|q: int| 0 <= q < t ==> !numbers_itself(#[trigger] words(normalized(title))[q], keywords[k]),
    ensures
        keyword_number(title, keywords) == Some(n),
{
    let tokens = words(normalized(title));
    written_numbers_are_numbers(n);
    lemma_no_number_after_word(tokens, keywords, 0);
    lemma_number_after_prefix(title, keywords[k], 0, t, n);
    assert forall|j: int| 0 <= j < k implies number_after_prefix(tokens, #[trigger] keywords[j], 0) is None by {
        assert forall|q: int| 0 <= q < tokens.len() implies !numbers_itself(
            #[trigger] words(normalized(title))[q],
            keywords[j],
        ) by {}
        lemma_no_number_after_prefix(title, keywords[j], 0);
    }
    lemma_prefixes(tokens, keywords, 0, k);
}

proof fn lemma_first_number_after_word(tokens: Seq<Seq<char>>, keywords: Seq<Seq<char>>, from: int, t: int)
    requires
        0 <= from <= t < tokens.len() - 1,
        keywords.contains(trim(tokens[t], CharClass::Dot)),
        number_in(tokens[t + 1]) is Some,
        forall|q: int|
            from <= q < t && keywords.contains(trim(#[trigger] tokens[q], CharClass::Dot)) ==> !has_digit(
                tokens[q + 1],
            ),
    ensures
        number_after_word(tokens, keywords, from) == number_in(tokens[t + 1]),
    decreases t - from,
{
    if from < t {
        if keywords.contains(trim(tokens[from], CharClass::Dot)) {
            lemma_no_digit_no_number(tokens[from + 1]);
        }
        lemma_first_number_after_word(tokens, keywords, from + 1, t);
    }
}

/// A title with a word that is a keyword, dots around it aside, and a number as
/// the next word is numbered by it, unless an earlier such word has a digit in
/// the word behind it.
pub proof fn numbers_behind_keywords_count(title: Seq<char>, keywords: Seq<Seq<char>>, t: int, n: Seq<char>)
    requires
        0 <= t < words(normalized(title)).len() - 1,
        keywords.contains(trim(words(normalized(title))[t], CharClass::Dot)),
        is_written_number(n),
        words(normalized(title))[t + 1] == n,
        forall|q: int|
            0 <= q < t && keywords.contains(trim(#[trigger] words(normalized(title))[q], CharClass::Dot))
                ==> !has_digit(words(normalized(title))[q + 1]),
    ensures
        keyword_number(title, keywords) == Some(n),
{
    written_numbers_are_numbers(n);
    lemma_first_number_after_word(words(normalized(title)), keywords, 0, t);
}

/// Whether a character parts words in names: a space, `_`, `-` or a bracket.
pub open spec fn parts_names(c: char) -> bool {
    c == ' ' || c == '_' || c == '-' || c == '[' || c == ']' || c == '(' || c == ')'
}

/// Whether a letter, small or capital, is the first of no word of a text, dots
/// before it aside: each stands behind a character that does not part words.
pub open spec fn starts_no_word(s: Seq<char>, small: char, capital: char) -> bool {
    forall|i: int|
        0 <= i < s.len() && (#[trigger] s[i] == small || s[i] == capital) ==> {
            &&& i > 0
            &&& !parts_names(s[i - 1])
            &&& !is_space(s[i - 1])
            &&& s[i - 1] != '.'
        }
}

proof fn lemma_words_behind(a: Seq<char>, x: Seq<char>)
    requires
        a.len() == 0 || is_space(a.last()),
    ensures
        words(a + x) == words(a) + words(x),
{
    if a.len() == 0 {
        assert(a + x =~= x);
        text_without_white_space_is_one_word(a);
        assert(words(a) + words(x) =~= words(x));
    } else {
        let front = a.drop_last();
        let none = Seq::<char>::empty();
        white_space_parts_words(front, a.last(), x);
        white_space_parts_words(front, a.last(), none);
        text_without_white_space_is_one_word(none);
        assert(a + x =~= front + seq![a.last()] + x);
        assert(a =~= front + seq![a.last()] + none);
        assert(words(a) =~= words(front));
    }
}

proof fn lemma_words_before(x: Seq<char>, b: Seq<char>)
    requires
        b.len() == 0 || is_space(b[0]),
    ensures
        words(x + b) == words(x) + words(b),
{
    if b.len() == 0 {
        assert(x + b =~= x);
        text_without_white_space_is_one_word(b);
        assert(words(x) + words(b) =~= words(x));
    } else {
        let back = b.skip(1);
        let none = Seq::<char>::empty();
        white_space_parts_words(x, b[0], back);
        white_space_parts_words(none, b[0], back);
        text_without_white_space_is_one_word(none);
        assert(x + b =~= x + seq![b[0]] + back);
        assert(b =~= none + seq![b[0]] + back);
        assert(words(b) =~= words(back));
    }
}

proof fn lemma_normalized_parts(a: Seq<char>, b: Seq<char>)
    ensures
        normalized(a + b) == normalized(a) + normalized(b),
{
    assert(normalized(a + b) =~= normalized(a) + normalized(b));
}

proof fn lemma_letter_normalized(c: char, small: char)
    requires
        'a' <= small <= 'z',
        c == small || c as u32 + 32 == small as u32,
    ensures
        normalized(seq![c])[0] == small,
{
    if c != small {
        assert('A' <= c <= 'Z');
        assert((c as u32 + 32) as char == small);
    }
}

proof fn lemma_letters_normalized(word: Seq<char>, small: Seq<char>)
    requires
        spells(word, small),
        forall|i: int| 0 <= i < small.len() ==> 'a' <= #[trigger] small[i] <= 'z',
    ensures
        normalized(word) == small,
{
    assert forall|i: int| 0 <= i < small.len() implies #[trigger] normalized(word)[i] == small[i] by {
        assert('a' <= small[i] <= 'z');
        assert(word[i] == small[i] || word[i] as u32 + 32 == small[i] as u32);
        lemma_letter_normalized(word[i], small[i]);
        assert(normalized(word)[i] == normalized(seq![word[i]])[0]);
    }
    assert(normalized(word) =~= small);
}

proof fn lemma_number_normalized(n: Seq<char>)
    requires
        forall|i: int| 0 <= i < n.len() ==> ('0' <= #[trigger] n[i] <= '9' || n[i] == '.'),
    ensures
        normalized(n) == n,
{
    assert(normalized(n) =~= n);
}

/// A word stands at the start of its text or behind white space.
proof fn lemma_word_place(s: Seq<char>, i: int) -> (at: int)
    requires
        0 <= i < words(s).len(),
    ensures
        0 <= at,
        at + words(s)[i].len() <= s.len(),
        words(s)[i] == s.subrange(at, at + words(s)[i].len()),
        at > 0 ==> is_space(s[at - 1]),
    decreases s.len(),
{
    let r = run(s, CharClass::Space) as int;
    lemma_run(s, CharClass::Space);
    let rest = s.skip(r);
    let n = run(rest, CharClass::NonSpace) as int;
    lemma_run(rest, CharClass::NonSpace);
    if i == 0 {
        assert(words(s)[0] == rest.take(n));
        assert(words(s)[0] =~= s.subrange(r, r + n));
        if r > 0 {
            assert(in_class(CharClass::Space, s[r - 1]));
        }
        r
    } else {
        let behind = rest.skip(n);
        assert(words(s)[i] == words(behind)[i - 1]);
        assert(n > 0);
        let at = lemma_word_place(behind, i - 1);
        assert(words(s)[i] =~= s.subrange(r + n + at, r + n + at + words(s)[i].len()));
        if at > 0 {
            assert(s[r + n + at - 1] == behind[at - 1]);
        } else {
            lemma_words_have_no_space(behind, i - 1);
            assert(words(behind)[i - 1][0] == behind[0]);
            assert(behind[0] == rest[n]);
            assert(!in_class(CharClass::NonSpace, rest[n]));
        }
        r + n + at
    }
}

proof fn lemma_words_have_no_space(s: Seq<char>, i: int)
    requires
        0 <= i < words(s).len(),
    ensures
        words(s)[i].len() > 0,
        !is_space(words(s)[i][0]),
    decreases s.len(),
{
    let r = run(s, CharClass::Space) as int;
    lemma_run(s, CharClass::Space);
    let rest = s.skip(r);
    let n = run(rest, CharClass::NonSpace) as int;
    lemma_run(rest, CharClass::NonSpace);
    assert(rest[0] == s[r]);
    assert(n > 0);
    if i == 0 {
        assert(words(s)[0] == rest.take(n));
    } else {
        assert(words(s)[i] == words(rest.skip(n))[i - 1]);
        lemma_words_have_no_space(rest.skip(n), i - 1);
    }
}

proof fn lemma_normalized_char(c: char, small: char, capital: char)
    requires
        'a' <= small <= 'z',
        capital as u32 + 32 == small as u32,
    ensures
        normalized(seq![c])[0] == small ==> c == small || c == capital,
        is_space(normalized(seq![c])[0]) ==> is_space(c) || parts_names(c),
        normalized(seq![c])[0] == '.' ==> c == '.',
{
    if 'A' <= c <= 'Z' {
        let d = (c as u32 + 32) as char;
        assert(d as u32 == c as u32 + 32);
    }
}

/// A letter that starts no word of a text is not the first of one, with dots at
/// its ends or without.
proof fn lemma_word_start(a: Seq<char>, small: char, capital: char, i: int)
    requires
        'a' <= small <= 'z',
        capital as u32 + 32 == small as u32,
        starts_no_word(a, small, capital),
        0 <= i < words(normalized(a)).len(),
    ensures
        ({
            let w = words(normalized(a))[i];
            &&& w.len() > 0 ==> w[0] != small
            &&& trim(w, CharClass::Dot).len() > 0 ==> trim(w, CharClass::Dot)[0] != small
        }),
{
    let na = normalized(a);
    let w = words(na)[i];
    let at = lemma_word_place(na, i);
    lemma_run(w, CharClass::Dot);
    let r = run(w, CharClass::Dot) as int;
    let rest = w.skip(r);
    lemma_tail_run(rest, CharClass::Dot);
    assert forall|q: int| 0 <= q <= r && q < w.len() implies w[q] != small by {
        let p = at + q;
        assert(w[q] == na[p]);
        assert(na[p] == normalized(seq![a[p]])[0]);
        lemma_normalized_char(a[p], small, capital);
        if p > 0 {
            assert(na[p - 1] == normalized(seq![a[p - 1]])[0]);
            lemma_normalized_char(a[p - 1], small, capital);
            if q > 0 {
                assert(w[q - 1] == na[p - 1]);
                assert(in_class(CharClass::Dot, w[q - 1]));
            }
        }
    }
    if trim(w, CharClass::Dot).len() > 0 {
        assert(trim(w, CharClass::Dot)[0] == w[r]);
    }
}

proof fn lemma_trim_within(w: Seq<char>, class: CharClass, m: int)
    requires
        0 <= m < w.len(),
        !in_class(class, w[0]),
        !in_class(class, w[m]),
    ensures
        trim(w, class).len() > m,
        trim(w, class)[m] == w[m],
{
    lemma_run_is(w, class, 0);
    assert(w.skip(0) =~= w);
    lemma_tail_run(w, class);
    if w.len() - tail_run(w, class) <= m {
        assert(in_class(class, w[m]));
    }
}

/// Whether keywords are of small letters, all with the same first one, and
/// none is shorter than one behind it.
spec fn are_keywords(keywords: Seq<Seq<char>>, letter: char) -> bool {
    &&& forall|k: int|
        0 <= k < keywords.len() ==> (#[trigger] keywords[k]).len() > 0 && keywords[k][0] == letter && forall|i: int|
            0 <= i < keywords[k].len() ==> 'a' <= #[trigger] keywords[k][i] <= 'z'
    &&& forall|j: int, k: int|
        0 <= j < k < keywords.len() ==> (#[trigger] keywords[j]).len() > (#[trigger] keywords[k]).len()
}

spec fn are_dots(dots: Seq<char>) -> bool {
    forall|i: int| 0 <= i < dots.len() ==> #[trigger] dots[i] == '.'
}

/// A word without the first letter of the keywords is none of them and starts
/// with none of them.
proof fn lemma_other_word(w: Seq<char>, keywords: Seq<Seq<char>>, letter: char)
    requires
        are_keywords(keywords, letter),
        w.len() > 0 ==> w[0] != letter,
        trim(w, CharClass::Dot).len() > 0 ==> trim(w, CharClass::Dot)[0] != letter,
    ensures
        !keywords.contains(trim(w, CharClass::Dot)),
        forall|k: int| 0 <= k < keywords.len() ==> !numbers_itself(w, #[trigger] keywords[k]),
{
    if keywords.contains(trim(w, CharClass::Dot)) {
        let k = choose|k: int| 0 <= k < keywords.len() && keywords[k] == trim(w, CharClass::Dot);
        assert(keywords[k].len() > 0 && keywords[k][0] == letter);
    }
    assert forall|k: int| 0 <= k < keywords.len() implies !numbers_itself(w, #[trigger] keywords[k]) by {
        if w.len() >= keywords[k].len() {
            assert(keywords[k].len() > 0 && keywords[k][0] == letter);
            assert(w.take(keywords[k].len() as int)[0] == w[0]);
        }
    }
}

/// The words of a name in which a word stands on its own.
proof fn lemma_tokens(a: Seq<char>, word: Seq<char>, b: Seq<char>)
    requires
        a.len() == 0 || parts_names(a.last()),
        b.len() == 0 || parts_names(b[0]),
    ensures
        words(normalized(a + word + b)) == words(normalized(a)) + words(normalized(word)) + words(normalized(b)),
{
    lemma_normalized_parts(a + word, b);
    lemma_normalized_parts(a, word);
    let na = normalized(a);
    let nb = normalized(b);
    lemma_words_before(na + normalized(word), nb);
    lemma_words_behind(na, normalized(word));
}

proof fn lemma_number_in_dots(dots: Seq<char>, n: Seq<char>)
    requires
        are_dots(dots),
        is_written_number(n),
    ensures
        number_in(dots + n) == Some(n),
{
    assert forall|i: int| 0 <= i < dots.len() implies !('0' <= #[trigger] dots[i] <= '9') by {
        assert(dots[i] == '.');
    }
    the_first_number_stands_behind_other_text(dots, n);
}

proof fn lemma_compact(
    a: Seq<char>,
    word: Seq<char>,
    dots: Seq<char>,
    n: Seq<char>,
    b: Seq<char>,
    keywords: Seq<Seq<char>>,
    k: int,
    small: char,
    capital: char,
)
    requires
        'a' <= small <= 'z',
        capital as u32 + 32 == small as u32,
        are_keywords(keywords, small),
        0 <= k < keywords.len(),
        spells(word, keywords[k]),
        are_dots(dots),
        is_written_number(n),
        a.len() == 0 || parts_names(a.last()),
        b.len() == 0 || parts_names(b[0]),
        starts_no_word(a, small, capital),
        starts_no_word(b, small, capital),
    ensures
        keyword_number(a + (word + dots + n) + b, keywords) == Some(n),
{
    let title = a + (word + dots + n) + b;
    let tokens = words(normalized(title));
    let kw = keywords[k];
    let whole = kw + dots + n;
    assert(kw.len() > 0 && kw[0] == small);
    assert(forall|i: int| 0 <= i < kw.len() ==> 'a' <= #[trigger] kw[i] <= 'z');
    lemma_tokens(a, word + dots + n, b);
    lemma_letters_normalized(word, kw);
    lemma_number_normalized(dots);
    lemma_number_normalized(n);
    lemma_normalized_parts(word + dots, n);
    lemma_normalized_parts(word, dots);
    assert(normalized(word + dots + n) =~= whole);
    assert forall|i: int| 0 <= i < whole.len() implies !is_space(#[trigger] whole[i]) by {
        if i < kw.len() {
            assert(whole[i] == kw[i]);
        } else if i < kw.len() + dots.len() {
            assert(whole[i] == dots[i - kw.len()]);
        } else {
            assert(whole[i] == n[i - kw.len() - dots.len()]);
        }
    }
    text_without_white_space_is_one_word(whole);
    let before = words(normalized(a));
    let behind = words(normalized(b));
    let t = before.len() as int;
    assert(tokens =~= before + seq![whole] + behind);
    assert(tokens[t] == whole);
    let d = (kw.len() + dots.len()) as int;
    assert(whole[d] == n[0]);
    assert forall|q: int| 0 <= q < tokens.len() && q != t implies !keywords.contains(
        trim(#[trigger] tokens[q], CharClass::Dot),
    ) && (forall|j: int| 0 <= j < keywords.len() ==> !numbers_itself(tokens[q], #[trigger] keywords[j])) by {
        if q < t {
            assert(tokens[q] == before[q]);
            lemma_word_start(a, small, capital, q);
        } else {
            assert(tokens[q] == behind[q - t - 1]);
            lemma_word_start(b, small, capital, q - t - 1);
        }
        lemma_other_word(tokens[q], keywords, small);
    }
    assert(!keywords.contains(trim(tokens[t], CharClass::Dot))) by {
        lemma_trim_within(whole, CharClass::Dot, d);
        if keywords.contains(trim(whole, CharClass::Dot)) {
            let j = choose|j: int| 0 <= j < keywords.len() && keywords[j] == trim(whole, CharClass::Dot);
            assert('a' <= keywords[j][d] <= 'z');
        }
    }
    assert forall|q: int| 0 <= q < tokens.len() implies !keywords.contains(
        trim(#[trigger] tokens[q], CharClass::Dot),
    ) by {
        if q != t {
            assert(!keywords.contains(trim(tokens[q], CharClass::Dot)));
        }
    }
    lemma_no_number_after_word(tokens, keywords, 0);
    assert(whole =~= kw + (dots + n));
    lemma_number_in_dots(dots, n);
    lemma_number_after_prefix(title, kw, 0, t, dots + n);
    assert forall|j: int| 0 <= j < k implies number_after_prefix(tokens, #[trigger] keywords[j], 0) is None by {
        assert forall|q: int| 0 <= q < tokens.len() implies !numbers_itself(
            #[trigger] words(normalized(title))[q],
            keywords[j],
        ) by {
            if q == t {
                let m = kw.len() as int;
                assert(keywords[j].len() > kw.len());
                if whole.len() >= keywords[j].len() {
                    assert(whole.take(keywords[j].len() as int)[m] == whole[m]);
                    assert('a' <= keywords[j][m] <= 'z');
                    if dots.len() > 0 {
                        assert(whole[m] == dots[0]);
                    } else {
                        assert(whole[m] == n[0]);
                    }
                }
            }
        }
        lemma_no_number_after_prefix(title, keywords[j], 0);
    }
    lemma_prefixes(tokens, keywords, 0, k);
}

proof fn lemma_apart(
    a: Seq<char>,
    word: Seq<char>,
    dots: Seq<char>,
    gap: char,
    n: Seq<char>,
    b: Seq<char>,
    keywords: Seq<Seq<char>>,
    k: int,
    small: char,
    capital: char,
)
    requires
        'a' <= small <= 'z',
        capital as u32 + 32 == small as u32,
        are_keywords(keywords, small),
        0 <= k < keywords.len(),
        spells(word, keywords[k]),
        are_dots(dots),
        parts_names(gap),
        is_written_number(n),
        a.len() == 0 || parts_names(a.last()),
        b.len() == 0 || parts_names(b[0]),
        starts_no_word(a, small, capital),
    ensures
        keyword_number(a + (word + dots + seq![gap] + n) + b, keywords) == Some(n),
{
    let title = a + (word + dots + seq![gap] + n) + b;
    let tokens = words(normalized(title));
    let kw = keywords[k];
    let whole = kw + dots;
    assert(kw.len() > 0 && kw[0] == small);
    assert(forall|i: int| 0 <= i < kw.len() ==> 'a' <= #[trigger] kw[i] <= 'z');
    let front = a + (word + dots) + seq![gap];
    assert(title =~= front + n + b);
    assert(front.last() == gap);
    lemma_tokens(front, n, b);
    lemma_tokens(a, word + dots, seq![gap]);
    lemma_letters_normalized(word, kw);
    lemma_number_normalized(dots);
    lemma_number_normalized(n);
    lemma_normalized_parts(word, dots);
    assert(normalized(word + dots) =~= whole);
    assert forall|i: int| 0 <= i < whole.len() implies !is_space(#[trigger] whole[i]) by {
        if i < kw.len() {
            assert(whole[i] == kw[i]);
        } else {
            assert(whole[i] == dots[i - kw.len()]);
        }
    }
    text_without_white_space_is_one_word(whole);
    text_without_white_space_is_one_word(n);
    let none = Seq::<char>::empty();
    white_space_parts_words(none, ' ', none);
    text_without_white_space_is_one_word(none);
    assert(normalized(seq![gap]) =~= none + seq![' '] + none);
    let before = words(normalized(a));
    let behind = words(normalized(b));
    let t = before.len() as int;
    assert(tokens =~= before + seq![whole] + seq![n] + behind);
    assert(tokens[t] == whole && tokens[t + 1] == n);
    assert(trim(whole, CharClass::Dot) == kw) by {
        lemma_run_is(whole, CharClass::Dot, 0);
        assert(whole.skip(0) =~= whole);
        lemma_tail_run(whole, CharClass::Dot);
        let r = tail_run(whole, CharClass::Dot) as int;
        if r > dots.len() {
            assert(in_class(CharClass::Dot, whole[kw.len() - 1]));
            assert(whole[kw.len() - 1] == kw[kw.len() - 1]);
        }
        if r < dots.len() {
            assert(whole[whole.len() - 1 - r] == dots[dots.len() - 1 - r]);
        }
        assert(whole.take(whole.len() - r) =~= kw);
    }
    assert(keywords[k] == kw);
    assert forall|q: int| 0 <= q < t implies !keywords.contains(trim(#[trigger] tokens[q], CharClass::Dot)) by {
        assert(tokens[q] == before[q]);
        lemma_word_start(a, small, capital, q);
        lemma_other_word(tokens[q], keywords, small);
    }
    written_numbers_are_numbers(n);
    lemma_first_number_after_word(tokens, keywords, 0, t);
}

proof fn lemma_volume_keywords()
    ensures
        are_keywords(volume_keywords(), 'v'),
        volume_keywords() == seq!["volume"@, "vol"@, "v"@],
{
    reveal_strlit("volume");
    reveal_strlit("vol");
    reveal_strlit("v");
    let keywords = volume_keywords();
    assert(keywords[0] == "volume"@ && keywords[1] == "vol"@ && keywords[2] == "v"@);
}

proof fn lemma_chapter_keywords()
    ensures
        are_keywords(chapter_keywords(), 'c'),
        chapter_keywords() == seq!["chapter"@, "chap"@, "ch"@, "c"@],
{
    reveal_strlit("chapter");
    reveal_strlit("chap");
    reveal_strlit("ch");
    reveal_strlit("c");
    let keywords = chapter_keywords();
    assert(keywords[0] == "chapter"@ && keywords[1] == "chap"@ && keywords[2] == "ch"@ && keywords[3] == "c"@);
}

/// A title that says `volume`, `vol` or `v`, in small or capital letters, with a
/// number right behind it, or a dot and a number, or behind a gap, is of that
/// volume, where no other word starts with `v`.
pub proof fn titles_name_their_volume(
    a: Seq<char>,
    word: Seq<char>,
    gap: char,
    n: Seq<char>,
    b: Seq<char>,
)
    requires
        spells(word, "volume"@) || spells(word, "vol"@) || spells(word, "v"@),
        parts_names(gap),
        is_written_number(n),
        a.len() == 0 || parts_names(a.last()),
        b.len() == 0 || parts_names(b[0]),
        starts_no_word(a, 'v', 'V'),
        starts_no_word(b, 'v', 'V'),
    ensures
        volume_in(a + (word + n) + b) == Some(n),
        volume_in(a + (word + seq!['.'] + n) + b) == Some(n),
        volume_in(a + (word + seq![gap] + n) + b) == Some(n),
        volume_in(a + (word + seq!['.'] + seq![gap] + n) + b) == Some(n),
{
    lemma_volume_keywords();
    let keywords = volume_keywords();
    assert(keywords[0] == "volume"@ && keywords[1] == "vol"@ && keywords[2] == "v"@);
    let k = if spells(word, "volume"@) {
        0int
    } else if spells(word, "vol"@) {
        1int
    } else {
        2int
    };
    let none = Seq::<char>::empty();
    let dot = seq!['.'];
    lemma_compact(a, word, none, n, b, keywords, k, 'v', 'V');
    assert(word + none + n =~= word + n);
    lemma_compact(a, word, dot, n, b, keywords, k, 'v', 'V');
    lemma_apart(a, word, none, gap, n, b, keywords, k, 'v', 'V');
    assert(word + none + seq![gap] + n =~= word + seq![gap] + n);
    lemma_apart(a, word, dot, gap, n, b, keywords, k, 'v', 'V');
}

/// A title that says `chapter`, `chap`, `ch` or `c`, in small or capital letters,
/// with a number right behind it, or a dot and a number, or behind a gap, has
/// that number, where no other word starts with `c`.
pub proof fn titles_name_their_number(
    a: Seq<char>,
    word: Seq<char>,
    gap: char,
    n: Seq<char>,
    b: Seq<char>,
)
    requires
        spells(word, "chapter"@) || spells(word, "chap"@) || spells(word, "ch"@) || spells(word, "c"@),
        parts_names(gap),
        is_written_number(n),
        a.len() == 0 || parts_names(a.last()),
        b.len() == 0 || parts_names(b[0]),
        starts_no_word(a, 'c', 'C'),
        starts_no_word(b, 'c', 'C'),
    ensures
        chapter_in(a + (word + n) + b) == Some(n),
        chapter_in(a + (word + seq!['.'] + n) + b) == Some(n),
        chapter_in(a + (word + seq![gap] + n) + b) == Some(n),
        chapter_in(a + (word + seq!['.'] + seq![gap] + n) + b) == Some(n),
{
    lemma_chapter_keywords();
    let keywords = chapter_keywords();
    assert(keywords[0] == "chapter"@ && keywords[1] == "chap"@ && keywords[2] == "ch"@ && keywords[3] == "c"@);
    let k = if spells(word, "chapter"@) {
        0int
    } else if spells(word, "chap"@) {
        1int
    } else if spells(word, "ch"@) {
        2int
    } else {
        3int
    };
    let none = Seq::<char>::empty();
    let dot = seq!['.'];
    lemma_compact(a, word, none, n, b, keywords, k, 'c', 'C');
    assert(word + none + n =~= word + n);
    lemma_compact(a, word, dot, n, b, keywords, k, 'c', 'C');
    lemma_apart(a, word, none, gap, n, b, keywords, k, 'c', 'C');
    assert(word + none + seq![gap] + n =~= word + seq![gap] + n);
    lemma_apart(a, word, dot, gap, n, b, keywords, k, 'c', 'C');
}

proof fn lemma_no_keyword(title: Seq<char>, keywords: Seq<Seq<char>>, small: char, capital: char)
    requires
        'a' <= small <= 'z',
        capital as u32 + 32 == small as u32,
        are_keywords(keywords, small),
        starts_no_word(title, small, capital),
    ensures
        keyword_number(title, keywords) is None,
{
    let tokens = words(normalized(title));
    assert forall|q: int| 0 <= q < tokens.len() implies !keywords.contains(
        trim(#[trigger] tokens[q], CharClass::Dot),
    ) && (forall|j: int| 0 <= j < keywords.len() ==> !numbers_itself(tokens[q], #[trigger] keywords[j])) by {
        lemma_word_start(title, small, capital, q);
        lemma_other_word(tokens[q], keywords, small);
    }
    lemma_no_number_after_word(tokens, keywords, 0);
    lemma_no_prefix_counts(title, keywords, 0);
}

proof fn lemma_no_prefix_counts(title: Seq<char>, keywords: Seq<Seq<char>>, from: int)
    requires
        0 <= from,
        forall|q: int, j: int|
            0 <= q < words(normalized(title)).len() && 0 <= j < keywords.len() ==> !numbers_itself(
                #[trigger] words(normalized(title))[q],
                #[trigger] keywords[j],
            ),
    ensures
        number_after_prefixes(words(normalized(title)), keywords, from) is None,
    decreases keywords.len() - from,
{
    if from < keywords.len() {
        lemma_no_number_after_prefix(title, keywords[from], 0);
        lemma_no_prefix_counts(title, keywords, from + 1);
    }
}

/// A title of which no word starts with `v` names no volume, one of which none
/// starts with `c` no number.
pub proof fn titles_without_keywords_name_nothing(title: Seq<char>)
    ensures
        starts_no_word(title, 'v', 'V') ==> volume_in(title) is None,
        starts_no_word(title, 'c', 'C') ==> chapter_in(title) is None,
{
    lemma_volume_keywords();
    lemma_chapter_keywords();
    if starts_no_word(title, 'v', 'V') {
        lemma_no_keyword(title, volume_keywords(), 'v', 'V');
    }
    if starts_no_word(title, 'c', 'C') {
        lemma_no_keyword(title, chapter_keywords(), 'c', 'C');
    }
}

/// A title is the stem of the file name with `_` and `-` as spaces, and `Local
/// Manga` where there is no stem.
pub proof fn titles_come_from_stems(path: PathModel)
    ensures
        path.stem matches Some(stem) ==> {
            &&& title_of(path).len() == stem.len()
            &&& forall|i: int|
                0 <= i < stem.len() ==> #[trigger] title_of(path)[i] == (if stem[i] == '_' || stem[i] == '-' {
                    ' '
                } else {
                    stem[i]
                })
        },
        path.stem is None ==> title_of(path) == "Local Manga"@,
{
}

proof fn lemma_spaces_do_not_matter(stem: Seq<char>)
    ensures
        volume_in(spaced(stem)) == volume_in(stem),
        chapter_in(spaced(stem)) == chapter_in(stem),
{
    assert(normalized(spaced(stem)) =~= normalized(stem));
}

/// A file named by its volume and then by its number has both from its name,
/// whatever its folder and its place say.
pub proof fn file_names_give_volume_and_number(
    path: PathModel,
    a: Seq<char>,
    volume_word: Seq<char>,
    n: Seq<char>,
    mid: Seq<char>,
    chapter_word: Seq<char>,
    m: Seq<char>,
    b: Seq<char>,
    fallback: nat,
    default_volume: Option<Seq<char>>,
)
    requires
        path.stem == Some(a + (volume_word + n) + mid + (chapter_word + m) + b),
        spells(volume_word, "volume"@) || spells(volume_word, "vol"@) || spells(volume_word, "v"@),
        spells(chapter_word, "chapter"@) || spells(chapter_word, "chap"@) || spells(chapter_word, "ch"@) || spells(
            chapter_word,
            "c"@,
        ),
        is_written_number(n),
        is_written_number(m),
        a.len() == 0 || parts_names(a.last()),
        mid.len() > 0 && parts_names(mid[0]) && parts_names(mid.last()),
        b.len() == 0 || parts_names(b[0]),
        starts_no_word(a, 'v', 'V'),
        starts_no_word(mid + (chapter_word + m) + b, 'v', 'V'),
        starts_no_word(a + (volume_word + n) + mid, 'c', 'C'),
        starts_no_word(b, 'c', 'C'),
    ensures
        chapter_volume(path, default_volume) == Some(n),
        chapter_number(path, fallback, default_volume) == m,
{
    let stem = path.stem->Some_0;
    lemma_spaces_do_not_matter(stem);
    let behind = mid + (chapter_word + m) + b;
    assert(stem =~= a + (volume_word + n) + behind);
    assert(behind[0] == mid[0]);
    titles_name_their_volume(a, volume_word, ' ', n, behind);
    let before = a + (volume_word + n) + mid;
    assert(before.last() == mid.last());
    assert(stem =~= before + (chapter_word + m) + b);
    titles_name_their_number(before, chapter_word, ' ', m, b);
}

proof fn lemma_first_other(list: Seq<Seq<char>>, volume: Option<Seq<char>>, from: int, i: int)
    requires
        0 <= from <= i <= list.len(),
        forall|j: int| from <= j < i ==> volume == Some(#[trigger] list[j]),
        i < list.len() ==> volume != Some(list[i]),
    ensures
        first_other(list, volume, from) == (if i < list.len() {
            Some(list[i])
        } else {
            None
        }),
    decreases i - from,
{
    if from < i {
        assert(volume == Some(list[from]));
        lemma_first_other(list, volume, from + 1, i);
    }
}

/// A file whose name says no volume is of the volume of its folder. One whose
/// name says no chapter is numbered by the first number in its title that is not
/// its volume, and by its place where there is none.
pub proof fn plain_file_names_are_numbered(
    path: PathModel,
    fallback: nat,
    default_volume: Option<Seq<char>>,
    i: int,
)
    requires
        0 <= i <= numbers(title_of(path)).len(),
        forall|j: int|
            0 <= j < i ==> chapter_volume(path, default_volume) == Some(#[trigger] numbers(title_of(path))[j]),
        i < numbers(title_of(path)).len() ==> chapter_volume(path, default_volume) != Some(
            numbers(title_of(path))[i],
        ),
    ensures
        starts_no_word(title_of(path), 'v', 'V') ==> chapter_volume(path, default_volume) == default_volume,
        starts_no_word(title_of(path), 'c', 'C') ==> chapter_number(path, fallback, default_volume) == (if i
            < numbers(title_of(path)).len() {
            numbers(title_of(path))[i]
        } else {
            decimal(fallback)
        }),
{
    titles_without_keywords_name_nothing(title_of(path));
    lemma_first_other(numbers(title_of(path)), chapter_volume(path, default_volume), 0, i);
}

proof fn lemma_lower_char_class(c: char, class: CharClass)
    requires
        class is Space || class is NonSpace || class is Numeral || class is Digit,
    ensures
        in_class(class, lower_char(c)) == in_class(class, c),
{
    if 'A' <= c <= 'Z' {
        let d = (c as u32 + 32) as char;
        assert(d as u32 == c as u32 + 32);
    }
}

proof fn lemma_run_of_lower(s: Seq<char>, class: CharClass)
    requires
        class is Space || class is NonSpace,
    ensures
        run(lower(s), class) == run(s, class),
{
    lemma_run(s, class);
    let n = run(s, class);
    assert forall|i: int| 0 <= i < n implies in_class(class, #[trigger] lower(s)[i]) by {
        assert(in_class(class, s[i]));
        lemma_lower_char_class(s[i], class);
    }
    if n < s.len() {
        lemma_lower_char_class(s[n as int], class);
    }
    lemma_run_is(lower(s), class, n);
}

/// The words of a text in lower case are its words in lower case.
proof fn lemma_words_of_lower(s: Seq<char>)
    ensures
        words(lower(s)).len() == words(s).len(),
        forall|i: int| 0 <= i < words(s).len() ==> #[trigger] words(lower(s))[i] == lower(words(s)[i]),
    decreases s.len(),
{
    let t = lower(s);
    let r = run(s, CharClass::Space) as int;
    lemma_run(s, CharClass::Space);
    lemma_run_of_lower(s, CharClass::Space);
    let rest = s.skip(r);
    assert(t.skip(r) =~= lower(rest));
    if rest.len() > 0 {
        let n = run(rest, CharClass::NonSpace) as int;
        lemma_run(rest, CharClass::NonSpace);
        lemma_run_of_lower(rest, CharClass::NonSpace);
        assert(rest[0] == s[r]);
        assert(n > 0);
        assert(lower(rest).skip(n) =~= lower(rest.skip(n)));
        assert(lower(rest).take(n) =~= lower(rest.take(n)));
        lemma_words_of_lower(rest.skip(n));
        assert forall|i: int| 0 <= i < words(s).len() implies #[trigger] words(t)[i] == lower(words(s)[i]) by {
            if i > 0 {
                assert(words(s)[i] == words(rest.skip(n))[i - 1]);
                assert(words(t)[i] == words(lower(rest.skip(n)))[i - 1]);
            }
        }
    }
}

proof fn lemma_lower_is(word: Seq<char>, small: Seq<char>)
    requires
        forall|i: int| 0 <= i < small.len() ==> 'a' <= #[trigger] small[i] <= 'z' || small[i] == '.',
    ensures
        lower(word) == small <==> word.len() == small.len() && forall|i: int|
            0 <= i < small.len() ==> (#[trigger] word[i] == small[i] || 'a' <= small[i] <= 'z' && word[i] as u32 + 32
                == small[i] as u32),
{
    if lower(word) == small {
        assert forall|i: int| 0 <= i < small.len() implies (#[trigger] word[i] == small[i] || 'a' <= small[i]
            <= 'z' && word[i] as u32 + 32 == small[i] as u32) by {
            lemma_lower_char_is(word[i], small[i]);
            assert(lower(word)[i] == lower_char(word[i]));
        }
    }
    if word.len() == small.len() && forall|i: int|
        0 <= i < small.len() ==> (#[trigger] word[i] == small[i] || 'a' <= small[i] <= 'z' && word[i] as u32 + 32
            == small[i] as u32) {
        assert forall|i: int| 0 <= i < small.len() implies #[trigger] lower(word)[i] == small[i] by {
            assert(word[i] == small[i] || 'a' <= small[i] <= 'z' && word[i] as u32 + 32 == small[i] as u32);
            assert('a' <= small[i] <= 'z' || small[i] == '.');
            lemma_lower_char_is(word[i], small[i]);
        }
        assert(lower(word) =~= small);
    }
}

proof fn lemma_lower_char_is(c: char, small: char)
    requires
        'a' <= small <= 'z' || small == '.',
    ensures
        lower_char(c) == small <==> (c == small || 'a' <= small <= 'z' && c as u32 + 32 == small as u32),
{
    if 'A' <= c <= 'Z' {
        let d = (c as u32 + 32) as char;
        assert(d as u32 == c as u32 + 32);
    }
    if c != small && c as u32 + 32 == small as u32 && 'a' <= small <= 'z' {
        assert('A' <= c <= 'Z');
        assert((c as u32 + 32) as char == small);
    }
}

/// Whether a word says that it is about a volume.
pub open spec fn says_volume(w: Seq<char>) -> bool {
    ||| spells(w, "volume"@)
    ||| spells(w, "vol"@)
    ||| spells(w, "v"@)
    ||| w.len() == 4 && spells(w.take(3), "vol"@) && w[3] == '.'
}

proof fn lemma_says_volume(w: Seq<char>)
    ensures
        says_volume(w) <==> lower(w) == "volume"@ || lower(w) == "vol"@ || lower(w) == "vol."@ || lower(w) == "v"@,
        spells(w, "vol"@) <==> lower(w) == "vol"@,
{
    reveal_strlit("volume");
    reveal_strlit("vol");
    reveal_strlit("vol.");
    reveal_strlit("v");
    lemma_lower_is(w, "volume"@);
    lemma_lower_is(w, "vol"@);
    lemma_lower_is(w, "vol."@);
    lemma_lower_is(w, "v"@);
    if w.len() == 4 {
        let front = w.take(3);
        lemma_lower_is(front, "vol"@);
        assert(front[0] == w[0] && front[1] == w[1] && front[2] == w[2]);
        assert("vol."@[0] == "vol"@[0] && "vol."@[1] == "vol"@[1] && "vol."@[2] == "vol"@[2] && "vol."@[3] == '.');
        if lower(w) == "vol."@ {
            assert(lower(front) =~= "vol"@) by {
                assert(lower(w)[0] == 'v' && lower(w)[1] == 'o' && lower(w)[2] == 'l');
            }
            assert(w[3] == '.');
        }
        if lower(front) == "vol"@ && w[3] == '.' {
            assert(lower(front)[0] == 'v' && lower(front)[1] == 'o' && lower(front)[2] == 'l');
            assert(lower(w) =~= "vol."@);
        }
    }
}

/// A folder is named like a volume if a word of its title is `volume`, `vol`,
/// `vol.` or `v`, or if the title starts with `vol` and a digit or a dot, or with
/// `v` and a digit, all in small or capital letters; and only then.
pub proof fn volume_folders_say_so(title: Seq<char>)
    ensures
        names_volume(title) <==> {
            ||| exists|i: int| 0 <= i < words(title).len() && says_volume(#[trigger] words(title)[i])
            ||| title.len() > 3 && spells(title.take(3), "vol"@) && ('0' <= title[3] <= '9' || title[3] == '.')
            ||| title.len() > 1 && (title[0] == 'v' || title[0] == 'V') && '0' <= title[1] <= '9'
        },
{
    let t = lower(title);
    reveal_strlit("vol");
    lemma_words_of_lower(title);
    assert forall|i: int| 0 <= i < words(title).len() implies (says_volume(#[trigger] words(title)[i]) <==> words(
        t,
    )[i] == "volume"@ || words(t)[i] == "vol"@ || words(t)[i] == "vol."@ || words(t)[i] == "v"@) by {
        lemma_says_volume(words(title)[i]);
    }
    if exists|i: int| 0 <= i < words(title).len() && says_volume(#[trigger] words(title)[i]) {
        let i = choose|i: int| 0 <= i < words(title).len() && says_volume(#[trigger] words(title)[i]);
        assert(words(t).contains(words(t)[i]));
    }
    let listed = |w: Seq<char>| w == "volume"@ || w == "vol"@ || w == "vol."@ || w == "v"@;
    assert forall|w: Seq<char>| listed(w) && words(t).contains(w) implies exists|i: int|
        0 <= i < words(title).len() && says_volume(#[trigger] words(title)[i]) by {
        let i = choose|i: int| 0 <= i < words(t).len() && words(t)[i] == w;
        assert(says_volume(words(title)[i]));
    }
    assert(listed("volume"@) && listed("vol"@) && listed("vol."@) && listed("v"@));
    if title.len() >= 3 {
        assert(t.subrange(0, 3) =~= lower(title.take(3)));
        lemma_says_volume(title.take(3));
    }
    if title.len() > 3 {
        assert(t.skip(3)[0] == lower_char(title[3]));
        lemma_lower_char_class(title[3], CharClass::Numeral);
    }
    if title.len() > 1 {
        lemma_lower_char_is(title[0], 'v');
        lemma_lower_char_class(title[1], CharClass::Digit);
        lemma_capital_v(title[0]);
    }
}

proof fn lemma_capital_v(c: char)
    ensures
        c as u32 + 32 == 'v' as u32 <==> c == 'V',
{
}

} // verus!
