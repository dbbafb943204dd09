//! Text as sequences of characters: character classes, runs, words, trimming,
//! searching and the printing of numbers.
use vstd::prelude::*;

verus! {

/// `String::push` appends the given character to the end of the string.
pub assume_specification[ String::push ](s: &mut String, c: char)
    ensures
        final(s)@ == old(s)@.push(c),
;

/// The classes of characters that the parsers of this crate look for.
#[derive(Clone, Copy, PartialEq, Eq, Structural, Debug)]
pub enum CharClass {
    /// `0` to `9`.
    Digit,
    /// Everything but `0` to `9`.
    NonDigit,
    /// `0` to `9` and `.`.
    Numeral,
    /// Unicode white space.
    Space,
    /// Everything but Unicode white space.
    NonSpace,
    /// `.` alone.
    Dot,
    /// `[`, `]`, `(` and `)`.
    Bracket,
    /// Everything but `e` and `E`.
    NonExponent,
}

pub open spec fn is_digit(c: char) -> bool {
    '0' <= c <= '9'
}

/// The characters with the Unicode property `White_Space`.
pub open spec fn is_space(c: char) -> bool {
    ||| '\u{9}' <= c <= '\u{d}'
    ||| c == ' '
    ||| c == '\u{85}'
    ||| c == '\u{a0}'
    ||| c == '\u{1680}'
    ||| '\u{2000}' <= c <= '\u{200a}'
    ||| c == '\u{2028}'
    ||| c == '\u{2029}'
    ||| c == '\u{202f}'
    ||| c == '\u{205f}'
    ||| c == '\u{3000}'
}

pub open spec fn in_class(class: CharClass, c: char) -> bool {
    match class {
        CharClass::Digit => is_digit(c),
        CharClass::NonDigit => !is_digit(c),
        CharClass::Numeral => is_digit(c) || c == '.',
        CharClass::Space => is_space(c),
        CharClass::NonSpace => !is_space(c),
        CharClass::Dot => c == '.',
        CharClass::Bracket => c == '[' || c == ']' || c == '(' || c == ')',
        CharClass::NonExponent => c != 'e' && c != 'E',
    }
}

impl CharClass {
    /// Whether `c` belongs to the class.
    pub fn holds(&self, c: char) -> (r: bool)
        ensures
            r == in_class(*self, c),
    {
        match self {
            CharClass::Digit => '0' <= c && c <= '9',
            CharClass::NonDigit => c < '0' || '9' < c,
            CharClass::Numeral => ('0' <= c && c <= '9') || c == '.',
            CharClass::Space => space(c),
            CharClass::NonSpace => !space(c),
            CharClass::Dot => c == '.',
            CharClass::Bracket => c == '[' || c == ']' || c == '(' || c == ')',
            CharClass::NonExponent => c != 'e' && c != 'E',
        }
    }
}

fn space(c: char) -> (r: bool)
    ensures
        r == is_space(c),
{
    ('\u{9}' <= c && c <= '\u{d}') || c == ' ' || c == '\u{85}' || c == '\u{a0}' || c == '\u{1680}'
        || ('\u{2000}' <= c && c <= '\u{200a}') || c == '\u{2028}' || c == '\u{2029}'
        || c == '\u{202f}' || c == '\u{205f}' || c == '\u{3000}'
}

/// How many characters at the start of `s` belong to `class`, up to the first
/// that does not.
pub open spec fn run(s: Seq<char>, class: CharClass) -> nat
    decreases s.len(),
{
    if s.len() == 0 || !in_class(class, s[0]) {
        0
    } else {
        1 + run(s.skip(1), class)
    }
}

/// How many characters at the end of `s` belong to `class`.
pub open spec fn tail_run(s: Seq<char>, class: CharClass) -> nat
    decreases s.len(),
{
    if s.len() == 0 || !in_class(class, s.last()) {
        0
    } else {
        1 + tail_run(s.drop_last(), class)
    }
}

/// A run is the longest prefix in the class.
pub proof fn lemma_run(s: Seq<char>, class: CharClass)
    ensures
        run(s, class) <= s.len(),
        forall|i: int| 0 <= i < run(s, class) ==> in_class(class, #[trigger] s[i]),
        run(s, class) < s.len() ==> !in_class(class, s[run(s, class) as int]),
    decreases s.len(),
{
    if s.len() != 0 && in_class(class, s[0]) {
        let t = s.skip(1);
        lemma_run(t, class);
        assert forall|i: int| 0 <= i < run(s, class) implies in_class(class, #[trigger] s[i]) by {
            if i > 0 {
                assert(t[i - 1] == s[i]);
            }
        }
    }
}

/// A prefix in the class that cannot be prolonged is the run.
pub proof fn lemma_run_is(s: Seq<char>, class: CharClass, n: nat)
    requires
        n <= s.len(),
        forall|i: int| 0 <= i < n ==> in_class(class, #[trigger] s[i]),
        n < s.len() ==> !in_class(class, s[n as int]),
    ensures
        run(s, class) == n,
{
    lemma_run(s, class);
    let m = run(s, class);
    if m < n {
        assert(in_class(class, s[m as int]));
    }
    if n < m {
        assert(in_class(class, s[n as int]));
    }
}

pub proof fn lemma_tail_run(s: Seq<char>, class: CharClass)
    ensures
        tail_run(s, class) <= s.len(),
        forall|i: int| s.len() - tail_run(s, class) <= i < s.len() ==> in_class(class, #[trigger] s[i]),
        tail_run(s, class) < s.len() ==> !in_class(class, s[s.len() - 1 - tail_run(s, class)]),
    decreases s.len(),
{
    if s.len() != 0 && in_class(class, s.last()) {
        let t = s.drop_last();
        lemma_tail_run(t, class);
        assert forall|i: int|
            s.len() - tail_run(s, class) <= i < s.len() implies in_class(class, #[trigger] s[i]) by {
            if i < t.len() {
                assert(t[i] == s[i]);
            }
        }
    }
}

proof fn lemma_tail_run_is(s: Seq<char>, class: CharClass, n: nat)
    requires
        n <= s.len(),
        forall|i: int| s.len() - n <= i < s.len() ==> in_class(class, #[trigger] s[i]),
        n < s.len() ==> !in_class(class, s[s.len() - 1 - n]),
    ensures
        tail_run(s, class) == n,
{
    lemma_tail_run(s, class);
    let m = tail_run(s, class);
    if m < n {
        assert(in_class(class, s[s.len() - 1 - m]));
    }
    if n < m {
        assert(in_class(class, s[s.len() - 1 - n]));
    }
}

/// The characters of `text`.
pub fn chars_of(text: &str) -> (r: Vec<char>)
    ensures
        r@ == text@,
{
    let mut r: Vec<char> = Vec::new();
    for c in it: text.chars()
        invariant
            it.seq() == text@,
            r@ == text@.take(it.index()),
    {
        r.push(c);
    }
    r
}

/// The string made of `chars`.
pub fn text_of(chars: &Vec<char>) -> (r: String)
    ensures
        r@ == chars@,
{
    let mut r: String = String::new();
    let mut i: usize = 0;
    while i < chars.len()
        invariant
            i <= chars.len(),
            r@ == chars@.take(i as int),
        decreases chars.len() - i,
    {
        r.push(chars[i]);
        i += 1;
        assert(chars@.take(i as int) == chars@.take(i - 1).push(chars@[i - 1]));
    }
    assert(chars@.take(chars@.len() as int) == chars@);
    r
}

/// The characters `from..to` of `chars`.
pub fn slice(chars: &Vec<char>, from: usize, to: usize) -> (r: Vec<char>)
    requires
        from <= to <= chars.len(),
    ensures
        r@ == chars@.subrange(from as int, to as int),
{
    let mut r: Vec<char> = Vec::new();
    let mut i: usize = from;
    while i < to
        invariant
            from <= i <= to <= chars.len(),
            r@ == chars@.subrange(from as int, i as int),
        decreases to - i,
    {
        r.push(chars[i]);
        i += 1;
        assert(chars@.subrange(from as int, i as int) == chars@.subrange(from as int, i - 1).push(
            chars@[i - 1],
        ));
    }
    r
}

/// Where the run of `class` that starts at `from` ends.
pub fn run_end(chars: &Vec<char>, from: usize, class: CharClass) -> (end: usize)
    requires
        from <= chars.len(),
    ensures
        from <= end <= chars.len(),
        end == from + run(chars@.skip(from as int), class),
{
    let mut i: usize = from;
    while i < chars.len() && class.holds(chars[i])
        invariant
            from <= i <= chars.len(),
            forall|j: int| from <= j < i ==> in_class(class, #[trigger] chars@[j]),
        decreases chars.len() - i,
    {
        i += 1;
    }
    proof {
        let s = chars@.skip(from as int);
        assert forall|j: int| 0 <= j < i - from implies in_class(class, #[trigger] s[j]) by {
            assert(s[j] == chars@[from + j]);
        }
        lemma_run_is(s, class, (i - from) as nat);
    }
    i
}

/// `s` without the characters of `class` at either end.
pub open spec fn trim(s: Seq<char>, class: CharClass) -> Seq<char> {
    let rest = s.skip(run(s, class) as int);
    rest.take(rest.len() - tail_run(rest, class))
}

/// Trims the characters of `class` from both ends.
pub fn trimmed(chars: &Vec<char>, class: CharClass) -> (r: Vec<char>)
    ensures
        r@ == trim(chars@, class),
{
    let start: usize = run_end(chars, 0, class);
    let ghost rest = chars@.skip(start as int);
    let mut end: usize = chars.len();
    while start < end && class.holds(chars[end - 1])
        invariant
            start <= end <= chars.len(),
            forall|j: int| end <= j < chars.len() ==> in_class(class, #[trigger] chars@[j]),
        decreases end,
    {
        end -= 1;
    }
    proof {
        assert(chars@.skip(0) == chars@);
        let n = (chars.len() - end) as nat;
        assert forall|j: int| rest.len() - n <= j < rest.len() implies in_class(
            class,
            #[trigger] rest[j],
        ) by {
            assert(rest[j] == chars@[start + j]);
        }
        lemma_tail_run_is(rest, class, n);
        assert(chars@.subrange(start as int, end as int) == rest.take(rest.len() - n));
    }
    slice(chars, start, end)
}

/// The words of `s`: its longest stretches without white space, in order.
pub open spec fn words(s: Seq<char>) -> Seq<Seq<char>>
    decreases s.len(),
    via words_decreases
{
    let rest = s.skip(run(s, CharClass::Space) as int);
    if rest.len() == 0 {
        seq![]
    } else {
        let n = run(rest, CharClass::NonSpace) as int;
        seq![rest.take(n)] + words(rest.skip(n))
    }
}

#[via_fn]
proof fn words_decreases(s: Seq<char>) {
    lemma_run(s, CharClass::Space);
    let rest = s.skip(run(s, CharClass::Space) as int);
    lemma_run(rest, CharClass::NonSpace);
}

/// The character sequences of a list of texts.
pub open spec fn views(v: Seq<Vec<char>>) -> Seq<Seq<char>> {
    Seq::new(v.len(), |i: int| v[i]@)
}

/// The texts of a list of strings.
pub open spec fn text_views(v: Seq<String>) -> Seq<Seq<char>> {
    Seq::new(v.len(), |i: int| v[i]@)
}

/// Splits at white space.
pub fn split_words(chars: &Vec<char>) -> (r: Vec<Vec<char>>)
    ensures
        views(r@) == words(chars@),
{
    let mut r: Vec<Vec<char>> = Vec::new();
    let mut i: usize = run_end(chars, 0, CharClass::Space);
    proof {
        assert(chars@.skip(0) == chars@);
        lemma_words_skip(chars@);
        assert(views(r@) + words(chars@.skip(i as int)) == words(chars@));
    }
    while i < chars.len()
        invariant
            i <= chars.len(),
            views(r@) + words(chars@.skip(i as int)) == words(chars@),
            run(chars@.skip(i as int), CharClass::Space) == 0,
        decreases chars.len() - i,
    {
        let ghost before = views(r@);
        let ghost rest = chars@.skip(i as int);
        let end: usize = run_end(chars, i, CharClass::NonSpace);
        r.push(slice(chars, i, end));
        let next: usize = run_end(chars, end, CharClass::Space);
        proof {
            lemma_run(rest, CharClass::Space);
            lemma_run(rest, CharClass::NonSpace);
            assert(rest.skip(0) == rest);
            assert(rest.take(end - i) == chars@.subrange(i as int, end as int));
            assert(rest.skip(end - i) == chars@.skip(end as int));
            assert(views(r@) == before.push(chars@.subrange(i as int, end as int)));
            assert(words(rest) == seq![rest.take(end - i)] + words(rest.skip(end - i)));
            lemma_words_skip(chars@.skip(end as int));
            assert(chars@.skip(end as int).skip(next - end) == chars@.skip(next as int));
            assert(views(r@) + words(chars@.skip(next as int)) == before + words(rest));
        }
        i = next;
    }
    proof {
        assert(words(chars@.skip(i as int)) == Seq::<Seq<char>>::empty());
    }
    r
}

/// White space at the start does not matter to the words.
proof fn lemma_words_skip(s: Seq<char>)
    ensures
        words(s.skip(run(s, CharClass::Space) as int)) == words(s),
        run(s.skip(run(s, CharClass::Space) as int), CharClass::Space) == 0,
{
    let rest = s.skip(run(s, CharClass::Space) as int);
    lemma_run(s, CharClass::Space);
    assert(run(rest, CharClass::Space) == 0) by {
        if rest.len() > 0 {
            assert(rest[0] == s[run(s, CharClass::Space) as int]);
        }
    }
    assert(rest.skip(0) == rest);
}

/// The ASCII lower case of one character.
pub open spec fn lower_char(c: char) -> char {
    if 'A' <= c <= 'Z' {
        (c as u32 + 32) as char
    } else {
        c
    }
}

/// The ASCII lower case of `s`; other letters stay as they are.
pub open spec fn lower(s: Seq<char>) -> Seq<char> {
    Seq::new(s.len(), |i: int| lower_char(s[i]))
}

pub fn to_lower_char(c: char) -> (r: char)
    ensures
        r == lower_char(c),
{
    if 'A' <= c && c <= 'Z' {
        ((c as u8) + 32) as char
    } else {
        c
    }
}

/// Lowers the ASCII letters.
pub fn lowered(chars: &Vec<char>) -> (r: Vec<char>)
    ensures
        r@ == lower(chars@),
{
    let mut r: Vec<char> = Vec::new();
    let mut i: usize = 0;
    while i < chars.len()
        invariant
            i <= chars.len(),
            r@ == lower(chars@).take(i as int),
        decreases chars.len() - i,
    {
        r.push(to_lower_char(chars[i]));
        i += 1;
    }
    r
}

/// Whether two character sequences are the same.
pub fn same(a: &Vec<char>, b: &Vec<char>) -> (r: bool)
    ensures
        r == (a@ == b@),
{
    if a.len() != b.len() {
        return false;
    }
    let mut i: usize = 0;
    while i < a.len()
        invariant
            i <= a.len() == b.len(),
            a@.take(i as int) == b@.take(i as int),
        decreases a.len() - i,
    {
        if a[i] != b[i] {
            return false;
        }
        i += 1;
        assert(a@.take(i as int) == a@.take(i - 1).push(a@[i - 1]));
        assert(b@.take(i as int) == b@.take(i - 1).push(b@[i - 1]));
    }
    assert(a@.take(a@.len() as int) == a@ && b@.take(b@.len() as int) == b@);
    true
}

/// Whether `s` has `part` at position `at`.
pub open spec fn occurs_at(s: Seq<char>, part: Seq<char>, at: int) -> bool {
    0 <= at && at + part.len() <= s.len() && s.subrange(at, at + part.len()) == part
}

/// Whether `part` occurs somewhere in `s`.
pub open spec fn occurs_in(s: Seq<char>, part: Seq<char>) -> bool {
    exists|at: int| occurs_at(s, part, at)
}

/// Whether `chars` has `part` at position `at`.
pub fn has_at(chars: &Vec<char>, part: &Vec<char>, at: usize) -> (r: bool)
    ensures
        r == occurs_at(chars@, part@, at as int),
{
    if chars.len() < at || chars.len() - at < part.len() {
        return false;
    }
    let mut i: usize = 0;
    while i < part.len()
        invariant
            i <= part.len(),
            at + part.len() <= chars.len(),
            forall|j: int| 0 <= j < i ==> chars@[at + j] == #[trigger] part@[j],
        decreases part.len() - i,
    {
        if chars[at + i] != part[i] {
            assert(chars@.subrange(at as int, at + part@.len())[i as int] == chars@[at + i]);
            return false;
        }
        i += 1;
    }
    assert(chars@.subrange(at as int, at + part@.len()) == part@);
    true
}

/// Whether `part` occurs somewhere in `chars`.
pub fn has_part(chars: &Vec<char>, part: &Vec<char>) -> (r: bool)
    ensures
        r == occurs_in(chars@, part@),
{
    if chars.len() < part.len() {
        return false;
    }
    let mut at: usize = 0;
    while at <= chars.len() - part.len()
        invariant
            part.len() <= chars.len(),
            at <= chars.len() - part.len() + 1,
            forall|k: int| 0 <= k < at ==> !occurs_at(chars@, part@, k),
        decreases chars.len() - part.len() + 1 - at,
    {
        if has_at(chars, part, at) {
            return true;
        }
        if at == chars.len() - part.len() {
            return false;
        }
        at += 1;
    }
    false
}

} // verus!
