//! Text: the string operations that the rest of the library is written with,
//! each against its meaning on sequences of characters.
use vstd::prelude::*;

verus! {

broadcast use vstd::string::group_string_axioms;

/// `String::push` puts one character behind the text.
pub assume_specification[ String::push ](text: &mut String, c: char)
    ensures
        final(text)@ == old(text)@.push(c),
;

/// The characters of a text.
pub fn chars_of(text: &str) -> (chars: Vec<char>)
    ensures
        chars@ == text@,
{
    let mut chars: Vec<char> = Vec::new();
    for c in it: text.chars()
        invariant
            chars@ == it.seq().take(it.index() as int),
            it.seq() == text@,
    {
        chars.push(c);
        assert(it.seq().take(it.index() as int).push(c) =~= it.seq().take(it.index() + 1));
    }
    assert(text@.take(text@.len() as int) =~= text@);
    chars
}

/// The text of the characters from `start` up to `end`.
pub fn text_between(chars: &Vec<char>, start: usize, end: usize) -> (text: String)
    requires
        start <= end <= chars@.len(),
    ensures
        text@ == chars@.subrange(start as int, end as int),
{
    let mut text = String::new();
    let mut i: usize = start;
    while i < end
        invariant
            start <= i <= end <= chars@.len(),
            text@ == chars@.subrange(start as int, i as int),
        decreases end - i,
    {
        text.push(chars[i]);
        assert(chars@.subrange(start as int, i + 1) =~= chars@.subrange(start as int, i as int).push(
            chars@[i as int],
        ));
        i += 1;
    }
    text
}

/// Whether two texts hold the same characters.
pub fn same_text(left: &str, right: &str) -> (same: bool)
    ensures
        same == (left@ == right@),
{
    left.to_owned() == right.to_owned()
}

/// The texts of a list, as sequences of characters.
pub open spec fn views(list: Seq<String>) -> Seq<Seq<char>> {
    list.map_values(|text: String| text@)
}

/// Whether a text is in a list.
pub fn has_text(list: &Vec<String>, text: &str) -> (r: bool)
    ensures
        r == views(list@).contains(text@),
{
    let mut i: usize = 0;
    while i < list.len()
        invariant
            i <= list@.len(),
            forall|j: int| 0 <= j < i ==> views(list@)[j] != text@,
        decreases list@.len() - i,
    {
        if same_text(&list[i], text) {
            assert(views(list@)[i as int] == text@);
            return true;
        }
        i += 1;
    }
    false
}

/// A character with `A` to `Z` turned into `a` to `z`.
pub open spec fn lower_char(c: char) -> char {
    if 'A' <= c && c <= 'Z' {
        ((c as u32) + 32) as char
    } else {
        c
    }
}

/// A text with its ASCII capitals turned into small letters.
pub open spec fn lower(text: Seq<char>) -> Seq<char> {
    text.map_values(|c: char| lower_char(c))
}

fn char_to_lower(c: char) -> (r: char)
    ensures
        r == lower_char(c),
{
    if 'A' <= c && c <= 'Z' {
        ((c as u8) + 32) as char
    } else {
        c
    }
}

/// The text with its ASCII capitals turned into small letters.
pub fn to_lower(text: &str) -> (r: String)
    ensures
        r@ == lower(text@),
{
    let mut r = String::new();
    for c in it: text.chars()
        invariant
            r@ == lower(it.seq().take(it.index() as int)),
            it.seq() == text@,
    {
        r.push(char_to_lower(c));
        assert(lower(it.seq().take(it.index() + 1)) =~= lower(it.seq().take(it.index() as int)).push(
            lower_char(c),
        ));
    }
    assert(text@.take(text@.len() as int) =~= text@);
    r
}

/// Whether two texts differ at most in the case of ASCII letters.
pub fn same_ignoring_case(left: &str, right: &str) -> (same: bool)
    ensures
        same == (lower(left@) == lower(right@)),
{
    to_lower(left) == to_lower(right)
}

/// Whether `piece` stands in `text` at `at`.
pub open spec fn stands_at(text: Seq<char>, piece: Seq<char>, at: int) -> bool {
    0 <= at && at + piece.len() <= text.len() && text.subrange(at, at + piece.len()) == piece
}

/// Whether `piece` occurs in `text`.
pub open spec fn occurs(text: Seq<char>, piece: Seq<char>) -> bool {
    exists|at: int| #[trigger] stands_at(text, piece, at)
}

fn piece_at(text: &Vec<char>, piece: &Vec<char>, at: usize) -> (r: bool)
    requires
        at <= text@.len(),
    ensures
        r == stands_at(text@, piece@, at as int),
{
    let total = text.len();
    if total - at < piece.len() {
        return false;
    }
    let mut i: usize = 0;
    while i < piece.len()
        invariant
            i <= piece@.len(),
            total == text@.len(),
            at + piece@.len() <= text@.len(),
            forall|j: int| 0 <= j < i ==> text@[at + j] == piece@[j],
        decreases piece@.len() - i,
    {
        if text[at + i] != piece[i] {
            assert(text@.subrange(at as int, at + piece@.len())[i as int] != piece@[i as int]);
            return false;
        }
        i += 1;
    }
    assert(text@.subrange(at as int, at + piece@.len()) =~= piece@);
    true
}

/// Whether `text` begins with `prefix`.
pub fn begins_with(text: &str, prefix: &str) -> (r: bool)
    ensures
        r == prefix@.is_prefix_of(text@),
{
    piece_at(&chars_of(text), &chars_of(prefix), 0)
}

/// Whether `text` ends with `suffix`.
pub fn finishes_with(text: &str, suffix: &str) -> (r: bool)
    ensures
        r == suffix@.is_suffix_of(text@),
{
    let chars = chars_of(text);
    let tail = chars_of(suffix);
    if chars.len() < tail.len() {
        return false;
    }
    piece_at(&chars, &tail, chars.len() - tail.len())
}

/// Whether `piece` occurs in `text`.
pub fn has_piece(text: &str, piece: &str) -> (r: bool)
    ensures
        r == occurs(text@, piece@),
{
    let chars = chars_of(text);
    let wanted = chars_of(piece);
    let mut at: usize = 0;
    while at < chars.len()
        invariant
            at <= chars@.len(),
            chars@ == text@,
            wanted@ == piece@,
            forall|j: int| 0 <= j < at ==> !#[trigger] stands_at(text@, piece@, j),
        decreases chars@.len() - at,
    {
        if piece_at(&chars, &wanted, at) {
            return true;
        }
        at += 1;
    }
    piece_at(&chars, &wanted, at)
}

/// How many characters of `text` stand before the first `c`; all of them where
/// `c` does not occur.
pub open spec fn before_char(text: Seq<char>, c: char) -> nat
    decreases text.len(),
{
    if text.len() == 0 || text[0] == c {
        0
    } else {
        1 + before_char(text.drop_first(), c)
    }
}

pub proof fn lemma_before_char(text: Seq<char>, c: char)
    ensures
        before_char(text, c) <= text.len(),
        before_char(text, c) < text.len() ==> text[before_char(text, c) as int] == c,
        forall|i: int| 0 <= i < before_char(text, c) ==> text[i] != c,
    decreases text.len(),
{
    if text.len() != 0 && text[0] != c {
        let rest = text.drop_first();
        lemma_before_char(rest, c);
        assert forall|i: int| 0 <= i < before_char(text, c) implies text[i] != c by {
            if i > 0 {
                assert(rest[i - 1] == text[i]);
            }
        }
    }
}

pub proof fn lemma_before_char_is(text: Seq<char>, c: char, n: nat)
    requires
        n <= text.len(),
        n < text.len() ==> text[n as int] == c,
        forall|i: int| 0 <= i < n ==> text[i] != c,
    ensures
        before_char(text, c) == n,
{
    lemma_before_char(text, c);
    let m = before_char(text, c);
    if m < n {
        assert(text[m as int] != c);
    }
    if n < m {
        assert(text[n as int] != c);
    }
}

fn find_char(chars: &Vec<char>, start: usize, c: char) -> (at: usize)
    requires
        start <= chars@.len(),
    ensures
        at == start + before_char(chars@.skip(start as int), c),
        start <= at <= chars@.len(),
{
    let mut at: usize = start;
    while at < chars.len() && chars[at] != c
        invariant
            start <= at <= chars@.len(),
            forall|i: int| start <= i < at ==> chars@[i] != c,
        decreases chars@.len() - at,
    {
        at += 1;
    }
    proof {
        lemma_before_char_is(chars@.skip(start as int), c, (at - start) as nat);
    }
    at
}

/// The pieces of `text` between the occurrences of `c`.
pub open spec fn split_on(text: Seq<char>, c: char) -> Seq<Seq<char>>
    decreases text.len(),
{
    let n = before_char(text, c);
    if n >= text.len() {
        seq![text]
    } else {
        seq![text.take(n as int)] + split_on(text.skip(n as int + 1), c)
    }
}

/// Cuts a text at every occurrence of a character.
pub fn split_text(text: &str, c: char) -> (pieces: Vec<String>)
    ensures
        views(pieces@) == split_on(text@, c),
{
    let chars = chars_of(text);
    let mut pieces: Vec<String> = Vec::new();
    let mut start: usize = 0;
    assert(text@.skip(0) =~= text@);
    loop
        invariant
            start <= chars@.len(),
            chars@ == text@,
            split_on(text@, c) == views(pieces@) + split_on(text@.skip(start as int), c),
        decreases chars@.len() - start,
    {
        let at = find_char(&chars, start, c);
        let ghost rest = text@.skip(start as int);
        let ghost had = views(pieces@);
        pieces.push(text_between(&chars, start, at));
        assert(text@.subrange(start as int, at as int) =~= rest.take(at - start));
        assert(views(pieces@) =~= had.push(rest.take(at - start)));
        if at >= chars.len() {
            assert(rest.take(at - start) =~= rest);
            assert(views(pieces@) =~= had + seq![rest]);
            return pieces;
        }
        assert(rest.skip(at - start + 1) =~= text@.skip(at + 1));
        assert(had + (seq![rest.take(at - start)] + split_on(text@.skip(at + 1), c)) =~= views(pieces@)
            + split_on(text@.skip(at + 1), c));
        start = at + 1;
    }
}

/// A line without the carriage return before its line feed.
pub open spec fn without_return(line: Seq<char>) -> Seq<char> {
    if line.len() > 0 && line.last() == '\r' {
        line.drop_last()
    } else {
        line
    }
}

/// The lines of a text: cut behind every line feed, each without its line
/// ending, with nothing behind the last line ending.
pub open spec fn lines(text: Seq<char>) -> Seq<Seq<char>>
    decreases text.len(),
{
    let n = before_char(text, '\n');
    if text.len() == 0 {
        Seq::empty()
    } else if n >= text.len() {
        seq![text]
    } else {
        seq![without_return(text.take(n as int))] + lines(text.skip(n as int + 1))
    }
}

/// Cuts a text into its lines.
pub fn split_lines(text: &str) -> (found: Vec<String>)
    ensures
        views(found@) == lines(text@),
{
    let chars = chars_of(text);
    let mut found: Vec<String> = Vec::new();
    let mut start: usize = 0;
    assert(text@.skip(0) =~= text@);
    assert(views(found@) + lines(text@) =~= lines(text@));
    while start < chars.len()
        invariant
            start <= chars@.len(),
            chars@ == text@,
            lines(text@) == views(found@) + lines(text@.skip(start as int)),
        decreases chars@.len() - start,
    {
        let at = find_char(&chars, start, '\n');
        let ghost rest = text@.skip(start as int);
        let ghost had = views(found@);
        if at >= chars.len() {
            found.push(text_between(&chars, start, at));
            assert(text@.subrange(start as int, at as int) =~= rest);
            assert(rest.take(at - start) =~= rest);
            assert(views(found@) =~= had + seq![rest]);
            return found;
        }
        let end: usize = if at > start && chars[at - 1] == '\r' {
            at - 1
        } else {
            at
        };
        found.push(text_between(&chars, start, end));
        assert(text@.subrange(start as int, end as int) =~= without_return(rest.take(at - start)));
        assert(views(found@) =~= had.push(without_return(rest.take(at - start))));
        assert(rest.skip(at - start + 1) =~= text@.skip(at + 1));
        assert(had + (seq![without_return(rest.take(at - start))] + lines(text@.skip(at + 1)))
            =~= views(found@) + lines(text@.skip(at + 1)));
        start = at + 1;
    }
    assert(text@.skip(start as int) =~= Seq::<char>::empty());
    assert(views(found@) + Seq::<Seq<char>>::empty() =~= views(found@));
    found
}

/// A set of characters that is trimmed off the ends of a text.
pub enum CharClass {
    /// The characters with the Unicode property White_Space.
    White,
    /// The two quotation marks of a shell.
    Quote,
    /// One character.
    Only(char),
}

/// Whether a character has the Unicode property White_Space.
pub open spec fn is_white(c: char) -> bool {
    ||| '\u{9}' <= c && c <= '\u{d}'
    ||| c == ' '
    ||| c == '\u{85}'
    ||| c == '\u{a0}'
    ||| c == '\u{1680}'
    ||| '\u{2000}' <= c && c <= '\u{200a}'
    ||| c == '\u{2028}'
    ||| c == '\u{2029}'
    ||| c == '\u{202f}'
    ||| c == '\u{205f}'
    ||| c == '\u{3000}'
}

impl CharClass {
    /// Whether a character is in the class.
    pub open spec fn has(self, c: char) -> bool {
        match self {
            CharClass::White => is_white(c),
            CharClass::Quote => c == '\'' || c == '"',
            CharClass::Only(wanted) => c == wanted,
        }
    }

    fn holds(&self, c: char) -> (r: bool)
        ensures
            r == self.has(c),
    {
        match self {
            CharClass::White => char_is_white(c),
            CharClass::Quote => c == '\'' || c == '"',
            CharClass::Only(wanted) => c == *wanted,
        }
    }
}

/// Whether a character has the Unicode property White_Space.
pub fn char_is_white(c: char) -> (r: bool)
    ensures
        r == is_white(c),
{
    ('\u{9}' <= c && c <= '\u{d}') || c == ' ' || c == '\u{85}' || c == '\u{a0}' || c == '\u{1680}' || (
    '\u{2000}' <= c && c <= '\u{200a}') || c == '\u{2028}' || c == '\u{2029}' || c == '\u{202f}' || c
        == '\u{205f}' || c == '\u{3000}'
}

/// A text from its first character outside the class on.
pub open spec fn trimmed_start(text: Seq<char>, class: CharClass) -> Seq<char>
    decreases text.len(),
{
    if text.len() > 0 && class.has(text[0]) {
        trimmed_start(text.drop_first(), class)
    } else {
        text
    }
}

/// A text up to its last character outside the class.
pub open spec fn trimmed_end(text: Seq<char>, class: CharClass) -> Seq<char>
    decreases text.len(),
{
    if text.len() > 0 && class.has(text.last()) {
        trimmed_end(text.drop_last(), class)
    } else {
        text
    }
}

/// A text without the characters of the class at its two ends.
pub open spec fn trimmed(text: Seq<char>, class: CharClass) -> Seq<char> {
    trimmed_end(trimmed_start(text, class), class)
}

fn skip_class(chars: &Vec<char>, start: usize, class: &CharClass) -> (at: usize)
    requires
        start <= chars@.len(),
    ensures
        start <= at <= chars@.len(),
        chars@.skip(at as int) == trimmed_start(chars@.skip(start as int), *class),
        at < chars@.len() ==> !class.has(chars@[at as int]),
{
    let mut at: usize = start;
    while at < chars.len() && class.holds(chars[at])
        invariant
            start <= at <= chars@.len(),
            trimmed_start(chars@.skip(start as int), *class) == trimmed_start(
                chars@.skip(at as int),
                *class,
            ),
        decreases chars@.len() - at,
    {
        assert(chars@.skip(at as int).drop_first() =~= chars@.skip(at + 1));
        at += 1;
    }
    at
}

/// Removes the characters of a class from the beginning of a text.
pub fn trim_start(text: &str, class: &CharClass) -> (r: String)
    ensures
        r@ == trimmed_start(text@, *class),
{
    let chars = chars_of(text);
    let start = skip_class(&chars, 0, class);
    assert(text@.skip(0) =~= text@);
    assert(text@.skip(start as int) =~= text@.subrange(start as int, text@.len() as int));
    text_between(&chars, start, chars.len())
}

/// Removes the characters of a class from both ends of a text.
pub fn trim(text: &str, class: &CharClass) -> (r: String)
    ensures
        r@ == trimmed(text@, *class),
{
    let chars = chars_of(text);
    let start = skip_class(&chars, 0, class);
    assert(text@.skip(0) =~= text@);
    let mut end: usize = chars.len();
    assert(text@.skip(start as int) =~= text@.subrange(start as int, end as int));
    while end > start && class.holds(chars[end - 1])
        invariant
            start <= end <= chars@.len(),
            chars@ == text@,
            trimmed(text@, *class) == trimmed_end(
                text@.subrange(start as int, end as int),
                *class,
            ),
        decreases end,
    {
        assert(text@.subrange(start as int, end as int).drop_last() =~= text@.subrange(
            start as int,
            end - 1,
        ));
        end -= 1;
    }
    text_between(&chars, start, end)
}

/// How many characters of a text stand before its first white space.
pub open spec fn word_len(text: Seq<char>) -> nat
    decreases text.len(),
{
    if text.len() == 0 || is_white(text[0]) {
        0
    } else {
        1 + word_len(text.drop_first())
    }
}

proof fn lemma_word_len(text: Seq<char>, n: nat)
    requires
        n <= text.len(),
        n < text.len() ==> is_white(text[n as int]),
        forall|i: int| 0 <= i < n ==> !is_white(text[i]),
    ensures
        word_len(text) == n,
    decreases text.len(),
{
    if n > 0 {
        assert forall|i: int| 0 <= i < n - 1 implies !is_white(text.drop_first()[i]) by {
            assert(text.drop_first()[i] == text[i + 1]);
        }
        lemma_word_len(text.drop_first(), (n - 1) as nat);
    }
}

pub proof fn lemma_word_fits(text: Seq<char>)
    ensures
        word_len(text) <= text.len(),
        text.len() > 0 && !is_white(text[0]) ==> word_len(text) > 0,
    decreases text.len(),
{
    if text.len() > 0 && !is_white(text[0]) {
        lemma_word_fits(text.drop_first());
    }
}

pub proof fn lemma_trimmed_start_shorter(text: Seq<char>, class: CharClass)
    ensures
        trimmed_start(text, class).len() <= text.len(),
        trimmed_start(text, class).len() > 0 ==> !class.has(trimmed_start(text, class)[0]),
    decreases text.len(),
{
    if text.len() > 0 && class.has(text[0]) {
        lemma_trimmed_start_shorter(text.drop_first(), class);
    }
}

/// The runs of characters between white space.
pub open spec fn words(text: Seq<char>) -> Seq<Seq<char>>
    decreases text.len(),
{
    proof {
        lemma_trimmed_start_shorter(text, CharClass::White);
        lemma_word_fits(trimmed_start(text, CharClass::White));
    }
    let rest = trimmed_start(text, CharClass::White);
    if rest.len() == 0 {
        Seq::empty()
    } else {
        seq![rest.take(word_len(rest) as int)] + words(rest.skip(word_len(rest) as int))
    }
}

/// Cuts a text at its white space.
pub fn split_words(text: &str) -> (found: Vec<String>)
    ensures
        views(found@) == words(text@),
{
    let chars = chars_of(text);
    let mut found: Vec<String> = Vec::new();
    let mut start: usize = 0;
    assert(text@.skip(0) =~= text@);
    assert(views(found@) + words(text@) =~= words(text@));
    loop
        invariant
            start <= chars@.len(),
            chars@ == text@,
            words(text@) == views(found@) + words(text@.skip(start as int)),
        decreases chars@.len() - start,
    {
        let from = skip_class(&chars, start, &CharClass::White);
        let ghost rest = text@.skip(from as int);
        let ghost had = views(found@);
        if from >= chars.len() {
            assert(rest.len() == 0);
            assert(had + Seq::<Seq<char>>::empty() =~= had);
            return found;
        }
        let mut at: usize = from;
        while at < chars.len() && !char_is_white(chars[at])
            invariant
                from <= at <= chars@.len(),
                forall|i: int| from <= i < at ==> !is_white(chars@[i]),
            decreases chars@.len() - at,
        {
            at += 1;
        }
        proof {
            lemma_word_len(rest, (at - from) as nat);
            lemma_word_fits(rest);
        }
        found.push(text_between(&chars, from, at));
        assert(text@.subrange(from as int, at as int) =~= rest.take(at - from));
        assert(views(found@) =~= had.push(rest.take(at - from)));
        assert(rest.skip(at - from) =~= text@.skip(at as int));
        assert(had + (seq![rest.take(at - from)] + words(text@.skip(at as int))) =~= views(found@)
            + words(text@.skip(at as int)));
        start = at;
    }
}

/// A list of one text or of none.
pub open spec fn if_so(holds: bool, text: Seq<char>) -> Seq<Seq<char>> {
    if holds {
        seq![text]
    } else {
        Seq::empty()
    }
}

/// Puts a text behind a list where a condition holds.
pub fn add_if(list: &mut Vec<String>, holds: bool, text: &str)
    ensures
        views(final(list)@) == views(old(list)@) + if_so(holds, text@),
{
    let ghost had = views(list@);
    if holds {
        list.push(text.to_owned());
    }
    assert(views(list@) =~= had + if_so(holds, text@));
}

/// The texts of a list one behind the other, with `between` in each gap.
pub open spec fn joined(list: Seq<Seq<char>>, between: Seq<char>) -> Seq<char>
    decreases list.len(),
{
    if list.len() == 0 {
        Seq::empty()
    } else if list.len() == 1 {
        list[0]
    } else {
        joined(list.drop_last(), between) + between + list.last()
    }
}

/// Joins the texts of a list, with `between` in each gap.
pub fn join_texts(list: &Vec<String>, between: &str) -> (r: String)
    ensures
        r@ == joined(views(list@), between@),
{
    let mut r = String::new();
    let mut i: usize = 0;
    while i < list.len()
        invariant
            i <= list@.len(),
            r@ == joined(views(list@).take(i as int), between@),
        decreases list@.len() - i,
    {
        let ghost now = views(list@).take(i + 1);
        assert(now.drop_last() =~= views(list@).take(i as int));
        if i == 0 {
            r = list[i].clone();
        } else {
            r.append(between);
            r.append(&list[i]);
        }
        i += 1;
    }
    assert(views(list@).take(i as int) =~= views(list@));
    r
}

/// A text in which every `from`, found from left to right, is replaced.
pub open spec fn replaced(text: Seq<char>, from: Seq<char>, to: Seq<char>) -> Seq<char>
    decreases text.len(),
{
    if from.len() == 0 || text.len() < from.len() {
        text
    } else if from.is_prefix_of(text) {
        to + replaced(text.skip(from.len() as int), from, to)
    } else {
        seq![text[0]] + replaced(text.drop_first(), from, to)
    }
}

/// Replaces every `from` in a text, from left to right.
pub fn replace_text(text: &str, from: &str, to: &str) -> (r: String)
    requires
        from@.len() > 0,
    ensures
        r@ == replaced(text@, from@, to@),
{
    let chars = chars_of(text);
    let wanted = chars_of(from);
    let mut r = String::new();
    let mut at: usize = 0;
    assert(text@.skip(0) =~= text@);
    assert(r@ + replaced(text@, from@, to@) =~= replaced(text@, from@, to@));
    while at < chars.len()
        invariant
            at <= chars@.len(),
            chars@ == text@,
            wanted@ == from@,
            from@.len() > 0,
            replaced(text@, from@, to@) == r@ + replaced(text@.skip(at as int), from@, to@),
        decreases chars@.len() - at,
    {
        let ghost rest = text@.skip(at as int);
        let ghost had = r@;
        if piece_at(&chars, &wanted, at) {
            assert(text@.subrange(at as int, at + from@.len()) =~= rest.subrange(0, from@.len() as int));
            r.append(to);
            assert(rest.skip(from@.len() as int) =~= text@.skip(at + from@.len()));
            assert(had + (to@ + replaced(text@.skip(at + from@.len()), from@, to@)) =~= r@ + replaced(
                text@.skip(at + from@.len()),
                from@,
                to@,
            ));
            at += wanted.len();
        } else {
            proof {
                if from@.len() <= rest.len() {
                    assert(text@.subrange(at as int, at + from@.len()) =~= rest.subrange(
                        0,
                        from@.len() as int,
                    ));
                } else {
                    assert(rest =~= seq![rest[0]] + rest.drop_first());
                }
            }
            r.push(chars[at]);
            assert(rest.drop_first() =~= text@.skip(at + 1));
            assert(had + (seq![rest[0]] + replaced(text@.skip(at + 1), from@, to@)) =~= r@ + replaced(
                text@.skip(at + 1),
                from@,
                to@,
            ));
            at += 1;
        }
    }
    assert(text@.skip(at as int) =~= Seq::<char>::empty());
    assert(r@ + Seq::<char>::empty() =~= r@);
    r
}

/// The decimal digit of a number below ten.
pub open spec fn digit(d: nat) -> char {
    ('0' as u32 + d) as char
}

/// A number in decimal notation.
pub open spec fn decimal(n: nat) -> Seq<char>
    decreases n,
{
    if n < 10 {
        seq![digit(n)]
    } else {
        decimal(n / 10).push(digit(n % 10))
    }
}

/// A whole number in decimal notation, with a minus sign below zero.
pub open spec fn decimal_signed(n: int) -> Seq<char> {
    if n < 0 {
        seq!['-'] + decimal((-n) as nat)
    } else {
        decimal(n as nat)
    }
}

/// Writes a number in decimal notation.
pub fn decimal_text(n: u128) -> (r: String)
    ensures
        r@ == decimal(n as nat),
    decreases n,
{
    let mut r = String::new();
    if n >= 10 {
        r = decimal_text(n / 10);
    }
    r.push((('0' as u8) + ((n % 10) as u8)) as char);
    assert(n < 10 ==> Seq::<char>::empty().push(digit(n as nat)) =~= seq![digit(n as nat)]);
    r
}

/// Writes a number in decimal notation, with a minus sign below zero.
pub fn decimal_signed_text(n: i64) -> (r: String)
    ensures
        r@ == decimal_signed(n as int),
{
    if n < 0 {
        let mut r = String::new();
        r.push('-');
        assert(r@ =~= seq!['-']);
        let magnitude: u128 = (-((n as i128))) as u128;
        r.append(&decimal_text(magnitude));
        r
    } else {
        decimal_text(n as u128)
    }
}

/// Small letters for capitals: text by text, leaving alone what has no capitals, and done
/// once and for all. Two ASCII letters are the same in any case where their numbers differ
/// by that of a capital and its small letter.
pub proof fn law_lower_is_by_characters(a: Seq<char>, b: Seq<char>)
    ensures
        lower(a + b) == lower(a) + lower(b),
        lower(a).len() == a.len(),
        lower(lower(a)) == lower(a),
        (forall|i: int| 0 <= i < a.len() ==> !('A' <= #[trigger] a[i] && a[i] <= 'Z')) ==> lower(a)
            == a,
        forall|i: int|
            0 <= i < a.len() && 'A' <= #[trigger] a[i] && a[i] <= 'Z' ==> 'a' <= lower(a)[i]
                && lower(a)[i] <= 'z' && lower(a)[i] as u32 == a[i] as u32 + 32,
{
    assert(lower(a + b) =~= lower(a) + lower(b));
    assert(lower(lower(a)) =~= lower(a));
    if forall|i: int| 0 <= i < a.len() ==> !('A' <= #[trigger] a[i] && a[i] <= 'Z') {
        assert(lower(a) =~= a);
    }
}

/// Trimming takes nothing away but characters of the class at the two ends, and leaves
/// none of them there.
pub proof fn law_trimming_frees_the_ends(text: Seq<char>, class: CharClass) -> (r: (int, int))
    ensures
        0 <= r.0 <= r.1 <= text.len(),
        trimmed(text, class) == text.subrange(r.0, r.1),
        forall|i: int| 0 <= i < r.0 ==> class.has(#[trigger] text[i]),
        forall|i: int| r.1 <= i < text.len() ==> class.has(#[trigger] text[i]),
        trimmed(text, class).len() > 0 ==> !class.has(trimmed(text, class)[0]) && !class.has(
            trimmed(text, class).last(),
        ),
{
    let a = lemma_start_found(text, class);
    let rest = trimmed_start(text, class);
    let n = lemma_end_found(rest, class);
    assert(trimmed(text, class) =~= text.subrange(a, a + n));
    assert forall|i: int| a + n <= i < text.len() implies class.has(#[trigger] text[i]) by {
        assert(rest[i - a] == text[i]);
    }
    (a, a + n)
}

proof fn lemma_start_found(text: Seq<char>, class: CharClass) -> (a: int)
    ensures
        0 <= a <= text.len(),
        trimmed_start(text, class) == text.skip(a),
        forall|i: int| 0 <= i < a ==> class.has(#[trigger] text[i]),
        a < text.len() ==> !class.has(text[a]),
    decreases text.len(),
{
    if text.len() > 0 && class.has(text[0]) {
        let rest = text.drop_first();
        let a = lemma_start_found(rest, class);
        assert(text.skip(a + 1) =~= rest.skip(a));
        assert forall|i: int| 0 <= i < a + 1 implies class.has(#[trigger] text[i]) by {
            if i > 0 {
                assert(rest[i - 1] == text[i]);
            }
        }
        a + 1
    } else {
        assert(text.skip(0) =~= text);
        0
    }
}

proof fn lemma_end_found(text: Seq<char>, class: CharClass) -> (n: int)
    ensures
        0 <= n <= text.len(),
        trimmed_end(text, class) == text.take(n),
        forall|i: int| n <= i < text.len() ==> class.has(#[trigger] text[i]),
        n > 0 ==> !class.has(text[n - 1]),
    decreases text.len(),
{
    if text.len() > 0 && class.has(text.last()) {
        let front = text.drop_last();
        let n = lemma_end_found(front, class);
        assert(text.take(n) =~= front.take(n));
        assert forall|i: int| n <= i < text.len() implies class.has(#[trigger] text[i]) by {
            if i < front.len() {
                assert(front[i] == text[i]);
            }
        }
        n
    } else {
        assert(text.take(text.len() as int) =~= text);
        text.len() as int
    }
}

proof fn lemma_joined_front(first: Seq<char>, rest: Seq<Seq<char>>, between: Seq<char>)
    requires
        rest.len() > 0,
    ensures
        joined(seq![first] + rest, between) == first + between + joined(rest, between),
    decreases rest.len(),
{
    let all = seq![first] + rest;
    if rest.len() == 1 {
        assert(all.drop_last() =~= seq![first]);
        assert(all.last() == rest[0]);
        assert(joined(seq![first], between) == first);
        assert(joined(rest, between) == rest[0]);
    } else {
        let front = rest.drop_last();
        lemma_joined_front(first, front, between);
        assert(all.drop_last() =~= seq![first] + front);
        assert(all.last() == rest.last());
        assert(first + between + joined(front, between) + between + rest.last() =~= first + between
            + (joined(front, between) + between + rest.last()));
    }
}

proof fn lemma_split_some(text: Seq<char>, c: char)
    ensures
        split_on(text, c).len() > 0,
{
}

/// Cutting a text loses nothing: its pieces, joined by the character at which it was cut,
/// are the text, and none of them holds that character.
pub proof fn law_pieces_make_the_text(text: Seq<char>, c: char)
    ensures
        joined(split_on(text, c), seq![c]) == text,
        forall|k: int| 0 <= k < split_on(text, c).len() ==> !(#[trigger] split_on(text, c)[k]).contains(c),
    decreases text.len(),
{
    let n = before_char(text, c);
    lemma_before_char(text, c);
    if n >= text.len() {
        assert(!text.contains(c));
    } else {
        let first = text.take(n as int);
        let rest = text.skip(n as int + 1);
        law_pieces_make_the_text(rest, c);
        lemma_split_some(rest, c);
        lemma_joined_front(first, split_on(rest, c), seq![c]);
        assert(first + seq![c] + rest =~= text);
        assert(!first.contains(c));
        let all = split_on(text, c);
        assert forall|k: int| 0 <= k < all.len() implies !(#[trigger] all[k]).contains(c) by {
            if k > 0 {
                assert(all[k] == split_on(rest, c)[k - 1]);
            }
        }
    }
}

/// The lines of a text hold all of it: where it has no carriage return, they are joined by
/// line feeds the text again, with one more at the end where it ends in one.
pub proof fn law_lines_make_the_text(text: Seq<char>)
    requires
        !text.contains('\r'),
    ensures
        text.len() > 0 && text.last() != '\n' ==> joined(lines(text), seq!['\n']) == text,
        text.len() > 0 && text.last() == '\n' ==> joined(lines(text), seq!['\n']) + seq!['\n']
            == text,
        text.len() == 0 <==> lines(text).len() == 0,
        forall|k: int| 0 <= k < lines(text).len() ==> !(#[trigger] lines(text)[k]).contains('\n'),
    decreases text.len(),
{
    let n = before_char(text, '\n');
    lemma_before_char(text, '\n');
    if text.len() > 0 {
        if n >= text.len() {
            assert(!text.contains('\n'));
            assert(text.last() == text[text.len() - 1]);
        } else {
            let first = text.take(n as int);
            let rest = text.skip(n as int + 1);
            assert(!rest.contains('\r')) by {
                if rest.contains('\r') {
                    let i = choose|i: int| 0 <= i < rest.len() && rest[i] == '\r';
                    assert(text[n as int + 1 + i] == '\r');
                }
            }
            if first.len() > 0 {
                assert(first.last() == text[n - 1]);
                assert(text.contains(text[n - 1]));
            }
            assert(without_return(first) == first);
            law_lines_make_the_text(rest);
            assert(first + seq!['\n'] + rest =~= text);
            let all = lines(text);
            if rest.len() > 0 {
                lemma_joined_front(first, lines(rest), seq!['\n']);
                assert(text.last() == rest.last());
                assert(first + seq!['\n'] + joined(lines(rest), seq!['\n']) + seq!['\n'] =~= first
                    + seq!['\n'] + (joined(lines(rest), seq!['\n']) + seq!['\n']));
            } else {
                assert(all =~= seq![first]);
                assert(text =~= first + seq!['\n']);
            }
            assert(!first.contains('\n'));
            assert forall|k: int| 0 <= k < all.len() implies !(#[trigger] all[k]).contains('\n') by {
                if k > 0 {
                    assert(all[k] == lines(rest)[k - 1]);
                }
            }
        }
    }
}

/// A carriage return before the line feed does not count to a line.
pub proof fn law_line_ends_do_not_count(line: Seq<char>, rest: Seq<char>)
    requires
        !line.contains('\n'),
    ensures
        lines(line + seq!['\r', '\n'] + rest) == seq![line] + lines(rest),
        line.len() == 0 || line.last() != '\r' ==> lines(line + seq!['\n'] + rest) == seq![line]
            + lines(rest),
{
    let whole = line + seq!['\r', '\n'] + rest;
    let n = line.len() + 1;
    assert forall|i: int| 0 <= i < n implies whole[i] != '\n' by {
        if i < line.len() {
            assert(line.contains(line[i]));
        }
    }
    lemma_before_char_is(whole, '\n', n as nat);
    assert(whole.take(n as int) =~= line.push('\r'));
    assert(line.push('\r').drop_last() =~= line);
    assert(whole.skip(n as int + 1) =~= rest);
    let plain = line + seq!['\n'] + rest;
    assert forall|i: int| 0 <= i < line.len() implies plain[i] != '\n' by {
        assert(line.contains(line[i]));
    }
    lemma_before_char_is(plain, '\n', line.len());
    assert(plain.take(line.len() as int) =~= line);
    assert(plain.skip(line.len() as int + 1) =~= rest);
}

/// The words of a text are its runs between white space: none is empty, and none holds
/// white space.
pub proof fn law_words_hold_no_white_space(text: Seq<char>, k: int, i: int)
    requires
        0 <= k < words(text).len(),
    ensures
        words(text)[k].len() > 0,
        0 <= i < words(text)[k].len() ==> !is_white(words(text)[k][i]),
    decreases text.len(),
{
    let rest = trimmed_start(text, CharClass::White);
    lemma_trimmed_start_shorter(text, CharClass::White);
    lemma_word_fits(rest);
    let a = lemma_start_found(text, CharClass::White);
    let n = word_len(rest) as int;
    lemma_word_is_plain(rest);
    if k == 0 {
        assert(words(text)[0] == rest.take(n));
    } else {
        assert(words(text)[k] == words(rest.skip(n))[k - 1]);
        law_words_hold_no_white_space(rest.skip(n), k - 1, i);
    }
}

proof fn lemma_word_is_plain(text: Seq<char>)
    ensures
        word_len(text) <= text.len(),
        forall|i: int| 0 <= i < word_len(text) ==> !is_white(#[trigger] text[i]),
        text.len() > 0 && !is_white(text[0]) ==> word_len(text) > 0,
    decreases text.len(),
{
    if text.len() > 0 && !is_white(text[0]) {
        let rest = text.drop_first();
        lemma_word_is_plain(rest);
        assert forall|i: int| 0 <= i < word_len(text) implies !is_white(#[trigger] text[i]) by {
            if i > 0 {
                assert(rest[i - 1] == text[i]);
            }
        }
    }
}

} // verus!
