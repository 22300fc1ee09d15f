//! What holds of input lines as a whole: any argument that does not hold both
//! kinds of quote can be written on a line, and is read back from it.
use crate::text::texts;
use crate::tokenize::{
    lemma_place_of, lemma_word_at_ends_later, place_of, put_before, put_first, quote, whitespace,
    word_at, words, words_from,
};
use vstd::prelude::*;

verus! {

/// Whether a text can stand on a line without quotes.
pub open spec fn plain(text: Seq<char>) -> bool {
    text.len() > 0 && forall|i: int|
        0 <= i < text.len() ==> !whitespace(#[trigger] text[i]) && !quote(text[i])
}

/// A text between two quotes.
pub open spec fn quoted(text: Seq<char>, q: char) -> Seq<char> {
    seq![q] + text + seq![q]
}

/// Whether `written` is a way to write a text on a line: as it is, or between
/// quotes that do not occur in it.
pub open spec fn writes_as(text: Seq<char>, written: Seq<char>) -> bool {
    ||| plain(text) && written == text
    ||| !text.contains('"') && written == quoted(text, '"')
    ||| !text.contains('\'') && written == quoted(text, '\'')
}

/// Words on a line, each with a space after it.
pub open spec fn spaced(written: Seq<Seq<char>>) -> Seq<char>
    decreases written.len(),
{
    if written.len() == 0 {
        Seq::empty()
    } else {
        written[0] + seq![' '] + spaced(written.drop_first())
    }
}

proof fn lemma_place_of_shifts(a: Seq<char>, b: Seq<char>, from: int, c: char)
    requires
        0 <= from,
    ensures
        place_of(a + b, a.len() + from, c) == match place_of(b, from, c) {
            Some(i) => Some(a.len() + i),
            None => None,
        },
    decreases b.len() - from,
{
    if from < b.len() {
        if b[from] != c {
            lemma_place_of_shifts(a, b, from + 1, c);
        }
    }
}

proof fn lemma_word_at_shifts(a: Seq<char>, b: Seq<char>, at: int)
    requires
        0 <= at <= b.len(),
    ensures
        word_at(a + b, a.len() + at) == match word_at(b, at) {
            Some((word, end)) => Some((word, a.len() + end)),
            None => None,
        },
    decreases b.len() - at,
{
    if at < b.len() {
        if !whitespace(b[at]) {
            if quote(b[at]) {
                lemma_place_of(b, at + 1, b[at]);
                lemma_place_of_shifts(a, b, at + 1, b[at]);
                if let Some(close) = place_of(b, at + 1, b[at]) {
                    lemma_word_at_shifts(a, b, close + 1);
                }
            } else {
                lemma_word_at_shifts(a, b, at + 1);
            }
        }
    }
}

proof fn lemma_words_from_shifts(a: Seq<char>, b: Seq<char>, at: int)
    requires
        0 <= at <= b.len(),
    ensures
        words_from(a + b, a.len() + at) == words_from(b, at),
    decreases b.len() - at,
{
    if at < b.len() {
        if whitespace(b[at]) {
            lemma_words_from_shifts(a, b, at + 1);
        } else {
            lemma_word_at_ends_later(b, at);
            lemma_word_at_shifts(a, b, at);
            if let Some((_, end)) = word_at(b, at) {
                lemma_words_from_shifts(a, b, end);
            }
        }
    }
}

proof fn lemma_plain_word_is_read(line: Seq<char>, at: int, end: int)
    requires
        0 <= at <= end < line.len(),
        whitespace(line[end]),
        forall|i: int| at <= i < end ==> !whitespace(#[trigger] line[i]) && !quote(line[i]),
    ensures
        word_at(line, at) == Some((line.subrange(at, end), end)),
    decreases end - at,
{
    if at < end {
        lemma_plain_word_is_read(line, at + 1, end);
    }
}

proof fn lemma_written_word_is_read(text: Seq<char>, written: Seq<char>, rest: Seq<char>)
    requires
        writes_as(text, written),
    ensures
        word_at(written + seq![' '] + rest, 0) == Some((text, written.len() as int)),
        written.len() > 0,
        !whitespace(written[0]),
{
    let line = written + seq![' '] + rest;
    let end = written.len() as int;
    if plain(text) && written == text {
        lemma_plain_word_is_read(line, 0, end);
    } else {
        let q = written[0];
        lemma_place_of(line, 1, q);
        assert(line[end - 1] == q);
        assert(word_at(line, end) == Some((Seq::<char>::empty(), end)));
    }
}

/// Words that were written on a line are read back from it, and what follows
/// them after that.
pub proof fn law_what_is_written_is_read(
    texts: Seq<Seq<char>>,
    written: Seq<Seq<char>>,
    rest: Seq<char>,
)
    requires
        texts.len() == written.len(),
        forall|i: int| 0 <= i < texts.len() ==> writes_as(#[trigger] texts[i], written[i]),
    ensures
        words(spaced(written) + rest) == put_first(texts, words(rest)),
    decreases texts.len(),
{
    let line = spaced(written) + rest;
    if texts.len() == 0 {
    } else {
        let (first, more) = (written[0], spaced(written.drop_first()) + rest);
        assert(line =~= first + seq![' '] + more);
        lemma_written_word_is_read(texts[0], first, more);
        let head = first + seq![' '];
        let end = first.len() as int;
        lemma_words_from_shifts(head, more, 0);
        assert(words_from(line, end) == words_from(line, end + 1));
        let (tail, written_tail) = (texts.drop_first(), written.drop_first());
        law_what_is_written_is_read(tail, written_tail, rest);
    }
}

/// Whitespace at the front of a line does not matter.
pub proof fn law_leading_whitespace_does_not_matter(space: Seq<char>, line: Seq<char>)
    requires
        forall|i: int| 0 <= i < space.len() ==> whitespace(#[trigger] space[i]),
    ensures
        words(space + line) == words(line),
    decreases space.len(),
{
    if space.len() == 0 {
    } else {
        let tail = space.drop_first();
        law_leading_whitespace_does_not_matter(tail, line);
        assert(space + line =~= seq![space[0]] + (tail + line));
        lemma_words_from_shifts(seq![space[0]], tail + line, 0);
    }
}

/// A word ends where it does, whatever follows the whitespace behind its line.
proof fn lemma_word_at_extends(line: Seq<char>, more: Seq<char>, at: int)
    requires
        0 <= at <= line.len(),
        word_at(line, at) is Some,
    ensures
        word_at(line + seq![' '] + more, at) == word_at(line, at),
    decreases line.len() - at,
{
    let all = line + seq![' '] + more;
    if at == line.len() {
        assert(all[at] == ' ');
    } else {
        assert(all[at] == line[at]);
        if !whitespace(line[at]) {
            if quote(line[at]) {
                let q = line[at];
                lemma_place_of(line, at + 1, q);
                lemma_place_of(all, at + 1, q);
                let close = place_of(line, at + 1, q)->0;
                assert(all[close] == q);
                assert forall|k: int| at + 1 <= k < close implies #[trigger] all[k] != q by {
                    assert(all[k] == line[k]);
                }
                assert(place_of(all, at + 1, q) == Some(close));
                assert(all.subrange(at + 1, close) =~= line.subrange(at + 1, close));
                lemma_word_at_extends(line, more, close + 1);
            } else {
                lemma_word_at_extends(line, more, at + 1);
            }
        }
    }
}

proof fn lemma_words_from_extend(line: Seq<char>, more: Seq<char>, at: int)
    requires
        0 <= at <= line.len(),
        words_from(line, at) is Some,
    ensures
        words_from(line + seq![' '] + more, at) == put_first(words_from(line, at)->0, words(more)),
    decreases line.len() - at,
{
    let all = line + seq![' '] + more;
    if at == line.len() {
        assert(all[at] == ' ');
        lemma_words_from_shifts(line + seq![' '], more, 0);
        if let Some(others) = words(more) {
            assert(Seq::<Seq<char>>::empty() + others =~= others);
        }
    } else {
        assert(all[at] == line[at]);
        if whitespace(line[at]) {
            lemma_words_from_extend(line, more, at + 1);
        } else {
            lemma_word_at_ends_later(line, at);
            lemma_word_at_extends(line, more, at);
            let (word, end) = word_at(line, at)->0;
            lemma_words_from_extend(line, more, end);
            if let Some(others) = words(more) {
                let rest = words_from(line, end)->0;
                assert(seq![word] + (rest + others) =~= seq![word] + rest + others);
            }
        }
    }
}

/// The words of two lines with a space between them are those of the first and
/// then those of the second.
pub proof fn law_joined_lines_have_the_words_of_both(line: Seq<char>, more: Seq<char>)
    requires
        words(line) is Some,
    ensures
        words(line + seq![' '] + more) == put_first(words(line)->0, words(more)),
{
    lemma_words_from_extend(line, more, 0);
}

/// Which characters separate words, and which open a quoted stretch, by their
/// codes.
pub proof fn law_which_characters_separate(c: char)
    ensures
        ({
            let n = c as u32;
            &&& whitespace(c) <==> 9 <= n <= 13 || n == 32 || n == 133 || n == 160 || n == 5760
                || 8192 <= n <= 8202 || n == 8232 || n == 8233 || n == 8239 || n == 8287 || n
                == 12288
            &&& quote(c) <==> n == 34 || n == 39
        }),
{
}

/// Whether a line goes on with something that is not part of a word.
pub open spec fn separated(line: Seq<char>) -> bool {
    line.len() == 0 || whitespace(line[0])
}

/// Words, of which the first has a text put before it.
pub open spec fn first_longer(text: Seq<char>, words: Option<Seq<Seq<char>>>) -> Option<
    Seq<Seq<char>>,
> {
    match words {
        Some(words) => Some(words.update(0, text + words[0])),
        None => None,
    }
}

/// A stretch that puts a text into the word that it starts.
proof fn lemma_stretch(stretch: Seq<char>, text: Seq<char>, line: Seq<char>)
    requires
        stretch.len() > 0,
        !whitespace(stretch[0]),
        word_at(stretch + line, 0) == put_before(
            text,
            word_at(stretch + line, stretch.len() as int),
        ),
    ensures
        words(stretch + line) == if separated(line) {
            put_first(seq![text], words(line))
        } else {
            first_longer(text, words(line))
        },
{
    let all = stretch + line;
    let at = stretch.len() as int;
    assert(all[0] == stretch[0]);
    lemma_word_at_shifts(stretch, line, 0);
    lemma_word_at_ends_later(line, 0);
    if separated(line) {
        assert(text + Seq::<char>::empty() =~= text);
        lemma_words_from_shifts(stretch, line, 0);
    } else {
        if let Some((word, end)) = word_at(line, 0) {
            lemma_words_from_shifts(stretch, line, end);
            if let Some(others) = words_from(line, end) {
                assert((seq![word] + others).update(0, text + word) =~= seq![text + word] + others);
            }
        }
    }
}

/// An empty line has no words. A character that is no whitespace and no quote
/// is a word by itself before whitespace or the end of the line, and the start
/// of the next word otherwise.
pub proof fn law_plain_characters_make_words(c: char, line: Seq<char>)
    requires
        !whitespace(c),
        !quote(c),
    ensures
        words(Seq::empty()) == Some(Seq::<Seq<char>>::empty()),
        words(seq![c] + line) == if separated(line) {
            put_first(seq![seq![c]], words(line))
        } else {
            first_longer(seq![c], words(line))
        },
{
    let all = seq![c] + line;
    assert(all[0] == c);
    lemma_stretch(seq![c], seq![c], line);
}

/// A text between two quotes of one kind that do not occur in it is a word, or
/// the start of one, as it is, whitespace and all.
pub proof fn law_quoted_texts_make_words(q: char, text: Seq<char>, line: Seq<char>)
    requires
        quote(q),
        !text.contains(q),
    ensures
        words(quoted(text, q) + line) == if separated(line) {
            put_first(seq![text], words(line))
        } else {
            first_longer(text, words(line))
        },
{
    let stretch = quoted(text, q);
    let all = stretch + line;
    let close = text.len() + 1int;
    assert(all[0] == q);
    assert(all[close] == q);
    assert forall|k: int| 1 <= k < close implies #[trigger] all[k] != q by {
        assert(all[k] == text[k - 1]);
    }
    lemma_place_of(all, 1, q);
    assert(place_of(all, 1, q) == Some(close));
    assert(all.subrange(1, close) =~= text);
    lemma_stretch(stretch, text, line);
}

/// A quote that is not followed by another of its kind spoils its line.
pub proof fn law_an_open_quote_spoils_its_line(q: char, text: Seq<char>)
    requires
        quote(q),
        !text.contains(q),
    ensures
        words(seq![q] + text) is None,
{
    let all = seq![q] + text;
    assert(all[0] == q);
    lemma_place_of(all, 1, q);
    if let Some(i) = place_of(all, 1, q) {
        assert(text[i - 1] == q);
    }
}

/// Words with others before them are spoiled by what spoils the others.
pub proof fn law_how_words_are_put_together(front: Seq<Seq<char>>, rest: Seq<Seq<char>>)
    ensures
        put_first(front, Some(rest)) == Some(front + rest),
        put_first(front, None) is None,
{
}

/// What several strings hold is what each of them holds, in their order.
pub proof fn law_strings_hold_their_texts(strings: Seq<String>, i: int)
    ensures
        texts(strings).len() == strings.len(),
        0 <= i < strings.len() ==> texts(strings)[i] == strings[i]@,
{
}

} // verus!
