//! Splits one line of input into command arguments, the way a shell would:
//! whitespace-separated, with single or double quotes letting a value contain
//! spaces (`SET greeting "hello world"`).
use crate::text::texts;
use vstd::prelude::*;

verus! {

/// Whether a character separates words: Unicode's `White_Space` property.
pub open spec fn whitespace(c: char) -> bool {
    ||| '\u{9}' <= c <= '\u{d}'
    ||| c == ' '
    ||| c == '\u{85}'
    ||| c == '\u{a0}'
    ||| c == '\u{1680}'
    ||| '\u{2000}' <= c <= '\u{200a}'
    ||| c == '\u{2028}'
    ||| c == '\u{2029}'
    ||| c == '\u{202f}'
    ||| c == '\u{205f}'
    ||| c == '\u{3000}'
}

/// Whether a character separates words.
pub fn is_whitespace(c: char) -> (r: bool)
    ensures
        r == whitespace(c),
{
    let n: u32 = c as u32;
    (0x9 <= n && n <= 0xd) || (0x2000 <= n && n <= 0x200a) || n == 0x20 || n == 0x85 || n == 0xa0
        || n == 0x1680 || n == 0x2028 || n == 0x2029 || n == 0x202f || n == 0x205f || n == 0x3000
}

/// Whether a character opens a quoted stretch.
pub open spec fn quote(c: char) -> bool {
    c == '\'' || c == '"'
}

/// The characters of a text.
pub fn chars_of(text: &str) -> (r: Vec<char>)
    ensures
        r@ == text@,
{
    let mut chars: Vec<char> = Vec::new();
    for c in it: text.chars()
        invariant
            it.seq() == text@,
            chars@ == text@.take(it.index() as int),
    {
        chars.push(c);
    }
    chars
}

/// The first place at or after `from` where `c` stands.
pub open spec fn place_of(line: Seq<char>, from: int, c: char) -> Option<int>
    decreases line.len() - from,
{
    if from >= line.len() {
        None
    } else if line[from] == c {
        Some(from)
    } else {
        place_of(line, from + 1, c)
    }
}

/// [`place_of`] is the first such place.
pub proof fn lemma_place_of(line: Seq<char>, from: int, c: char)
    ensures
        match place_of(line, from, c) {
            Some(i) => {
                &&& from <= i < line.len()
                &&& line[i] == c
                &&& forall|k: int| from <= k < i ==> #[trigger] line[k] != c
            },
            None => forall|k: int| from <= k < line.len() ==> #[trigger] line[k] != c,
        },
    decreases line.len() - from,
{
    if from < line.len() && line[from] != c {
        lemma_place_of(line, from + 1, c);
    }
}

/// The word at a place, and the place where it ends: plain characters and
/// quoted stretches up to whitespace. There is none where a quoted stretch is
/// not closed by the quote that opens it.
pub open spec fn word_at(line: Seq<char>, at: int) -> Option<(Seq<char>, int)>
    decreases line.len() - at,
{
    if at >= line.len() || whitespace(line[at]) {
        Some((Seq::empty(), at))
    } else if quote(line[at]) {
        proof {
            lemma_place_of(line, at + 1, line[at]);
        }
        match place_of(line, at + 1, line[at]) {
            Some(close) => put_before(line.subrange(at + 1, close), word_at(line, close + 1)),
            None => None,
        }
    } else {
        put_before(seq![line[at]], word_at(line, at + 1))
    }
}

/// A word with a text put before it.
pub open spec fn put_before(text: Seq<char>, word: Option<(Seq<char>, int)>) -> Option<
    (Seq<char>, int),
> {
    match word {
        Some((rest, end)) => Some((text + rest, end)),
        None => None,
    }
}

/// A word ends where it starts or later, and later where there is a character
/// for it.
pub proof fn lemma_word_at_ends_later(line: Seq<char>, at: int)
    requires
        0 <= at <= line.len(),
    ensures
        word_at(line, at) matches Some((_, end)) ==> at <= end <= line.len() && (at < line.len()
            && !whitespace(line[at]) ==> at < end),
    decreases line.len() - at,
{
    if at < line.len() && !whitespace(line[at]) {
        if quote(line[at]) {
            lemma_place_of(line, at + 1, line[at]);
            if let Some(close) = place_of(line, at + 1, line[at]) {
                lemma_word_at_ends_later(line, close + 1);
            }
        } else {
            lemma_word_at_ends_later(line, at + 1);
        }
    }
}

/// The words of a line from a place on. There are none where a quoted stretch
/// is not closed.
pub open spec fn words_from(line: Seq<char>, at: int) -> Option<Seq<Seq<char>>>
    decreases line.len() - at,
    when 0 <= at <= line.len()
{
    if at >= line.len() {
        Some(Seq::empty())
    } else if whitespace(line[at]) {
        words_from(line, at + 1)
    } else {
        proof {
            lemma_word_at_ends_later(line, at);
        }
        match word_at(line, at) {
            Some((word, end)) => put_first(seq![word], words_from(line, end)),
            None => None,
        }
    }
}

/// Words with others put before them.
pub open spec fn put_first(front: Seq<Seq<char>>, rest: Option<Seq<Seq<char>>>) -> Option<
    Seq<Seq<char>>,
> {
    match rest {
        Some(rest) => Some(front + rest),
        None => None,
    }
}

/// The words of a line.
pub open spec fn words(line: Seq<char>) -> Option<Seq<Seq<char>>> {
    words_from(line, 0)
}

/// Reads the word at a place.
fn read_word(line: &Vec<char>, start: usize) -> (r: Option<(String, usize)>)
    requires
        start <= line@.len(),
    ensures
        (match r {
            Some((word, end)) => Some((word@, end as int)),
            None => None,
        }) == word_at(line@, start as int),
{
    let mut word = String::new();
    let mut at: usize = start;
    while at < line.len() && !is_whitespace(line[at])
        invariant
            start <= at <= line@.len(),
            word_at(line@, start as int) == put_before(word@, word_at(line@, at as int)),
        decreases line@.len() - at,
    {
        let ghost before = word@;
        let c = line[at];
        let ghost first = at as int;
        if c == '\'' || c == '"' {
            at = at + 1;
            while at < line.len() && line[at] != c
                invariant
                    0 <= first < at <= line@.len(),
                    word@ == before + line@.subrange(first + 1, at as int),
                    place_of(line@, first + 1, c) == place_of(line@, at as int, c),
                decreases line@.len() - at,
            {
                word.push(line[at]);
                at = at + 1;
            }
            if at == line.len() {
                return None;
            }
        } else {
            word.push(c);
        }
        at = at + 1;
    }
    Some((word, at))
}

/// Splits a line into words.
pub fn tokenize(line: &str) -> (r: Result<Vec<String>, String>)
    ensures
        match r {
            Ok(tokens) => words(line@) == Some(texts(tokens@)),
            Err(msg) => words(line@) is None && msg@ == "unterminated quote"@,
        },
{
    let chars = chars_of(line);
    let mut tokens: Vec<String> = Vec::new();
    let mut at: usize = 0;
    while at < chars.len()
        invariant
            at <= line@.len(),
            chars@ == line@,
            words(line@) == put_first(texts(tokens@), words_from(line@, at as int)),
        decreases line@.len() - at,
    {
        if is_whitespace(chars[at]) {
            at = at + 1;
        } else {
            proof {
                lemma_word_at_ends_later(line@, at as int);
            }
            match read_word(&chars, at) {
                Some((word, end)) => {
                    tokens.push(word);
                    at = end;
                },
                None => {
                    return Err("unterminated quote".to_string());
                },
            }
        }
    }
    Ok(tokens)
}

} // verus!
