//! What holds of input lines as a whole: the whitespace around a line does not
//! matter.
use crate::command::{read_arguments, Command};
use crate::repl::{encoded, plan, trim_end, trim_front, trimmed, Action, Plan};
use crate::text::ascii_lower;
use crate::tokenize::{whitespace, words};
use vstd::prelude::*;
use vstd::utf8::encode_utf8;

verus! {

/// Whether a text is nothing but whitespace.
pub open spec fn blank(text: Seq<char>) -> bool {
    forall|i: int| 0 <= i < text.len() ==> whitespace(#[trigger] text[i])
}

proof fn lemma_trim_front(space: Seq<char>, text: Seq<char>)
    requires
        blank(space),
    ensures
        trim_front(space + text) == trim_front(text),
    decreases space.len(),
{
    if space.len() == 0 {
    } else {
        assert((space + text).drop_first() =~= space.drop_first() + text);
        lemma_trim_front(space.drop_first(), text);
    }
}

proof fn lemma_trim_end(text: Seq<char>, space: Seq<char>)
    requires
        blank(space),
    ensures
        trim_end(text + space) == trim_end(text),
    decreases space.len(),
{
    if space.len() == 0 {
    } else {
        assert((text + space).drop_last() =~= text + space.drop_last());
        lemma_trim_end(text, space.drop_last());
    }
}

proof fn lemma_trim_front_keeps_the_end(text: Seq<char>, space: Seq<char>)
    requires
        blank(space),
    ensures
        trim_end(trim_front(text + space)) == trim_end(trim_front(text)),
    decreases text.len(),
{
    let line = text + space;
    if text.len() == 0 {
        lemma_trim_front(space, Seq::empty());
    } else {
        if whitespace(text[0]) {
            assert(line.drop_first() =~= text.drop_first() + space);
            lemma_trim_front_keeps_the_end(text.drop_first(), space);
        } else {
            lemma_trim_end(text, space);
        }
    }
}

/// Whitespace around a line does not change what is done about it.
pub proof fn law_whitespace_around_a_line_does_not_matter(
    front: Seq<char>,
    line: Seq<char>,
    end: Seq<char>,
)
    requires
        blank(front),
        blank(end),
    ensures
        trimmed(front + line + end) == trimmed(line),
        plan(front + line + end) == plan(line),
{
    assert(front + line + end =~= front + (line + end));
    lemma_trim_front(front, line + end);
    lemma_trim_front_keeps_the_end(line, end);
}

/// A blank line is passed over.
pub proof fn law_a_blank_line_is_passed_over(line: Seq<char>)
    requires
        blank(line),
    ensures
        plan(line) == plan(Seq::empty()),
        plan(line) is Skip,
{
    lemma_trim_front(line, Seq::empty());
}

/// Trimming takes away the whitespace around a text, and no more.
pub proof fn law_trimming_takes_the_whitespace_around(
    front: Seq<char>,
    text: Seq<char>,
    end: Seq<char>,
)
    requires
        blank(front),
        blank(end),
        text.len() > 0 ==> !whitespace(text[0]) && !whitespace(text.last()),
    ensures
        trimmed(front + text + end) == text,
{
    law_whitespace_around_a_line_does_not_matter(front, text, end);
}

/// What is done about a line: a blank one is passed over, `quit` and `exit` in
/// either case end the session, and the words of any other are a command, which
/// is sent, or are no command, which is reported.
pub proof fn law_what_is_done_about_a_line(line: Seq<char>)
    ensures
        ({
            let text = trimmed(line);
            &&& text.len() == 0 ==> plan(line) == Plan::Skip
            &&& ascii_lower(text) == "quit"@ || ascii_lower(text) == "exit"@ ==> plan(line)
                == Plan::Quit || text.len() == 0
            &&& text.len() > 0 && ascii_lower(text) != "quit"@ && ascii_lower(text) != "exit"@
                ==> match words(text) {
                None => plan(line) == Plan::Report("unterminated quote"@),
                Some(args) => match read_arguments(encoded(args)) {
                    Ok(order) => plan(line) == Plan::Call(order),
                    Err(complaint) => plan(line) == Plan::Report(complaint),
                },
            }
        }),
{
}

/// The words of a line are sent as UTF-8.
pub proof fn law_words_are_sent_as_utf8(args: Seq<Seq<char>>, i: int)
    ensures
        encoded(args).len() == args.len(),
        0 <= i < args.len() ==> encoded(args)[i] == encode_utf8(args[i]),
{
}

/// An action is what it was made of.
pub proof fn law_an_action_is_what_it_was_made_of(msg: String, command: Command)
    ensures
        Action::Skip@ == Plan::Skip,
        Action::Quit@ == Plan::Quit,
        Action::Report(msg)@ == Plan::Report(msg@),
        Action::Call(command)@ == Plan::Call(command@),
{
}

} // verus!
