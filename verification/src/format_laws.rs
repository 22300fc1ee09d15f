//! What holds of shown replies as a whole: the numbers of a list are aligned, and
//! a list in a list stands behind its number.
use crate::format::{
    aligned, digits_of, number_text, numbered, numbered_line, numbered_lines, shown, shown_all,
    spaces,
};
use crate::number::signed_decimal;
use crate::protocol::Frame;
use crate::text::{debug_text, utf8_lossy};
use vstd::prelude::*;
use vstd::utf8::{decode_utf8, valid_utf8};

verus! {

/// A greater number has no fewer digits.
proof fn lemma_digits_grow(n: nat, m: nat)
    requires
        n <= m,
    ensures
        digits_of(n) <= digits_of(m),
    decreases m,
{
    if n >= 10 {
        lemma_digits_grow(n / 10, m / 10);
    }
}

/// The numbers of a list all take as many places as the last.
pub proof fn law_numbers_are_aligned(number: nat, count: nat)
    requires
        number <= count,
    ensures
        aligned(number, digits_of(count)).len() == digits_of(count),
{
    lemma_digits_grow(number, count);
}

/// The first line of a list has no margin.
pub proof fn law_the_first_line_has_no_margin(margin: Seq<char>, text: Seq<char>)
    ensures
        numbered(margin, seq![text]) == numbered_line(Seq::empty(), 1, 1, text),
{
}

/// A list in a list starts behind its number, and its other lines are indented
/// by what stands before the first.
pub proof fn law_a_list_in_a_list_stands_behind_its_number(inner: Frame, margin: Seq<char>)
    ensures
        shown(Frame::Array(Some(seq![inner])), margin) == "1) "@ + shown(inner, margin + spaces(3)),
{
    reveal_strlit("1) ");
    reveal_strlit(") ");
    let items = seq![inner];
    let wider = margin + spaces(digits_of(items.len()) + 2);
    assert(spaces(3) =~= spaces(digits_of(items.len()) + 2));
    assert(shown_all(items.drop_last(), wider) == Seq::<Seq<char>>::empty());
    assert(shown_all(items, wider) == shown_all(items.drop_last(), wider).push(
        shown(items.last(), wider),
    ));
    assert(shown(Frame::Array(Some(items)), margin) == numbered(margin, shown_all(items, wider)));
    assert(number_text(1) =~= seq!['1']);
    assert(numbered_line(Seq::empty(), 1, 1, shown(inner, wider)) =~= "1) "@ + shown(inner, wider));
}

/// A number is shown in the characters of its digits.
pub proof fn law_how_numbers_are_shown(n: int, i: int)
    ensures
        number_text(n).len() == signed_decimal(n).len(),
        0 <= i < number_text(n).len() ==> number_text(n)[i] == signed_decimal(n)[i] as char,
        n >= 0 ==> digits_of(n as nat) == number_text(n).len(),
{
}

/// How a value that is no list is shown.
pub proof fn law_how_values_are_shown(
    text: Seq<char>,
    n: i64,
    bytes: Seq<u8>,
    margin: Seq<char>,
)
    ensures
        shown(Frame::Simple(text), margin) == text,
        shown(Frame::Error(text), margin) == "(error) "@ + text,
        shown(Frame::Integer(n), margin) == "(integer) "@ + number_text(n as int),
        shown(Frame::Bulk(None), margin) == "(nil)"@,
        shown(Frame::Array(None), margin) == "(nil)"@,
        shown(Frame::Array(Some(Seq::empty())), margin) == "(empty array)"@,
        valid_utf8(bytes) ==> shown(Frame::Bulk(Some(bytes)), margin) == debug_text(
            decode_utf8(bytes),
        ),
        !valid_utf8(bytes) ==> shown(Frame::Bulk(Some(bytes)), margin) == debug_text(
            utf8_lossy(bytes),
        ),
{
}

/// The first lines of a list, one for each of `count` items: behind a line break
/// and the margin but for the first, the number of the item, right in `width`
/// places, a bracket and a space, and the item.
pub open spec fn listed(items: Seq<Frame>, count: nat, width: nat, margin: Seq<char>) -> Seq<char>
    decreases count,
{
    if count == 0 {
        Seq::empty()
    } else {
        let number = number_text(count as int);
        listed(items, (count - 1) as nat, width, margin) + (if count == 1 {
            Seq::empty()
        } else {
            seq!['\n'] + margin
        }) + Seq::new((width - number.len()) as nat, |i: int| ' ') + number + seq![')', ' ']
            + shown(items[count - 1], margin + Seq::new(width + 2, |i: int| ' '))
    }
}

/// A list is shown line by line, with the numbers as wide as the last.
pub proof fn law_how_lists_are_shown(items: Seq<Frame>, margin: Seq<char>)
    requires
        items.len() > 0,
    ensures
        shown(Frame::Array(Some(items)), margin) == listed(
            items,
            items.len(),
            number_text(items.len() as int).len(),
            margin,
        ),
{
    let width = digits_of(items.len());
    let wider = margin + spaces(width + 2);
    let texts = shown_all(items, wider);
    lemma_each_is_shown(items, wider);
    lemma_lines_are_listed(items, texts, items.len(), margin);
    assert(texts.take(items.len() as int) =~= texts);
    assert(shown(Frame::Array(Some(items)), margin) == numbered(margin, texts));
}

proof fn lemma_each_is_shown(items: Seq<Frame>, margin: Seq<char>)
    ensures
        shown_all(items, margin).len() == items.len(),
        forall|i: int|
            0 <= i < items.len() ==> #[trigger] shown_all(items, margin)[i] == shown(
                items[i],
                margin,
            ),
    decreases items.len(),
{
    if items.len() > 0 {
        lemma_each_is_shown(items.drop_last(), margin);
        assert(shown_all(items, margin) == shown_all(items.drop_last(), margin).push(
            shown(items.last(), margin),
        ));
    } else {
        assert(shown_all(items, margin) == Seq::<Seq<char>>::empty());
    }
}

proof fn lemma_lines_are_listed(
    items: Seq<Frame>,
    texts: Seq<Seq<char>>,
    count: nat,
    margin: Seq<char>,
)
    requires
        count <= items.len(),
        texts.len() == items.len(),
        forall|i: int|
            0 <= i < items.len() ==> #[trigger] texts[i] == shown(
                items[i],
                margin + spaces(digits_of(items.len()) + 2),
            ),
    ensures
        numbered_lines(margin, digits_of(items.len()), texts.take(count as int)) == listed(
            items,
            count,
            digits_of(items.len()),
            margin,
        ),
    decreases count,
{
    let width = digits_of(items.len());
    let some = texts.take(count as int);
    if count > 0 {
        reveal_strlit(") ");
        reveal_strlit("\n");
        lemma_lines_are_listed(items, texts, (count - 1) as nat, margin);
        lemma_digits_grow(count, items.len());
        assert(some.drop_last() =~= texts.take(count - 1));
        assert(some.last() == texts[count - 1]);
        let number = number_text(count as int);
        let pad = Seq::new((width - number.len()) as nat, |i: int| ' ');
        assert(aligned(count, width) =~= pad + number);
        let inner = margin + Seq::new(width + 2, |i: int| ' ');
        assert(inner =~= margin + spaces(width + 2));
        let before = listed(items, (count - 1) as nat, width, margin);
        if count == 1 {
            assert(before =~= Seq::<char>::empty());
        }
        assert(numbered_lines(margin, width, some) =~= listed(items, count, width, margin));
    }
}

} // verus!
