//! What cutting, joining and reading texts comes to.

use vstd::arithmetic::power::{lemma_pow0, lemma_pow1, lemma_pow_adds, pow};
use vstd::prelude::*;

use crate::text::{
    cut, decimal, fields, integer, is_digits, joined, lemma_cut_head_is_clean, lemma_cut_of_two,
    lemma_cut_rejoins, precedes, texts, without_repeats,
};

verus! {

/// Of two texts that part at some character the one with the lower character there
/// comes first.
pub proof fn law_first_difference_decides(
    start: Seq<char>,
    x: char,
    a: Seq<char>,
    y: char,
    b: Seq<char>,
)
    requires
        x < y,
    ensures
        precedes(start + seq![x] + a, start + seq![y] + b),
        !precedes(start + seq![y] + b, start + seq![x] + a),
    decreases start.len(),
{
    let low = start + seq![x] + a;
    let high = start + seq![y] + b;
    if start.len() > 0 {
        let rest = start.drop_first();
        law_first_difference_decides(rest, x, a, y, b);
        assert(low.drop_first() =~= rest + seq![x] + a);
        assert(high.drop_first() =~= rest + seq![y] + b);
    }
}

/// A text comes before every longer text that starts with it.
pub proof fn law_beginnings_come_first(start: Seq<char>, more: Seq<char>)
    requires
        more.len() > 0,
    ensures
        precedes(start, start + more),
        !precedes(start + more, start),
    decreases start.len(),
{
    if start.len() > 0 {
        law_beginnings_come_first(start.drop_first(), more);
        assert((start + more).drop_first() =~= start.drop_first() + more);
    }
}

/// A text is cut exactly where it holds the separator, and then at the first one.
pub proof fn law_cut_is_at_the_first_separator(s: Seq<char>, sep: char)
    ensures
        s.contains(sep) ==> {
            &&& cut(s, sep) is Some
            &&& s == (cut(s, sep)->0).0 + seq![sep] + (cut(s, sep)->0).1
            &&& !(cut(s, sep)->0).0.contains(sep)
        },
        !s.contains(sep) ==> cut(s, sep) is None,
{
    lemma_cut_rejoins(s, sep);
    lemma_cut_head_is_clean(s, sep);
    if let Some((head, tail)) = cut(s, sep) {
        assert((head + seq![sep] + tail)[head.len() as int] == sep);
    }
}

/// The fields of a text: what stands before the first separator, and then the fields of
/// what stands behind it; a text without separator is its only field.
pub proof fn law_fields_go_from_separator_to_separator(head: Seq<char>, sep: char, tail: Seq<char>)
    requires
        !head.contains(sep),
    ensures
        fields(head, sep) == seq![head],
        fields(head + seq![sep] + tail, sep) == seq![head] + fields(tail, sep),
{
    lemma_cut_of_two(head, sep, tail);
    law_cut_is_at_the_first_separator(head, sep);
}

/// Joining one more text puts the separator and the text behind what was joined before.
pub proof fn law_joining_one_more(parts: Seq<Seq<char>>, part: Seq<char>, sep: Seq<char>)
    ensures
        joined(Seq::empty(), sep) == Seq::<char>::empty(),
        joined(seq![part], sep) == part,
        parts.len() > 0 ==> joined(parts.push(part), sep) == joined(parts, sep) + sep + part,
{
    assert(parts.push(part).drop_last() =~= parts);
}

/// A text is left out exactly where it repeats the one just before it.
pub proof fn law_only_repeats_are_left_out(parts: Seq<Seq<char>>, part: Seq<char>)
    ensures
        without_repeats(Seq::empty()) == Seq::<Seq<char>>::empty(),
        without_repeats(seq![part]) == seq![part],
        parts.len() > 0 && parts.last() == part ==> without_repeats(parts.push(part))
            == without_repeats(parts),
        parts.len() > 0 && parts.last() != part ==> without_repeats(parts.push(part))
            == without_repeats(parts).push(part),
{
    assert(parts.push(part).drop_last() =~= parts);
}

/// What a list of strings holds are its strings, one by one.
pub proof fn law_texts_are_one_by_one(strings: Seq<String>)
    ensures
        texts(strings).len() == strings.len(),
        forall|i: int| 0 <= i < strings.len() ==> #[trigger] texts(strings)[i] == strings[i]@,
{
}

/// Whether a text is one or more digits.
pub open spec fn only_digits(s: Seq<char>) -> bool {
    s.len() > 0 && forall|i: int|
        0 <= i < s.len() ==> 48 <= (#[trigger] s[i]) as int && s[i] as int <= 57
}

/// What digits are worth by their places, from the highest down.
pub open spec fn place_value(digits: Seq<char>) -> int
    decreases digits.len(),
{
    if digits.len() == 0 {
        0
    } else {
        (digits[0] as int - 48) * pow(10, (digits.len() - 1) as nat) + place_value(
            digits.drop_first(),
        )
    }
}

/// Whether `text` is an optional sign and then digits that are worth `value`.
pub open spec fn writes(text: Seq<char>, value: int) -> bool {
    ||| only_digits(text) && value == place_value(text)
    ||| text.len() > 0 && text[0] == '+' && only_digits(text.drop_first()) && value == place_value(
        text.drop_first(),
    )
    ||| text.len() > 0 && text[0] == '-' && only_digits(text.drop_first()) && value
        == -place_value(text.drop_first())
}

proof fn lemma_decimal_front(digits: Seq<char>)
    requires
        digits.len() > 0,
    ensures
        decimal(digits) == (digits[0] as int - 48) * pow(10, (digits.len() - 1) as nat) + decimal(
            digits.drop_first(),
        ),
    decreases digits.len(),
{
    let n = digits.len();
    let first = digits[0] as int - 48;
    if n == 1 {
        lemma_pow0(10);
        assert(digits.drop_last() =~= Seq::<char>::empty());
        assert(digits.drop_first() =~= Seq::<char>::empty());
        assert(first * 1 == first);
    } else {
        let front = digits.drop_last();
        let rest = digits.drop_first();
        let last = digits.last() as int - 48;
        lemma_decimal_front(front);
        assert(front.drop_first() =~= rest.drop_last());
        assert(rest.last() == digits.last());
        let p = pow(10, (n - 2) as nat);
        lemma_pow_adds(10, (n - 2) as nat, 1);
        lemma_pow1(10);
        assert(pow(10, (n - 1) as nat) == p * 10);
        let inner = decimal(front.drop_first());
        assert(decimal(digits) == decimal(front) * 10 + last);
        assert((first * p + inner) * 10 + last == first * (p * 10) + (inner * 10 + last))
            by (nonlinear_arith);
    }
}

proof fn lemma_decimal_is_place_value(digits: Seq<char>)
    ensures
        decimal(digits) == place_value(digits),
    decreases digits.len(),
{
    if digits.len() > 0 {
        lemma_decimal_front(digits);
        lemma_decimal_is_place_value(digits.drop_first());
    }
}

proof fn lemma_only_digits(s: Seq<char>)
    ensures
        is_digits(s) == only_digits(s),
{
    if is_digits(s) {
        assert forall|i: int| 0 <= i < s.len() implies 48 <= (#[trigger] s[i]) as int && s[i] as int
            <= 57 by {
            assert('0' <= s[i] <= '9');
        }
    }
}

/// A text is read as an integer exactly where it writes one that fits 64 bits.
pub proof fn law_integer_is_what_is_written(text: Seq<char>)
    ensures
        forall|value: int| #[trigger]
            writes(text, value) && i64::MIN <= value <= i64::MAX ==> integer(text) == Some(value),
        integer(text) matches Some(value) ==> writes(text, value) && i64::MIN <= value <= i64::MAX,
{
    lemma_only_digits(text);
    lemma_decimal_is_place_value(text);
    if text.len() > 0 {
        lemma_only_digits(text.drop_first());
        lemma_decimal_is_place_value(text.drop_first());
    }
}

} // verus!
