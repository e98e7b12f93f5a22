//! Character-level helpers: comparing, splitting, joining and reading integers.

use vstd::prelude::*;
use vstd::string::*;

verus! {

/// The characters of `s`, in order.
pub(crate) fn chars_of(s: &str) -> (chars: Vec<char>)
    ensures
        chars@ == s@,
{
    let mut chars: Vec<char> = Vec::new();
    for c in it: s.chars()
        invariant
            it.seq() == s@,
            chars@ == s@.take(it.index() as int),
    {
        chars.push(c);
        assert(s@.take(it.index() as int).push(c) =~= s@.take(it.index() + 1));
    }
    assert(s@.take(s@.len() as int) =~= s@);
    chars
}

/// Strict lexicographic order on character sequences.
pub open spec fn precedes(a: Seq<char>, b: Seq<char>) -> bool
    decreases a.len(),
{
    if b.len() == 0 {
        false
    } else if a.len() == 0 {
        true
    } else if a[0] == b[0] {
        precedes(a.drop_first(), b.drop_first())
    } else {
        a[0] < b[0]
    }
}

/// How one text stands to another in the lexicographic order.
#[derive(Clone, Copy, PartialEq, Eq, Structural)]
pub enum Placement {
    Before,
    Same,
    After,
}

/// Places `a` relative to `b`.
pub fn place(a: &str, b: &str) -> (p: Placement)
    ensures
        p == Placement::Before <==> precedes(a@, b@),
        p == Placement::Same <==> a@ == b@,
        p == Placement::After <==> precedes(b@, a@),
{
    let xs = chars_of(a);
    let ys = chars_of(b);
    let mut i: usize = 0;
    assert(a@.skip(0) =~= a@ && b@.skip(0) =~= b@);
    proof {
        lemma_precedes_irreflexive(a@);
    }
    while i < xs.len() && i < ys.len() && xs[i] == ys[i]
        invariant
            xs@ == a@,
            ys@ == b@,
            i <= xs.len(),
            i <= ys.len(),
            a@.take(i as int) == b@.take(i as int),
            precedes(a@, b@) == precedes(a@.skip(i as int), b@.skip(i as int)),
            precedes(b@, a@) == precedes(b@.skip(i as int), a@.skip(i as int)),
        decreases xs.len() - i,
    {
        assert(a@.skip(i as int).drop_first() =~= a@.skip(i + 1));
        assert(b@.skip(i as int).drop_first() =~= b@.skip(i + 1));
        assert(a@.take(i + 1) =~= a@.take(i as int).push(a@[i as int]));
        assert(b@.take(i + 1) =~= b@.take(i as int).push(b@[i as int]));
        i = i + 1;
    }
    if i == xs.len() {
        if i == ys.len() {
            assert(a@ =~= a@.take(i as int) && b@ =~= b@.take(i as int));
            Placement::Same
        } else {
            Placement::Before
        }
    } else if i == ys.len() {
        Placement::After
    } else if xs[i] < ys[i] {
        Placement::Before
    } else {
        Placement::After
    }
}

/// No text precedes itself.
pub proof fn lemma_precedes_irreflexive(a: Seq<char>)
    ensures
        !precedes(a, a),
    decreases a.len(),
{
    if a.len() > 0 {
        lemma_precedes_irreflexive(a.drop_first());
    }
}

/// The order on texts is transitive.
pub proof fn lemma_precedes_transitive(a: Seq<char>, b: Seq<char>, c: Seq<char>)
    requires
        precedes(a, b),
        precedes(b, c),
    ensures
        precedes(a, c),
    decreases a.len(),
{
    if a.len() > 0 && a[0] == b[0] && b[0] == c[0] {
        lemma_precedes_transitive(a.drop_first(), b.drop_first(), c.drop_first());
    }
}

/// Whether the two texts hold the same characters.
pub fn same_text(a: &str, b: &str) -> (same: bool)
    ensures
        same == (a@ == b@),
{
    place(a, b) == Placement::Same
}

/// How many characters stand before the first `sep`; all of them where there is none.
pub open spec fn first_index(s: Seq<char>, sep: char) -> int
    decreases s.len(),
{
    if s.len() == 0 || s[0] == sep {
        0
    } else {
        1 + first_index(s.drop_first(), sep)
    }
}

/// The text before and the text behind the first `sep`, where there is one.
pub open spec fn cut(s: Seq<char>, sep: char) -> Option<(Seq<char>, Seq<char>)> {
    let i = first_index(s, sep);
    if i < s.len() {
        Some((s.take(i), s.skip(i + 1)))
    } else {
        None
    }
}

proof fn lemma_first_index(s: Seq<char>, sep: char)
    ensures
        0 <= first_index(s, sep) <= s.len(),
        first_index(s, sep) < s.len() ==> s[first_index(s, sep)] == sep,
    decreases s.len(),
{
    if s.len() > 0 && s[0] != sep {
        lemma_first_index(s.drop_first(), sep);
    }
}

/// Cutting a text loses only the separator.
pub proof fn lemma_cut_rejoins(s: Seq<char>, sep: char)
    ensures
        cut(s, sep) matches Some((head, tail)) ==> s == head + seq![sep] + tail,
{
    lemma_first_index(s, sep);
    if let Some((head, tail)) = cut(s, sep) {
        assert(s =~= head + seq![sep] + tail);
    }
}

/// The part before a cut holds no separator.
pub proof fn lemma_cut_head_is_clean(s: Seq<char>, sep: char)
    ensures
        cut(s, sep) matches Some((head, _)) ==> !head.contains(sep),
        cut(s, sep) is None ==> !s.contains(sep),
    decreases s.len(),
{
    lemma_first_index(s, sep);
    if s.len() > 0 && s[0] != sep {
        let rest = s.drop_first();
        lemma_first_index(rest, sep);
        lemma_cut_head_is_clean(rest, sep);
        if let Some((head, _)) = cut(s, sep) {
            let inner = rest.take(first_index(rest, sep));
            assert(cut(rest, sep) is Some);
            assert forall|j: int| 0 <= j < head.len() implies head[j] != sep by {
                if j > 0 {
                    assert(head[j] == inner[j - 1]);
                    assert(inner.contains(inner[j - 1]));
                }
            }
        } else {
            assert forall|j: int| 0 <= j < s.len() implies s[j] != sep by {
                if j > 0 {
                    assert(s[j] == rest[j - 1]);
                    assert(rest.contains(rest[j - 1]));
                }
            }
        }
    }
}

/// A text that was put together around a separator is cut into the same two parts,
/// where the first holds no separator.
pub proof fn lemma_cut_of_two(head: Seq<char>, sep: char, tail: Seq<char>)
    requires
        !head.contains(sep),
    ensures
        cut(head + seq![sep] + tail, sep) == Some((head, tail)),
    decreases head.len(),
{
    let whole = head + seq![sep] + tail;
    if head.len() == 0 {
        assert(whole[0] == sep);
    } else {
        let rest = head.drop_first();
        assert(head.contains(head[0]));
        assert(!rest.contains(sep)) by {
            if rest.contains(sep) {
                let j = choose|j: int| 0 <= j < rest.len() && rest[j] == sep;
                assert(head[j + 1] == sep);
            }
        }
        lemma_cut_of_two(rest, sep, tail);
        assert(whole.drop_first() =~= rest + seq![sep] + tail);
        lemma_first_index(whole.drop_first(), sep);
        let inner = rest + seq![sep] + tail;
        let i = first_index(inner, sep);
        assert(inner.take(i) == rest);
        assert(inner.take(i).len() == i);
        assert(i == rest.len());
    }
    assert(first_index(whole, sep) == head.len());
    assert(whole.take(head.len() as int) =~= head);
    assert(whole.skip(head.len() as int + 1) =~= tail);
}

/// Cuts `s` at the first `sep`.
pub fn split_once(s: &str, sep: char) -> (parts: Option<(String, String)>)
    ensures
        match parts {
            Some((head, tail)) => cut(s@, sep) == Some((head@, tail@)),
            None => cut(s@, sep) is None,
        },
        match parts {
            Some((head, tail)) => s@ == head@ + seq![sep] + tail@ && !head@.contains(sep),
            None => !s@.contains(sep),
        },
{
    let n = s.unicode_len();
    let chars = chars_of(s);
    let mut i: usize = 0;
    proof {
        lemma_cut_rejoins(s@, sep);
        lemma_cut_head_is_clean(s@, sep);
    }
    assert(s@.skip(0) =~= s@);
    while i < chars.len() && chars[i] != sep
        invariant
            chars@ == s@,
            i <= chars.len(),
            first_index(s@, sep) == i + first_index(s@.skip(i as int), sep),
        decreases chars.len() - i,
    {
        assert(s@.skip(i as int).drop_first() =~= s@.skip(i + 1));
        i = i + 1;
    }
    if i < chars.len() {
        let head = s.substring_char(0, i).to_owned();
        let tail = s.substring_char(i + 1, n).to_owned();
        assert(s@.subrange(0, i as int) =~= s@.take(i as int));
        assert(s@.subrange(i + 1, n as int) =~= s@.skip(i + 1));
        Some((head, tail))
    } else {
        None
    }
}

/// The texts between the separators of `s`, in order; at least one, some maybe empty.
pub open spec fn fields(s: Seq<char>, sep: char) -> Seq<Seq<char>>
    decreases s.len(),
    via fields_decreases
{
    match cut(s, sep) {
        Some((head, tail)) => seq![head] + fields(tail, sep),
        None => seq![s],
    }
}

#[via_fn]
proof fn fields_decreases(s: Seq<char>, sep: char) {
    lemma_first_index(s, sep);
}

/// What the strings of a list hold.
pub open spec fn texts(strings: Seq<String>) -> Seq<Seq<char>> {
    strings.map_values(|s: String| s@)
}

/// Cuts `s` at every `sep`.
pub fn split_all(s: &str, sep: char) -> (parts: Vec<String>)
    ensures
        texts(parts@) == fields(s@, sep),
{
    let mut parts: Vec<String> = Vec::new();
    let mut rest: String = s.to_owned();
    assert(texts(parts@) + fields(rest@, sep) =~= fields(s@, sep));
    loop
        invariant
            texts(parts@) + fields(rest@, sep) == fields(s@, sep),
        decreases rest@.len(),
    {
        match split_once(rest.as_str(), sep) {
            Some((head, tail)) => {
                proof {
                    lemma_first_index(rest@, sep);
                    assert(texts(parts@.push(head)) =~= texts(parts@).push(head@));
                    assert(texts(parts@) + (seq![head@] + fields(tail@, sep)) =~= texts(
                        parts@,
                    ).push(head@) + fields(tail@, sep));
                }
                parts.push(head);
                rest = tail;
            },
            None => {
                assert(texts(parts@.push(rest)) =~= texts(parts@) + seq![rest@]);
                parts.push(rest);
                return parts;
            },
        }
    }
}

/// The texts one after the other, with `sep` between neighbours.
pub open spec fn joined(parts: Seq<Seq<char>>, sep: Seq<char>) -> Seq<char>
    decreases parts.len(),
{
    if parts.len() == 0 {
        Seq::empty()
    } else if parts.len() == 1 {
        parts[0]
    } else {
        joined(parts.drop_last(), sep) + sep + parts.last()
    }
}

pub(crate) proof fn lemma_joined_front(first: Seq<char>, parts: Seq<Seq<char>>, sep: Seq<char>)
    requires
        parts.len() > 0,
    ensures
        joined(seq![first] + parts, sep) == first + sep + joined(parts, sep),
    decreases parts.len(),
{
    let whole = seq![first] + parts;
    assert(whole.drop_last() =~= seq![first] + parts.drop_last());
    assert(whole.last() == parts.last());
    if parts.len() == 1 {
        assert(whole.drop_last() =~= seq![first]);
        assert(joined(seq![first], sep) == first);
        assert(joined(whole, sep) =~= first + sep + joined(parts, sep));
    } else {
        lemma_joined_front(first, parts.drop_last(), sep);
        assert(joined(whole, sep) =~= first + sep + joined(parts, sep));
    }
}

/// Joining the fields of a text by its separator gives the text back.
pub proof fn lemma_fields_rejoin(s: Seq<char>, sep: char)
    ensures
        joined(fields(s, sep), seq![sep]) == s,
    decreases s.len(),
{
    lemma_first_index(s, sep);
    if let Some((head, tail)) = cut(s, sep) {
        lemma_fields_rejoin(tail, sep);
        lemma_joined_front(head, fields(tail, sep), seq![sep]);
        lemma_cut_rejoins(s, sep);
    }
}

/// Joins strings, with `sep` between neighbours.
pub fn join(parts: &Vec<String>, sep: &str) -> (whole: String)
    ensures
        whole@ == joined(texts(parts@), sep@),
{
    let mut whole: String = String::new();
    let mut i: usize = 0;
    let ghost all = texts(parts@);
    while i < parts.len()
        invariant
            all == texts(parts@),
            i <= parts.len(),
            whole@ == joined(all.take(i as int), sep@),
        decreases parts.len() - i,
    {
        assert(all.take(i + 1).drop_last() =~= all.take(i as int));
        assert(all[i as int] == parts@[i as int]@);
        if i > 0 {
            whole.append(sep);
        } else {
            assert(whole@ + parts@[i as int]@ =~= parts@[i as int]@);
        }
        whole.append(parts[i].as_str());
        i = i + 1;
    }
    assert(all.take(i as int) =~= all);
    whole
}

/// The texts without those that repeat their left neighbour.
pub open spec fn without_repeats(parts: Seq<Seq<char>>) -> Seq<Seq<char>>
    decreases parts.len(),
{
    if parts.len() < 2 {
        parts
    } else if parts.last() == parts[parts.len() - 2] {
        without_repeats(parts.drop_last())
    } else {
        without_repeats(parts.drop_last()).push(parts.last())
    }
}

proof fn lemma_without_repeats_ends(parts: Seq<Seq<char>>)
    requires
        parts.len() > 0,
    ensures
        without_repeats(parts).len() > 0,
        without_repeats(parts).last() == parts.last(),
    decreases parts.len(),
{
    if parts.len() >= 2 {
        lemma_without_repeats_ends(parts.drop_last());
    }
}

/// Of texts without repeats no two neighbours are the same, and every text occurs
/// that occurred before.
pub proof fn lemma_without_repeats(parts: Seq<Seq<char>>)
    ensures
        forall|i: int|
            0 < i < without_repeats(parts).len() ==> #[trigger] without_repeats(parts)[i]
                != without_repeats(parts)[i - 1],
        forall|t: Seq<char>| #[trigger]
            without_repeats(parts).contains(t) <==> parts.contains(t),
    decreases parts.len(),
{
    if parts.len() >= 2 {
        let front = parts.drop_last();
        let kept = without_repeats(front);
        lemma_without_repeats(front);
        lemma_without_repeats_ends(front);
        assert(parts =~= front.push(parts.last()));
        assert forall|t: Seq<char>| #[trigger]
            without_repeats(parts).contains(t) <==> parts.contains(t) by {
            assert(kept.contains(t) <==> front.contains(t));
            assert(parts.contains(t) <==> front.contains(t) || t == parts.last()) by {
                if front.contains(t) {
                    let i = choose|i: int| 0 <= i < front.len() && front[i] == t;
                    assert(parts[i] == t);
                }
                assert(parts[parts.len() - 1] == parts.last());
                if parts.contains(t) && t != parts.last() {
                    let i = choose|i: int| 0 <= i < parts.len() && parts[i] == t;
                    assert(front[i] == t);
                }
            }
            if parts.last() == parts[parts.len() - 2] {
                assert(front[front.len() - 1] == parts.last());
            } else {
                let longer = kept.push(parts.last());
                assert(longer[longer.len() - 1] == parts.last());
                if kept.contains(t) {
                    let i = choose|i: int| 0 <= i < kept.len() && kept[i] == t;
                    assert(longer[i] == t);
                }
                if longer.contains(t) && t != parts.last() {
                    let i = choose|i: int| 0 <= i < longer.len() && longer[i] == t;
                    assert(kept[i] == t);
                }
            }
        }
    }
}

/// Copies strings, leaving out those that repeat their left neighbour.
pub fn dedup(parts: &Vec<String>) -> (kept: Vec<String>)
    ensures
        texts(kept@) == without_repeats(texts(parts@)),
{
    let mut kept: Vec<String> = Vec::new();
    let mut i: usize = 0;
    let ghost all = texts(parts@);
    assert(texts(kept@) =~= without_repeats(all.take(0)));
    while i < parts.len()
        invariant
            all == texts(parts@),
            i <= parts.len(),
            texts(kept@) == without_repeats(all.take(i as int)),
        decreases parts.len() - i,
    {
        assert(all.take(i + 1).drop_last() =~= all.take(i as int));
        let copy = parts[i].clone();
        assert(texts(kept@.push(copy)) =~= texts(kept@).push(copy@));
        assert(all[i as int] == copy@);
        if i == 0 || !same_text(parts[i].as_str(), parts[i - 1].as_str()) {
            assert(i == 0 ==> texts(kept@).push(copy@) =~= all.take(1));
            kept.push(copy);
        }
        i = i + 1;
    }
    assert(all.take(i as int) =~= all);
    kept
}

/// Whether `s` is one or more decimal digits.
pub open spec fn is_digits(s: Seq<char>) -> bool {
    s.len() > 0 && forall|i: int| 0 <= i < s.len() ==> '0' <= #[trigger] s[i] <= '9'
}

/// The value of a row of decimal digits.
pub open spec fn decimal(s: Seq<char>) -> int
    decreases s.len(),
{
    if s.len() == 0 {
        0
    } else {
        decimal(s.drop_last()) * 10 + (s.last() as int - '0' as int)
    }
}

/// The integer that `s` writes: an optional sign and then digits, within the range of
/// `i64`.
pub open spec fn integer(s: Seq<char>) -> Option<int> {
    let signed = s.len() > 0 && (s[0] == '-' || s[0] == '+');
    let digits = if signed {
        s.drop_first()
    } else {
        s
    };
    let value = if signed && s[0] == '-' {
        -decimal(digits)
    } else {
        decimal(digits)
    };
    if is_digits(digits) && i64::MIN <= value <= i64::MAX {
        Some(value)
    } else {
        None
    }
}

proof fn lemma_decimal_grows(s: Seq<char>, i: int)
    requires
        is_digits(s),
        0 <= i <= s.len(),
    ensures
        0 <= decimal(s.take(i)) <= decimal(s),
    decreases s.len(),
{
    if i == s.len() {
        assert(s.take(i) =~= s);
        if s.len() > 1 {
            let front = s.drop_last();
            assert(forall|j: int| 0 <= j < front.len() ==> front[j] == s[j]);
            lemma_decimal_grows(front, 0);
            assert(front.take(0) =~= Seq::<char>::empty());
            lemma_decimal_grows(front, front.len() as int);
            assert(front.take(front.len() as int) =~= front);
        } else {
            assert(s.drop_last() =~= Seq::<char>::empty());
        }
    } else if s.len() > 1 {
        let front = s.drop_last();
        assert(forall|j: int| 0 <= j < front.len() ==> front[j] == s[j]);
        lemma_decimal_grows(front, i);
        assert(front.take(i) =~= s.take(i));
    } else {
        assert(s.take(0) =~= Seq::<char>::empty());
        assert(s.drop_last() =~= Seq::<char>::empty());
    }
}

/// Reads an `i64` in decimal.
pub fn parse_integer(s: &str) -> (n: Option<i64>)
    ensures
        match n {
            Some(v) => integer(s@) == Some(v as int),
            None => integer(s@) is None,
        },
{
    let chars = chars_of(s);
    let negative = chars.len() > 0 && chars[0] == '-';
    let signed = negative || (chars.len() > 0 && chars[0] == '+');
    let start: usize = if signed {
        1
    } else {
        0
    };
    let ghost digits = if signed {
        s@.drop_first()
    } else {
        s@
    };
    assert(digits =~= s@.skip(start as int));
    if start == chars.len() {
        return None;
    }
    let limit: i128 = 0x8000_0000_0000_0000;
    let mut value: i128 = 0;
    let mut i: usize = start;
    assert(digits.take(0) =~= Seq::<char>::empty());
    while i < chars.len()
        invariant
            chars@ == s@,
            start <= i <= chars.len(),
            digits == s@.skip(start as int),
            negative == (s@.len() > 0 && s@[0] == '-'),
            start == if negative || (s@.len() > 0 && s@[0] == '+') {
                1int
            } else {
                0int
            },
            digits == if start == 1 {
                s@.drop_first()
            } else {
                s@
            },
            limit == 0x8000_0000_0000_0000,
            0 <= value <= limit,
            value == decimal(digits.take(i - start)),
            forall|j: int| 0 <= j < i - start ==> '0' <= #[trigger] digits[j] <= '9',
        decreases chars.len() - i,
    {
        let c = chars[i];
        assert(digits[i - start] == c);
        if c < '0' || c > '9' {
            return None;
        }
        assert(digits.take(i + 1 - start).drop_last() =~= digits.take(i - start));
        value = value * 10 + (c as u32 as i128 - '0' as u32 as i128);
        assert(value == decimal(digits.take(i + 1 - start)));
        if value > limit {
            proof {
                if is_digits(digits) {
                    lemma_decimal_grows(digits, i + 1 - start);
                }
            }
            return None;
        }
        i = i + 1;
    }
    assert(digits.take(i - start) =~= digits);
    assert(is_digits(digits));
    if negative {
        Some((-value) as i64)
    } else if value < limit {
        Some(value as i64)
    } else {
        None
    }
}

} // verus!
