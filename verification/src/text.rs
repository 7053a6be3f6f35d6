//! Text as a sequence of characters.
use vstd::prelude::*;

verus! {

/// Whether `c` has Unicode's `White_Space` property.
pub open spec fn is_space(c: char) -> bool {
    ||| '\u{9}' <= c <= '\u{d}'
    ||| c == '\u{20}'
    ||| c == '\u{85}'
    ||| c == '\u{a0}'
    ||| c == '\u{1680}'
    ||| '\u{2000}' <= c <= '\u{200a}'
    ||| c == '\u{2028}'
    ||| c == '\u{2029}'
    ||| c == '\u{202f}'
    ||| c == '\u{205f}'
    ||| c == '\u{3000}'
}

/// Whether `c` is white space, as Unicode has it.
pub fn white_space(c: char) -> (space: bool)
    ensures
        space == is_space(c),
{
    ('\u{9}' <= c && c <= '\u{d}') || c == '\u{20}' || c == '\u{85}' || c == '\u{a0}' || c
        == '\u{1680}' || ('\u{2000}' <= c && c <= '\u{200a}') || c == '\u{2028}' || c == '\u{2029}'
        || c == '\u{202f}' || c == '\u{205f}' || c == '\u{3000}'
}

/// The characters of a text, in order.
pub fn chars_of(text: &str) -> (chars: Vec<char>)
    ensures
        chars@ == text@,
{
    let mut chars: Vec<char> = Vec::new();
    for c in it: text.chars()
        invariant
            it.seq() == text@,
            chars@ == text@.take(it.index() as int),
    {
        chars.push(c);
    }
    chars
}

/// The text made of `chars[from..to]`.
pub fn text_of(chars: &Vec<char>, from: usize, to: usize) -> (text: String)
    requires
        from <= to <= chars@.len(),
    ensures
        text@ == chars@.subrange(from as int, to as int),
{
    let mut text = String::new();
    let mut i: usize = from;
    while i < to
        invariant
            from <= i <= to <= chars@.len(),
            text@ == chars@.subrange(from as int, i as int),
        decreases to - i,
    {
        text.push(chars[i]);
        i = i + 1;
    }
    text
}

/// Whether two texts are the same.
pub fn same_text(a: &str, b: &str) -> (same: bool)
    ensures
        same == (a@ == b@),
{
    let x = chars_of(a);
    let y = chars_of(b);
    if x.len() != y.len() {
        return false;
    }
    let mut i: usize = 0;
    while i < x.len()
        invariant
            x@.len() == y@.len(),
            i <= x@.len(),
            forall|j: int| 0 <= j < i ==> x@[j] == y@[j],
            x@ == a@,
            y@ == b@,
        decreases x.len() - i,
    {
        if x[i] != y[i] {
            assert(x@[i as int] != y@[i as int]);
            return false;
        }
        i = i + 1;
    }
    assert(x@ =~= y@);
    true
}

/// `text` without the white space at its start.
pub open spec fn trim_start(text: Seq<char>) -> Seq<char>
    decreases text.len(),
{
    if text.len() > 0 && is_space(text.first()) {
        trim_start(text.drop_first())
    } else {
        text
    }
}

/// `text` without the white space at its end.
pub open spec fn trim_end(text: Seq<char>) -> Seq<char>
    decreases text.len(),
{
    if text.len() > 0 && is_space(text.last()) {
        trim_end(text.drop_last())
    } else {
        text
    }
}

/// `text` without the white space around it.
pub open spec fn trimmed(text: Seq<char>) -> Seq<char> {
    trim_end(trim_start(text))
}

/// `text` without the white space around it.
pub fn trim(text: &str) -> (inner: String)
    ensures
        inner@ == trimmed(text@),
{
    let chars = chars_of(text);
    let mut from: usize = 0;
    let mut to: usize = chars.len();
    assert(text@.subrange(0, to as int) =~= text@);
    while from < to && white_space(chars[from])
        invariant
            chars@ == text@,
            from <= to == chars@.len(),
            trim_start(text@.subrange(from as int, to as int)) == trim_start(text@),
        decreases to - from,
    {
        assert(text@.subrange(from as int, to as int).drop_first() =~= text@.subrange(
            from + 1,
            to as int,
        ));
        from = from + 1;
    }
    let ghost rest = text@.subrange(from as int, to as int);
    assert(trim_start(text@) == rest);
    while from < to && white_space(chars[to - 1])
        invariant
            chars@ == text@,
            from <= to <= chars@.len(),
            trim_end(text@.subrange(from as int, to as int)) == trim_end(rest),
        decreases to - from,
    {
        assert(text@.subrange(from as int, to as int).drop_last() =~= text@.subrange(
            from as int,
            to - 1,
        ));
        to = to - 1;
    }
    text_of(&chars, from, to)
}

/// Some texts, one after the other, with `separator` between one and the next.
pub open spec fn joined(list: Seq<Seq<char>>, separator: Seq<char>) -> Seq<char>
    decreases list.len(),
{
    if list.len() == 0 {
        seq![]
    } else if list.len() == 1 {
        list[0]
    } else {
        joined(list.drop_last(), separator) + separator + list.last()
    }
}

/// The texts of some strings.
pub open spec fn texts(strings: Seq<String>) -> Seq<Seq<char>> {
    strings.map_values(|string: String| string@)
}

/// Some texts, one after the other, with `separator` between one and the next.
pub fn join(list: &Vec<String>, separator: &str) -> (text: String)
    ensures
        text@ == joined(texts(list@), separator@),
{
    let mut text = String::new();
    let ghost all = texts(list@);
    let mut i: usize = 0;
    while i < list.len()
        invariant
            all == texts(list@),
            i <= list@.len(),
            text@ == joined(all.take(i as int), separator@),
        decreases list.len() - i,
    {
        assert(all.take(i + 1).drop_last() =~= all.take(i as int));
        if i > 0 {
            text.append(separator);
        }
        text.append(list[i].as_str());
        assert(i == 0 ==> text@ =~= list@[0]@);
        i = i + 1;
    }
    assert(all.take(i as int) =~= all);
    text
}

/// The decimal digit for `d`.
pub open spec fn digit(d: nat) -> char {
    if d == 0 {
        '0'
    } else if d == 1 {
        '1'
    } else if d == 2 {
        '2'
    } else if d == 3 {
        '3'
    } else if d == 4 {
        '4'
    } else if d == 5 {
        '5'
    } else if d == 6 {
        '6'
    } else if d == 7 {
        '7'
    } else if d == 8 {
        '8'
    } else {
        '9'
    }
}

/// `n` in decimal digits, without leading zeros.
pub open spec fn decimal(n: nat) -> Seq<char>
    decreases n,
{
    if n < 10 {
        seq![digit(n)]
    } else {
        decimal(n / 10).push(digit(n % 10))
    }
}

/// `n` in decimal digits.
pub fn decimal_text(n: usize) -> (text: String)
    ensures
        text@ == decimal(n as nat),
    decreases n,
{
    let last = match n % 10 {
        0 => '0',
        1 => '1',
        2 => '2',
        3 => '3',
        4 => '4',
        5 => '5',
        6 => '6',
        7 => '7',
        8 => '8',
        _ => '9',
    };
    let mut text = if n < 10 {
        String::new()
    } else {
        decimal_text(n / 10)
    };
    text.push(last);
    assert(n < 10 ==> text@ =~= decimal(n as nat));
    text
}

/// Two numbers with the same decimal digits are the same.
pub proof fn lemma_decimal_injective(a: nat, b: nat)
    requires
        decimal(a) == decimal(b),
    ensures
        a == b,
    decreases a,
{
    let x = decimal(a);
    assert(x.last() == digit(a % 10));
    assert(x.last() == digit(b % 10));
    lemma_decimal_nonempty(a / 10);
    lemma_decimal_nonempty(b / 10);
    if a >= 10 && b >= 10 {
        assert(x.drop_last() =~= decimal(a / 10));
        assert(x.drop_last() =~= decimal(b / 10));
        lemma_decimal_injective(a / 10, b / 10);
    }
}

proof fn lemma_decimal_nonempty(n: nat)
    ensures
        decimal(n).len() > 0,
{
}

/// A character is white space if and only if its code point is one of the twenty-five that Unicode
/// gives the property.
pub proof fn law_white_space_is_what_unicode_says(c: char)
    ensures
        is_space(c) <==> {
            let code = c as u32;
            ||| 9 <= code <= 13
            ||| 8192 <= code <= 8202
            ||| code == 32 || code == 133 || code == 160 || code == 5760
            ||| code == 8232 || code == 8233 || code == 8239 || code == 8287 || code == 12288
        },
{
}

proof fn lemma_trim_start(space: Seq<char>, rest: Seq<char>)
    requires
        forall|i: int| 0 <= i < space.len() ==> is_space(#[trigger] space[i]),
        rest.len() > 0 ==> !is_space(rest.first()),
    ensures
        trim_start(space + rest) == rest,
    decreases space.len(),
{
    if space.len() == 0 {
        assert(space + rest =~= rest);
    } else {
        assert((space + rest).first() == space[0]);
        assert((space + rest).drop_first() =~= space.drop_first() + rest);
        lemma_trim_start(space.drop_first(), rest);
    }
}

proof fn lemma_trim_end(rest: Seq<char>, space: Seq<char>)
    requires
        forall|i: int| 0 <= i < space.len() ==> is_space(#[trigger] space[i]),
        rest.len() > 0 ==> !is_space(rest.last()),
    ensures
        trim_end(rest + space) == rest,
    decreases space.len(),
{
    if space.len() == 0 {
        assert(rest + space =~= rest);
    } else {
        assert((rest + space).last() == space[space.len() - 1]);
        assert((rest + space).drop_last() =~= rest + space.drop_last());
        lemma_trim_end(rest, space.drop_last());
    }
}

/// White space around a text is taken away, all of it, and nothing else is: what is left is the text
/// from its first character that is no white space to its last.
pub proof fn law_trimming_takes_the_white_space_around(
    before: Seq<char>,
    inner: Seq<char>,
    after: Seq<char>,
)
    requires
        forall|i: int| 0 <= i < before.len() ==> is_space(#[trigger] before[i]),
        forall|i: int| 0 <= i < after.len() ==> is_space(#[trigger] after[i]),
        inner.len() > 0 ==> !is_space(inner.first()) && !is_space(inner.last()),
    ensures
        trimmed(before + inner + after) == inner,
{
    let text = before + inner + after;
    if inner.len() == 0 {
        assert(text =~= text + inner);
        assert forall|i: int| 0 <= i < text.len() implies is_space(#[trigger] text[i]) by {
            if i < before.len() {
                assert(text[i] == before[i]);
            } else {
                assert(text[i] == after[i - before.len()]);
            }
        }
        lemma_trim_start(text, inner);
        assert(inner =~= inner + Seq::<char>::empty());
        lemma_trim_end(inner, Seq::<char>::empty());
    } else {
        assert(text =~= before + (inner + after));
        assert((inner + after).first() == inner.first());
        lemma_trim_start(before, inner + after);
        lemma_trim_end(inner, after);
    }
}

/// A text that is trimmed is empty if and only if it is white space through and through.
pub proof fn law_only_white_space_trims_to_nothing(text: Seq<char>)
    ensures
        trimmed(text).len() == 0 <==> forall|i: int|
            0 <= i < text.len() ==> is_space(#[trigger] text[i]),
{
    let rest = trim_start(text);
    let from = lemma_trim_start_cuts(text);
    let to = lemma_trim_end_cuts(rest);
    if trimmed(text).len() == 0 {
        assert(to == 0);
        assert(rest.len() == 0) by {
            if rest.len() > 0 {
                assert(is_space(rest[0]));
            }
        }
    } else {
        assert(!is_space(text[from]));
    }
}

proof fn lemma_trim_start_cuts(text: Seq<char>) -> (from: int)
    ensures
        0 <= from <= text.len(),
        trim_start(text) == text.skip(from),
        forall|i: int| 0 <= i < from ==> is_space(#[trigger] text[i]),
        from < text.len() ==> !is_space(text[from]),
    decreases text.len(),
{
    if text.len() > 0 && is_space(text.first()) {
        let rest = text.drop_first();
        let from = lemma_trim_start_cuts(rest);
        assert(rest.skip(from) =~= text.skip(from + 1));
        assert forall|i: int| 0 <= i < from + 1 implies is_space(#[trigger] text[i]) by {
            if i > 0 {
                assert(is_space(rest[i - 1]));
            }
        }
        assert(from < rest.len() ==> text[from + 1] == rest[from]);
        from + 1
    } else {
        assert(text.skip(0) =~= text);
        0
    }
}

proof fn lemma_trim_end_cuts(text: Seq<char>) -> (to: int)
    ensures
        0 <= to <= text.len(),
        trim_end(text) == text.take(to),
        forall|i: int| to <= i < text.len() ==> is_space(#[trigger] text[i]),
        to > 0 ==> !is_space(text[to - 1]),
    decreases text.len(),
{
    if text.len() > 0 && is_space(text.last()) {
        let rest = text.drop_last();
        let to = lemma_trim_end_cuts(rest);
        assert(rest.take(to) =~= text.take(to));
        assert forall|i: int| to <= i < text.len() implies is_space(#[trigger] text[i]) by {
            if i < rest.len() {
                assert(is_space(rest[i]));
            }
        }
        to
    } else {
        assert(text.take(text.len() as int) =~= text);
        text.len() as int
    }
}

/// Two lists joined one after the other have the separator between them; one text alone stands as it
/// is, and no text at all is nothing.
pub proof fn law_joining_puts_the_separator_between(
    a: Seq<Seq<char>>,
    b: Seq<Seq<char>>,
    separator: Seq<char>,
)
    ensures
        a.len() == 0 ==> joined(a, separator).len() == 0,
        a.len() == 1 ==> joined(a, separator) == a[0],
        a.len() > 0 && b.len() > 0 ==> joined(a + b, separator) == joined(a, separator) + separator
            + joined(b, separator),
    decreases b.len(),
{
    if a.len() > 0 && b.len() > 0 {
        let list = a + b;
        assert(list.drop_last() =~= a + b.drop_last());
        assert(list.last() == b.last());
        if b.len() == 1 {
            assert(a + b.drop_last() =~= a);
        } else {
            law_joining_puts_the_separator_between(a, b.drop_last(), separator);
            assert(joined(list, separator) =~= joined(a, separator) + separator + joined(
                b,
                separator,
            ));
        }
    }
}

/// The number that some decimal digits stand for.
pub open spec fn number(digits: Seq<char>) -> int
    decreases digits.len(),
{
    if digits.len() == 0 {
        0
    } else {
        number(digits.drop_last()) * 10 + (digits.last() as u32 - '0' as u32)
    }
}

/// A number in decimal is made of digits, stands for the number, and starts with a zero only where
/// it is zero.
pub proof fn law_decimal_stands_for_the_number(n: nat)
    ensures
        decimal(n).len() > 0,
        forall|i: int| 0 <= i < decimal(n).len() ==> '0' <= #[trigger] decimal(n)[i] <= '9',
        number(decimal(n)) == n,
        decimal(n)[0] == '0' ==> n == 0 && decimal(n).len() == 1,
    decreases n,
{
    if n >= 10 {
        law_decimal_stands_for_the_number(n / 10);
        assert(decimal(n).drop_last() =~= decimal(n / 10));
        assert(decimal(n)[0] == decimal(n / 10)[0]);
    } else {
        reveal_with_fuel(number, 2);
        assert(decimal(n).drop_last() =~= Seq::<char>::empty());
    }
}

/// The texts of some strings are those of each, in order.
pub proof fn law_texts_are_those_of_the_strings(strings: Seq<String>)
    ensures
        texts(strings).len() == strings.len(),
        forall|i: int| 0 <= i < strings.len() ==> #[trigger] texts(strings)[i] == strings[i]@,
{
}

} // verus!
