//! The name of a filter.
use crate::text::{chars_of, is_space, joined, white_space};
use vstd::prelude::*;

verus! {

/// The words of `text` on one line, with one space between one word and the next.
pub open spec fn one_line(text: Seq<char>) -> Seq<char>
    decreases text.len(),
{
    if text.len() == 0 {
        seq![]
    } else {
        let before = text.drop_last();
        if is_space(text.last()) {
            one_line(before)
        } else if one_line(before).len() > 0 && is_space(before.last()) {
            one_line(before).push(' ').push(text.last())
        } else {
            one_line(before).push(text.last())
        }
    }
}

/// The filter's name in the pane: the template, with every run of white space made one space.
pub fn name_for(template: &str) -> (name: String)
    ensures
        name@ == one_line(template@),
{
    let chars = chars_of(template);
    let mut name = String::new();
    let mut started = false;
    let mut i: usize = 0;
    while i < chars.len()
        invariant
            chars@ == template@,
            i <= chars@.len(),
            name@ == one_line(template@.take(i as int)),
            started == (name@.len() > 0),
        decreases chars.len() - i,
    {
        let c = chars[i];
        let ghost before = template@.take(i as int);
        assert(template@.take(i + 1).drop_last() =~= before);
        if !white_space(c) {
            if started && white_space(chars[i - 1]) {
                assert(before.last() == chars@[i - 1]);
                name.push(' ');
            }
            assert(i > 0 ==> before.last() == chars@[i - 1]);
            name.push(c);
            started = true;
        }
        i = i + 1;
    }
    assert(template@.take(i as int) =~= template@);
    name
}

/// Whether `text` is words with one space between one and the next, and nothing around them.
pub open spec fn is_one_line(text: Seq<char>) -> bool {
    forall|i: int|
        0 <= i < text.len() && is_space(#[trigger] text[i]) ==> {
            &&& text[i] == ' '
            &&& 0 < i < text.len() - 1
            &&& !is_space(text[i - 1])
            &&& !is_space(text[i + 1])
        }
}

/// `text` without its white space.
pub open spec fn squeezed(text: Seq<char>) -> Seq<char>
    decreases text.len(),
{
    if text.len() == 0 {
        seq![]
    } else if is_space(text.last()) {
        squeezed(text.drop_last())
    } else {
        squeezed(text.drop_last()).push(text.last())
    }
}

proof fn lemma_one_line_push(before: Seq<char>, c: char)
    requires
        is_one_line(one_line(before)),
        squeezed(one_line(before)) == squeezed(before),
    ensures
        is_one_line(one_line(before.push(c))),
        squeezed(one_line(before.push(c))) == squeezed(before.push(c)),
{
    let text = before.push(c);
    let line = one_line(before);
    assert(text.drop_last() =~= before);
    if !is_space(c) {
        if line.len() > 0 {
            assert(!is_space(line[line.len() - 1]));
        }
        let spaced = line.push(' ');
        assert(line.push(c).drop_last() =~= line);
        assert(spaced.push(c).drop_last() =~= spaced);
        assert(spaced.drop_last() =~= line);
        assert(squeezed(spaced) == squeezed(line));
        assert(squeezed(line.push(c)) == squeezed(line).push(c));
        assert(squeezed(spaced.push(c)) == squeezed(spaced).push(c));
        let full = one_line(text);
        assert(full == line.push(c) || full == spaced.push(c));
        assert forall|i: int| 0 <= i < full.len() && is_space(#[trigger] full[i]) implies {
            &&& full[i] == ' '
            &&& 0 < i < full.len() - 1
            &&& !is_space(full[i - 1])
            &&& !is_space(full[i + 1])
        } by {
            if i < line.len() {
                assert(full[i] == line[i]);
                assert(full[i - 1] == line[i - 1]);
                assert(full[i + 1] == line[i + 1]);
            } else {
                assert(i == line.len() && full == spaced.push(c));
                assert(full[i - 1] == line[i - 1]);
                assert(full[i + 1] == c);
            }
        }
    }
}

/// A name stands on one row: its only white space is one space between one word and the next. And
/// it loses nothing of the template but white space.
pub proof fn law_name_stands_on_one_row(template: Seq<char>)
    ensures
        is_one_line(one_line(template)),
        squeezed(one_line(template)) == squeezed(template),
    decreases template.len(),
{
    if template.len() > 0 {
        law_name_stands_on_one_row(template.drop_last());
        lemma_one_line_push(template.drop_last(), template.last());
        assert(template.drop_last().push(template.last()) =~= template);
    }
}

proof fn lemma_one_line_is_itself(text: Seq<char>)
    requires
        is_one_line(text) || text.len() > 0 && is_space(text.last()) && is_one_line(
            text.drop_last(),
        ) && text.drop_last().len() > 0 && text.last() == ' ',
    ensures
        is_space(text.last()) && text.len() > 0 ==> one_line(text) == text.drop_last(),
        text.len() == 0 || !is_space(text.last()) ==> one_line(text) == text,
    decreases text.len(),
{
    if text.len() > 0 {
        let before = text.drop_last();
        if is_space(text.last()) {
            assert(text[text.len() - 1] == text.last());
            assert(!is_space(before[before.len() - 1]));
            lemma_one_line_is_itself(before);
        } else if before.len() > 0 && is_space(before.last()) {
            assert(is_space(text[before.len() - 1]));
            let words = before.drop_last();
            assert forall|i: int| 0 <= i < words.len() && is_space(#[trigger] words[i]) implies {
                &&& words[i] == ' '
                &&& 0 < i < words.len() - 1
                &&& !is_space(words[i - 1])
                &&& !is_space(words[i + 1])
            } by {
                assert(text[i] == words[i]);
                assert(!is_space(text[before.len() - 2]));
            }
            lemma_one_line_is_itself(before);
            assert(one_line(text) =~= text);
        } else {
            assert forall|i: int| 0 <= i < before.len() && is_space(#[trigger] before[i]) implies {
                &&& before[i] == ' '
                &&& 0 < i < before.len() - 1
                &&& !is_space(before[i - 1])
                &&& !is_space(before[i + 1])
            } by {
                assert(text[i] == before[i]);
            }
            lemma_one_line_is_itself(before);
            assert(one_line(text) =~= text);
        }
    }
}

/// To name a name again changes nothing.
pub proof fn law_naming_twice_is_naming_once(template: Seq<char>)
    ensures
        one_line(one_line(template)) == one_line(template),
{
    law_name_stands_on_one_row(template);
    let line = one_line(template);
    if line.len() > 0 {
        assert(!is_space(line[line.len() - 1]));
    }
    lemma_one_line_is_itself(line);
}

/// The words of `text`: its runs of characters that are no white space.
pub open spec fn words(text: Seq<char>) -> Seq<Seq<char>>
    decreases text.len(),
{
    if text.len() == 0 {
        seq![]
    } else {
        let before = text.drop_last();
        let found = words(before);
        if is_space(text.last()) {
            found
        } else if before.len() > 0 && !is_space(before.last()) && found.len() > 0 {
            found.drop_last().push(found.last().push(text.last()))
        } else {
            found.push(seq![text.last()])
        }
    }
}

/// What the name of `text` has to do with its words.
spec fn names_its_words(text: Seq<char>) -> bool {
    &&& one_line(text) == joined(words(text), seq![' '])
    &&& words(one_line(text)) == words(text)
    &&& (one_line(text).len() > 0) == (words(text).len() > 0)
    &&& text.len() > 0 && !is_space(text.last()) ==> words(text).len() > 0
}

proof fn lemma_words_push(before: Seq<char>, c: char)
    requires
        names_its_words(before),
        is_one_line(one_line(before)),
    ensures
        names_its_words(before.push(c)),
{
    let text = before.push(c);
    let line = one_line(before);
    let found = words(before);
    assert(text.drop_last() =~= before);
    if !is_space(c) {
        if line.len() > 0 {
            assert(!is_space(line[line.len() - 1]));
        }
        let spaced = line.push(' ');
        assert(line.push(c).drop_last() =~= line);
        assert(spaced.push(c).drop_last() =~= spaced);
        assert(spaced.drop_last() =~= line);
        assert(words(spaced) == words(line));
        let more = words(text);
        if before.len() > 0 && !is_space(before.last()) {
            let longer = found.last().push(c);
            assert(more == found.drop_last().push(longer));
            assert(more.drop_last() =~= found.drop_last());
            assert(one_line(text) == line.push(c));
            assert(joined(more, seq![' ']) =~= line.push(c));
        } else {
            assert(more == found.push(seq![c]));
            assert(more.drop_last() =~= found);
            assert(joined(more, seq![' ']) =~= one_line(text));
        }
    }
}

/// A template's name is its words with one space between one and the next, and it has the same
/// words as the template.
pub proof fn law_a_name_is_its_words(template: Seq<char>)
    ensures
        one_line(template) == joined(words(template), seq![' ']),
        words(one_line(template)) == words(template),
{
    lemma_names_its_words(template);
}

proof fn lemma_names_its_words(text: Seq<char>)
    ensures
        names_its_words(text),
    decreases text.len(),
{
    if text.len() > 0 {
        lemma_names_its_words(text.drop_last());
        law_name_stands_on_one_row(text.drop_last());
        lemma_words_push(text.drop_last(), text.last());
        assert(text.drop_last().push(text.last()) =~= text);
    }
}

/// Two templates have the same name if and only if they have the same words.
pub proof fn law_names_differ_where_words_do(a: Seq<char>, b: Seq<char>)
    ensures
        one_line(a) == one_line(b) <==> words(a) == words(b),
{
    law_a_name_is_its_words(a);
    law_a_name_is_its_words(b);
}

proof fn lemma_one_line_step(before: Seq<char>, c: char)
    ensures
        one_line(before.push(c)) == if is_space(c) {
            one_line(before)
        } else if one_line(before).len() > 0 && is_space(before.last()) {
            one_line(before).push(' ').push(c)
        } else {
            one_line(before).push(c)
        },
{
    assert(before.push(c).drop_last() =~= before);
}

proof fn lemma_one_line_and_space(text: Seq<char>, space: Seq<char>)
    requires
        forall|i: int| 0 <= i < space.len() ==> is_space(#[trigger] space[i]),
    ensures
        one_line(text + space) == one_line(text),
    decreases space.len(),
{
    if space.len() == 0 {
        assert(text + space =~= text);
    } else {
        let c = space[space.len() - 1];
        assert((text + space.drop_last()).push(c) =~= text + space);
        lemma_one_line_and_space(text, space.drop_last());
        lemma_one_line_step(text + space.drop_last(), c);
    }
}

proof fn lemma_one_line_and_word(before: Seq<char>, word: Seq<char>)
    requires
        word.len() > 0,
        before.len() > 0 ==> is_space(before.last()),
        forall|i: int| 0 <= i < word.len() ==> !is_space(#[trigger] word[i]),
    ensures
        one_line(before + word) == if one_line(before).len() > 0 {
            one_line(before) + seq![' '] + word
        } else {
            word
        },
    decreases word.len(),
{
    let c = word[word.len() - 1];
    let shorter = word.drop_last();
    assert((before + shorter).push(c) =~= before + word);
    assert(shorter.push(c) =~= word);
    lemma_one_line_step(before + shorter, c);
    if shorter.len() == 0 {
        assert(before + shorter =~= before);
        assert(before.len() == 0 ==> one_line(before).len() == 0);
        assert(one_line(before).push(' ').push(c) =~= one_line(before) + seq![' '] + word);
        if one_line(before).len() == 0 {
            assert(one_line(before).push(c) =~= word);
        }
    } else {
        lemma_one_line_and_word(before, shorter);
        assert((before + shorter).last() == shorter[shorter.len() - 1]);
        assert((one_line(before) + seq![' '] + shorter).push(c) =~= one_line(before) + seq![' ']
            + word);
    }
}

/// A name is the template's words and nothing else: white space before the first word and after the
/// last is gone, and any run of it between two words is one space, whatever it was made of.
pub proof fn law_a_name_keeps_words_and_drops_white_space(
    text: Seq<char>,
    space: Seq<char>,
    word: Seq<char>,
)
    requires
        space.len() > 0,
        forall|i: int| 0 <= i < space.len() ==> is_space(#[trigger] space[i]),
        word.len() > 0,
        forall|i: int| 0 <= i < word.len() ==> !is_space(#[trigger] word[i]),
    ensures
        one_line(word) == word,
        one_line(space) == Seq::<char>::empty(),
        one_line(space + word) == word,
        one_line(text + space) == one_line(text),
        one_line(text).len() > 0 ==> one_line(text + space + word) == one_line(text) + " "@ + word,
{
    reveal_strlit(" ");
    assert(" "@ =~= seq![' ']);
    let empty = Seq::<char>::empty();
    lemma_one_line_and_space(text, space);
    lemma_one_line_and_space(empty, space);
    assert(empty + space =~= space);
    lemma_one_line_and_word(empty, word);
    assert(empty + word =~= word);
    assert(space.last() == space[space.len() - 1]);
    lemma_one_line_and_word(space, word);
    assert((text + space).last() == space[space.len() - 1]);
    lemma_one_line_and_word(text + space, word);
}

/// A name is empty if and only if the template is white space through and through.
pub proof fn law_a_name_is_empty_where_there_are_no_words(template: Seq<char>)
    ensures
        one_line(template).len() == 0 <==> forall|i: int|
            0 <= i < template.len() ==> is_space(#[trigger] template[i]),
    decreases template.len(),
{
    if template.len() > 0 {
        let before = template.drop_last();
        law_a_name_is_empty_where_there_are_no_words(before);
        assert(before.push(template.last()) =~= template);
        lemma_one_line_step(before, template.last());
        assert(forall|i: int| 0 <= i < before.len() ==> before[i] == #[trigger] template[i]);
        assert(template.last() == template[template.len() - 1]);
        if one_line(before).len() > 0 {
            let i = choose|i: int| 0 <= i < before.len() && !is_space(#[trigger] before[i]);
            assert(!is_space(template[i]));
        }
    }
}

} // verus!
