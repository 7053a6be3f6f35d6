//! What a pattern finds: the meaning of its pieces, and what the conversion of a template keeps of
//! it.
use crate::emit::holds;
use crate::outside::{compile_fault, is_match, regex_error, regex_finds, too_large};
use crate::spelling::{
    all_space, is_token, law_every_token_splits, law_only_the_exact_tokens_split,
    lemma_space_between,
};
use crate::template::{
    is_rendered, is_small, law_short_templates_have_small_patterns, law_split_reads_the_template,
    lemma_parts_pieces_concat, lemma_parts_pieces_one, lemma_pieces_of_space, lemma_pieces_push,
    literal_pieces, part_pieces, parts_pieces, pattern_of, pattern_pieces, render, spells, split,
    template_pieces, wildcard_at, without_edge_gaps, PartView, Piece, SMALL,
};
use crate::text::is_space;
use vstd::prelude::*;

verus! {

/// Whether one piece of a pattern matches the whole of `text`.
pub open spec fn piece_fits(piece: Piece, text: Seq<char>) -> bool {
    match piece {
        Piece::Char(c) => text == seq![c],
        Piece::Space => text.len() > 0 && forall|i: int|
            0 <= i < text.len() ==> is_space(#[trigger] text[i]),
        Piece::Gap => within_a_line(text),
    }
}

/// Whether `text` holds no line break.
pub open spec fn within_a_line(text: Seq<char>) -> bool {
    forall|i: int| 0 <= i < text.len() ==> #[trigger] text[i] != '\n'
}

/// Whether some pieces, one after the other, match the whole of `text`.
pub open spec fn fits(pieces: Seq<Piece>, text: Seq<char>) -> bool
    decreases pieces.len(),
{
    if pieces.len() == 0 {
        text.len() == 0
    } else {
        exists|k: int|
            0 <= k <= text.len() && fits(pieces.drop_last(), #[trigger] text.take(k)) && piece_fits(
                pieces.last(),
                text.skip(k),
            )
    }
}

/// Whether some pieces, one after the other, match somewhere in `line`.
pub open spec fn occurs(pieces: Seq<Piece>, line: Seq<char>) -> bool {
    exists|i: int, j: int|
        0 <= i <= j <= line.len() && fits(pieces, #[trigger] line.subrange(i, j))
}

/// Whether `found` says if a pattern matches somewhere in `line`, as far as the pattern is made of
/// pieces.
pub open spec fn is_search(pattern: Seq<char>, line: Seq<char>, found: bool) -> bool {
    forall|pieces: Seq<Piece>|
        pattern == #[trigger] render(pieces) ==> found == occurs(pieces, line)
}

proof fn lemma_fits_push(pieces: Seq<Piece>, text: Seq<char>, piece: Piece, more: Seq<char>)
    requires
        fits(pieces, text),
        piece_fits(piece, more),
    ensures
        fits(pieces.push(piece), text + more),
{
    let k = text.len() as int;
    assert(pieces.push(piece).drop_last() =~= pieces);
    assert((text + more).take(k) =~= text);
    assert((text + more).skip(k) =~= more);
    assert(fits(pieces.push(piece).drop_last(), (text + more).take(k)));
}

proof fn lemma_fits_concat(a: Seq<Piece>, x: Seq<char>, b: Seq<Piece>, y: Seq<char>)
    requires
        fits(a, x),
        fits(b, y),
    ensures
        fits(a + b, x + y),
    decreases b.len(),
{
    if b.len() == 0 {
        assert(a + b =~= a);
        assert(x + y =~= x);
    } else {
        let k = choose|k: int|
            0 <= k <= y.len() && fits(b.drop_last(), #[trigger] y.take(k)) && piece_fits(
                b.last(),
                y.skip(k),
            );
        lemma_fits_concat(a, x, b.drop_last(), y.take(k));
        lemma_fits_push(a + b.drop_last(), x + y.take(k), b.last(), y.skip(k));
        assert((a + b.drop_last()).push(b.last()) =~= a + b);
        assert(x + y.take(k) + y.skip(k) =~= x + y);
    }
}

/// Where the text that `a + b` matches is cut, so that `a` matches what is before and `b` what is
/// after.
proof fn lemma_fits_cut(a: Seq<Piece>, b: Seq<Piece>, text: Seq<char>) -> (cut: int)
    requires
        fits(a + b, text),
    ensures
        0 <= cut <= text.len(),
        fits(a, text.take(cut)),
        fits(b, text.skip(cut)),
    decreases b.len(),
{
    if b.len() == 0 {
        assert(a + b =~= a);
        assert(text.take(text.len() as int) =~= text);
        text.len() as int
    } else {
        let both = a + b;
        assert(both.drop_last() =~= a + b.drop_last());
        let k = choose|k: int|
            0 <= k <= text.len() && fits(both.drop_last(), #[trigger] text.take(k)) && piece_fits(
                both.last(),
                text.skip(k),
            );
        let cut = lemma_fits_cut(a, b.drop_last(), text.take(k));
        assert(text.take(k).take(cut) =~= text.take(cut));
        lemma_fits_push(b.drop_last(), text.take(k).skip(cut), b.last(), text.skip(k));
        assert(b.drop_last().push(b.last()) =~= b);
        assert(text.take(k).skip(cut) + text.skip(k) =~= text.skip(cut));
        cut
    }
}

proof fn lemma_fits_one(piece: Piece, text: Seq<char>)
    ensures
        fits(seq![piece], text) == piece_fits(piece, text),
{
    let pieces = seq![piece];
    assert(pieces.drop_last() =~= Seq::<Piece>::empty());
    if piece_fits(piece, text) {
        assert(text.take(0) =~= Seq::<char>::empty());
        assert(text.skip(0) =~= text);
        assert(fits(Seq::<Piece>::empty(), Seq::<char>::empty()));
        assert(fits(pieces.drop_last(), text.take(0)));
    }
    if fits(pieces, text) {
        let k = choose|k: int|
            0 <= k <= text.len() && fits(pieces.drop_last(), #[trigger] text.take(k)) && piece_fits(
                pieces.last(),
                text.skip(k),
            );
        assert(text.take(k).len() == 0);
        assert(text.skip(k) =~= text);
    }
}

/// For a search that may start and stop anywhere, the gaps at a pattern's ends constrain nothing:
/// it finds the same lines with them and without.
pub proof fn law_edge_gaps_constrain_nothing(pieces: Seq<Piece>, line: Seq<char>)
    ensures
        occurs(pieces, line) == occurs(without_edge_gaps(pieces), line),
{
    let rest = if pieces.len() > 0 && pieces.first() is Gap {
        pieces.drop_first()
    } else {
        pieces
    };
    let empty = Seq::<char>::empty();
    let gap = seq![Piece::Gap];
    lemma_fits_one(Piece::Gap, empty);
    if pieces.len() > 0 && pieces.first() is Gap {
        assert(pieces =~= gap + rest);
        if occurs(pieces, line) {
            let (i, j) = choose|i: int, j: int|
                0 <= i <= j <= line.len() && fits(pieces, #[trigger] line.subrange(i, j));
            let cut = lemma_fits_cut(gap, rest, line.subrange(i, j));
            assert(line.subrange(i, j).skip(cut) =~= line.subrange(i + cut, j));
        }
        if occurs(rest, line) {
            let (i, j) = choose|i: int, j: int|
                0 <= i <= j <= line.len() && fits(rest, #[trigger] line.subrange(i, j));
            lemma_fits_concat(gap, empty, rest, line.subrange(i, j));
            assert(empty + line.subrange(i, j) =~= line.subrange(i, j));
        }
    }
    assert(occurs(pieces, line) == occurs(rest, line));
    if rest.len() > 0 && rest.last() is Gap {
        let inner = rest.drop_last();
        assert(rest =~= inner + gap);
        if occurs(rest, line) {
            let (i, j) = choose|i: int, j: int|
                0 <= i <= j <= line.len() && fits(rest, #[trigger] line.subrange(i, j));
            let cut = lemma_fits_cut(inner, gap, line.subrange(i, j));
            assert(line.subrange(i, j).take(cut) =~= line.subrange(i, i + cut));
        }
        if occurs(inner, line) {
            let (i, j) = choose|i: int, j: int|
                0 <= i <= j <= line.len() && fits(inner, #[trigger] line.subrange(i, j));
            lemma_fits_concat(inner, line.subrange(i, j), gap, empty);
            assert(line.subrange(i, j) + empty =~= line.subrange(i, j));
        }
    }
}

/// Whether `text` is what one part of a template stands for: a literal stands for itself, whatever
/// the length of its runs of white space; a wildcard for any text within a line.
pub open spec fn part_describes(part: PartView, text: Seq<char>) -> bool {
    match part {
        PartView::Literal(literal) => literal_pieces(text) == literal_pieces(literal),
        PartView::Wildcard => within_a_line(text),
    }
}

/// Whether `text` is what some parts of a template, one after the other, stand for.
pub open spec fn describes(parts: Seq<PartView>, text: Seq<char>) -> bool
    decreases parts.len(),
{
    if parts.len() == 0 {
        text.len() == 0
    } else {
        exists|k: int|
            0 <= k <= text.len() && describes(parts.drop_last(), #[trigger] text.take(k))
                && part_describes(parts.last(), text.skip(k))
    }
}

proof fn lemma_fits_push_char(before: Seq<char>, c: char)
    requires
        fits(literal_pieces(before), before),
        before.len() > 0 && is_space(before.last()) ==> literal_pieces(before).len() > 0
            && literal_pieces(before).last() is Space,
    ensures
        fits(literal_pieces(before.push(c)), before.push(c)),
        is_space(c) ==> literal_pieces(before.push(c)).len() > 0 && literal_pieces(
            before.push(c),
        ).last() is Space,
{
    let text = before.push(c);
    let pieces = literal_pieces(before);
    assert(text.drop_last() =~= before);
    assert(before + seq![c] =~= text);
    if !is_space(c) {
        lemma_fits_push(pieces, before, Piece::Char(c), seq![c]);
    } else if before.len() > 0 && is_space(before.last()) {
        let k = choose|k: int|
            0 <= k <= before.len() && fits(pieces.drop_last(), #[trigger] before.take(k))
                && piece_fits(pieces.last(), before.skip(k));
        assert(text.take(k) =~= before.take(k));
        assert(text.skip(k) =~= before.skip(k).push(c));
        assert(literal_pieces(text) == pieces);
        assert(fits(pieces.drop_last(), text.take(k)));
    } else {
        assert(piece_fits(Piece::Space, seq![c]));
        lemma_fits_push(pieces, before, Piece::Space, seq![c]);
    }
}

proof fn lemma_literal_fits_itself(text: Seq<char>)
    ensures
        fits(literal_pieces(text), text),
        text.len() > 0 && is_space(text.last()) ==> literal_pieces(text).len() > 0
            && literal_pieces(text).last() is Space,
    decreases text.len(),
{
    if text.len() > 0 {
        lemma_literal_fits_itself(text.drop_last());
        lemma_fits_push_char(text.drop_last(), text.last());
        assert(text.drop_last().push(text.last()) =~= text);
    }
}

proof fn lemma_described_fits(parts: Seq<PartView>, text: Seq<char>)
    requires
        describes(parts, text),
    ensures
        fits(parts_pieces(parts), text),
    decreases parts.len(),
{
    if parts.len() > 0 {
        let k = choose|k: int|
            0 <= k <= text.len() && describes(parts.drop_last(), #[trigger] text.take(k))
                && part_describes(parts.last(), text.skip(k));
        lemma_described_fits(parts.drop_last(), text.take(k));
        match parts.last() {
            PartView::Literal(_) => lemma_literal_fits_itself(text.skip(k)),
            PartView::Wildcard => lemma_fits_one(Piece::Gap, text.skip(k)),
        }
        lemma_fits_concat(
            parts_pieces(parts.drop_last()),
            text.take(k),
            part_pieces(parts.last()),
            text.skip(k),
        );
        assert(text.take(k) + text.skip(k) =~= text);
    }
}

/// A template's pattern finds every line that holds what the template describes, whatever stands
/// before it and after it.
pub proof fn law_pattern_finds_what_the_template_describes(
    template: Seq<char>,
    pieces: Seq<Piece>,
    head: Seq<char>,
    body: Seq<char>,
    tail: Seq<char>,
)
    requires
        pattern_pieces(template) == Some(pieces),
        describes(split(template), body),
    ensures
        occurs(pieces, head + body + tail),
{
    let line = head + body + tail;
    let all = template_pieces(template);
    lemma_described_fits(split(template), body);
    let i = head.len() as int;
    assert(line.subrange(i, i + body.len()) =~= body);
    assert(occurs(all, line));
    law_edge_gaps_constrain_nothing(all, line);
}

/// What the pieces of a literal match is the literal, its runs of white space aside.
proof fn lemma_fits_literal(literal: Seq<char>, text: Seq<char>)
    requires
        fits(literal_pieces(literal), text),
    ensures
        literal_pieces(text) == literal_pieces(literal),
        (text.len() > 0 && is_space(text.last())) == (literal.len() > 0 && is_space(
            literal.last(),
        )),
    decreases literal.len(), 1int,
{
    if literal.len() > 0 {
        assert(literal.drop_last().push(literal.last()) =~= literal);
        lemma_fits_literal_and_char(literal.drop_last(), literal.last(), text);
    }
}

proof fn lemma_fits_literal_and_char(before: Seq<char>, c: char, text: Seq<char>)
    requires
        fits(literal_pieces(before.push(c)), text),
    ensures
        literal_pieces(text) == literal_pieces(before.push(c)),
        text.len() > 0,
        is_space(text.last()) == is_space(c),
    decreases before.len() + 1, 0int,
{
    let pieces = literal_pieces(before.push(c));
    assert(before.push(c).drop_last() =~= before);
    if is_space(c) && before.len() > 0 && is_space(before.last()) {
        lemma_fits_literal(before, text);
    } else {
        let k = choose|k: int|
            0 <= k <= text.len() && fits(pieces.drop_last(), #[trigger] text.take(k))
                && piece_fits(pieces.last(), text.skip(k));
        assert(pieces.drop_last() =~= literal_pieces(before));
        lemma_fits_literal(before, text.take(k));
        assert(text.take(k) + text.skip(k) =~= text);
        if is_space(c) {
            lemma_pieces_of_space(text.take(k), text.skip(k));
            assert(text.last() == text.skip(k)[text.skip(k).len() - 1]);
        } else {
            assert(text.skip(k) == seq![c]);
            lemma_pieces_push(text.take(k), c);
            assert(text.take(k).push(c) =~= text);
        }
    }
}

proof fn lemma_fits_described(parts: Seq<PartView>, text: Seq<char>)
    requires
        fits(parts_pieces(parts), text),
    ensures
        describes(parts, text),
    decreases parts.len(),
{
    if parts.len() > 0 {
        let before = parts_pieces(parts.drop_last());
        let k = lemma_fits_cut(before, part_pieces(parts.last()), text);
        lemma_fits_described(parts.drop_last(), text.take(k));
        match parts.last() {
            PartView::Literal(literal) => lemma_fits_literal(literal, text.skip(k)),
            PartView::Wildcard => lemma_fits_one(Piece::Gap, text.skip(k)),
        }
        assert(describes(parts.drop_last(), text.take(k)));
    }
}

/// Whether some stretch of `line` is what the template describes, from its first character to its
/// last.
pub open spec fn is_described_in(template: Seq<char>, line: Seq<char>) -> bool {
    exists|i: int, j: int|
        0 <= i <= j <= line.len() && describes(split(template), #[trigger] line.subrange(i, j))
}

/// A template's pattern finds no other line: where it finds one, some stretch of the line is what
/// the template describes.
pub proof fn law_pattern_finds_nothing_else(
    template: Seq<char>,
    pieces: Seq<Piece>,
    line: Seq<char>,
)
    requires
        pattern_pieces(template) == Some(pieces),
        occurs(pieces, line),
    ensures
        is_described_in(template, line),
{
    let all = template_pieces(template);
    law_edge_gaps_constrain_nothing(all, line);
    let (i, j) = choose|i: int, j: int|
        0 <= i <= j <= line.len() && fits(all, #[trigger] line.subrange(i, j));
    lemma_fits_described(split(template), line.subrange(i, j));
}

/// A line that holds what a template describes does so whatever stands before it and after it.
pub proof fn law_described_wherever_it_stands(
    template: Seq<char>,
    head: Seq<char>,
    body: Seq<char>,
    tail: Seq<char>,
)
    requires
        describes(split(template), body),
    ensures
        is_described_in(template, head + body + tail),
{
    let line = head + body + tail;
    let i = head.len() as int;
    assert(line.subrange(i, i + body.len()) =~= body);
}

proof fn lemma_spelled_fits(parts: Seq<PartView>, text: Seq<char>)
    requires
        spells(parts, text),
    ensures
        fits(parts_pieces(parts), text),
    decreases parts.len(),
{
    if parts.len() > 0 {
        let first = parts.first();
        let rest = parts.drop_first();
        assert(parts =~= seq![first] + rest);
        lemma_parts_pieces_concat(seq![first], rest);
        lemma_parts_pieces_one(first);
        let n = match first {
            PartView::Literal(literal) => literal.len() as int,
            PartView::Wildcard => wildcard_at(text, 0),
        };
        lemma_spelled_fits(rest, text.skip(n));
        match first {
            PartView::Literal(literal) => lemma_literal_fits_itself(literal),
            PartView::Wildcard => {
                assert(within_a_line(text.take(n)));
                lemma_fits_one(Piece::Gap, text.take(n));
            },
        }
        lemma_fits_concat(part_pieces(first), text.take(n), parts_pieces(rest), text.skip(n));
        assert(text.take(n) + text.skip(n) =~= text);
    }
}

/// A template describes itself.
pub proof fn law_a_template_describes_itself(template: Seq<char>)
    ensures
        describes(split(template), template),
        is_described_in(template, template),
{
    law_split_reads_the_template(template);
    lemma_spelled_fits(split(template), template);
    lemma_fits_described(split(template), template);
    assert(template.subrange(0, template.len() as int) =~= template);
}

/// Whether `found` is what the pattern of a template says of a line: whether the line holds what the
/// template describes. The engine may only refuse the pattern of a long template.
pub open spec fn is_finding(
    template: Seq<char>,
    line: Seq<char>,
    found: Result<bool, String>,
) -> bool {
    match found {
        Ok(found) => found == is_described_in(template, line),
        Err(error) => template.len() > SMALL && error@ == too_large(),
    }
}

/// Whether a pattern finds a line, as recon looks for it: the line is searched as it is, and the
/// pattern may match anywhere in it. The pattern of a template finds exactly the lines that hold
/// what the template describes.
pub fn finds(pattern: &str, line: &str) -> (found: Result<bool, String>)
    ensures
        match found {
            Ok(found) => regex_error(pattern@) is None && found == regex_finds(pattern@, line@),
            Err(error) => regex_error(pattern@) == Some(error@),
        },
        forall|template: Seq<char>| #[trigger]
            pattern_of(template) == Some(pattern@) ==> is_finding(template, line@, found),
{
    let found = match compile_fault(pattern) {
        Some(error) => Err(error),
        None => Ok(is_match(pattern, line)),
    };
    proof {
        assert forall|template: Seq<char>| #[trigger]
            pattern_of(template) == Some(pattern@) implies is_finding(template, line@, found) by {
            lemma_finding(template, pattern@, line@);
        }
    }
    found
}

proof fn lemma_finding(template: Seq<char>, pattern: Seq<char>, line: Seq<char>)
    requires
        pattern_of(template) == Some(pattern),
    ensures
        is_rendered(pattern),
        template.len() <= SMALL ==> is_small(pattern),
        forall|found: bool| #[trigger]
            is_search(pattern, line, found) ==> found == is_described_in(template, line),
{
    let pieces = pattern_pieces(template)->Some_0;
    assert(pattern == render(pieces));
    if template.len() <= SMALL {
        law_short_templates_have_small_patterns(template, pattern);
    }
    if occurs(pieces, line) {
        law_pattern_finds_nothing_else(template, pieces, line);
    }
    if is_described_in(template, line) {
        let (i, j) = choose|i: int, j: int|
            0 <= i <= j <= line.len() && describes(
                split(template),
                #[trigger] line.subrange(i, j),
            );
        let body = line.subrange(i, j);
        law_pattern_finds_what_the_template_describes(
            template,
            pieces,
            line.take(i),
            body,
            line.skip(j),
        );
        assert(line.take(i) + body + line.skip(j) =~= line);
    }
}

proof fn lemma_describes_is_fits(parts: Seq<PartView>, text: Seq<char>)
    ensures
        describes(parts, text) <==> fits(parts_pieces(parts), text),
{
    if describes(parts, text) {
        lemma_described_fits(parts, text);
    }
    if fits(parts_pieces(parts), text) {
        lemma_fits_described(parts, text);
    }
}

/// A template with a wildcard in it describes exactly the texts that are what stands before the
/// wildcard describes, then any text within a line, then what stands after it describes.
pub proof fn law_a_wildcard_describes_any_text_within_a_line(
    a: Seq<char>,
    token: Seq<char>,
    b: Seq<char>,
    text: Seq<char>,
)
    requires
        is_token(token),
    ensures
        describes(split(a + token + b), text) <==> exists|i: int, j: int|
            0 <= i <= j <= text.len() && describes(split(a), text.take(i)) && within_a_line(
                #[trigger] text.subrange(i, j),
            ) && describes(split(b), text.skip(j)),
{
    law_every_token_splits(a, token, b);
    let p = split(a);
    let q = split(b);
    let gap = seq![PartView::Wildcard];
    let all = p + gap + q;
    lemma_parts_pieces_concat(p, gap);
    lemma_parts_pieces_concat(p + gap, q);
    lemma_parts_pieces_one(PartView::Wildcard);
    lemma_describes_is_fits(all, text);
    let x = parts_pieces(p);
    let y = parts_pieces(q);
    let g = seq![Piece::Gap];
    assert(parts_pieces(all) == x + g + y);
    if describes(all, text) {
        let j = lemma_fits_cut(x + g, y, text);
        let i = lemma_fits_cut(x, g, text.take(j));
        assert(text.take(j).take(i) =~= text.take(i));
        assert(text.take(j).skip(i) =~= text.subrange(i, j));
        lemma_fits_one(Piece::Gap, text.subrange(i, j));
        lemma_describes_is_fits(p, text.take(i));
        lemma_describes_is_fits(q, text.skip(j));
    }
    if exists|i: int, j: int|
        0 <= i <= j <= text.len() && describes(p, text.take(i)) && within_a_line(
            #[trigger] text.subrange(i, j),
        ) && describes(q, text.skip(j)) {
        let (i, j) = choose|i: int, j: int|
            0 <= i <= j <= text.len() && describes(p, text.take(i)) && within_a_line(
                #[trigger] text.subrange(i, j),
            ) && describes(q, text.skip(j));
        lemma_describes_is_fits(p, text.take(i));
        lemma_describes_is_fits(q, text.skip(j));
        lemma_fits_one(Piece::Gap, text.subrange(i, j));
        lemma_fits_concat(x, text.take(i), g, text.subrange(i, j));
        lemma_fits_concat(x + g, text.take(i) + text.subrange(i, j), y, text.skip(j));
        assert(text.take(i) + text.subrange(i, j) + text.skip(j) =~= text);
    }
}

proof fn lemma_fits_word(word: Seq<char>, text: Seq<char>)
    requires
        forall|i: int| 0 <= i < word.len() ==> !is_space(#[trigger] word[i]),
    ensures
        fits(literal_pieces(word), text) <==> text == word,
    decreases word.len(),
{
    if text == word {
        lemma_literal_fits_itself(word);
    }
    if word.len() == 0 {
        assert(text.len() == 0 ==> text =~= word);
    } else if fits(literal_pieces(word), text) {
        let before = word.drop_last();
        let c = word[word.len() - 1];
        assert(before.push(c) =~= word);
        let k = lemma_fits_last_char(before, c, text);
        lemma_fits_word(before, text.take(k));
        assert(text =~= text.take(k) + text.skip(k));
        assert(text =~= word);
    }
}

proof fn lemma_fits_last_char(before: Seq<char>, c: char, text: Seq<char>) -> (k: int)
    requires
        !is_space(c),
        fits(literal_pieces(before.push(c)), text),
    ensures
        0 <= k <= text.len(),
        fits(literal_pieces(before), text.take(k)),
        text.skip(k) == seq![c],
{
    let pieces = literal_pieces(before.push(c));
    lemma_pieces_push(before, c);
    assert(pieces.drop_last() =~= literal_pieces(before));
    choose|k: int|
        0 <= k <= text.len() && fits(pieces.drop_last(), #[trigger] text.take(k)) && piece_fits(
            pieces.last(),
            text.skip(k),
        )
}

/// A template of one word, without wildcards, describes the word and nothing else; so its pattern finds
/// exactly the lines that hold the word as it is.
pub proof fn law_a_word_is_found_as_it_is(word: Seq<char>, text: Seq<char>)
    requires
        !holds(word, "<*>"@),
        !holds(word, "<NUM>"@),
        forall|i: int| 0 <= i < word.len() ==> !is_space(#[trigger] word[i]),
    ensures
        describes(split(word), text) <==> text == word,
        is_described_in(word, text) <==> holds(text, word),
{
    law_only_the_exact_tokens_split(word);
    if word.len() > 0 {
        lemma_parts_pieces_one(PartView::Literal(word));
    } else {
        assert(parts_pieces(split(word)) =~= literal_pieces(word));
    }
    assert(parts_pieces(split(word)) == literal_pieces(word));
    assert forall|part: Seq<char>| #[trigger] describes(split(word), part) <==> part == word by {
        lemma_describes_is_fits(split(word), part);
        lemma_fits_word(word, part);
    }
    if is_described_in(word, text) {
        let (i, j) = choose|i: int, j: int|
            0 <= i <= j <= text.len() && describes(split(word), #[trigger] text.subrange(i, j));
        assert(j == i + word.len());
        assert(text.subrange(i, i + word.len()) == word);
    }
    if holds(text, word) {
        let i = choose|i: int|
            0 <= i <= text.len() - word.len() && #[trigger] text.subrange(i, i + word.len()) == word;
        assert(describes(split(word), text.subrange(i, i + word.len())));
    }
}

/// The pattern of a template says of every line whether the line holds what the template describes;
/// that of one of up to a thousand characters is never refused.
pub proof fn law_a_pattern_tells_its_lines_from_others(
    template: Seq<char>,
    line: Seq<char>,
    found: Result<bool, String>,
)
    requires
        is_finding(template, line, found),
    ensures
        template.len() <= 1000 ==> found is Ok,
        found matches Ok(found) ==> (found <==> exists|i: int, j: int|
            0 <= i <= j <= line.len() && describes(split(template), #[trigger] line.subrange(i, j))),
        found matches Err(error) ==> error@
            == "Compiled regex exceeds size limit of 10485760 bytes."@,
{
}

/// A template with a run of white space in it describes exactly the texts that are what stands before
/// the run describes, then any run of white space, then what stands after it describes.
pub proof fn law_white_space_describes_any_white_space(
    a: Seq<char>,
    s: Seq<char>,
    b: Seq<char>,
    text: Seq<char>,
)
    requires
        s.len() > 0,
        all_space(s),
        a.len() > 0 ==> !is_space(a.last()),
        b.len() > 0 ==> !is_space(b.first()),
    ensures
        describes(split(a + s + b), text) <==> exists|i: int, j: int|
            0 <= i < j <= text.len() && describes(split(a), text.take(i)) && all_space(
                #[trigger] text.subrange(i, j),
            ) && describes(split(b), text.skip(j)),
{
    lemma_space_between(a, s, b);
    let p = split(a);
    let q = split(b);
    let x = parts_pieces(p);
    let y = parts_pieces(q);
    let g = seq![Piece::Space];
    lemma_describes_is_fits(split(a + s + b), text);
    assert(parts_pieces(split(a + s + b)) == x + g + y);
    if describes(split(a + s + b), text) {
        let j = lemma_fits_cut(x + g, y, text);
        let i = lemma_fits_cut(x, g, text.take(j));
        assert(text.take(j).take(i) =~= text.take(i));
        assert(text.take(j).skip(i) =~= text.subrange(i, j));
        lemma_fits_one(Piece::Space, text.subrange(i, j));
        lemma_describes_is_fits(p, text.take(i));
        lemma_describes_is_fits(q, text.skip(j));
        assert(all_space(text.subrange(i, j)));
    }
    if exists|i: int, j: int|
        0 <= i < j <= text.len() && describes(p, text.take(i)) && all_space(
            #[trigger] text.subrange(i, j),
        ) && describes(q, text.skip(j)) {
        let (i, j) = choose|i: int, j: int|
            0 <= i < j <= text.len() && describes(p, text.take(i)) && all_space(
                #[trigger] text.subrange(i, j),
            ) && describes(q, text.skip(j));
        lemma_describes_is_fits(p, text.take(i));
        lemma_describes_is_fits(q, text.skip(j));
        lemma_fits_one(Piece::Space, text.subrange(i, j));
        lemma_fits_concat(x, text.take(i), g, text.subrange(i, j));
        lemma_fits_concat(x + g, text.take(i) + text.subrange(i, j), y, text.skip(j));
        assert(text.take(i) + text.subrange(i, j) + text.skip(j) =~= text);
    }
}

} // verus!
