//! From an event template to a pattern and a name.
//!
//! A template is text with wildcards in it. It is read as a sequence of parts, and the parts as a
//! sequence of pieces of a regular expression; a pattern is those pieces, written down.
use crate::text::{chars_of, is_space, white_space};
use vstd::prelude::*;

verus! {

/// One part of a split template.
#[derive(Debug, PartialEq, Eq)]
pub enum Part<'a> {
    Literal(&'a str),
    Wildcard,
}

/// What a `Part` stands for.
pub enum PartView {
    Literal(Seq<char>),
    Wildcard,
}

impl<'a> View for Part<'a> {
    type V = PartView;

    open spec fn view(&self) -> PartView {
        match self {
            Part::Literal(text) => PartView::Literal(text@),
            Part::Wildcard => PartView::Wildcard,
        }
    }
}

/// How many characters the wildcard that starts at `at` has: three for `<*>`, five for `<NUM>`,
/// none where no wildcard starts.
pub open spec fn wildcard_at(template: Seq<char>, at: int) -> int {
    if 0 <= at && at + 3 <= template.len() && template[at] == '<' && template[at + 1] == '*'
        && template[at + 2] == '>' {
        3
    } else if 0 <= at && at + 5 <= template.len() && template[at] == '<' && template[at + 1] == 'N'
        && template[at + 2] == 'U' && template[at + 3] == 'M' && template[at + 4] == '>' {
        5
    } else {
        0
    }
}

/// Where the first wildcard at or after `from` starts, or the template's length if there is none.
pub open spec fn next_wildcard(template: Seq<char>, from: int) -> int
    decreases template.len() - from,
{
    if from >= template.len() {
        template.len() as int
    } else if wildcard_at(template, from) > 0 {
        from
    } else {
        next_wildcard(template, from + 1)
    }
}

/// The parts of `template[from..]`.
pub open spec fn split_from(template: Seq<char>, from: int) -> Seq<PartView>
    decreases template.len() - from,
    when 0 <= from
    via split_from_ends
{
    if from >= template.len() {
        seq![]
    } else {
        let at = next_wildcard(template, from);
        let literal = if at > from {
            seq![PartView::Literal(template.subrange(from, at))]
        } else {
            seq![]
        };
        if at >= template.len() {
            literal
        } else {
            literal + seq![PartView::Wildcard] + split_from(
                template,
                at + wildcard_at(template, at),
            )
        }
    }
}

#[via_fn]
proof fn split_from_ends(template: Seq<char>, from: int) {
    if from < template.len() {
        lemma_next_wildcard(template, from);
    }
}

/// The parts of a template, in order: its wildcards, and the text between them.
pub open spec fn split(template: Seq<char>) -> Seq<PartView> {
    split_from(template, 0)
}

proof fn lemma_next_wildcard(template: Seq<char>, from: int)
    requires
        0 <= from <= template.len(),
    ensures
        from <= next_wildcard(template, from) <= template.len(),
        next_wildcard(template, from) < template.len() ==> wildcard_at(
            template,
            next_wildcard(template, from),
        ) > 0,
        forall|i: int|
            from <= i < next_wildcard(template, from) ==> #[trigger] wildcard_at(template, i) == 0,
    decreases template.len() - from,
{
    if from < template.len() && wildcard_at(template, from) == 0 {
        lemma_next_wildcard(template, from + 1);
    }
}

/// Whether `parts`, one after the other, are a reading of `text`: a literal stands for itself, a
/// wildcard for either of its spellings.
pub open spec fn spells(parts: Seq<PartView>, text: Seq<char>) -> bool
    decreases parts.len(),
{
    if parts.len() == 0 {
        text.len() == 0
    } else {
        match parts.first() {
            PartView::Literal(literal) => {
                &&& literal.len() <= text.len()
                &&& text.take(literal.len() as int) == literal
                &&& spells(parts.drop_first(), text.skip(literal.len() as int))
            },
            PartView::Wildcard => {
                &&& wildcard_at(text, 0) > 0
                &&& spells(parts.drop_first(), text.skip(wildcard_at(text, 0)))
            },
        }
    }
}

/// Whether no literal is empty, no literal holds a wildcard, and no two literals stand side by
/// side.
pub open spec fn well_split(parts: Seq<PartView>) -> bool {
    &&& forall|i: int|
        0 <= i < parts.len() ==> (#[trigger] parts[i] matches PartView::Literal(literal)
            ==> literal.len() > 0 && forall|at: int| #[trigger] wildcard_at(literal, at) == 0)
    &&& forall|i: int, j: int|
        0 <= i < parts.len() && j == i + 1 && j < parts.len() && #[trigger] parts[i] is Literal
            ==> #[trigger] parts[j] is Wildcard
}

proof fn lemma_wildcard_skip(text: Seq<char>, from: int, at: int)
    requires
        0 <= from <= text.len(),
        0 <= at,
    ensures
        wildcard_at(text.skip(from), at) == wildcard_at(text, from + at),
{
}

proof fn lemma_wildcard_within(text: Seq<char>, from: int, to: int, at: int)
    requires
        0 <= from <= to <= text.len(),
        wildcard_at(text.subrange(from, to), at) > 0,
    ensures
        0 <= at,
        from + at < to,
        wildcard_at(text, from + at) == wildcard_at(text.subrange(from, to), at),
{
}

proof fn lemma_split_from(template: Seq<char>, from: int)
    requires
        0 <= from <= template.len(),
    ensures
        spells(split_from(template, from), template.skip(from)),
        well_split(split_from(template, from)),
    decreases template.len() - from,
{
    let parts = split_from(template, from);
    let text = template.skip(from);
    if from < template.len() {
        let at = next_wildcard(template, from);
        lemma_next_wildcard(template, from);
        let literal = template.subrange(from, at);
        assert forall|i: int| #[trigger] wildcard_at(literal, i) == 0 by {
            if wildcard_at(literal, i) > 0 {
                lemma_wildcard_within(template, from, at, i);
            }
        }
        assert(text.take(at - from) =~= literal);
        assert(text.skip(at - from) =~= template.skip(at));
        let empty = Seq::<PartView>::empty();
        if at < template.len() {
            let next = at + wildcard_at(template, at);
            lemma_wildcard_skip(template, at, 0);
            lemma_split_from(template, next);
            let rest = split_from(template, next);
            assert(template.skip(at).skip(next - at) =~= template.skip(next));
            let tail = seq![PartView::Wildcard] + rest;
            assert(tail.drop_first() =~= rest);
            assert(spells(tail, template.skip(at)));
            if at > from {
                assert(parts.drop_first() =~= tail);
            } else {
                assert(parts =~= tail);
            }
        } else {
            assert(parts.drop_first() =~= empty);
            assert(spells(empty, template.skip(at)));
        }
    }
}

/// A template can be put together again from its parts; and its parts are as coarse as they can
/// be, with no wildcard left inside a literal.
pub proof fn law_split_reads_the_template(template: Seq<char>)
    ensures
        spells(split(template), template),
        well_split(split(template)),
{
    lemma_split_from(template, 0);
    assert(template.skip(0) =~= template);
}

proof fn lemma_only_reading(template: Seq<char>, from: int, parts: Seq<PartView>)
    requires
        0 <= from <= template.len(),
        spells(parts, template.skip(from)),
        well_split(parts),
    ensures
        parts == split_from(template, from),
    decreases template.len() - from, parts.len(),
{
    let text = template.skip(from);
    if parts.len() > 0 {
        let rest = parts.drop_first();
        assert forall|i: int| 0 <= i < rest.len() implies rest[i] == #[trigger] parts[i + 1] by {}
        assert(well_split(rest)) by {
            assert forall|i: int| 0 <= i < rest.len() implies (
            #[trigger] rest[i] matches PartView::Literal(literal) ==> literal.len() > 0 && forall|
                at: int,
            | #[trigger] wildcard_at(literal, at) == 0) by {
                assert(rest[i] == parts[i + 1]);
            }
            assert forall|i: int, j: int|
                0 <= i < rest.len() && j == i + 1 && j < rest.len()
                    && #[trigger] rest[i] is Literal implies #[trigger] rest[j] is Wildcard by {
                assert(rest[i] == parts[i + 1] && rest[j] == parts[j + 1]);
            }
        }
        match parts[0] {
            PartView::Wildcard => {
                let len = wildcard_at(text, 0);
                lemma_wildcard_skip(template, from, 0);
                assert(text.skip(len) =~= template.skip(from + len));
                lemma_only_reading(template, from + len, rest);
                assert(parts =~= seq![PartView::Wildcard] + rest);
                assert(split_from(template, from) =~= seq![PartView::Wildcard] + rest);
            },
            PartView::Literal(literal) => {
                let at = from + literal.len();
                assert(text.skip(literal.len() as int) =~= template.skip(at));
                assert(literal =~= template.subrange(from, at));
                lemma_only_reading(template, at, rest);
                if rest.len() > 0 {
                    assert(parts[1] is Wildcard && rest[0] == parts[1]);
                    lemma_wildcard_skip(template, at, 0);
                    assert(rest.first() is Wildcard);
                    assert(spells(rest, template.skip(at)));
                    assert(wildcard_at(template, at) > 0);
                } else {
                    assert(template.skip(at).len() == 0);
                }
                assert forall|i: int| from <= i < at implies #[trigger] wildcard_at(template, i)
                    == 0 by {
                    assert(wildcard_at(literal, i - from) == 0);
                    assert(forall|k: int| 0 <= k < literal.len() ==> literal[k] == template[from + k]);
                }
                lemma_next_wildcard(template, from);
                assert(next_wildcard(template, from) == at) by {
                    lemma_next_wildcard_is(template, from, at);
                }
                assert(parts =~= seq![parts[0]] + rest);
                if rest.len() > 0 {
                    lemma_next_wildcard_is(template, at, at);
                    assert(split_from(template, from) =~= seq![parts[0]] + split_from(template, at));
                } else {
                    assert(split_from(template, from) =~= seq![parts[0]]);
                }
            },
        }
    }
}

proof fn lemma_next_wildcard_is(template: Seq<char>, from: int, at: int)
    requires
        0 <= from <= at <= template.len(),
        at < template.len() ==> wildcard_at(template, at) > 0,
        forall|i: int| from <= i < at ==> #[trigger] wildcard_at(template, i) == 0,
    ensures
        next_wildcard(template, from) == at,
    decreases at - from,
{
    if from < at {
        assert(wildcard_at(template, from) == 0);
        lemma_next_wildcard_is(template, from + 1, at);
    }
}

/// No other list of parts reads as the template without leaving a wildcard inside a literal or
/// cutting a literal up.
pub proof fn law_split_is_the_only_reading(template: Seq<char>, parts: Seq<PartView>)
    requires
        spells(parts, template),
        well_split(parts),
    ensures
        parts == split(template),
{
    assert(template.skip(0) =~= template);
    lemma_only_reading(template, 0, parts);
}

/// The length of the wildcard that starts at `at`, or zero.
fn wildcard_len(template: &Vec<char>, at: usize) -> (len: usize)
    requires
        at <= template@.len(),
    ensures
        len == wildcard_at(template@, at as int),
{
    let left: usize = template.len() - at;
    if left >= 3 && template[at] == '<' && template[at + 1] == '*' && template[at + 2] == '>' {
        3
    } else if left >= 5 && template[at] == '<' && template[at + 1] == 'N' && template[at + 2] == 'U'
        && template[at + 3] == 'M' && template[at + 4] == '>' {
        5
    } else {
        0
    }
}

/// The views of a list of parts.
pub open spec fn views(parts: Seq<Part<'_>>) -> Seq<PartView> {
    parts.map_values(|part: Part<'_>| part@)
}

/// Splits a template on the exact wildcard tokens, `<*>` and `<NUM>`, keeping both sides.
pub fn split_template(template: &str) -> (parts: Vec<Part<'_>>)
    ensures
        views(parts@) == split(template@),
{
    let chars = chars_of(template);
    let mut parts: Vec<Part<'_>> = Vec::new();
    let mut from: usize = 0;
    let mut at: usize = 0;
    proof {
        assert(views(parts@) + split_from(template@, 0) =~= split(template@));
    }
    while at < chars.len()
        invariant
            chars@ == template@,
            from <= at <= chars@.len(),
            next_wildcard(template@, from as int) == next_wildcard(template@, at as int),
            views(parts@) + split_from(template@, from as int) == split(template@),
        decreases chars.len() - at,
    {
        let len = wildcard_len(&chars, at);
        if len > 0 {
            let ghost before = views(parts@);
            if at > from {
                parts.push(Part::Literal(template.substring_char(from, at)));
            }
            parts.push(Part::Wildcard);
            proof {
                let literal = if at > from {
                    seq![PartView::Literal(template@.subrange(from as int, at as int))]
                } else {
                    seq![]
                };
                assert(views(parts@) =~= before + literal + seq![PartView::Wildcard]);
                assert(split_from(template@, from as int) == literal + seq![PartView::Wildcard]
                    + split_from(template@, at + len));
                assert(views(parts@) + split_from(template@, at + len) =~= before + split_from(
                    template@,
                    from as int,
                ));
            }
            at = at + len;
            from = at;
        } else {
            at = at + 1;
        }
    }
    let ghost before = views(parts@);
    if at > from {
        parts.push(Part::Literal(template.substring_char(from, at)));
    }
    proof {
        assert(views(parts@) =~= split(template@));
    }
    parts
}

/// Whether `c` has a meaning of its own in a regular expression.
pub open spec fn is_meta(c: char) -> bool {
    ||| c == '\\' || c == '.' || c == '+' || c == '*' || c == '?'
    ||| c == '(' || c == ')' || c == '|' || c == '[' || c == ']' || c == '{' || c == '}'
    ||| c == '^' || c == '$' || c == '#' || c == '&' || c == '-' || c == '~'
}

/// `c` as a regular expression that matches it and nothing else.
pub open spec fn escaped_char(c: char) -> Seq<char> {
    if is_meta(c) {
        seq!['\\', c]
    } else {
        seq![c]
    }
}

/// `text` as a regular expression that matches it and nothing else.
pub open spec fn escaped(text: Seq<char>) -> Seq<char>
    decreases text.len(),
{
    if text.len() == 0 {
        seq![]
    } else {
        escaped(text.drop_last()) + escaped_char(text.last())
    }
}

/// One piece of a pattern.
pub enum Piece {
    /// One character, for itself.
    Char(char),
    /// A run of white space, of any length but zero: `\s+`.
    Space,
    /// Any text within a line: `.*?`.
    Gap,
}

/// A piece, as a pattern has it.
pub open spec fn piece_text(piece: Piece) -> Seq<char> {
    match piece {
        Piece::Char(c) => escaped_char(c),
        Piece::Space => seq!['\\', 's', '+'],
        Piece::Gap => seq!['.', '*', '?'],
    }
}

/// The pattern that some pieces make, one after the other.
pub open spec fn render(pieces: Seq<Piece>) -> Seq<char>
    decreases pieces.len(),
{
    if pieces.len() == 0 {
        seq![]
    } else {
        render(pieces.drop_last()) + piece_text(pieces.last())
    }
}

/// Whether a pattern is made of escaped characters, `\s+` and `.*?` alone.
pub open spec fn is_rendered(pattern: Seq<char>) -> bool {
    exists|pieces: Seq<Piece>| pattern == #[trigger] render(pieces)
}

/// How many pieces a pattern may have to be small.
pub const SMALL: usize = 1000;

/// Whether a pattern is small: it has so few pieces that its size is no matter to the engine.
pub open spec fn is_small(pattern: Seq<char>) -> bool {
    exists|pieces: Seq<Piece>| pieces.len() <= SMALL && pattern == #[trigger] render(pieces)
}

/// The pieces of literal text: its characters, with every run of white space made one piece.
pub open spec fn literal_pieces(text: Seq<char>) -> Seq<Piece>
    decreases text.len(),
{
    if text.len() == 0 {
        seq![]
    } else {
        let before = text.drop_last();
        if !is_space(text.last()) {
            literal_pieces(before).push(Piece::Char(text.last()))
        } else if before.len() > 0 && is_space(before.last()) {
            literal_pieces(before)
        } else {
            literal_pieces(before).push(Piece::Space)
        }
    }
}

/// The pieces of one part.
pub open spec fn part_pieces(part: PartView) -> Seq<Piece> {
    match part {
        PartView::Literal(text) => literal_pieces(text),
        PartView::Wildcard => seq![Piece::Gap],
    }
}

/// The pieces of some parts, one after the other.
pub open spec fn parts_pieces(parts: Seq<PartView>) -> Seq<Piece>
    decreases parts.len(),
{
    if parts.len() == 0 {
        seq![]
    } else {
        parts_pieces(parts.drop_last()) + part_pieces(parts.last())
    }
}

/// The pieces of a template.
pub open spec fn template_pieces(template: Seq<char>) -> Seq<Piece> {
    parts_pieces(split(template))
}

/// `pieces` without a gap at the start and without a gap at the end: one at most, at either.
pub open spec fn without_edge_gaps(pieces: Seq<Piece>) -> Seq<Piece> {
    let rest = if pieces.len() > 0 && pieces.first() is Gap {
        pieces.drop_first()
    } else {
        pieces
    };
    if rest.len() > 0 && rest.last() is Gap {
        rest.drop_last()
    } else {
        rest
    }
}

/// Whether some piece is a character: text that a line must hold.
pub open spec fn has_text(pieces: Seq<Piece>) -> bool {
    exists|i: int| 0 <= i < pieces.len() && #[trigger] pieces[i] is Char
}

/// The pieces of a template's pattern, if it has one.
pub open spec fn pattern_pieces(template: Seq<char>) -> Option<Seq<Piece>> {
    if has_text(template_pieces(template)) {
        Some(without_edge_gaps(template_pieces(template)))
    } else {
        None
    }
}

/// A template's pattern. A template without literal text, white space aside, has none.
pub open spec fn pattern_of(template: Seq<char>) -> Option<Seq<char>> {
    match pattern_pieces(template) {
        Some(pieces) => Some(render(pieces)),
        None => None,
    }
}

pub(crate) proof fn lemma_render_concat(a: Seq<Piece>, b: Seq<Piece>)
    ensures
        render(a + b) == render(a) + render(b),
    decreases b.len(),
{
    if b.len() == 0 {
        assert(a + b =~= a);
        assert(render(a) + render(b) =~= render(a));
    } else {
        assert((a + b).drop_last() =~= a + b.drop_last());
        lemma_render_concat(a, b.drop_last());
        assert(render(a + b) =~= render(a) + render(b));
    }
}

pub(crate) proof fn lemma_render_one(piece: Piece)
    ensures
        render(seq![piece]) == piece_text(piece),
{
    reveal_with_fuel(render, 2);
    assert(seq![piece].drop_last() =~= Seq::<Piece>::empty());
    assert(render(seq![piece]) =~= piece_text(piece));
}

/// A character that is no white space adds itself.
pub(crate) proof fn lemma_pieces_push(text: Seq<char>, c: char)
    requires
        !is_space(c),
    ensures
        literal_pieces(text.push(c)) == literal_pieces(text).push(Piece::Char(c)),
        render(literal_pieces(text.push(c))) == render(literal_pieces(text)) + escaped_char(c),
{
    let pieces = literal_pieces(text);
    assert(text.push(c).drop_last() =~= text);
    assert(pieces.push(Piece::Char(c)).drop_last() =~= pieces);
}

/// A run of text without white space adds its characters.
pub(crate) proof fn lemma_pieces_of_word(text: Seq<char>, word: Seq<char>)
    requires
        forall|i: int| 0 <= i < word.len() ==> !is_space(#[trigger] word[i]),
    ensures
        render(literal_pieces(text + word)) == render(literal_pieces(text)) + escaped(word),
    decreases word.len(),
{
    if word.len() == 0 {
        assert(text + word =~= text);
        assert(escaped(word) =~= seq![]);
    } else {
        let before = word.drop_last();
        lemma_pieces_of_word(text, before);
        lemma_pieces_push(text + before, word.last());
        assert((text + before).push(word.last()) =~= text + word);
        assert(render(literal_pieces(text + word)) =~= render(literal_pieces(text)) + escaped(word));
    }
}

/// A run of white space adds one piece.
pub(crate) proof fn lemma_pieces_of_space(text: Seq<char>, space: Seq<char>)
    requires
        space.len() > 0,
        text.len() == 0 || !is_space(text.last()),
        forall|i: int| 0 <= i < space.len() ==> is_space(#[trigger] space[i]),
    ensures
        literal_pieces(text + space) == literal_pieces(text).push(Piece::Space),
    decreases space.len(),
{
    let before = space.drop_last();
    assert((text + space).drop_last() =~= text + before);
    assert((text + space).last() == space.last());
    if before.len() == 0 {
        assert(text + before =~= text);
    } else {
        lemma_pieces_of_space(text, before);
        assert((text + before).last() == before.last());
    }
}

/// One literal run as a regular expression: escaped, with every run of white space made flexible.
pub fn literal_to_pattern(literal: &str) -> (pattern: String)
    ensures
        pattern@ == render(literal_pieces(literal@)),
{
    let chars = chars_of(literal);
    let mut pattern = String::new();
    let mut at: usize = 0;
    while at < chars.len()
        invariant
            chars@ == literal@,
            at <= chars@.len(),
            pattern@ == render(literal_pieces(literal@.take(at as int))),
            0 < at < chars@.len() ==> is_space(chars@[at - 1]) != is_space(chars@[at as int]),
        decreases chars.len() - at,
    {
        let from = at;
        if white_space(chars[at]) {
            while at < chars.len() && white_space(chars[at])
                invariant
                    from <= at <= chars@.len(),
                    forall|i: int| from <= i < at ==> is_space(#[trigger] chars@[i]),
                decreases chars.len() - at,
            {
                at = at + 1;
            }
            pattern.append("\\s+");
            proof {
                let text = literal@.take(from as int);
                let space = literal@.subrange(from as int, at as int);
                assert(literal@.take(at as int) =~= text + space);
                lemma_pieces_of_space(text, space);
                let pieces = literal_pieces(text);
                assert(pieces.push(Piece::Space).drop_last() =~= pieces);
                reveal_strlit("\\s+");
                assert("\\s+"@ =~= piece_text(Piece::Space));
            }
        } else {
            while at < chars.len() && !white_space(chars[at])
                invariant
                    from <= at <= chars@.len(),
                    forall|i: int| from <= i < at ==> !is_space(#[trigger] chars@[i]),
                decreases chars.len() - at,
            {
                at = at + 1;
            }
            let word = literal.substring_char(from, at);
            pattern.append(regex::escape(word).as_str());
            proof {
                let text = literal@.take(from as int);
                assert(literal@.take(at as int) =~= text + word@);
                lemma_pieces_of_word(text, word@);
            }
        }
    }
    assert(literal@.take(at as int) =~= literal@);
    pattern
}

pub(crate) proof fn lemma_parts_pieces_concat(a: Seq<PartView>, b: Seq<PartView>)
    ensures
        parts_pieces(a + b) == parts_pieces(a) + parts_pieces(b),
    decreases b.len(),
{
    if b.len() == 0 {
        assert(a + b =~= a);
        assert(parts_pieces(a) + parts_pieces(b) =~= parts_pieces(a));
    } else {
        assert((a + b).drop_last() =~= a + b.drop_last());
        lemma_parts_pieces_concat(a, b.drop_last());
        assert(parts_pieces(a + b) =~= parts_pieces(a) + parts_pieces(b));
    }
}

pub(crate) proof fn lemma_parts_pieces_one(part: PartView)
    ensures
        parts_pieces(seq![part]) == part_pieces(part),
{
    reveal_with_fuel(parts_pieces, 2);
    assert(seq![part].drop_last() =~= Seq::<PartView>::empty());
    assert(parts_pieces(seq![part]) =~= part_pieces(part));
}

/// Whether a text holds anything but white space.
pub open spec fn holds_word(text: Seq<char>) -> bool {
    exists|i: int| 0 <= i < text.len() && !is_space(#[trigger] text[i])
}

/// No piece of literal text is a gap; there is a piece where there is text, and a character among
/// the pieces where there is one that is no white space.
pub(crate) proof fn lemma_literal_pieces(text: Seq<char>)
    ensures
        forall|i: int|
            0 <= i < literal_pieces(text).len() ==> !(#[trigger] literal_pieces(text)[i] is Gap),
        text.len() > 0 ==> literal_pieces(text).len() > 0,
        has_text(literal_pieces(text)) <==> holds_word(text),
    decreases text.len(),
{
    if text.len() > 0 {
        lemma_literal_pieces(text.drop_last());
        lemma_literal_pieces_step(text.drop_last(), text.last());
        assert(text.drop_last().push(text.last()) =~= text);
    }
}

proof fn lemma_literal_pieces_step(before: Seq<char>, c: char)
    requires
        forall|i: int|
            0 <= i < literal_pieces(before).len() ==> !(#[trigger] literal_pieces(before)[i] is Gap),
        before.len() > 0 ==> literal_pieces(before).len() > 0,
        has_text(literal_pieces(before)) <==> holds_word(before),
    ensures
        forall|i: int|
            0 <= i < literal_pieces(before.push(c)).len() ==> !(#[trigger] literal_pieces(
                before.push(c),
            )[i] is Gap),
        literal_pieces(before.push(c)).len() > 0,
        has_text(literal_pieces(before.push(c))) <==> holds_word(before.push(c)),
{
    let text = before.push(c);
    let pieces = literal_pieces(before);
    assert(text.drop_last() =~= before);
    if is_space(c) {
        let space = pieces.push(Piece::Space);
        assert(literal_pieces(text) == pieces || literal_pieces(text) == space);
        if has_text(pieces) {
            let i = choose|i: int| 0 <= i < pieces.len() && #[trigger] pieces[i] is Char;
            assert(space[i] is Char);
            let i = choose|i: int| 0 <= i < before.len() && !is_space(#[trigger] before[i]);
            assert(!is_space(text[i]));
        }
        if has_text(space) {
            let i = choose|i: int| 0 <= i < space.len() && #[trigger] space[i] is Char;
            assert(pieces[i] is Char);
        }
        if holds_word(text) {
            let i = choose|i: int| 0 <= i < text.len() && !is_space(#[trigger] text[i]);
            assert(!is_space(before[i]));
        }
    } else {
        let more = pieces.push(Piece::Char(c));
        assert(literal_pieces(text) == more);
        assert(more[pieces.len() as int] is Char);
        assert(!is_space(text[before.len() as int]));
    }
}

pub(crate) proof fn lemma_has_text_concat(a: Seq<Piece>, b: Seq<Piece>)
    ensures
        has_text(a + b) <==> has_text(a) || has_text(b),
{
    if has_text(a) {
        let i = choose|i: int| 0 <= i < a.len() && #[trigger] a[i] is Char;
        assert((a + b)[i] is Char);
    }
    if has_text(b) {
        let i = choose|i: int| 0 <= i < b.len() && #[trigger] b[i] is Char;
        assert((a + b)[a.len() + i] is Char);
    }
    if has_text(a + b) {
        let i = choose|i: int| 0 <= i < (a + b).len() && #[trigger] (a + b)[i] is Char;
        if i < a.len() {
            assert(a[i] is Char);
        } else {
            assert(b[i - a.len()] is Char);
        }
    }
}

/// Whether a text holds anything but white space.
fn has_word(text: &str) -> (found: bool)
    ensures
        found == has_text(literal_pieces(text@)),
{
    proof {
        lemma_literal_pieces(text@);
    }
    let chars = chars_of(text);
    let mut i: usize = 0;
    while i < chars.len()
        invariant
            chars@ == text@,
            i <= chars@.len(),
            forall|j: int| 0 <= j < i ==> is_space(#[trigger] chars@[j]),
            has_text(literal_pieces(text@)) == holds_word(text@),
        decreases chars.len() - i,
    {
        if !white_space(chars[i]) {
            assert(!is_space(text@[i as int]));
            return true;
        }
        i = i + 1;
    }
    false
}

/// Where the parts between the edge wildcards start and end.
pub(crate) proof fn lemma_inner_parts(parts: Seq<PartView>, lo: int, hi: int)
    requires
        well_split(parts),
        has_text(parts_pieces(parts)),
        0 <= lo <= hi <= parts.len(),
        lo == (if parts.len() > 0 && parts[0] is Wildcard { 1int } else { 0int }),
        hi == (if parts.len() > 0 && parts[parts.len() - 1] is Wildcard {
            parts.len() - 1
        } else {
            parts.len() as int
        }),
    ensures
        without_edge_gaps(parts_pieces(parts)) == parts_pieces(parts.subrange(lo, hi)),
{
    let inner = parts.subrange(lo, hi);
    let first = parts.subrange(0, lo);
    let last = parts.subrange(hi, parts.len() as int);
    assert(parts =~= first + (inner + last));
    lemma_parts_pieces_concat(first, inner + last);
    lemma_parts_pieces_concat(inner, last);
    lemma_parts_pieces_one(PartView::Wildcard);
    let gap = seq![Piece::Gap];
    if lo == 1 {
        assert(first =~= seq![PartView::Wildcard]);
    }
    if hi < parts.len() {
        assert(last =~= seq![PartView::Wildcard]);
    }
    let a = parts_pieces(first);
    let m = parts_pieces(inner);
    let b = parts_pieces(last);
    assert(a == (if lo == 1 { gap } else { seq![] }));
    assert(b == (if hi < parts.len() { gap } else { seq![] }));
    assert(parts_pieces(parts) == a + (m + b));
    assert(m.len() > 0) by {
        lemma_has_text_concat(a, m + b);
        lemma_has_text_concat(m, b);
        assert(!has_text(a) && !has_text(b));
    }
    if lo == 0 {
        lemma_first_piece(parts);
        assert((a + (m + b)) =~= m + b);
    } else {
        assert((a + (m + b)).drop_first() =~= m + b);
    }
    if hi == parts.len() {
        lemma_last_piece(parts);
        assert(m + b =~= m);
        assert((a + (m + b)).last() == m.last());
    } else {
        assert((m + b).drop_last() =~= m);
    }
}

proof fn lemma_first_piece(parts: Seq<PartView>)
    requires
        well_split(parts),
        parts.len() > 0,
        parts[0] is Literal,
    ensures
        parts_pieces(parts).len() > 0,
        !(parts_pieces(parts).first() is Gap),
{
    let literal = parts[0]->Literal_0;
    assert(parts =~= seq![parts[0]] + parts.drop_first());
    lemma_parts_pieces_concat(seq![parts[0]], parts.drop_first());
    lemma_parts_pieces_one(parts[0]);
    lemma_literal_pieces(literal);
    assert(parts_pieces(parts)[0] == literal_pieces(literal)[0]);
}

proof fn lemma_last_piece(parts: Seq<PartView>)
    requires
        well_split(parts),
        parts.len() > 0,
        parts[parts.len() - 1] is Literal,
    ensures
        parts_pieces(parts).len() > 0,
        !(parts_pieces(parts).last() is Gap),
{
    let literal = parts[parts.len() - 1]->Literal_0;
    lemma_literal_pieces(literal);
    let pieces = literal_pieces(literal);
    assert(parts_pieces(parts).last() == pieces[pieces.len() - 1]);
}

proof fn lemma_not_anchored(pieces: Seq<Piece>, i: int)
    requires
        0 <= i < render(pieces).len(),
        render(pieces)[i] == '^' || render(pieces)[i] == '$',
    ensures
        0 < i,
        render(pieces)[i - 1] == '\\',
    decreases pieces.len(),
{
    let before = render(pieces.drop_last());
    let text = piece_text(pieces.last());
    if i < before.len() {
        lemma_not_anchored(pieces.drop_last(), i);
    } else {
        assert(render(pieces)[i] == text[i - before.len()]);
        assert(text.len() >= 2);
        assert(render(pieces)[i - 1] == text[i - 1 - before.len()]);
    }
}

/// A pattern has no anchor: `^` and `$` stand in it only behind a backslash, for themselves.
pub proof fn law_patterns_are_not_anchored(template: Seq<char>, pattern: Seq<char>, i: int)
    requires
        pattern_of(template) == Some(pattern),
        0 <= i < pattern.len(),
        pattern[i] == '^' || pattern[i] == '$',
    ensures
        0 < i,
        pattern[i - 1] == '\\',
{
    lemma_not_anchored(pattern_pieces(template)->0, i);
}

/// Whether no character among some pieces is white space.
spec fn no_raw_space(pieces: Seq<Piece>) -> bool {
    forall|i: int|
        0 <= i < pieces.len() ==> ((#[trigger] pieces[i]) matches Piece::Char(c) ==> !is_space(c))
}

proof fn lemma_no_raw_space_in_literal(text: Seq<char>)
    ensures
        no_raw_space(literal_pieces(text)),
    decreases text.len(),
{
    if text.len() > 0 {
        lemma_no_raw_space_in_literal(text.drop_last());
        lemma_no_raw_space_step(text.drop_last(), text.last());
        assert(text.drop_last().push(text.last()) =~= text);
    }
}

proof fn lemma_no_raw_space_step(before: Seq<char>, c: char)
    requires
        no_raw_space(literal_pieces(before)),
    ensures
        no_raw_space(literal_pieces(before.push(c))),
{
    assert(before.push(c).drop_last() =~= before);
}

proof fn lemma_no_raw_space_in_parts(parts: Seq<PartView>)
    ensures
        no_raw_space(parts_pieces(parts)),
    decreases parts.len(),
{
    if parts.len() > 0 {
        lemma_no_raw_space_in_parts(parts.drop_last());
        if let PartView::Literal(text) = parts.last() {
            lemma_no_raw_space_in_literal(text);
        }
    }
}

proof fn lemma_render_holds_no_space(pieces: Seq<Piece>, i: int)
    requires
        no_raw_space(pieces),
        0 <= i < render(pieces).len(),
    ensures
        !is_space(render(pieces)[i]),
    decreases pieces.len(),
{
    let before = render(pieces.drop_last());
    let text = piece_text(pieces.last());
    if i < before.len() {
        assert forall|j: int| 0 <= j < pieces.drop_last().len() implies ((
        #[trigger] pieces.drop_last()[j]) matches Piece::Char(c) ==> !is_space(c)) by {
            assert(pieces.drop_last()[j] == pieces[j]);
        }
        lemma_render_holds_no_space(pieces.drop_last(), i);
    } else {
        assert(render(pieces)[i] == text[i - before.len()]);
        assert(pieces.last() == pieces[pieces.len() - 1]);
    }
}

/// A pattern holds no white space of its own: neither a blank nor the end of a line.
pub proof fn law_patterns_hold_no_white_space(template: Seq<char>, pattern: Seq<char>, i: int)
    requires
        pattern_of(template) == Some(pattern),
        0 <= i < pattern.len(),
    ensures
        !is_space(pattern[i]),
{
    let all = template_pieces(template);
    let pieces = without_edge_gaps(all);
    lemma_no_raw_space_in_parts(split(template));
    let skipped: int = if all.first() is Gap {
        1
    } else {
        0
    };
    assert forall|j: int| 0 <= j < pieces.len() implies ((#[trigger] pieces[j]) matches Piece::Char(
        c,
    ) ==> !is_space(c)) by {
        assert(pieces[j] == all[j + skipped]);
    }
    lemma_render_holds_no_space(pieces, i);
}

proof fn lemma_literal_pieces_within(text: Seq<char>)
    ensures
        literal_pieces(text).len() <= text.len(),
    decreases text.len(),
{
    if text.len() > 0 {
        lemma_literal_pieces_within(text.drop_last());
        lemma_literal_pieces_within_step(text.drop_last(), text.last());
        assert(text.drop_last().push(text.last()) =~= text);
    }
}

proof fn lemma_literal_pieces_within_step(before: Seq<char>, c: char)
    ensures
        literal_pieces(before.push(c)).len() <= literal_pieces(before).len() + 1,
{
    assert(before.push(c).drop_last() =~= before);
}

proof fn lemma_pieces_within(parts: Seq<PartView>, text: Seq<char>)
    requires
        spells(parts, text),
    ensures
        parts_pieces(parts).len() <= text.len(),
    decreases parts.len(),
{
    if parts.len() > 0 {
        let first = parts.first();
        let rest = parts.drop_first();
        assert(parts =~= seq![first] + rest);
        lemma_parts_pieces_concat(seq![first], rest);
        lemma_parts_pieces_one(first);
        match first {
            PartView::Literal(literal) => {
                lemma_literal_pieces_within(literal);
                lemma_pieces_within(rest, text.skip(literal.len() as int));
            },
            PartView::Wildcard => lemma_pieces_within(rest, text.skip(wildcard_at(text, 0))),
        }
    }
}

/// A short template has a small pattern.
pub proof fn law_short_templates_have_small_patterns(template: Seq<char>, pattern: Seq<char>)
    requires
        pattern_of(template) == Some(pattern),
        template.len() <= SMALL,
    ensures
        is_small(pattern),
{
    law_split_reads_the_template(template);
    lemma_pieces_within(split(template), template);
    let pieces = pattern_pieces(template)->Some_0;
    assert(pieces.len() <= template_pieces(template).len());
    assert(pattern == render(pieces));
}

/// One template as a pattern, or `None` when it would match every line.
///
/// The wildcard at either end is dropped, for a search that may start and stop anywhere it
/// constrains nothing; the white space beside it is kept.
pub fn pattern_for(template: &str) -> (pattern: Option<String>)
    ensures
        match pattern {
            Some(pattern) => pattern_of(template@) == Some(pattern@),
            None => pattern_of(template@) is None,
        },
{
    let parts = split_template(template);
    let ghost view = views(parts@);
    let mut found = false;
    let mut i: usize = 0;
    while i < parts.len()
        invariant
            view == views(parts@),
            i <= parts@.len(),
            found == has_text(parts_pieces(view.take(i as int))),
        decreases parts.len() - i,
    {
        let here = match parts[i] {
            Part::Literal(text) => has_word(text),
            Part::Wildcard => false,
        };
        found = found || here;
        proof {
            let part = view[i as int];
            assert(view.take(i + 1) =~= view.take(i as int) + seq![part]);
            lemma_parts_pieces_concat(view.take(i as int), seq![part]);
            lemma_parts_pieces_one(part);
            lemma_has_text_concat(parts_pieces(view.take(i as int)), part_pieces(part));
        }
        i = i + 1;
    }
    assert(view.take(i as int) =~= view);
    if !found {
        return None;
    }
    proof {
        law_split_reads_the_template(template@);
    }
    let lo: usize = match parts[0] {
        Part::Wildcard => 1,
        Part::Literal(_) => 0,
    };
    let hi: usize = match parts[parts.len() - 1] {
        Part::Wildcard => parts.len() - 1,
        Part::Literal(_) => parts.len(),
    };
    let mut pattern = String::new();
    let mut i: usize = lo;
    while i < hi
        invariant
            view == views(parts@),
            lo <= i,
            lo <= hi ==> i <= hi,
            hi <= parts@.len(),
            lo <= hi ==> pattern@ == render(parts_pieces(view.subrange(lo as int, i as int))),
        decreases hi - i,
    {
        match parts[i] {
            Part::Literal(text) => pattern.append(literal_to_pattern(text).as_str()),
            Part::Wildcard => pattern.append(".*?"),
        }
        proof {
            let part = view[i as int];
            let before = view.subrange(lo as int, i as int);
            assert(view.subrange(lo as int, i + 1) =~= before + seq![part]);
            lemma_parts_pieces_concat(before, seq![part]);
            lemma_parts_pieces_one(part);
            lemma_render_concat(parts_pieces(before), part_pieces(part));
            lemma_render_one(Piece::Gap);
            reveal_strlit(".*?");
            assert(".*?"@ =~= piece_text(Piece::Gap));
        }
        i = i + 1;
    }
    proof {
        if lo > hi {
            assert(view =~= seq![PartView::Wildcard]);
            lemma_parts_pieces_one(PartView::Wildcard);
        }
        lemma_inner_parts(view, lo as int, hi as int);
    }
    Some(pattern)
}

/// The parts of a template show each literal's text and each wildcard, in order.
pub proof fn law_parts_show_their_text(parts: Seq<Part<'_>>, i: int)
    requires
        0 <= i < parts.len(),
    ensures
        views(parts).len() == parts.len(),
        parts[i] matches Part::Literal(text) ==> views(parts)[i] == PartView::Literal(text@),
        parts[i] is Wildcard ==> views(parts)[i] is Wildcard,
{
}

} // verus!
