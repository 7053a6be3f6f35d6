//! How a template is spelled: what its wildcards, its white space and its words become in the pattern,
//! and what the pattern forgets about them.
use crate::emit::holds;
use crate::template::{
    escaped, has_text, holds_word, is_meta, law_split_is_the_only_reading,
    law_split_reads_the_template, lemma_has_text_concat, lemma_inner_parts, lemma_literal_pieces,
    lemma_parts_pieces_concat, lemma_parts_pieces_one, lemma_pieces_of_word, lemma_render_concat,
    lemma_render_one, literal_pieces, parts_pieces, pattern_of, piece_text, render, spells, split,
    template_pieces, well_split, wildcard_at, PartView, Piece,
};
use crate::text::is_space;
use vstd::prelude::*;

verus! {

proof fn lemma_spells_concat(p: Seq<PartView>, x: Seq<char>, q: Seq<PartView>, y: Seq<char>)
    requires
        spells(p, x),
        spells(q, y),
    ensures
        spells(p + q, x + y),
    decreases p.len(),
{
    if p.len() == 0 {
        assert(p + q =~= q);
        assert(x + y =~= y);
    } else {
        assert((p + q).drop_first() =~= p.drop_first() + q);
        assert((p + q).first() == p.first());
        let n = match p.first() {
            PartView::Literal(literal) => literal.len() as int,
            PartView::Wildcard => wildcard_at(x, 0),
        };
        lemma_spells_concat(p.drop_first(), x.skip(n), q, y);
        assert((x + y).skip(n) =~= x.skip(n) + y);
        assert((x + y).take(n) =~= x.take(n));
        assert(p.first() is Wildcard ==> wildcard_at(x + y, 0) == wildcard_at(x, 0));
    }
}

/// Where the text that `p + q` reads as is cut, so that `p` reads as what is before and `q` as
/// what is after.
proof fn lemma_spells_cut(p: Seq<PartView>, q: Seq<PartView>, x: Seq<char>) -> (cut: int)
    requires
        spells(p + q, x),
    ensures
        0 <= cut <= x.len(),
        spells(p, x.take(cut)),
        spells(q, x.skip(cut)),
    decreases p.len(),
{
    if p.len() == 0 {
        assert(p + q =~= q);
        assert(x.skip(0) =~= x);
        0
    } else {
        assert((p + q).drop_first() =~= p.drop_first() + q);
        assert((p + q).first() == p.first());
        let n = match p.first() {
            PartView::Literal(literal) => literal.len() as int,
            PartView::Wildcard => wildcard_at(x, 0),
        };
        let rest = lemma_spells_cut(p.drop_first(), q, x.skip(n));
        let cut = n + rest;
        assert(x.take(cut).skip(n) =~= x.skip(n).take(rest));
        assert(x.take(cut).take(n) =~= x.take(n));
        assert(x.skip(n).skip(rest) =~= x.skip(cut));
        assert(p.first() is Wildcard ==> wildcard_at(x.take(cut), 0) == wildcard_at(x, 0));
        cut
    }
}

proof fn lemma_wildcard_between(a: Seq<char>, token: Seq<char>, b: Seq<char>)
    requires
        wildcard_at(token, 0) == token.len(),
        token.len() > 0,
    ensures
        split(a + token + b) == split(a) + seq![PartView::Wildcard] + split(b),
        template_pieces(a + token + b) == template_pieces(a) + seq![Piece::Gap] + template_pieces(b),
{
    law_split_reads_the_template(a);
    law_split_reads_the_template(b);
    let gap = seq![PartView::Wildcard];
    assert(gap.drop_first() =~= Seq::<PartView>::empty());
    assert(token.skip(token.len() as int) =~= Seq::<char>::empty());
    assert(spells(Seq::<PartView>::empty(), Seq::<char>::empty()));
    assert(spells(gap, token));
    let p = split(a);
    let q = split(b);
    lemma_spells_concat(p, a, gap, token);
    lemma_spells_concat(p + gap, a + token, q, b);
    let parts = p + gap + q;
    assert(well_split(parts)) by {
        assert forall|i: int| 0 <= i < parts.len() implies (
        #[trigger] parts[i] matches PartView::Literal(literal) ==> literal.len() > 0 && forall|
            at: int,
        | #[trigger] wildcard_at(literal, at) == 0) by {
            if i < p.len() {
                assert(parts[i] == p[i]);
            } else if i > p.len() {
                assert(parts[i] == q[i - p.len() - 1]);
            }
        }
        assert forall|i: int, j: int|
            0 <= i < parts.len() && j == i + 1 && j < parts.len()
                && #[trigger] parts[i] is Literal implies #[trigger] parts[j] is Wildcard by {
            if j < p.len() {
                assert(parts[i] == p[i] && parts[j] == p[j]);
            } else if i > p.len() {
                assert(parts[i] == q[i - p.len() - 1] && parts[j] == q[j - p.len() - 1]);
            }
        }
    }
    law_split_is_the_only_reading(a + token + b, parts);
    lemma_parts_pieces_concat(p, gap);
    lemma_parts_pieces_concat(p + gap, q);
    lemma_parts_pieces_one(PartView::Wildcard);
}

/// The two spellings of the wildcard give the same pattern.
pub proof fn law_wildcard_spelling_is_forgotten(a: Seq<char>, b: Seq<char>)
    ensures
        pattern_of(a + seq!['<', '*', '>'] + b) == pattern_of(
            a + seq!['<', 'N', 'U', 'M', '>'] + b,
        ),
{
    lemma_wildcard_between(a, seq!['<', '*', '>'], b);
    lemma_wildcard_between(a, seq!['<', 'N', 'U', 'M', '>'], b);
}

/// Whether `text` is white space through and through.
pub open spec fn all_space(text: Seq<char>) -> bool {
    forall|i: int| 0 <= i < text.len() ==> is_space(#[trigger] text[i])
}

proof fn lemma_space_piece(x: Seq<char>, s: Seq<char>)
    requires
        s.len() > 0,
        all_space(s),
    ensures
        literal_pieces(x + s) == if x.len() > 0 && is_space(x.last()) {
            literal_pieces(x)
        } else {
            literal_pieces(x).push(Piece::Space)
        },
    decreases s.len(),
{
    let before = s.drop_last();
    assert((x + s).drop_last() =~= x + before);
    assert(is_space(s[s.len() - 1]));
    if before.len() == 0 {
        assert(x + before =~= x);
    } else {
        assert(is_space(s[before.len() - 1]));
        lemma_space_piece(x, before);
    }
}

proof fn lemma_space_length(x: Seq<char>, s: Seq<char>, t: Seq<char>, y: Seq<char>)
    requires
        s.len() > 0,
        t.len() > 0,
        all_space(s),
        all_space(t),
    ensures
        literal_pieces(x + s + y) == literal_pieces(x + t + y),
    decreases y.len(),
{
    if y.len() == 0 {
        assert(x + s + y =~= x + s);
        assert(x + t + y =~= x + t);
        lemma_space_piece(x, s);
        lemma_space_piece(x, t);
    } else {
        let before = y.drop_last();
        lemma_space_length(x, s, t, before);
        assert((x + s + y).drop_last() =~= x + s + before);
        assert((x + t + y).drop_last() =~= x + t + before);
        assert((x + s + y).last() == (x + t + y).last());
        if before.len() == 0 {
            assert(is_space(s[s.len() - 1]));
            assert(is_space(t[t.len() - 1]));
            assert((x + s + before).last() == s[s.len() - 1]);
            assert((x + t + before).last() == t[t.len() - 1]);
        } else {
            assert((x + s + before).last() == (x + t + before).last());
        }
    }
}

/// The literal at the end of some parts, if there is one there.
spec fn last_literal(parts: Seq<PartView>) -> Seq<char> {
    if parts.len() > 0 && parts.last() is Literal {
        parts.last()->Literal_0
    } else {
        seq![]
    }
}

/// The literal at the start of some parts, if there is one there.
spec fn first_literal(parts: Seq<PartView>) -> Seq<char> {
    if parts.len() > 0 && parts.first() is Literal {
        parts.first()->Literal_0
    } else {
        seq![]
    }
}

spec fn without_last_literal(parts: Seq<PartView>) -> Seq<PartView> {
    if parts.len() > 0 && parts.last() is Literal {
        parts.drop_last()
    } else {
        parts
    }
}

spec fn without_first_literal(parts: Seq<PartView>) -> Seq<PartView> {
    if parts.len() > 0 && parts.first() is Literal {
        parts.drop_first()
    } else {
        parts
    }
}

proof fn lemma_spells_literal(literal: Seq<char>)
    ensures
        spells(seq![PartView::Literal(literal)], literal),
{
    let parts = seq![PartView::Literal(literal)];
    assert(parts.drop_first() =~= Seq::<PartView>::empty());
    assert(literal.take(literal.len() as int) =~= literal);
    assert(literal.skip(literal.len() as int) =~= Seq::<char>::empty());
    assert(spells(Seq::<PartView>::empty(), Seq::<char>::empty()));
}

/// `a` is what its parts but the last literal read as, and that literal.
proof fn lemma_ends_in_literal(a: Seq<char>) -> (head: Seq<char>)
    ensures
        a == head + last_literal(split(a)),
        spells(without_last_literal(split(a)), head),
{
    law_split_reads_the_template(a);
    let p = split(a);
    if p.len() > 0 && p.last() is Literal {
        let literal = p.last()->Literal_0;
        let one = seq![p.last()];
        assert(p =~= p.drop_last() + one);
        let cut = lemma_spells_cut(p.drop_last(), one, a);
        assert(one.drop_first() =~= Seq::<PartView>::empty());
        assert(spells(one, a.skip(cut)));
        assert(one.first() == p.last());
        assert(spells(Seq::<PartView>::empty(), a.skip(cut).skip(literal.len() as int)));
        assert(a.skip(cut) =~= literal);
        assert(a =~= a.take(cut) + literal);
        a.take(cut)
    } else {
        assert(a =~= a + last_literal(p));
        a
    }
}

/// `b` is its first literal, and what the parts after that read as.
proof fn lemma_starts_with_literal(b: Seq<char>) -> (tail: Seq<char>)
    ensures
        b == first_literal(split(b)) + tail,
        spells(without_first_literal(split(b)), tail),
{
    law_split_reads_the_template(b);
    let q = split(b);
    if q.len() > 0 && q.first() is Literal {
        let literal = q.first()->Literal_0;
        let n = literal.len() as int;
        assert(b =~= b.take(n) + b.skip(n));
        b.skip(n)
    } else {
        assert(b =~= first_literal(q) + b);
        b
    }
}

proof fn lemma_split_around_space(a: Seq<char>, s: Seq<char>, b: Seq<char>)
    requires
        s.len() > 0,
        all_space(s),
    ensures
        split(a + s + b) == without_last_literal(split(a)) + seq![
            PartView::Literal(last_literal(split(a)) + s + first_literal(split(b))),
        ] + without_first_literal(split(b)),
{
    let p = split(a);
    let q = split(b);
    law_split_reads_the_template(a);
    law_split_reads_the_template(b);
    let x = last_literal(p);
    let y = first_literal(q);
    let head = lemma_ends_in_literal(a);
    let tail = lemma_starts_with_literal(b);
    let literal = x + s + y;
    let middle = seq![PartView::Literal(literal)];
    let p0 = without_last_literal(p);
    let q0 = without_first_literal(q);
    lemma_spells_literal(literal);
    lemma_spells_concat(p0, head, middle, literal);
    lemma_spells_concat(p0 + middle, head + literal, q0, tail);
    assert(head + literal + tail =~= a + s + b);
    let parts = p0 + middle + q0;
    assert forall|at: int| #[trigger] wildcard_at(literal, at) == 0 by {
        lemma_no_wildcard_around_space(x, s, y, at);
    }
    assert(forall|i: int| 0 <= i < p0.len() ==> p0[i] == p[i]);
    let shift = q.len() - q0.len();
    assert(forall|i: int| 0 <= i < q0.len() ==> q0[i] == q[i + shift]);
    assert(well_split(parts)) by {
        assert forall|i: int| 0 <= i < parts.len() implies (
        #[trigger] parts[i] matches PartView::Literal(literal) ==> literal.len() > 0 && forall|
            at: int,
        | #[trigger] wildcard_at(literal, at) == 0) by {
            if i < p0.len() {
                assert(parts[i] == p[i]);
            } else if i > p0.len() {
                assert(parts[i] == q[i - p0.len() - 1 + shift]);
            }
        }
        assert forall|i: int, j: int|
            0 <= i < parts.len() && j == i + 1 && j < parts.len()
                && #[trigger] parts[i] is Literal implies #[trigger] parts[j] is Wildcard by {
            if j < p0.len() {
                assert(parts[i] == p[i] && parts[j] == p[j]);
            } else if j == p0.len() {
                assert(parts[i] == p[i]);
                if p0.len() < p.len() {
                    assert(p[j] is Literal);
                } else {
                    assert(p[i] == p.last());
                }
            } else if i == p0.len() {
                assert(parts[j] == q[shift]);
                if shift == 1 {
                    assert(q[0] is Literal);
                }
            } else {
                assert(parts[i] == q[i - p0.len() - 1 + shift]);
                assert(parts[j] == q[j - p0.len() - 1 + shift]);
            }
        }
    }
    law_split_is_the_only_reading(a + s + b, parts);
}

proof fn lemma_no_wildcard_around_space(x: Seq<char>, s: Seq<char>, y: Seq<char>, at: int)
    requires
        s.len() > 0,
        all_space(s),
        forall|i: int| #[trigger] wildcard_at(x, i) == 0,
        forall|i: int| #[trigger] wildcard_at(y, i) == 0,
    ensures
        wildcard_at(x + s + y, at) == 0,
{
    let text = x + s + y;
    let n = wildcard_at(text, at);
    if n > 0 {
        let m = x.len() as int;
        assert(forall|i: int| 0 <= i < m ==> text[i] == x[i]);
        assert(forall|i: int| m <= i < m + s.len() ==> text[i] == s[i - m]);
        assert(forall|i: int| m + s.len() <= i < text.len() ==> text[i] == y[i - m - s.len()]);
        assert forall|i: int| at <= i < at + n implies !is_space(#[trigger] text[i]) by {
            assert(i == at || i == at + 1 || i == at + 2 || i == at + 3 || i == at + 4);
        }
        assert(forall|i: int| m <= i < m + s.len() ==> is_space(#[trigger] text[i]));
        if at < m {
            assert(is_space(text[m]));
            assert(wildcard_at(x, at) == n);
        } else {
            assert(!is_space(text[at]));
            assert(wildcard_at(y, at - m - s.len()) == n);
        }
    }
}

/// A run of white space in a template gives the same pattern whatever it is made of and however
/// long it is.
pub proof fn law_spacing_is_forgotten(a: Seq<char>, s: Seq<char>, t: Seq<char>, b: Seq<char>)
    requires
        s.len() > 0,
        t.len() > 0,
        all_space(s),
        all_space(t),
    ensures
        pattern_of(a + s + b) == pattern_of(a + t + b),
{
    let p = split(a);
    let q = split(b);
    let p0 = without_last_literal(p);
    let q0 = without_first_literal(q);
    let x = last_literal(p);
    let y = first_literal(q);
    lemma_split_around_space(a, s, b);
    lemma_split_around_space(a, t, b);
    lemma_space_length(x, s, t, y);
    let with_s = PartView::Literal(x + s + y);
    let with_t = PartView::Literal(x + t + y);
    lemma_parts_pieces_concat(p0, seq![with_s]);
    lemma_parts_pieces_concat(p0 + seq![with_s], q0);
    lemma_parts_pieces_one(with_s);
    lemma_parts_pieces_concat(p0, seq![with_t]);
    lemma_parts_pieces_concat(p0 + seq![with_t], q0);
    lemma_parts_pieces_one(with_t);
    assert(template_pieces(a + s + b) == template_pieces(a + t + b));
}

/// Whether a text is one of the two spellings of the wildcard.
pub open spec fn is_token(text: Seq<char>) -> bool {
    text == "<*>"@ || text == "<NUM>"@
}

proof fn lemma_token(token: Seq<char>)
    requires
        is_token(token),
    ensures
        wildcard_at(token, 0) == token.len(),
        token.len() > 0,
{
    reveal_strlit("<*>");
    reveal_strlit("<NUM>");
}

proof fn lemma_wildcard_is_token(text: Seq<char>, at: int)
    requires
        wildcard_at(text, at) > 0,
    ensures
        0 <= at,
        at + wildcard_at(text, at) <= text.len(),
        is_token(text.subrange(at, at + wildcard_at(text, at))),
{
    reveal_strlit("<*>");
    reveal_strlit("<NUM>");
    let found = text.subrange(at, at + wildcard_at(text, at));
    if found.len() == 3 {
        assert(found =~= "<*>"@);
    } else {
        assert(found =~= "<NUM>"@);
    }
}

proof fn lemma_no_token(text: Seq<char>)
    requires
        !holds(text, "<*>"@),
        !holds(text, "<NUM>"@),
    ensures
        forall|at: int| #[trigger] wildcard_at(text, at) == 0,
{
    reveal_strlit("<*>");
    reveal_strlit("<NUM>");
    assert forall|at: int| #[trigger] wildcard_at(text, at) == 0 by {
        if wildcard_at(text, at) > 0 {
            lemma_wildcard_is_token(text, at);
            let n = wildcard_at(text, at);
            if n == 3 {
                assert(text.subrange(at, at + "<*>"@.len()) == "<*>"@);
            } else {
                assert(text.subrange(at, at + "<NUM>"@.len()) == "<NUM>"@);
            }
        }
    }
}

/// A template that holds neither `<*>` nor `<NUM>` is one literal, whatever other angle brackets it
/// holds.
pub proof fn law_only_the_exact_tokens_split(template: Seq<char>)
    requires
        !holds(template, "<*>"@),
        !holds(template, "<NUM>"@),
    ensures
        template.len() > 0 ==> split(template) == seq![PartView::Literal(template)],
        template.len() == 0 ==> split(template) == Seq::<PartView>::empty(),
{
    lemma_no_token(template);
    if template.len() > 0 {
        let parts = seq![PartView::Literal(template)];
        lemma_spells_literal(template);
        assert(well_split(parts));
        law_split_is_the_only_reading(template, parts);
    }
}

/// Wherever a template holds `<*>` or `<NUM>`, it splits there, into the parts of what stands before,
/// a wildcard, and the parts of what stands after.
pub proof fn law_every_token_splits(a: Seq<char>, token: Seq<char>, b: Seq<char>)
    requires
        is_token(token),
    ensures
        split(a + token + b) == split(a) + seq![PartView::Wildcard] + split(b),
{
    lemma_token(token);
    lemma_wildcard_between(a, token, b);
}

/// Where a wildcard starts, the text reads exactly `<*>` or exactly `<NUM>`; and where it reads so, a
/// wildcard of that length starts.
pub proof fn law_a_wildcard_is_an_exact_token(template: Seq<char>, at: int, n: int)
    requires
        0 <= at,
        0 < n,
        at + n <= template.len(),
    ensures
        wildcard_at(template, at) == n <==> is_token(template.subrange(at, at + n)),
{
    reveal_strlit("<*>");
    reveal_strlit("<NUM>");
    let found = template.subrange(at, at + n);
    if wildcard_at(template, at) == n {
        lemma_wildcard_is_token(template, at);
    }
    if is_token(found) {
        lemma_token(found);
        assert(forall|i: int| 0 <= i < n ==> found[i] == #[trigger] template[at + i]);
        assert(template[at + 0] == found[0]);
        assert(template[at + 1] == found[1]);
        assert(template[at + 2] == found[2]);
        if n == 5 {
            assert(template[at + 3] == found[3]);
            assert(template[at + 4] == found[4]);
        }
    }
}

/// What a template's pattern would be if no wildcard were dropped at its ends.
pub open spec fn whole_pattern(template: Seq<char>) -> Seq<char> {
    render(template_pieces(template))
}

/// A wildcard in a template is `.*?` in the pattern, between what stands before it and after it.
pub proof fn law_a_wildcard_is_a_gap(a: Seq<char>, token: Seq<char>, b: Seq<char>)
    requires
        is_token(token),
    ensures
        whole_pattern(a + token + b) == whole_pattern(a) + ".*?"@ + whole_pattern(b),
{
    lemma_token(token);
    lemma_wildcard_between(a, token, b);
    lemma_render_concat(template_pieces(a), seq![Piece::Gap]);
    lemma_render_concat(template_pieces(a) + seq![Piece::Gap], template_pieces(b));
    lemma_render_one(Piece::Gap);
    reveal_strlit(".*?");
    assert(".*?"@ =~= piece_text(Piece::Gap));
}

proof fn lemma_pieces_around_space(x: Seq<char>, s: Seq<char>, y: Seq<char>)
    requires
        s.len() > 0,
        all_space(s),
        x.len() > 0 ==> !is_space(x.last()),
        y.len() > 0 ==> !is_space(y.first()),
    ensures
        literal_pieces(x + s + y) == literal_pieces(x) + seq![Piece::Space] + literal_pieces(y),
    decreases y.len(),
{
    let text = x + s + y;
    let head = literal_pieces(x) + seq![Piece::Space];
    if y.len() == 0 {
        assert(text =~= x + s);
        lemma_space_piece(x, s);
        assert(literal_pieces(text) =~= head + literal_pieces(y));
    } else {
        let before = y.drop_last();
        assert(before.push(y.last()) =~= y);
        assert(before.len() > 0 ==> before.first() == y.first());
        lemma_pieces_around_space(x, s, before);
        lemma_pieces_around_space_step(x, s, before, y.last());
    }
}

proof fn lemma_pieces_around_space_step(x: Seq<char>, s: Seq<char>, before: Seq<char>, c: char)
    requires
        s.len() > 0,
        before.len() == 0 ==> !is_space(c),
        literal_pieces(x + s + before) == literal_pieces(x) + seq![Piece::Space] + literal_pieces(
            before,
        ),
    ensures
        literal_pieces(x + s + before.push(c)) == literal_pieces(x) + seq![Piece::Space]
            + literal_pieces(before.push(c)),
{
    let shorter = x + s + before;
    assert(shorter.push(c) =~= x + s + before.push(c));
    assert(before.len() > 0 ==> shorter.last() == before.last());
    lemma_pieces_step(shorter, c);
    lemma_pieces_step(before, c);
    let head = literal_pieces(x) + seq![Piece::Space];
    lemma_push_behind(head, literal_pieces(before), Piece::Char(c));
    lemma_push_behind(head, literal_pieces(before), Piece::Space);
}

proof fn lemma_push_behind(a: Seq<Piece>, b: Seq<Piece>, piece: Piece)
    ensures
        (a + b).push(piece) == a + b.push(piece),
{
    assert((a + b).push(piece) =~= a + b.push(piece));
}

proof fn lemma_pieces_step(before: Seq<char>, c: char)
    ensures
        literal_pieces(before.push(c)) == if !is_space(c) {
            literal_pieces(before).push(Piece::Char(c))
        } else if before.len() > 0 && is_space(before.last()) {
            literal_pieces(before)
        } else {
            literal_pieces(before).push(Piece::Space)
        },
{
    assert(before.push(c).drop_last() =~= before);
}

proof fn lemma_pieces_to_last_literal(p: Seq<PartView>)
    ensures
        parts_pieces(p) == parts_pieces(without_last_literal(p)) + literal_pieces(last_literal(p)),
{
    let p0 = without_last_literal(p);
    if p.len() > 0 && p.last() is Literal {
        assert(p =~= p0 + seq![p.last()]);
        lemma_parts_pieces_concat(p0, seq![p.last()]);
        lemma_parts_pieces_one(p.last());
    } else {
        assert(parts_pieces(p) =~= parts_pieces(p0) + literal_pieces(last_literal(p)));
    }
}

proof fn lemma_pieces_from_first_literal(q: Seq<PartView>)
    ensures
        parts_pieces(q) == literal_pieces(first_literal(q)) + parts_pieces(without_first_literal(q)),
{
    let q0 = without_first_literal(q);
    if q.len() > 0 && q.first() is Literal {
        assert(q =~= seq![q.first()] + q0);
        lemma_parts_pieces_concat(seq![q.first()], q0);
        lemma_parts_pieces_one(q.first());
    } else {
        assert(parts_pieces(q) =~= literal_pieces(first_literal(q)) + parts_pieces(q0));
    }
}

pub(crate) proof fn lemma_space_between(a: Seq<char>, s: Seq<char>, b: Seq<char>)
    requires
        s.len() > 0,
        all_space(s),
        a.len() > 0 ==> !is_space(a.last()),
        b.len() > 0 ==> !is_space(b.first()),
    ensures
        template_pieces(a + s + b) == template_pieces(a) + seq![Piece::Space] + template_pieces(b),
{
    let p = split(a);
    let q = split(b);
    let p0 = without_last_literal(p);
    let q0 = without_first_literal(q);
    let x = last_literal(p);
    let y = first_literal(q);
    let head = lemma_ends_in_literal(a);
    let tail = lemma_starts_with_literal(b);
    assert(x.len() > 0 ==> x.last() == a.last());
    assert(y.len() > 0 ==> y.first() == b.first());
    lemma_split_around_space(a, s, b);
    lemma_pieces_around_space(x, s, y);
    let middle = seq![PartView::Literal(x + s + y)];
    lemma_parts_pieces_concat(p0, middle);
    lemma_parts_pieces_concat(p0 + middle, q0);
    lemma_parts_pieces_one(middle[0]);
    let before = template_pieces(a);
    let after = template_pieces(b);
    let space = seq![Piece::Space];
    lemma_pieces_to_last_literal(p);
    lemma_pieces_from_first_literal(q);
    assert(template_pieces(a + s + b) =~= before + space + after);
}

/// A run of white space in a template is `\s+` in the pattern, between what stands before it and after
/// it.
pub proof fn law_a_run_of_white_space_is_one_piece(a: Seq<char>, s: Seq<char>, b: Seq<char>)
    requires
        s.len() > 0,
        all_space(s),
        a.len() > 0 ==> !is_space(a.last()),
        b.len() > 0 ==> !is_space(b.first()),
    ensures
        whole_pattern(a + s + b) == whole_pattern(a) + "\\s+"@ + whole_pattern(b),
{
    let before = template_pieces(a);
    let after = template_pieces(b);
    let space = seq![Piece::Space];
    lemma_space_between(a, s, b);
    lemma_render_concat(before, space);
    lemma_render_concat(before + space, after);
    lemma_render_one(Piece::Space);
    reveal_strlit("\\s+");
    assert("\\s+"@ =~= piece_text(Piece::Space));
}

/// Text without white space and without wildcards is itself in the pattern, escaped.
pub proof fn law_a_word_is_itself_escaped(word: Seq<char>)
    requires
        !holds(word, "<*>"@),
        !holds(word, "<NUM>"@),
        forall|i: int| 0 <= i < word.len() ==> !is_space(#[trigger] word[i]),
    ensures
        whole_pattern(word) == escaped(word),
{
    law_only_the_exact_tokens_split(word);
    let empty = Seq::<char>::empty();
    lemma_pieces_of_word(empty, word);
    assert(empty + word =~= word);
    assert(literal_pieces(empty) =~= seq![]);
    assert(render(literal_pieces(empty)) =~= seq![]);
    assert(escaped(word) =~= render(literal_pieces(word)));
    if word.len() > 0 {
        lemma_parts_pieces_one(PartView::Literal(word));
    } else {
        assert(escaped(word) =~= seq![]);
        assert(template_pieces(word) =~= seq![]);
    }
}

/// Text is escaped character by character: a backslash stands before each of the eighteen that have a
/// meaning in a regular expression, and before no other.
pub proof fn law_escaping_marks_what_has_a_meaning(a: Seq<char>, c: char)
    ensures
        escaped(seq![]) == Seq::<char>::empty(),
        escaped(a.push(c)) == {
            let code = c as u32;
            if code == 35 || code == 36 || code == 38 || 40 <= code <= 43 || code == 45 || code == 46
                || code == 63 || 91 <= code <= 94 || 123 <= code <= 126 {
                escaped(a).push('\\').push(c)
            } else {
                escaped(a).push(c)
            }
        },
{
    assert(a.push(c).drop_last() =~= a);
    assert(is_meta(c) ==> escaped(a.push(c)) =~= escaped(a).push('\\').push(c));
    assert(!is_meta(c) ==> escaped(a.push(c)) =~= escaped(a).push(c));
}

/// Whether a template starts with a wildcard.
pub open spec fn starts_with_token(template: Seq<char>) -> bool {
    "<*>"@.is_prefix_of(template) || "<NUM>"@.is_prefix_of(template)
}

/// Whether a template ends with a wildcard.
pub open spec fn ends_with_token(template: Seq<char>) -> bool {
    "<*>"@.is_suffix_of(template) || "<NUM>"@.is_suffix_of(template)
}

proof fn lemma_first_part(template: Seq<char>)
    ensures
        split(template).len() > 0 && split(template)[0] is Wildcard <==> starts_with_token(template),
{
    reveal_strlit("<*>");
    reveal_strlit("<NUM>");
    law_split_reads_the_template(template);
    let parts = split(template);
    let empty = Seq::<char>::empty();
    if parts.len() > 0 && parts[0] is Wildcard {
        assert(parts.first() is Wildcard);
        lemma_wildcard_is_token(template, 0);
        let n = wildcard_at(template, 0);
        assert(template.subrange(0, n) =~= template.take(n));
    }
    if starts_with_token(template) {
        let token = if "<*>"@.is_prefix_of(template) {
            "<*>"@
        } else {
            "<NUM>"@
        };
        let rest = template.skip(token.len() as int);
        assert(template =~= empty + token + rest);
        law_every_token_splits(empty, token, rest);
        assert(split(empty).len() == 0);
    }
}

proof fn lemma_last_part(template: Seq<char>)
    ensures
        split(template).len() > 0 && split(template)[split(template).len() - 1] is Wildcard
            <==> ends_with_token(template),
{
    reveal_strlit("<*>");
    reveal_strlit("<NUM>");
    law_split_reads_the_template(template);
    let parts = split(template);
    let empty = Seq::<char>::empty();
    let gap = seq![PartView::Wildcard];
    if parts.len() > 0 && parts[parts.len() - 1] is Wildcard {
        assert(parts =~= parts.drop_last() + gap);
        let cut = lemma_spells_cut(parts.drop_last(), gap, template);
        let rest = template.skip(cut);
        assert(gap.first() is Wildcard);
        assert(gap.drop_first() =~= Seq::<PartView>::empty());
        lemma_wildcard_is_token(rest, 0);
        let n = wildcard_at(rest, 0);
        assert(spells(Seq::<PartView>::empty(), rest.skip(n)));
        assert(rest.skip(n).len() == 0);
        assert(rest.subrange(0, n) =~= rest);
        assert(rest =~= template.subrange(template.len() - rest.len(), template.len() as int));
    }
    if ends_with_token(template) {
        let token = if "<*>"@.is_suffix_of(template) {
            "<*>"@
        } else {
            "<NUM>"@
        };
        let head = template.take(template.len() - token.len());
        assert(template =~= head + token + empty);
        law_every_token_splits(head, token, empty);
        assert(split(empty).len() == 0);
    }
}

/// A pattern lacks one wildcard at the start where the template starts with one, and one at the end
/// where it ends with one, and nothing else.
pub proof fn law_one_wildcard_is_dropped_at_either_end(template: Seq<char>, pattern: Seq<char>)
    requires
        pattern_of(template) == Some(pattern),
    ensures
        whole_pattern(template) == (if starts_with_token(template) {
            ".*?"@
        } else {
            seq![]
        }) + pattern + (if ends_with_token(template) {
            ".*?"@
        } else {
            seq![]
        }),
{
    let parts = split(template);
    law_split_reads_the_template(template);
    lemma_first_part(template);
    lemma_last_part(template);
    reveal_strlit(".*?");
    assert(".*?"@ =~= piece_text(Piece::Gap));
    lemma_render_one(Piece::Gap);
    lemma_parts_pieces_one(PartView::Wildcard);
    let n = parts.len() as int;
    let lo = if n > 0 && parts[0] is Wildcard {
        1int
    } else {
        0int
    };
    let hi = if n > 0 && parts[n - 1] is Wildcard {
        n - 1
    } else {
        n
    };
    assert(lo <= hi) by {
        if lo > hi {
            assert(parts =~= seq![PartView::Wildcard]);
            assert(!has_text(seq![Piece::Gap]));
        }
    }
    lemma_inner_parts(parts, lo, hi);
    let first = parts.subrange(0, lo);
    let inner = parts.subrange(lo, hi);
    let last = parts.subrange(hi, n);
    assert(parts =~= first + inner + last);
    lemma_parts_pieces_concat(first, inner);
    lemma_parts_pieces_concat(first + inner, last);
    lemma_render_concat(parts_pieces(first), parts_pieces(inner));
    lemma_render_concat(parts_pieces(first) + parts_pieces(inner), parts_pieces(last));
    if lo == 1 {
        assert(first =~= seq![PartView::Wildcard]);
    } else {
        assert(first =~= seq![]);
        assert(render(parts_pieces(first)) =~= seq![]);
    }
    if hi < n {
        assert(last =~= seq![PartView::Wildcard]);
    } else {
        assert(last =~= seq![]);
        assert(render(parts_pieces(last)) =~= seq![]);
    }
}

/// A template without wildcards has no pattern if and only if it is white space through and through.
pub proof fn law_text_has_a_pattern_unless_it_is_blank(template: Seq<char>)
    requires
        !holds(template, "<*>"@),
        !holds(template, "<NUM>"@),
    ensures
        pattern_of(template) is None <==> all_space(template),
{
    law_only_the_exact_tokens_split(template);
    lemma_literal_pieces(template);
    if template.len() > 0 {
        lemma_parts_pieces_one(PartView::Literal(template));
    } else {
        assert(!has_text(template_pieces(template)));
    }
    assert(holds_word(template) <==> !all_space(template)) by {
        if !all_space(template) {
            let i = choose|i: int|
                0 <= i < template.len() && !is_space(#[trigger] template[i]);
            assert(!is_space(template[i]));
        }
    }
}

/// A wildcard adds nothing that a line must hold: a template around one has no pattern if and only if
/// neither what stands before it nor what stands after it has one.
pub proof fn law_a_wildcard_adds_no_text(a: Seq<char>, token: Seq<char>, b: Seq<char>)
    requires
        is_token(token),
    ensures
        pattern_of(a + token + b) is None <==> pattern_of(a) is None && pattern_of(b) is None,
{
    lemma_token(token);
    lemma_wildcard_between(a, token, b);
    let gap = seq![Piece::Gap];
    lemma_has_text_concat(template_pieces(a), gap);
    lemma_has_text_concat(template_pieces(a) + gap, template_pieces(b));
    assert(!has_text(gap));
}

/// In literal text alone every run of white space is `\s+`, and every word is itself, escaped.
pub proof fn law_literal_text_keeps_its_words(x: Seq<char>, s: Seq<char>, y: Seq<char>)
    requires
        s.len() > 0,
        all_space(s),
        x.len() > 0 ==> !is_space(x.last()),
        forall|i: int| 0 <= i < y.len() ==> !is_space(#[trigger] y[i]),
    ensures
        render(literal_pieces(y)) == escaped(y),
        render(literal_pieces(x + s + y)) == render(literal_pieces(x)) + "\\s+"@ + escaped(y),
{
    let empty = Seq::<char>::empty();
    lemma_pieces_of_word(empty, y);
    assert(empty + y =~= y);
    assert(literal_pieces(empty) =~= seq![]);
    assert(render(literal_pieces(empty)) =~= seq![]);
    assert(escaped(y) =~= render(literal_pieces(y)));
    assert(y.len() > 0 ==> y.first() == y[0]);
    lemma_pieces_around_space(x, s, y);
    let space = seq![Piece::Space];
    lemma_render_concat(literal_pieces(x), space);
    lemma_render_concat(literal_pieces(x) + space, literal_pieces(y));
    lemma_render_one(Piece::Space);
    reveal_strlit("\\s+");
    assert("\\s+"@ =~= piece_text(Piece::Space));
}

} // verus!
