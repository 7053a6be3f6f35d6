//! From a list of templates to a list of filters.
use crate::name::{name_for, one_line};
use crate::template::{pattern_for, pattern_of};
use crate::text::{decimal, decimal_text, lemma_decimal_injective, texts};
use vstd::prelude::*;

verus! {

/// What a conversion produced, and what it threw away.
#[derive(Debug)]
pub struct Outcome {
    /// `(name, pattern)` pairs, in the order of the templates.
    pub filters: Vec<(String, String)>,
    /// How many templates had no literal text at all.
    pub empty: usize,
    /// How many templates gave a pattern that an earlier one had given.
    pub duplicate: usize,
}

/// A list of filters: names and patterns.
pub open spec fn filter_views(filters: Seq<(String, String)>) -> Seq<(Seq<char>, Seq<char>)> {
    filters.map_values(|filter: (String, String)| (filter.0@, filter.1@))
}

/// What an `Outcome` stands for.
pub struct OutcomeView {
    pub filters: Seq<(Seq<char>, Seq<char>)>,
    pub empty: nat,
    pub duplicate: nat,
}

impl View for Outcome {
    type V = OutcomeView;

    open spec fn view(&self) -> OutcomeView {
        OutcomeView {
            filters: filter_views(self.filters@),
            empty: self.empty as nat,
            duplicate: self.duplicate as nat,
        }
    }
}

/// The names of some filters.
pub open spec fn names(filters: Seq<(Seq<char>, Seq<char>)>) -> Seq<Seq<char>> {
    filters.map_values(|filter: (Seq<char>, Seq<char>)| filter.0)
}

/// The patterns of some filters.
pub open spec fn patterns(filters: Seq<(Seq<char>, Seq<char>)>) -> Seq<Seq<char>> {
    filters.map_values(|filter: (Seq<char>, Seq<char>)| filter.1)
}

/// The `n`th name to try for a filter whose name would be `base`: `base` itself, then `base #2`,
/// `base #3` and so on.
pub open spec fn candidate(base: Seq<char>, n: nat) -> Seq<char> {
    if n <= 1 {
        base
    } else {
        base + seq![' ', '#'] + decimal(n)
    }
}

/// Whether the `n`th name to try is the first that is not taken.
pub open spec fn first_free(base: Seq<char>, taken: Seq<Seq<char>>, n: nat) -> bool {
    &&& n >= 1
    &&& !taken.contains(candidate(base, n))
    &&& forall|m: nat| 1 <= m < n ==> taken.contains(#[trigger] candidate(base, m))
}

/// The first name to try for `base` that is not taken.
pub open spec fn fresh_name(base: Seq<char>, taken: Seq<Seq<char>>) -> Seq<char> {
    candidate(base, choose|n: nat| first_free(base, taken, n))
}

/// What the conversion of some templates gives.
pub open spec fn converted(templates: Seq<Seq<char>>) -> OutcomeView
    decreases templates.len(),
{
    if templates.len() == 0 {
        OutcomeView { filters: seq![], empty: 0, duplicate: 0 }
    } else {
        let before = converted(templates.drop_last());
        match pattern_of(templates.last()) {
            None => OutcomeView { empty: before.empty + 1, ..before },
            Some(pattern) => if patterns(before.filters).contains(pattern) {
                OutcomeView { duplicate: before.duplicate + 1, ..before }
            } else {
                let name = fresh_name(one_line(templates.last()), names(before.filters));
                OutcomeView { filters: before.filters.push((name, pattern)), ..before }
            },
        }
    }
}

proof fn lemma_candidates_differ(base: Seq<char>, a: nat, b: nat)
    requires
        1 <= a,
        1 <= b,
        candidate(base, a) == candidate(base, b),
    ensures
        a == b,
{
    let x = candidate(base, a);
    let n = base.len() as int;
    if a > 1 && b > 1 {
        assert(x.skip(n + 2) =~= decimal(a));
        assert(x.skip(n + 2) =~= decimal(b));
        lemma_decimal_injective(a, b);
    } else {
        assert(a > 1 ==> x.len() >= n + 2);
        assert(b > 1 ==> x.len() >= n + 2);
    }
}

/// There are no more names that are taken than there are names.
proof fn lemma_taken_names(base: Seq<char>, taken: Seq<Seq<char>>, n: nat)
    requires
        forall|m: nat| 1 <= m <= n ==> taken.contains(#[trigger] candidate(base, m)),
    ensures
        n <= taken.len(),
{
    let tried = Seq::new(n, |i: int| candidate(base, (i + 1) as nat));
    assert(tried.no_duplicates()) by {
        assert forall|i: int, j: int|
            0 <= i < tried.len() && 0 <= j < tried.len() && i != j implies tried[i] != tried[j] by {
            if tried[i] == tried[j] {
                lemma_candidates_differ(base, (i + 1) as nat, (j + 1) as nat);
            }
        }
    }
    tried.unique_seq_to_set();
    assert(tried.to_set().subset_of(taken.to_set())) by {
        assert forall|x: Seq<char>| tried.to_set().contains(x) implies taken.to_set().contains(
            x,
        ) by {
            let i = choose|i: int| 0 <= i < tried.len() && tried[i] == x;
            assert(taken.contains(candidate(base, (i + 1) as nat)));
        }
    }
    vstd::seq_lib::seq_to_set_is_finite(taken);
    vstd::set_lib::lemma_len_subset(tried.to_set(), taken.to_set());
    taken.lemma_cardinality_of_set();
}

proof fn lemma_fresh_name_is(base: Seq<char>, taken: Seq<Seq<char>>, n: nat)
    requires
        first_free(base, taken, n),
    ensures
        fresh_name(base, taken) == candidate(base, n),
{
    let m = choose|m: nat| first_free(base, taken, m);
    if m < n {
        assert(taken.contains(candidate(base, m)));
    }
    if n < m {
        assert(taken.contains(candidate(base, n)));
    }
}

/// Whether some filter has this name.
fn is_taken(filters: &Vec<(String, String)>, name: &String) -> (taken: bool)
    ensures
        taken == names(filter_views(filters@)).contains(name@),
{
    let ghost taken = names(filter_views(filters@));
    let mut i: usize = 0;
    while i < filters.len()
        invariant
            taken == names(filter_views(filters@)),
            i <= filters@.len(),
            forall|j: int| 0 <= j < i ==> #[trigger] taken[j] != name@,
        decreases filters.len() - i,
    {
        if filters[i].0 == *name {
            assert(taken[i as int] == name@);
            return true;
        }
        i = i + 1;
    }
    false
}

/// Whether some filter has this pattern.
fn is_known(filters: &Vec<(String, String)>, pattern: &String) -> (known: bool)
    ensures
        known == patterns(filter_views(filters@)).contains(pattern@),
{
    let ghost known = patterns(filter_views(filters@));
    let mut i: usize = 0;
    while i < filters.len()
        invariant
            known == patterns(filter_views(filters@)),
            i <= filters@.len(),
            forall|j: int| 0 <= j < i ==> #[trigger] known[j] != pattern@,
        decreases filters.len() - i,
    {
        if filters[i].1 == *pattern {
            assert(known[i as int] == pattern@);
            return true;
        }
        i = i + 1;
    }
    false
}

/// The name of the next filter: `base`, with a suffix if a filter has that name already.
fn free_name(base: String, filters: &Vec<(String, String)>) -> (name: String)
    requires
        filters@.len() < usize::MAX,
    ensures
        name@ == fresh_name(base@, names(filter_views(filters@))),
{
    let ghost taken = names(filter_views(filters@));
    let mut name = base.clone();
    let mut nth: usize = 1;
    while is_taken(filters, &name)
        invariant
            taken == names(filter_views(filters@)),
            taken.len() == filters@.len() < usize::MAX,
            1 <= nth <= taken.len() + 1,
            name@ == candidate(base@, nth as nat),
            forall|m: nat| 1 <= m < nth ==> taken.contains(#[trigger] candidate(base@, m)),
        decreases taken.len() + 1 - nth,
    {
        proof {
            lemma_taken_names(base@, taken, nth as nat);
        }
        nth = nth + 1;
        name = base.clone();
        name.append(" #");
        name.append(decimal_text(nth).as_str());
        proof {
            reveal_strlit(" #");
            assert(" #"@ =~= seq![' ', '#']);
        }
    }
    proof {
        lemma_fresh_name_is(base@, taken, nth as nat);
    }
    name
}

/// Every template, converted, deduplicated and named.
pub fn convert(templates: &[String]) -> (outcome: Outcome)
    ensures
        outcome@ == converted(texts(templates@)),
{
    let mut outcome = Outcome { filters: Vec::new(), empty: 0, duplicate: 0 };
    let ghost all = texts(templates@);
    let mut i: usize = 0;
    assert(outcome@.filters =~= seq![]);
    while i < templates.len()
        invariant
            all == texts(templates@),
            i <= templates@.len(),
            outcome@ == converted(all.take(i as int)),
            outcome.filters@.len() + outcome.empty + outcome.duplicate == i,
        decreases templates.len() - i,
    {
        let template = templates[i].as_str();
        let ghost before = outcome@;
        assert(all.take(i + 1).drop_last() =~= all.take(i as int));
        match pattern_for(template) {
            None => {
                outcome.empty = outcome.empty + 1;
            },
            Some(pattern) => {
                if is_known(&outcome.filters, &pattern) {
                    outcome.duplicate = outcome.duplicate + 1;
                } else {
                    let name = free_name(name_for(template), &outcome.filters);
                    outcome.filters.push((name, pattern));
                    assert(outcome@.filters =~= before.filters.push((name@, pattern@)));
                }
            },
        }
        i = i + 1;
    }
    assert(all.take(i as int) =~= all);
    outcome
}

proof fn lemma_fresh_name_exists(base: Seq<char>, taken: Seq<Seq<char>>, n: nat)
    requires
        1 <= n <= taken.len() + 1,
        forall|m: nat| 1 <= m < n ==> taken.contains(#[trigger] candidate(base, m)),
    ensures
        exists|m: nat| first_free(base, taken, m),
    decreases taken.len() + 1 - n,
{
    if !taken.contains(candidate(base, n)) {
        assert(first_free(base, taken, n));
    } else {
        lemma_taken_names(base, taken, n);
        lemma_fresh_name_exists(base, taken, n + 1);
    }
}

/// A fresh name is the first of the names to try that is not taken, and the name itself where that
/// is free.
pub proof fn law_fresh_name_is_free(base: Seq<char>, taken: Seq<Seq<char>>)
    ensures
        exists|n: nat| #[trigger]
            first_free(base, taken, n) && fresh_name(base, taken) == candidate(base, n),
        !taken.contains(fresh_name(base, taken)),
        !taken.contains(base) ==> fresh_name(base, taken) == base,
{
    lemma_fresh_name_exists(base, taken, 1);
    let n = choose|n: nat| first_free(base, taken, n);
    assert(first_free(base, taken, n) && fresh_name(base, taken) == candidate(base, n));
    if !taken.contains(base) {
        assert(first_free(base, taken, 1));
        lemma_fresh_name_is(base, taken, 1);
    }
}

/// Every template becomes a filter or is counted among those that did not.
pub proof fn law_every_template_is_accounted_for(templates: Seq<Seq<char>>)
    ensures
        converted(templates).filters.len() + converted(templates).empty + converted(
            templates,
        ).duplicate == templates.len(),
    decreases templates.len(),
{
    if templates.len() > 0 {
        law_every_template_is_accounted_for(templates.drop_last());
    }
}

/// No two filters have the same name, and no two have the same pattern.
pub proof fn law_filters_are_distinct(templates: Seq<Seq<char>>)
    ensures
        names(converted(templates).filters).no_duplicates(),
        patterns(converted(templates).filters).no_duplicates(),
    decreases templates.len(),
{
    if templates.len() > 0 {
        law_filters_are_distinct(templates.drop_last());
        let before = converted(templates.drop_last()).filters;
        let base = one_line(templates.last());
        law_fresh_name_is_free(base, names(before));
        let after = converted(templates).filters;
        if after.len() > before.len() {
            let new = after.last();
            assert(names(after) =~= names(before).push(new.0));
            assert(patterns(after) =~= patterns(before).push(new.1));
            assert(!names(before).contains(new.0));
            assert(!patterns(before).contains(new.1));
            lemma_push_keeps_distinct(names(before), new.0);
            lemma_push_keeps_distinct(patterns(before), new.1);
        }
    }
}

proof fn lemma_push_keeps_distinct(list: Seq<Seq<char>>, new: Seq<char>)
    requires
        list.no_duplicates(),
        !list.contains(new),
    ensures
        list.push(new).no_duplicates(),
{
    let more = list.push(new);
    assert forall|i: int, j: int|
        0 <= i < more.len() && 0 <= j < more.len() && i != j implies more[i] != more[j] by {
        if i < list.len() {
            assert(list.contains(list[i]));
        }
        if j < list.len() {
            assert(list.contains(list[j]));
        }
    }
}

/// More templates change nothing about the filters of those before them: the filters stand in the
/// order of the templates, and the first template with a pattern gives the filter its name.
pub proof fn law_filters_keep_the_order_of_templates(templates: Seq<Seq<char>>, n: int)
    requires
        0 <= n <= templates.len(),
    ensures
        converted(templates.take(n)).filters.is_prefix_of(converted(templates).filters),
    decreases templates.len(),
{
    if n == templates.len() {
        assert(templates.take(n) =~= templates);
    } else {
        let before = templates.drop_last();
        assert(before.take(n) =~= templates.take(n));
        law_filters_keep_the_order_of_templates(before, n);
        let short = converted(templates.take(n)).filters;
        let middle = converted(before).filters;
        let full = converted(templates).filters;
        assert(middle =~= full.take(middle.len() as int));
        assert(short =~= full.take(short.len() as int));
    }
}

/// The first template with a pattern makes the filter, in the place where the templates before it
/// leave off, and under its own name where that is free.
pub proof fn law_first_template_makes_the_filter(
    templates: Seq<Seq<char>>,
    i: int,
    pattern: Seq<char>,
)
    requires
        0 <= i < templates.len(),
        pattern_of(templates[i]) == Some(pattern),
        forall|j: int| 0 <= j < i ==> pattern_of(#[trigger] templates[j]) != Some(pattern),
    ensures
        ({
            let before = converted(templates.take(i)).filters;
            let after = converted(templates).filters;
            &&& before.len() < after.len()
            &&& after[before.len() as int] == (
                fresh_name(one_line(templates[i]), names(before)),
                pattern,
            )
        }),
{
    let before = converted(templates.take(i)).filters;
    law_patterns_are_those_of_the_templates(templates.take(i), pattern);
    assert(!patterns(before).contains(pattern));
    assert(templates.take(i + 1).drop_last() =~= templates.take(i));
    assert(templates.take(i + 1).last() == templates[i]);
    law_filters_keep_the_order_of_templates(templates, i + 1);
    let step = converted(templates.take(i + 1)).filters;
    assert(step[before.len() as int] == (
        fresh_name(one_line(templates[i]), names(before)),
        pattern,
    ));
}

/// Every template that has a pattern is covered by a filter, and every filter has the pattern of
/// some template.
pub proof fn law_patterns_are_those_of_the_templates(templates: Seq<Seq<char>>, pattern: Seq<char>)
    ensures
        patterns(converted(templates).filters).contains(pattern) <==> exists|i: int|
            0 <= i < templates.len() && pattern_of(#[trigger] templates[i]) == Some(pattern),
    decreases templates.len(),
{
    let after = patterns(converted(templates).filters);
    if templates.len() > 0 {
        let init = templates.drop_last();
        law_patterns_are_those_of_the_templates(init, pattern);
        let before = patterns(converted(init).filters);
        let last = templates[templates.len() - 1];
        if before.contains(pattern) {
            let i = choose|i: int|
                0 <= i < init.len() && pattern_of(#[trigger] init[i]) == Some(pattern);
            assert(pattern_of(templates[i]) == Some(pattern));
        }
        if exists|i: int|
            0 <= i < templates.len() && pattern_of(#[trigger] templates[i]) == Some(pattern) {
            let i = choose|i: int|
                0 <= i < templates.len() && pattern_of(#[trigger] templates[i]) == Some(pattern);
            assert(i < init.len() ==> pattern_of(init[i]) == Some(pattern));
        }
        match pattern_of(last) {
            None => {},
            Some(own) => {
                if before.contains(own) {
                } else {
                    assert(after =~= before.push(own));
                    assert(after[before.len() as int] == own);
                    if before.contains(pattern) {
                        let k = choose|k: int| 0 <= k < before.len() && before[k] == pattern;
                        assert(after[k] == pattern);
                    }
                }
            },
        }
    }
}

/// The templates that are counted as empty are those that have no pattern.
pub proof fn law_empty_counts_templates_without_pattern(templates: Seq<Seq<char>>)
    ensures
        converted(templates).empty == templates.filter(
            |template: Seq<char>| pattern_of(template) is None,
        ).len(),
    decreases templates.len(),
{
    reveal(Seq::filter);
    if templates.len() > 0 {
        law_empty_counts_templates_without_pattern(templates.drop_last());
    }
}

/// Whether an earlier template gave the pattern of the `i`th one already.
pub open spec fn is_repeat(templates: Seq<Seq<char>>, i: int) -> bool {
    &&& pattern_of(templates[i]) is Some
    &&& exists|j: int|
        0 <= j < i && pattern_of(#[trigger] templates[j]) == pattern_of(templates[i])
}

/// How many of the first `n` templates repeat a pattern.
pub open spec fn repeats(templates: Seq<Seq<char>>, n: int) -> nat
    decreases n,
{
    if n <= 0 {
        0
    } else if is_repeat(templates, n - 1) {
        repeats(templates, n - 1) + 1
    } else {
        repeats(templates, n - 1)
    }
}

proof fn lemma_repeats_of_shorter(templates: Seq<Seq<char>>, n: int)
    requires
        n < templates.len(),
    ensures
        repeats(templates.drop_last(), n) == repeats(templates, n),
    decreases n,
{
    if n > 0 {
        let init = templates.drop_last();
        lemma_repeats_of_shorter(templates, n - 1);
        assert(init[n - 1] == templates[n - 1]);
        if is_repeat(templates, n - 1) {
            let j = choose|j: int|
                0 <= j < n - 1 && pattern_of(#[trigger] templates[j]) == pattern_of(
                    templates[n - 1],
                );
            assert(pattern_of(init[j]) == pattern_of(init[n - 1]));
        }
        if is_repeat(init, n - 1) {
            let j = choose|j: int|
                0 <= j < n - 1 && pattern_of(#[trigger] init[j]) == pattern_of(init[n - 1]);
            assert(pattern_of(templates[j]) == pattern_of(templates[n - 1]));
        }
    }
}

/// The templates that are counted as duplicates are those whose pattern an earlier one gave.
pub proof fn law_duplicate_counts_repeated_patterns(templates: Seq<Seq<char>>)
    ensures
        converted(templates).duplicate == repeats(templates, templates.len() as int),
    decreases templates.len(),
{
    if templates.len() > 0 {
        let init = templates.drop_last();
        let n = templates.len() as int;
        law_duplicate_counts_repeated_patterns(init);
        lemma_repeats_of_shorter(templates, n - 1);
        if let Some(pattern) = pattern_of(templates.last()) {
            law_patterns_are_those_of_the_templates(init, pattern);
            if patterns(converted(init).filters).contains(pattern) {
                let j = choose|j: int|
                    0 <= j < init.len() && pattern_of(#[trigger] init[j]) == Some(pattern);
                assert(pattern_of(templates[j]) == pattern_of(templates[n - 1]));
            } else if is_repeat(templates, n - 1) {
                let j = choose|j: int|
                    0 <= j < n - 1 && pattern_of(#[trigger] templates[j]) == pattern_of(
                        templates[n - 1],
                    );
                assert(pattern_of(init[j]) == Some(pattern));
            }
        }
    }
}

/// Whether `name` is the `n`th name for a filter that would be called `base`: the first is `base`
/// itself, and every other is `base`, ` #` and the number.
pub open spec fn is_numbered(name: Seq<char>, base: Seq<char>, n: nat) -> bool {
    ||| n == 1 && name == base
    ||| n >= 2 && name == base + " #"@ + decimal(n)
}

/// A filter is called after the first template that gave its pattern: by that template's name where no
/// filter before it has it, and else by the name and the lowest number from two on that is free.
pub proof fn law_how_a_filter_is_named(templates: Seq<Seq<char>>, k: int, pattern: Seq<char>)
    requires
        0 <= k < templates.len(),
        pattern_of(templates[k]) == Some(pattern),
        forall|j: int| 0 <= j < k ==> pattern_of(#[trigger] templates[j]) != Some(pattern),
    ensures
        ({
            let before = converted(templates.take(k)).filters;
            let filters = converted(templates).filters;
            let base = one_line(templates[k]);
            let name = filters[before.len() as int].0;
            &&& before.len() < filters.len()
            &&& before == filters.take(before.len() as int)
            &&& filters[before.len() as int].1 == pattern
            &&& !names(before).contains(name)
            &&& exists|n: nat| #[trigger]
                is_numbered(name, base, n) && forall|m: nat, other: Seq<char>|
                    1 <= m < n && #[trigger] is_numbered(other, base, m) ==> names(
                        before,
                    ).contains(other)
        }),
{
    let before = converted(templates.take(k)).filters;
    let filters = converted(templates).filters;
    let base = one_line(templates[k]);
    let taken = names(before);
    law_first_template_makes_the_filter(templates, k, pattern);
    law_filters_keep_the_order_of_templates(templates, k);
    assert(before =~= filters.take(before.len() as int));
    law_fresh_name_is_free(base, taken);
    let name = filters[before.len() as int].0;
    let n = choose|n: nat| #[trigger]
        first_free(base, taken, n) && fresh_name(base, taken) == candidate(base, n);
    reveal_strlit(" #");
    assert(" #"@ =~= seq![' ', '#']);
    assert(is_numbered(name, base, n));
    assert forall|m: nat, other: Seq<char>|
        1 <= m < n && #[trigger] is_numbered(other, base, m) implies taken.contains(other) by {
        assert(other == candidate(base, m));
    }
}

/// An outcome shows its filters, each with its name and its pattern, and its two counts.
pub proof fn law_an_outcome_shows_what_it_holds(outcome: Outcome)
    ensures
        outcome@.filters.len() == outcome.filters@.len(),
        forall|i: int|
            0 <= i < outcome.filters@.len() ==> (#[trigger] outcome@.filters[i]).0
                == outcome.filters@[i].0@ && outcome@.filters[i].1 == outcome.filters@[i].1@,
        outcome@.empty == outcome.empty,
        outcome@.duplicate == outcome.duplicate,
        forall|i: int|
            0 <= i < outcome@.filters.len() ==> #[trigger] names(outcome@.filters)[i]
                == outcome@.filters[i].0,
        forall|i: int|
            0 <= i < outcome@.filters.len() ==> #[trigger] patterns(outcome@.filters)[i]
                == outcome@.filters[i].1,
        names(outcome@.filters).len() == outcome@.filters.len(),
        patterns(outcome@.filters).len() == outcome@.filters.len(),
{
}

/// One template more adds one filter, or one to one of the two counts, and changes nothing else: it is
/// empty where it has no pattern, a duplicate where an earlier template gave its pattern, and a filter
/// where neither is so.
pub proof fn law_one_template_more(templates: Seq<Seq<char>>, template: Seq<char>)
    ensures
        ({
            let before = converted(templates);
            let after = converted(templates.push(template));
            match pattern_of(template) {
                None => after.empty == before.empty + 1 && after.duplicate == before.duplicate
                    && after.filters == before.filters,
                Some(pattern) => if exists|i: int|
                    0 <= i < templates.len() && pattern_of(#[trigger] templates[i]) == Some(
                        pattern,
                    ) {
                    after.duplicate == before.duplicate + 1 && after.empty == before.empty
                        && after.filters == before.filters
                } else {
                    after.empty == before.empty && after.duplicate == before.duplicate
                        && after.filters.drop_last() == before.filters && after.filters.len()
                        == before.filters.len() + 1 && after.filters.last().1 == pattern
                },
            }
        }),
{
    let more = templates.push(template);
    assert(more.drop_last() =~= templates);
    if let Some(pattern) = pattern_of(template) {
        law_patterns_are_those_of_the_templates(templates, pattern);
        let after = converted(more).filters;
        assert(after.len() > converted(templates).filters.len() ==> after.drop_last() =~= converted(
            templates,
        ).filters);
    }
}

} // verus!
