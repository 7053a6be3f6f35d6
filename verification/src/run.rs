//! From a CSV to the file of a set, and what the user is told on the way.
use crate::convert::{
    convert, converted, filter_views, law_every_template_is_accounted_for, law_filters_are_distinct,
    law_patterns_are_those_of_the_templates, patterns, Outcome, OutcomeView,
};
use crate::document::{is_comment_block, is_printable, set_document};
use crate::emit::{emit, header_text, law_header_is_a_comment};
use crate::error::Error;
use crate::outside::{
    csv_header, csv_rows, regex_error, too_large, toml_tree, written_document,
};
use crate::rows::{is_reading, read_templates, templates_of};
use crate::schema::is_read_as;
use crate::source::Source;
use crate::template::{
    is_rendered, is_small, law_short_templates_have_small_patterns, pattern_of, pattern_pieces, render,
    SMALL,
};
use crate::text::{
    decimal, decimal_text, law_decimal_stands_for_the_number, lemma_decimal_injective, same_text,
    texts,
};
use crate::validate::{
    compiles, fault_of, law_a_set_is_found_in_its_file, law_a_set_loads_if_its_patterns_compile,
    patterns_compile, validate,
};
use vstd::prelude::*;

verus! {

/// The names of recon's built-in sets, which may carry no filters.
pub const BUILTIN_SETS: [&'static str; 1] = ["definitions"];

/// How many patterns recon's navigator matches across a folder.
pub const NAVIGATOR_CEILING: usize = 64;

/// What a set is called: what the user says, or what its source does.
pub fn set_name(given: Option<String>, source: &Source) -> (set: String)
    ensures
        match given {
            Some(name) => set@ == name@,
            None => source.is_default_set_name(set@),
        },
{
    match given {
        Some(name) => name,
        None => source.default_set_name(),
    }
}

/// Whether a name is that of a built-in set.
pub open spec fn is_builtin(set: Seq<char>) -> bool {
    exists|i: int| 0 <= i < BUILTIN_SETS@.len() && (#[trigger] BUILTIN_SETS@[i])@ == set
}

/// Whether a name is that of a built-in set.
fn builtin(set: &str) -> (builtin: bool)
    ensures
        builtin == is_builtin(set@),
{
    let mut i: usize = 0;
    while i < BUILTIN_SETS.len()
        invariant
            i <= BUILTIN_SETS@.len(),
            forall|j: int| 0 <= j < i ==> (#[trigger] BUILTIN_SETS@[j])@ != set@,
        decreases BUILTIN_SETS.len() - i,
    {
        if same_text(BUILTIN_SETS[i], set) {
            return true;
        }
        i = i + 1;
    }
    false
}

/// A set that was made: its name, what became of the templates, and the text of its file.
#[derive(Debug)]
pub struct SetFile {
    pub set: String,
    pub outcome: Outcome,
    pub text: String,
}

/// The text of a set's file.
pub open spec fn emitted(
    set: Seq<char>,
    filters: Seq<(Seq<char>, Seq<char>)>,
    origin: Seq<char>,
) -> Seq<char> {
    header_text(set, filters.len(), origin) + written_document(set_document(set, filters))
}

/// Whether `made` is what the rows of a CSV give under a name: the file of a set, or the one thing
/// that stands in the way.
pub open spec fn is_made(
    made: Result<SetFile, Error>,
    header: Result<Seq<Seq<char>>, Seq<char>>,
    rows: Seq<Result<Seq<Seq<char>>, Seq<char>>>,
    set: Seq<char>,
    origin: Seq<char>,
) -> bool {
    if set.len() == 0 {
        made matches Err(Error::EmptySetName)
    } else if is_builtin(set) {
        made matches Err(Error::BuiltinSetName { set: name }) && name@ == set
    } else {
        match templates_of(header, rows) {
            None => made matches Err(err) && is_reading(Err(err), origin, header, rows),
            Some(templates) => {
                let filters = converted(templates).filters;
                if filters.len() == 0 {
                    made matches Err(Error::NoUsablePattern { source }) && source@ == origin
                } else {
                    let text = emitted(set, filters, origin);
                    match fault_of(text, set) {
                        Some(fault) => made matches Err(Error::Bug { message }) && message@
                            == fault,
                        None => made matches Ok(file) && file.set@ == set && file.outcome@
                            == converted(templates) && file.text@ == text,
                    }
                }
            },
        }
    }
}

/// Whether some template has a pattern.
pub open spec fn any_usable(templates: Seq<Seq<char>>) -> bool {
    exists|i: int| 0 <= i < templates.len() && pattern_of(#[trigger] templates[i]) is Some
}

/// Some templates give a filter if and only if one of them has a pattern.
pub proof fn law_a_set_has_filters_if_a_template_is_usable(templates: Seq<Seq<char>>)
    ensures
        converted(templates).filters.len() > 0 <==> any_usable(templates),
{
    let filters = converted(templates).filters;
    if filters.len() > 0 {
        let pattern = patterns(filters)[0];
        law_patterns_are_those_of_the_templates(templates, pattern);
        assert(patterns(filters).contains(pattern));
        let i = choose|i: int|
            0 <= i < templates.len() && pattern_of(#[trigger] templates[i]) == Some(pattern);
        assert(pattern_of(templates[i]) is Some);
    }
    if any_usable(templates) {
        let i = choose|i: int|
            0 <= i < templates.len() && pattern_of(#[trigger] templates[i]) is Some;
        let pattern = pattern_of(templates[i])->Some_0;
        law_patterns_are_those_of_the_templates(templates, pattern);
        assert(patterns(filters).contains(pattern));
    }
}

/// The one name that is built in is `definitions`.
pub proof fn law_one_set_is_built_in(set: Seq<char>)
    ensures
        is_builtin(set) <==> set == "definitions"@,
{
    assert(BUILTIN_SETS@[0]@ == "definitions"@);
}

/// Whether the pattern of the filter at `i` is too large.
pub open spec fn is_oversized(filters: Seq<(Seq<char>, Seq<char>)>, i: int) -> bool {
    &&& 0 <= i < filters.len()
    &&& regex_error(filters[i].1) == Some(too_large())
    &&& !is_small(filters[i].1)
}

/// Whether no template has more characters than give a small pattern.
pub open spec fn are_short(templates: Seq<Seq<char>>) -> bool {
    forall|i: int| 0 <= i < templates.len() ==> (#[trigger] templates[i]).len() <= SMALL
}

proof fn lemma_patterns_of_filters(templates: Seq<Seq<char>>, i: int)
    requires
        0 <= i < converted(templates).filters.len(),
    ensures
        is_rendered(converted(templates).filters[i].1),
        are_short(templates) ==> is_small(converted(templates).filters[i].1),
{
    let filters = converted(templates).filters;
    let pattern = filters[i].1;
    assert(patterns(filters)[i] == pattern);
    law_patterns_are_those_of_the_templates(templates, pattern);
    let k = choose|k: int|
        0 <= k < templates.len() && pattern_of(#[trigger] templates[k]) == Some(pattern);
    assert(pattern == render(pattern_pieces(templates[k])->Some_0));
    if are_short(templates) {
        law_short_templates_have_small_patterns(templates[k], pattern);
    }
}

/// What is written for some templates is what recon loads: where a text is read as the set that the
/// templates give, nothing is wrong with it. This is so of all templates that are short; of longer
/// ones, unless a pattern is too large.
pub proof fn law_what_is_written_loads(
    templates: Seq<Seq<char>>,
    set: Seq<char>,
    text: Seq<char>,
)
    requires
        set.len() > 0,
        converted(templates).filters.len() > 0,
        is_read_as(toml_tree(text), set, converted(templates).filters),
        patterns_compile(text, set),
    ensures
        are_short(templates) ==> fault_of(text, set) is None,
        fault_of(text, set) is None || exists|i: int| #[trigger]
            is_oversized(converted(templates).filters, i),
{
    let filters = converted(templates).filters;
    law_filters_are_distinct(templates);
    law_a_set_is_found_in_its_file(text, toml_tree(text), set, filters);
    law_a_set_loads_if_its_patterns_compile(text, set, filters);
    if fault_of(text, set) !is None {
        let i = choose|i: int|
            0 <= i < filters.len() && regex_error((#[trigger] filters[i]).1) !is None;
        lemma_patterns_of_filters(templates, i);
        assert(compiles(filters[i].1));
        assert(is_oversized(filters, i));
    }
}

/// The file of a set, from the text of a CSV.
///
/// What is made is what recon loads: nothing is wrong with the file, unless a pattern is too large,
/// which that of a short template is not, or a control character in the set's name or in its origin
/// breaks the comment above the set.
pub fn make(csv: &str, set: String, source: &Source) -> (made: Result<SetFile, Error>)
    ensures
        is_made(made, csv_header(csv@), csv_rows(csv@), set@, source.origin()),
        match made {
            Err(Error::Bug { message }) => {
                let templates = templates_of(csv_header(csv@), csv_rows(csv@))->Some_0;
                let filters = converted(templates).filters;
                is_comment_block(header_text(set@, filters.len(), source.origin())) ==> {
                    &&& !are_short(templates)
                    &&& exists|i: int| #[trigger] is_oversized(filters, i)
                }
            },
            _ => true,
        },
        match templates_of(csv_header(csv@), csv_rows(csv@)) {
            Some(templates) => set@.len() > 0 && set@ != "definitions"@ && is_printable(set@)
                && is_printable(source.origin()) && are_short(templates) && any_usable(templates)
                ==> made is Ok,
            None => true,
        },
{
    if set.as_str().is_empty() {
        return Err(Error::EmptySetName);
    }
    proof {
        law_one_set_is_built_in(set@);
    }
    if builtin(set.as_str()) {
        return Err(Error::BuiltinSetName { set });
    }
    let origin = source.describe();
    let templates = match read_templates(csv, origin.as_str()) {
        Ok(templates) => templates,
        Err(err) => return Err(err),
    };
    let outcome = convert(templates.as_slice());
    proof {
        law_a_set_has_filters_if_a_template_is_usable(texts(templates@));
        if is_printable(set@) && is_printable(source.origin()) {
            law_header_is_a_comment(set@, outcome.filters@.len(), source.origin());
        }
    }
    if outcome.filters.len() == 0 {
        return Err(Error::NoUsablePattern { source: origin });
    }
    let ghost filters = filter_views(outcome.filters@);
    let text = match emit(set.as_str(), outcome.filters.as_slice(), source) {
        Ok(text) => text,
        Err(err) => return Err(err),
    };
    match validate(text.as_str(), set.as_str()) {
        Ok(_) => Ok(SetFile { set, outcome, text }),
        Err(err) => {
            proof {
                if is_comment_block(header_text(set@, filters.len(), source.origin())) {
                    law_what_is_written_loads(texts(templates@), set@, text@);
                }
            }
            Err(err)
        },
    }
}

/// What comes of a CSV under a name: nothing without a name or under the one that is built in; where
/// the CSV has no templates, what stands in the way of reading it; where no template has a pattern,
/// that, and only there; and in every other case, however many filters there are, the file that holds
/// them all, unless something is wrong with its text.
pub proof fn law_what_comes_of_a_csv(
    made: Result<SetFile, Error>,
    header: Result<Seq<Seq<char>>, Seq<char>>,
    rows: Seq<Result<Seq<Seq<char>>, Seq<char>>>,
    set: Seq<char>,
    origin: Seq<char>,
)
    requires
        is_made(made, header, rows, set, origin),
    ensures
        made matches Err(Error::EmptySetName) <==> set.len() == 0,
        made matches Err(Error::BuiltinSetName { .. }) <==> set == "definitions"@,
        made matches Err(Error::BuiltinSetName { set: name }) ==> name@ == set,
        made matches Err(Error::NoUsablePattern { .. }) <==> {
            &&& set.len() > 0
            &&& set != "definitions"@
            &&& templates_of(header, rows) matches Some(templates) && !any_usable(templates)
        },
        made matches Err(Error::NoUsablePattern { source }) ==> source@ == origin,
        set.len() > 0 && set != "definitions"@ && templates_of(header, rows) is None ==> (
        made matches Err(err) && is_reading(Err(err), origin, header, rows)),
        match templates_of(header, rows) {
            Some(templates) => set.len() > 0 && set != "definitions"@ && any_usable(templates)
                ==> match made {
                Ok(file) => {
                    let filters = file.outcome@.filters;
                    &&& file.set@ == set
                    &&& file.outcome@ == converted(templates)
                    &&& file.text@ == header_text(set, filters.len(), origin) + written_document(
                        set_document(set, filters),
                    )
                    &&& fault_of(file.text@, set) is None
                    &&& forall|i: int, pattern: Seq<char>|
                        #![trigger templates[i], patterns(filters).contains(pattern)]
                        0 <= i < templates.len() && pattern_of(templates[i]) == Some(pattern)
                            ==> patterns(filters).contains(pattern)
                },
                Err(Error::Bug { message }) => {
                    let filters = converted(templates).filters;
                    let text = header_text(set, filters.len(), origin) + written_document(
                        set_document(set, filters),
                    );
                    fault_of(text, set) == Some(message@)
                },
                Err(_) => false,
            },
            None => true,
        },
        made is Ok ==> set.len() > 0 && set != "definitions"@ && (templates_of(
            header,
            rows,
        ) matches Some(templates) && any_usable(templates)),
{
    law_one_set_is_built_in(set);
    reveal_strlit("definitions");
    if let Some(templates) = templates_of(header, rows) {
        law_a_set_has_filters_if_a_template_is_usable(templates);
        let filters = converted(templates).filters;
        assert forall|i: int, pattern: Seq<char>|
            #![trigger templates[i], patterns(filters).contains(pattern)]
            0 <= i < templates.len() && pattern_of(templates[i]) == Some(pattern) implies patterns(
            filters,
        ).contains(pattern) by {
            law_patterns_are_those_of_the_templates(templates, pattern);
        }
    }
}

/// A CSV whose templates are short and of which one has a pattern becomes a file, however many of them
/// there are, under any name but none and the one that is built in. What is written for the set is
/// taken to be read back as the set.
pub proof fn law_short_templates_become_a_file(
    made: Result<SetFile, Error>,
    header: Result<Seq<Seq<char>>, Seq<char>>,
    rows: Seq<Result<Seq<Seq<char>>, Seq<char>>>,
    set: Seq<char>,
    origin: Seq<char>,
    templates: Seq<Seq<char>>,
    text: Seq<char>,
)
    requires
        is_made(made, header, rows, set, origin),
        templates_of(header, rows) == Some(templates),
        set.len() > 0,
        set != "definitions"@,
        are_short(templates),
        any_usable(templates),
        text == header_text(set, converted(templates).filters.len(), origin) + written_document(
            set_document(set, converted(templates).filters),
        ),
        is_read_as(toml_tree(text), set, converted(templates).filters),
        patterns_compile(text, set),
    ensures
        made matches Ok(file) && file.set@ == set && file.text@ == text && file.outcome@
            == converted(templates),
{
    law_what_comes_of_a_csv(made, header, rows, set, origin);
    law_a_set_has_filters_if_a_template_is_usable(templates);
    law_what_is_written_loads(templates, set, text);
}

/// Where a set is written when the user does not say.
pub open spec fn default_target(set: Seq<char>) -> Seq<char> {
    set + "-filters.toml"@
}

/// Where a set is written: where the user says, or in a file of the set's name.
pub fn target_for(output: Option<String>, set: &str) -> (target: String)
    ensures
        match output {
            Some(output) => target@ == output@,
            None => target@ == default_target(set@),
        },
{
    match output {
        Some(output) => output,
        None => set.to_owned().concat("-filters.toml"),
    }
}

/// Whether a target is standard output rather than a file.
pub fn is_stdout(target: &str) -> (stdout: bool)
    ensures
        stdout == (target@ == "-"@),
{
    same_text(target, "-")
}

/// Whether a file may be written at `path`: what is there is only overwritten where the user says
/// so. `present` says whether anything is there.
pub fn may_write(path: &str, present: bool, force: bool) -> (result: Result<(), Error>)
    ensures
        match result {
            Ok(_) => !present || force,
            Err(Error::AlreadyThere { path: there }) => present && !force && there@ == path@,
            Err(_) => false,
        },
{
    if present && !force {
        Err(Error::AlreadyThere { path: path.to_owned() })
    } else {
        Ok(())
    }
}

/// A line, if there is reason for it.
pub open spec fn line_if(reason: bool, line: Seq<char>) -> Seq<Seq<char>> {
    if reason {
        seq![line]
    } else {
        seq![]
    }
}

/// What the user is told of a set that was written, line by line.
pub open spec fn report_lines(
    outcome: OutcomeView,
    set: Seq<char>,
    target: Seq<char>,
) -> Seq<Seq<char>> {
    let count = outcome.filters.len();
    seq!["[sets."@ + set + "]: "@ + decimal(count) + " filters"@] + line_if(
        outcome.empty > 0,
        "  "@ + decimal(outcome.empty)
            + " template(s) skipped: nothing but wildcards, so the pattern would match every line"@,
    ) + line_if(
        outcome.duplicate > 0,
        "  "@ + decimal(outcome.duplicate)
            + " template(s) skipped: another template gave the same pattern"@,
    ) + line_if(
        count > NAVIGATOR_CEILING,
        "  note: recon's navigator stops matching above "@ + decimal(NAVIGATOR_CEILING as nat)
            + " known patterns across all sets. This set alone is over it, so keep it disabled unless you are using it."@,
    ) + line_if(
        target != "-"@,
        "  append "@ + target + " to ~/.config/recon/filters.toml to use it"@,
    )
}

/// What the user is told of a set that was written, line by line: how many filters it has, where the
/// other templates went, and what to do next.
pub fn report(outcome: &Outcome, set: &str, target: &str) -> (lines: Vec<String>)
    ensures
        texts(lines@) == report_lines(outcome@, set@, target@),
{
    let count = outcome.filters.len();
    let mut lines: Vec<String> = Vec::new();
    lines.push(
        "[sets.".to_owned().concat(set).concat("]: ").concat(decimal_text(count).as_str()).concat(
            " filters",
        ),
    );
    if outcome.empty > 0 {
        lines.push(
            "  ".to_owned().concat(decimal_text(outcome.empty).as_str()).concat(
                " template(s) skipped: nothing but wildcards, so the pattern would match every line",
            ),
        );
    }
    if outcome.duplicate > 0 {
        lines.push(
            "  ".to_owned().concat(decimal_text(outcome.duplicate).as_str()).concat(
                " template(s) skipped: another template gave the same pattern",
            ),
        );
    }
    if count > NAVIGATOR_CEILING {
        lines.push(
            "  note: recon's navigator stops matching above ".to_owned().concat(
                decimal_text(NAVIGATOR_CEILING).as_str(),
            ).concat(
                " known patterns across all sets. This set alone is over it, so keep it disabled unless you are using it.",
            ),
        );
    }
    if !is_stdout(target) {
        lines.push(
            "  append ".to_owned().concat(target).concat(
                " to ~/.config/recon/filters.toml to use it",
            ),
        );
    }
    assert(texts(lines@) =~= report_lines(outcome@, set@, target@));
    lines
}

/// The file that a set is written to ends in `-filters.toml` after the set's name, so that no two sets
/// are written to the same file; and it is never standard output.
pub proof fn law_every_set_has_its_own_file(a: Seq<char>, b: Seq<char>)
    ensures
        default_target(a) == a + "-filters.toml"@,
        default_target(a) == default_target(b) ==> a == b,
        default_target(a) != "-"@,
{
    reveal_strlit("-filters.toml");
    reveal_strlit("-");
    assert(default_target(a).len() > "-"@.len());
    if default_target(a) == default_target(b) {
        assert(a =~= default_target(a).take(a.len() as int));
        assert(b =~= default_target(b).take(b.len() as int));
    }
}

/// The report starts with the number of filters. After it, and in this order, stand a line on the
/// templates that were empty exactly where there are any, one on the duplicates exactly where there
/// are any, one on the navigator exactly where there are more than sixty-four filters, and one on what
/// to do with the file exactly where there is a file. Nothing else stands in it.
pub proof fn law_every_line_of_the_report_has_its_reason(
    outcome: OutcomeView,
    set: Seq<char>,
    target: Seq<char>,
)
    ensures
        ({
            let lines = report_lines(outcome, set, target);
            let empty: int = if outcome.empty > 0 { 1 } else { 0 };
            let duplicate: int = if outcome.duplicate > 0 { 1 } else { 0 };
            let many: int = if outcome.filters.len() > 64 { 1 } else { 0 };
            let file: int = if target != "-"@ { 1 } else { 0 };
            &&& lines.len() == 1 + empty + duplicate + many + file
            &&& lines[0] == "[sets."@ + set + "]: "@ + decimal(outcome.filters.len()) + " filters"@
            &&& outcome.empty > 0 ==> lines[1] == "  "@ + decimal(outcome.empty)
                + " template(s) skipped: nothing but wildcards, so the pattern would match every line"@
            &&& outcome.duplicate > 0 ==> lines[1 + empty] == "  "@ + decimal(outcome.duplicate)
                + " template(s) skipped: another template gave the same pattern"@
            &&& outcome.filters.len() > 64 ==> lines[1 + empty + duplicate]
                == "  note: recon's navigator stops matching above "@ + "64"@
                + " known patterns across all sets. This set alone is over it, so keep it disabled unless you are using it."@
            &&& target != "-"@ ==> lines[1 + empty + duplicate + many] == "  append "@ + target
                + " to ~/.config/recon/filters.toml to use it"@
        }),
{
    lemma_ceiling();
}

proof fn lemma_ceiling()
    ensures
        NAVIGATOR_CEILING == 64,
        decimal(NAVIGATOR_CEILING as nat) == "64"@,
{
    reveal_with_fuel(decimal, 3);
    reveal_strlit("64");
    assert(decimal(64) =~= "64"@);
}

/// What the report says of templates that were skipped because they were nothing but wildcards.
pub open spec fn says_empty(line: Seq<char>, n: nat) -> bool {
    line == "  "@ + decimal(n)
        + " template(s) skipped: nothing but wildcards, so the pattern would match every line"@
}

/// What the report says of templates that were skipped because another gave their pattern.
pub open spec fn says_duplicate(line: Seq<char>, n: nat) -> bool {
    line == "  "@ + decimal(n) + " template(s) skipped: another template gave the same pattern"@
}

/// Every template is accounted for in the report: a line gives the number of the empty ones if and only
/// if there are any, whatever the number of duplicates; a line gives the number of duplicates if and
/// only if there are any, whatever the number of the empty ones; no line gives another number, so none
/// tells of zero; and with the number of filters these add up to the number of templates.
pub proof fn law_the_report_accounts_for_every_template(
    templates: Seq<Seq<char>>,
    set: Seq<char>,
    target: Seq<char>,
    n: nat,
)
    ensures
        ({
            let outcome = converted(templates);
            let lines = report_lines(outcome, set, target);
            &&& (exists|i: int| 0 <= i < lines.len() && says_empty(#[trigger] lines[i], n)) <==> n > 0
                && n == outcome.empty
            &&& (exists|i: int| 0 <= i < lines.len() && says_duplicate(#[trigger] lines[i], n))
                <==> n > 0 && n == outcome.duplicate
            &&& lines[0] == "[sets."@ + set + "]: "@ + decimal(outcome.filters.len()) + " filters"@
            &&& outcome.filters.len() + outcome.empty + outcome.duplicate == templates.len()
        }),
{
    law_every_template_is_accounted_for(templates);
    law_the_report_gives_both_counts(converted(templates), set, target, n);
}

/// A line of the report gives the number of empty templates if and only if there are any, and one gives
/// the number of duplicates if and only if there are any, whatever the other number is.
pub proof fn law_the_report_gives_both_counts(
    outcome: OutcomeView,
    set: Seq<char>,
    target: Seq<char>,
    n: nat,
)
    ensures
        ({
            let lines = report_lines(outcome, set, target);
            &&& (exists|i: int| 0 <= i < lines.len() && says_empty(#[trigger] lines[i], n)) <==> n > 0
                && n == outcome.empty
            &&& (exists|i: int| 0 <= i < lines.len() && says_duplicate(#[trigger] lines[i], n))
                <==> n > 0 && n == outcome.duplicate
            &&& lines[0] == "[sets."@ + set + "]: "@ + decimal(outcome.filters.len()) + " filters"@
        }),
{
    law_every_line_of_the_report_has_its_reason(outcome, set, target);
    let lines = report_lines(outcome, set, target);
    let empty: int = if outcome.empty > 0 {
        1
    } else {
        0
    };
    assert forall|i: int| 0 <= i < lines.len() implies (says_empty(#[trigger] lines[i], n) <==> i == 1
        && outcome.empty > 0 && n == outcome.empty) by {
        lemma_reported(outcome, set, target, n, i);
    }
    assert forall|i: int| 0 <= i < lines.len() implies (says_duplicate(#[trigger] lines[i], n) <==> i
        == 1 + empty && outcome.duplicate > 0 && n == outcome.duplicate) by {
        lemma_reported(outcome, set, target, n, i);
    }
    if n > 0 && n == outcome.empty {
        assert(says_empty(lines[1], n));
    }
    if n > 0 && n == outcome.duplicate {
        assert(says_duplicate(lines[1 + empty], n));
    }
}

proof fn lemma_same_count(a: nat, b: nat, rest: Seq<char>)
    ensures
        "  "@ + decimal(a) + rest == "  "@ + decimal(b) + rest ==> a == b,
{
    reveal_strlit("  ");
    let x = "  "@ + decimal(a) + rest;
    let y = "  "@ + decimal(b) + rest;
    if x == y {
        assert(x.len() == 2 + decimal(a).len() + rest.len());
        assert(y.len() == 2 + decimal(b).len() + rest.len());
        let n = decimal(a).len() as int;
        assert(x.subrange(2, 2 + n) =~= decimal(a));
        assert(y.subrange(2, 2 + n) =~= decimal(b));
        lemma_decimal_injective(a, b);
    }
}

proof fn lemma_other_line(line: Seq<char>, n: nat)
    requires
        line.len() < 3 || line[0] != ' ' || line[2] == 'n' || line[2] == 'a',
    ensures
        !says_empty(line, n),
        !says_duplicate(line, n),
{
    reveal_strlit("  ");
    law_decimal_stands_for_the_number(n);
    let x = "  "@ + decimal(n)
        + " template(s) skipped: nothing but wildcards, so the pattern would match every line"@;
    let y = "  "@ + decimal(n) + " template(s) skipped: another template gave the same pattern"@;
    assert(x[0] == ' ' && x[2] == decimal(n)[0]);
    assert(y[0] == ' ' && y[2] == decimal(n)[0]);
}

proof fn lemma_kinds_differ(a: nat, b: nat)
    ensures
        "  "@ + decimal(a)
            + " template(s) skipped: nothing but wildcards, so the pattern would match every line"@
            != "  "@ + decimal(b) + " template(s) skipped: another template gave the same pattern"@,
{
    reveal_strlit(
        " template(s) skipped: nothing but wildcards, so the pattern would match every line",
    );
    reveal_strlit(" template(s) skipped: another template gave the same pattern");
    let x = "  "@ + decimal(a)
        + " template(s) skipped: nothing but wildcards, so the pattern would match every line"@;
    let y = "  "@ + decimal(b) + " template(s) skipped: another template gave the same pattern"@;
    assert(x.last() == 'e');
    assert(y.last() == 'n');
}

proof fn lemma_reported(
    outcome: OutcomeView,
    set: Seq<char>,
    target: Seq<char>,
    n: nat,
    i: int,
)
    requires
        0 <= i < report_lines(outcome, set, target).len(),
    ensures
        ({
            let line = report_lines(outcome, set, target)[i];
            let empty: int = if outcome.empty > 0 { 1 } else { 0 };
            &&& says_empty(line, n) <==> i == 1 && outcome.empty > 0 && n == outcome.empty
            &&& says_duplicate(line, n) <==> i == 1 + empty && outcome.duplicate > 0 && n
                == outcome.duplicate
        }),
{
    law_every_line_of_the_report_has_its_reason(outcome, set, target);
    let line = report_lines(outcome, set, target)[i];
    let empty: int = if outcome.empty > 0 {
        1
    } else {
        0
    };
    let duplicate: int = if outcome.duplicate > 0 {
        1
    } else {
        0
    };
    if i == 1 && outcome.empty > 0 {
        lemma_same_count(
            outcome.empty,
            n,
            " template(s) skipped: nothing but wildcards, so the pattern would match every line"@,
        );
        lemma_kinds_differ(outcome.empty, n);
    } else if i == 1 + empty && outcome.duplicate > 0 {
        lemma_same_count(
            outcome.duplicate,
            n,
            " template(s) skipped: another template gave the same pattern"@,
        );
        lemma_kinds_differ(n, outcome.duplicate);
    } else {
        if i == 0 {
            reveal_strlit("[sets.");
            assert(line[0] == '[');
        } else if i == 1 + empty + duplicate && outcome.filters.len() > 64 {
            reveal_strlit("  note: recon's navigator stops matching above ");
            assert(line[2] == 'n');
        } else {
            reveal_strlit("  append ");
            assert(line[2] == 'a');
        }
        lemma_other_line(line, n);
    }
}

} // verus!
