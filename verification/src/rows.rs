//! The templates in a CSV.
use crate::error::Error;
use crate::outside::{csv_header, csv_rows, read_header, read_rows, row_view, row_views};
use crate::text::{
    is_space, law_only_white_space_trims_to_nothing, same_text, texts, trim, trimmed,
};
use vstd::prelude::*;

verus! {

/// The first column at or after `from` that is headed `EventTemplate`, white space aside.
pub open spec fn template_column(header: Seq<Seq<char>>, from: int) -> Option<int>
    decreases header.len() - from,
{
    if from < 0 || from >= header.len() {
        None
    } else if trimmed(header[from]) == "EventTemplate"@ {
        Some(from)
    } else {
        template_column(header, from + 1)
    }
}

/// What one row adds to the templates: its cell in that column, if it has one that is not blank.
pub open spec fn template_in(row: Seq<Seq<char>>, column: int) -> Seq<Seq<char>> {
    if 0 <= column < row.len() && trimmed(row[column]).len() > 0 {
        seq![row[column]]
    } else {
        seq![]
    }
}

/// The templates in some rows, or the reason why one of the rows cannot be read.
pub open spec fn templates_in(rows: Seq<Result<Seq<Seq<char>>, Seq<char>>>, column: int) -> Result<
    Seq<Seq<char>>,
    Seq<char>,
>
    decreases rows.len(),
{
    if rows.len() == 0 {
        Ok(seq![])
    } else {
        match templates_in(rows.drop_last(), column) {
            Err(cause) => Err(cause),
            Ok(before) => match rows.last() {
                Err(cause) => Err(cause),
                Ok(row) => Ok(before + template_in(row, column)),
            },
        }
    }
}

/// Whether `result` is what the rows of a CSV give: its templates, in order, or the one thing that
/// stands in the way.
pub open spec fn is_reading(
    result: Result<Vec<String>, Error>,
    source: Seq<char>,
    header: Result<Seq<Seq<char>>, Seq<char>>,
    rows: Seq<Result<Seq<Seq<char>>, Seq<char>>>,
) -> bool {
    match header {
        Err(cause) => result matches Err(Error::CannotReadHeader { source: at, cause: why })
            && at@ == source && why@ == cause,
        Ok(header) => match template_column(header, 0) {
            None => result matches Err(Error::NoTemplateColumn { source: at, header: read })
                && at@ == source && texts(read@) == header,
            Some(column) => match templates_in(rows, column) {
                Err(cause) => result matches Err(Error::CannotReadRow { source: at, cause: why })
                    && at@ == source && why@ == cause,
                Ok(templates) => if templates.len() == 0 {
                    result matches Err(Error::NoTemplates { source: at }) && at@ == source
                } else {
                    result matches Ok(list) && texts(list@) == templates
                },
            },
        },
    }
}

/// The templates that the rows of a CSV give, if nothing stands in the way.
pub open spec fn templates_of(
    header: Result<Seq<Seq<char>>, Seq<char>>,
    rows: Seq<Result<Seq<Seq<char>>, Seq<char>>>,
) -> Option<Seq<Seq<char>>> {
    match header {
        Err(_) => None,
        Ok(header) => match template_column(header, 0) {
            None => None,
            Some(column) => match templates_in(rows, column) {
                Err(_) => None,
                Ok(templates) => if templates.len() == 0 {
                    None
                } else {
                    Some(templates)
                },
            },
        },
    }
}

fn find_column(header: &Vec<String>) -> (column: Option<usize>)
    ensures
        match column {
            Some(column) => template_column(texts(header@), 0) == Some(column as int),
            None => template_column(texts(header@), 0) is None,
        },
{
    let ghost names = texts(header@);
    let mut i: usize = 0;
    while i < header.len()
        invariant
            names == texts(header@),
            i <= header@.len(),
            template_column(names, 0) == template_column(names, i as int),
        decreases header.len() - i,
    {
        if same_text(trim(header[i].as_str()).as_str(), "EventTemplate") {
            return Some(i);
        }
        i = i + 1;
    }
    None
}

fn copy_of(list: &Vec<String>) -> (copy: Vec<String>)
    ensures
        texts(copy@) == texts(list@),
{
    let mut copy: Vec<String> = Vec::new();
    let mut i: usize = 0;
    while i < list.len()
        invariant
            i <= list@.len(),
            copy@.len() == i,
            forall|j: int| 0 <= j < i ==> (#[trigger] copy@[j])@ == list@[j]@,
        decreases list.len() - i,
    {
        copy.push(list[i].clone());
        i = i + 1;
    }
    assert(texts(copy@) =~= texts(list@));
    copy
}

/// The templates that the rows of a CSV hold, in the CSV's own order. The column is found by its
/// heading; a blank cell, or a row too short to have one, is a row with nothing to convert.
pub fn templates_from_rows(
    header: &Result<Vec<String>, String>,
    rows: &Vec<Result<Vec<String>, String>>,
    source: &str,
) -> (templates: Result<Vec<String>, Error>)
    ensures
        is_reading(templates, source@, row_view(*header), row_views(rows@)),
{
    let names = match header {
        Ok(names) => names,
        Err(cause) => return Err(
            Error::CannotReadHeader { source: source.to_owned(), cause: cause.clone() },
        ),
    };
    let column = match find_column(names) {
        Some(column) => column,
        None => return Err(
            Error::NoTemplateColumn { source: source.to_owned(), header: copy_of(names) },
        ),
    };
    let ghost all = row_views(rows@);
    let mut templates: Vec<String> = Vec::new();
    let mut i: usize = 0;
    assert(texts(templates@) =~= seq![]);
    while i < rows.len()
        invariant
            all == row_views(rows@),
            i <= rows@.len(),
            templates_in(all.take(i as int), column as int) == Ok::<Seq<Seq<char>>, Seq<char>>(
                texts(templates@),
            ),
            row_view(*header) == Ok::<Seq<Seq<char>>, Seq<char>>(texts(names@)),
            template_column(texts(names@), 0) == Some(column as int),
        decreases rows.len() - i,
    {
        proof {
            assert(all.take(i + 1).drop_last() =~= all.take(i as int));
            assert(all[i as int] == row_view(rows@[i as int]));
        }
        match &rows[i] {
            Err(cause) => {
                proof {
                    lemma_first_fault(all, i + 1, column as int);
                }
                return Err(
                    Error::CannotReadRow { source: source.to_owned(), cause: cause.clone() },
                );
            },
            Ok(row) => {
                let ghost before = texts(templates@);
                if column < row.len() && !trim(row[column].as_str()).as_str().is_empty() {
                    templates.push(row[column].clone());
                }
                proof {
                    assert(texts(templates@) =~= before + template_in(
                        texts(row@),
                        column as int,
                    ));
                }
            },
        }
        i = i + 1;
    }
    assert(all.take(i as int) =~= all);
    if templates.len() == 0 {
        return Err(Error::NoTemplates { source: source.to_owned() });
    }
    Ok(templates)
}

/// The first row that cannot be read is the one that is reported.
proof fn lemma_first_fault(rows: Seq<Result<Seq<Seq<char>>, Seq<char>>>, n: int, column: int)
    requires
        0 <= n <= rows.len(),
        templates_in(rows.take(n), column) is Err,
    ensures
        templates_in(rows, column) == templates_in(rows.take(n), column),
    decreases rows.len(),
{
    if n == rows.len() {
        assert(rows.take(n) =~= rows);
    } else {
        assert(rows.drop_last().take(n) =~= rows.take(n));
        lemma_first_fault(rows.drop_last(), n, column);
    }
}

/// The templates in a CSV, in its own order.
pub fn read_templates(csv: &str, source: &str) -> (templates: Result<Vec<String>, Error>)
    ensures
        is_reading(templates, source@, csv_header(csv@), csv_rows(csv@)),
{
    templates_from_rows(&read_header(csv), &read_rows(csv), source)
}

/// A template is never blank, and each one is a cell of the column of templates.
pub proof fn law_templates_are_cells(
    rows: Seq<Result<Seq<Seq<char>>, Seq<char>>>,
    column: int,
    templates: Seq<Seq<char>>,
    i: int,
)
    requires
        templates_in(rows, column) == Ok::<Seq<Seq<char>>, Seq<char>>(templates),
        0 <= i < templates.len(),
    ensures
        trimmed(templates[i]).len() > 0,
        exists|k: int|
            0 <= k < rows.len() && #[trigger] rows[k] is Ok && 0 <= column < rows[k]->Ok_0.len()
                && rows[k]->Ok_0[column] == templates[i],
    decreases rows.len(),
{
    if rows.len() > 0 {
        let before = templates_in(rows.drop_last(), column)->Ok_0;
        if i < before.len() {
            law_templates_are_cells(rows.drop_last(), column, before, i);
            let k = choose|k: int|
                0 <= k < rows.drop_last().len() && #[trigger] rows.drop_last()[k] is Ok && 0
                    <= column < rows.drop_last()[k]->Ok_0.len()
                    && rows.drop_last()[k]->Ok_0[column] == before[i];
            assert(rows[k] == rows.drop_last()[k]);
        } else {
            assert(rows[rows.len() - 1] is Ok);
        }
    }
}

/// Every cell of the column of templates that is not blank is a template.
pub proof fn law_every_filled_cell_is_a_template(
    rows: Seq<Result<Seq<Seq<char>>, Seq<char>>>,
    column: int,
    templates: Seq<Seq<char>>,
    k: int,
)
    requires
        templates_in(rows, column) == Ok::<Seq<Seq<char>>, Seq<char>>(templates),
        0 <= k < rows.len(),
        rows[k] is Ok,
        0 <= column < rows[k]->Ok_0.len(),
        trimmed(rows[k]->Ok_0[column]).len() > 0,
    ensures
        templates.contains(rows[k]->Ok_0[column]),
    decreases rows.len(),
{
    let before = templates_in(rows.drop_last(), column)->Ok_0;
    if k < rows.len() - 1 {
        assert(rows.drop_last()[k] == rows[k]);
        law_every_filled_cell_is_a_template(rows.drop_last(), column, before, k);
        let i = choose|i: int| 0 <= i < before.len() && before[i] == rows[k]->Ok_0[column];
        assert(templates[i] == before[i]);
    } else {
        assert(templates[before.len() as int] == rows[k]->Ok_0[column]);
    }
}

/// The templates stand in the order of the rows: more rows add templates after those before them.
pub proof fn law_templates_keep_the_order_of_rows(
    rows: Seq<Result<Seq<Seq<char>>, Seq<char>>>,
    column: int,
    templates: Seq<Seq<char>>,
    n: int,
)
    requires
        templates_in(rows, column) == Ok::<Seq<Seq<char>>, Seq<char>>(templates),
        0 <= n <= rows.len(),
    ensures
        templates_in(rows.take(n), column) matches Ok(first) && first.is_prefix_of(templates),
    decreases rows.len(),
{
    if n == rows.len() {
        assert(rows.take(n) =~= rows);
        assert(templates =~= templates.take(templates.len() as int));
    } else {
        let before = templates_in(rows.drop_last(), column)->Ok_0;
        assert(rows.drop_last().take(n) =~= rows.take(n));
        law_templates_keep_the_order_of_rows(rows.drop_last(), column, before, n);
    }
}

/// The column of templates is found by its heading wherever that stands: where some heading, white
/// space aside, is `EventTemplate`, it is the first such column, and where none is there is no column.
pub proof fn law_the_column_is_found_by_its_heading(header: Seq<Seq<char>>)
    ensures
        match template_column(header, 0) {
            Some(column) => {
                &&& 0 <= column < header.len()
                &&& trimmed(header[column]) == "EventTemplate"@
                &&& forall|i: int|
                    0 <= i < column ==> trimmed(#[trigger] header[i]) != "EventTemplate"@
            },
            None => forall|i: int|
                0 <= i < header.len() ==> trimmed(#[trigger] header[i]) != "EventTemplate"@,
        },
{
    lemma_column(header, 0);
}

proof fn lemma_column(header: Seq<Seq<char>>, from: int)
    requires
        0 <= from <= header.len(),
    ensures
        match template_column(header, from) {
            Some(column) => {
                &&& from <= column < header.len()
                &&& trimmed(header[column]) == "EventTemplate"@
                &&& forall|i: int|
                    from <= i < column ==> trimmed(#[trigger] header[i]) != "EventTemplate"@
            },
            None => forall|i: int|
                from <= i < header.len() ==> trimmed(#[trigger] header[i]) != "EventTemplate"@,
        },
    decreases header.len() - from,
{
    if from < header.len() && trimmed(header[from]) != "EventTemplate"@ {
        lemma_column(header, from + 1);
    }
}

/// White space around the heading, and other columns before it and after it, change nothing about
/// which cells are the templates.
pub proof fn law_other_columns_are_ignored(
    before: Seq<Seq<char>>,
    heading: Seq<char>,
    after: Seq<Seq<char>>,
)
    requires
        trimmed(heading) == "EventTemplate"@,
        forall|i: int|
            0 <= i < before.len() ==> trimmed(#[trigger] before[i]) != "EventTemplate"@,
    ensures
        template_column(before + seq![heading] + after, 0) == Some(before.len() as int),
{
    let header = before + seq![heading] + after;
    law_the_column_is_found_by_its_heading(header);
    assert(header[before.len() as int] == heading);
    if let Some(column) = template_column(header, 0) {
        if column < before.len() {
            assert(header[column] == before[column]);
        }
    }
}

/// Whether a row has a cell in this column that holds anything but white space.
pub open spec fn is_filled(row: Seq<Seq<char>>, column: int) -> bool {
    0 <= column < row.len() && exists|i: int|
        0 <= i < row[column].len() && !is_space(#[trigger] row[column][i])
}

proof fn lemma_template_in(row: Seq<Seq<char>>, column: int)
    ensures
        is_filled(row, column) ==> template_in(row, column) == seq![row[column]],
        !is_filled(row, column) ==> template_in(row, column) == Seq::<Seq<char>>::empty(),
{
    if 0 <= column < row.len() {
        law_only_white_space_trims_to_nothing(row[column]);
    }
}

/// A row alone gives its cell, untouched, where that is filled, and nothing where it is not; a row
/// that cannot be read gives its reason.
pub proof fn law_a_row_gives_its_cell(row: Result<Seq<Seq<char>>, Seq<char>>, column: int)
    ensures
        templates_in(seq![row], column) == match row {
            Err(cause) => Err(cause),
            Ok(row) => if is_filled(row, column) {
                Ok(seq![row[column]])
            } else {
                Ok(seq![])
            },
        },
{
    reveal_with_fuel(templates_in, 2);
    let rows = seq![row];
    let empty = Seq::<Seq<char>>::empty();
    assert(rows.drop_last() =~= Seq::<Result<Seq<Seq<char>>, Seq<char>>>::empty());
    if let Ok(cells) = row {
        lemma_template_in(cells, column);
        assert(empty + template_in(cells, column) =~= template_in(cells, column));
    }
}

/// Rows one after the other give their templates one after the other, each as often as it stands
/// there; and of the rows that cannot be read, the first is the one that counts.
pub proof fn law_rows_add_up(
    a: Seq<Result<Seq<Seq<char>>, Seq<char>>>,
    b: Seq<Result<Seq<Seq<char>>, Seq<char>>>,
    column: int,
)
    ensures
        a.len() == 0 ==> templates_in(a, column) == Ok::<Seq<Seq<char>>, Seq<char>>(seq![]),
        templates_in(a + b, column) == match (templates_in(a, column), templates_in(b, column)) {
            (Err(cause), _) => Err(cause),
            (_, Err(cause)) => Err(cause),
            (Ok(first), Ok(second)) => Ok(first + second),
        },
    decreases b.len(),
{
    let rows = a + b;
    if b.len() == 0 {
        assert(rows =~= a);
        if let Ok(first) = templates_in(a, column) {
            assert(first + Seq::<Seq<char>>::empty() =~= first);
        }
    } else {
        assert(rows.drop_last() =~= a + b.drop_last());
        assert(rows.last() == b.last());
        law_rows_add_up(a, b.drop_last(), column);
        if templates_in(a, column) is Ok && templates_in(b.drop_last(), column) is Ok
            && b.last() is Ok {
            let first = templates_in(a, column)->Ok_0;
            let middle = templates_in(b.drop_last(), column)->Ok_0;
            let cell = template_in(b.last()->Ok_0, column);
            assert((first + middle) + cell =~= first + (middle + cell));
        }
    }
}

/// Whether some row gives a template.
pub open spec fn any_filled(rows: Seq<Result<Seq<Seq<char>>, Seq<char>>>, column: int) -> bool {
    exists|k: int|
        0 <= k < rows.len() && (#[trigger] rows[k] matches Ok(row) && is_filled(row, column))
}

proof fn lemma_templates_in(rows: Seq<Result<Seq<Seq<char>>, Seq<char>>>, column: int)
    ensures
        templates_in(rows, column) is Ok <==> forall|k: int|
            0 <= k < rows.len() ==> #[trigger] rows[k] is Ok,
        templates_in(rows, column) matches Ok(templates) ==> (templates.len() > 0 <==> any_filled(
            rows,
            column,
        )),
        templates_in(rows, column) matches Err(cause) ==> exists|k: int|
            0 <= k < rows.len() && #[trigger] rows[k] == Err::<Seq<Seq<char>>, Seq<char>>(cause)
                && forall|j: int| 0 <= j < k ==> #[trigger] rows[j] is Ok,
    decreases rows.len(),
{
    if rows.len() > 0 {
        let n = rows.len() - 1;
        let before = rows.drop_last();
        lemma_templates_in(before, column);
        assert(rows[n] == rows.last());
        assert(forall|k: int| 0 <= k < n ==> #[trigger] before[k] == rows[k]);
        assert(forall|k: int| 0 <= k < n ==> #[trigger] rows[k] == before[k]);
        if let Ok(row) = rows.last() {
            lemma_template_in(row, column);
        }
        match templates_in(before, column) {
            Err(cause) => {
                let k = choose|k: int|
                    0 <= k < before.len() && #[trigger] before[k] == Err::<
                        Seq<Seq<char>>,
                        Seq<char>,
                    >(cause) && forall|j: int| 0 <= j < k ==> #[trigger] before[j] is Ok;
                assert(rows[k] == Err::<Seq<Seq<char>>, Seq<char>>(cause));
            },
            Ok(templates) => {
                if rows.last() is Ok {
                    assert forall|k: int| 0 <= k < rows.len() implies #[trigger] rows[k] is Ok by {
                        assert(k < n ==> before[k] is Ok);
                    }
                    if templates.len() > 0 {
                        let k = choose|k: int|
                            0 <= k < before.len() && (#[trigger] before[k] matches Ok(row)
                                && is_filled(row, column));
                        assert(rows[k] matches Ok(row) && is_filled(row, column));
                    }
                    if any_filled(rows, column) {
                        let k = choose|k: int|
                            0 <= k < rows.len() && (#[trigger] rows[k] matches Ok(row)
                                && is_filled(row, column));
                        if k < n {
                            assert(before[k] matches Ok(row) && is_filled(row, column));
                        }
                    }
                } else {
                    assert(forall|j: int| 0 <= j < n ==> #[trigger] rows[j] is Ok) by {
                        assert forall|j: int| 0 <= j < n implies #[trigger] rows[j] is Ok by {
                            assert(before[j] is Ok);
                        }
                    }
                }
            },
        }
    }
}

/// Whether a column is headed `EventTemplate`, white space aside.
pub open spec fn is_headed(header: Seq<Seq<char>>, column: int) -> bool {
    0 <= column < header.len() && trimmed(header[column]) == "EventTemplate"@
}

/// A CSV gives its templates if and only if its first row can be read and has a heading
/// `EventTemplate`, every other row can be read, and one of them has a filled cell in the first
/// column so headed. Otherwise it fails for the first of these reasons that holds, and says so of the
/// source that it was given.
pub proof fn law_when_a_csv_gives_templates(
    result: Result<Vec<String>, Error>,
    source: Seq<char>,
    header: Result<Seq<Seq<char>>, Seq<char>>,
    rows: Seq<Result<Seq<Seq<char>>, Seq<char>>>,
    column: int,
)
    requires
        is_reading(result, source, header, rows),
    ensures
        header matches Err(cause) ==> (result matches Err(
            Error::CannotReadHeader { source: at, cause: why },
        ) && at@ == source && why@ == cause),
        header matches Ok(names) && (forall|i: int| !#[trigger] is_headed(names, i)) ==> (
        result matches Err(Error::NoTemplateColumn { source: at, header: read }) && at@ == source
            && texts(read@) == header->Ok_0),
        header matches Ok(names) && is_headed(names, column) && (forall|i: int|
            0 <= i < column ==> !#[trigger] is_headed(names, i)) ==> {
            &&& result is Ok <==> (forall|k: int| 0 <= k < rows.len() ==> #[trigger] rows[k] is Ok)
                && any_filled(rows, column)
            &&& (forall|k: int| 0 <= k < rows.len() ==> #[trigger] rows[k] is Ok) && !any_filled(
                rows,
                column,
            ) ==> (result matches Err(Error::NoTemplates { source: at }) && at@ == source)
            &&& forall|k: int|
                0 <= k < rows.len() && (#[trigger] rows[k]) is Err && (forall|j: int|
                    0 <= j < k ==> #[trigger] rows[j] is Ok) ==> (result matches Err(
                    Error::CannotReadRow { source: at, cause: why },
                ) && at@ == source && why@ == rows[k]->Err_0)
            &&& result matches Ok(list) ==> templates_in(rows, column) == Ok::<
                Seq<Seq<char>>,
                Seq<char>,
            >(texts(list@))
        },
{
    if let Ok(names) = header {
        law_the_column_is_found_by_its_heading(names);
        if forall|i: int| !#[trigger] is_headed(names, i) {
            if let Some(found) = template_column(names, 0) {
                assert(is_headed(names, found));
            }
        }
        if is_headed(names, column) && (forall|i: int|
            0 <= i < column ==> !#[trigger] is_headed(names, i)) {
            assert(trimmed(names[column]) == "EventTemplate"@);
            let found = template_column(names, 0)->Some_0;
            assert(is_headed(names, found));
            assert(found == column);
            lemma_templates_in(rows, column);
            assert forall|k: int|
                0 <= k < rows.len() && (#[trigger] rows[k]) is Err && (forall|j: int|
                    0 <= j < k ==> #[trigger] rows[j] is Ok) implies (result matches Err(
                Error::CannotReadRow { source: at, cause: why },
            ) && at@ == source && why@ == rows[k]->Err_0) by {
                let cause = templates_in(rows, column)->Err_0;
                let m = choose|m: int|
                    0 <= m < rows.len() && #[trigger] rows[m] == Err::<
                        Seq<Seq<char>>,
                        Seq<char>,
                    >(cause) && forall|j: int| 0 <= j < m ==> #[trigger] rows[j] is Ok;
                assert(m == k);
            }
        }
    }
}

/// The templates that a CSV has are those that reading it gives, and it has some if and only if
/// reading it succeeds.
pub proof fn law_templates_are_what_reading_gives(
    result: Result<Vec<String>, Error>,
    source: Seq<char>,
    header: Result<Seq<Seq<char>>, Seq<char>>,
    rows: Seq<Result<Seq<Seq<char>>, Seq<char>>>,
)
    requires
        is_reading(result, source, header, rows),
    ensures
        templates_of(header, rows) == match result {
            Ok(list) => Some(texts(list@)),
            Err(_) => None,
        },
{
}

} // verus!
