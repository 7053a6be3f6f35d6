//! The file of a set.
use crate::convert::filter_views;
use crate::document::{
    all_printable, document_text, filter_table, filter_tables, fits_quotes, has_key,
    is_comment_block, is_control, is_printable, is_quotable, pattern_line, pattern_text,
    set_document, TomlItem,
};
use crate::error::Error;
use crate::outside::{
    document_view, item_view, parse_pattern_line, table_item, table_view, tables_item,
    tables_view, text_item, toml_tree, write_document, written_document,
};
use crate::schema::is_read_as;
use crate::source::Source;
use crate::template::{law_patterns_hold_no_white_space, pattern_of};
use crate::text::{chars_of, decimal, decimal_text, texts};
use toml_edit::{ArrayOfTables, DocumentMut, Item, Table};
use vstd::prelude::*;

verus! {

/// The lines of the comment above a set: where it came from, what to do with it, which edits are
/// left to the reader, and whose work it rests on.
pub open spec fn header_lines(set: Seq<char>, count: nat, origin: Seq<char>) -> Seq<Seq<char>> {
    seq![
        "# recon filter set, converted from a loghub event-template CSV by"@,
        "# `loghub2recon`. Source:"@,
        "#   "@ + origin,
        "# "@ + decimal(count) + " filters."@,
        "#"@,
        "# Append this to ~/.config/recon/filters.toml. recon never writes that file"@,
        "# for you."@,
        "#"@,
        "# The set starts disabled, and every filter in it starts off. Enable the"@,
        "# `"@ + set + "` row in recon's filter pane, then turn on the few filters that"@,
        "# describe what you are looking for. To change that, add by hand:"@,
        "#"@,
        "#   [sets."@ + set + "]"@,
        "#   autoload = true            # start the set enabled"@,
        "#   priority = 10              # lower is nearer the top; the default is 50"@,
        "#   [sets."@ + set + ".profiles]"@,
        "#   default = [\"<a filter's name>\", ...]   # applied when the set is enabled"@,
        "#"@,
        "# loghub's data is licensed for research and academic use, and asks for a"@,
        "# citation of https://github.com/logpai/loghub."@,
        "#"@,
        "#   Jieming Zhu, Shilin He, Pinjia He, Jinyang Liu, Michael R. Lyu. Loghub: A"@,
        "#   Large Collection of System Log Datasets for AI-driven Log Analytics. IEEE"@,
        "#   International Symposium on Software Reliability Engineering (ISSRE), 2023."@,
        ""@,
    ]
}

/// Some lines, each of them ended.
pub open spec fn ended(lines: Seq<Seq<char>>) -> Seq<char>
    decreases lines.len(),
{
    if lines.len() == 0 {
        seq![]
    } else {
        ended(lines.drop_last()) + lines.last() + seq!['\n']
    }
}

/// The comment above a set.
pub open spec fn header_text(set: Seq<char>, count: nat, origin: Seq<char>) -> Seq<char> {
    ended(header_lines(set, count, origin))
}

/// Some lines, each of them ended.
fn end_lines(lines: &Vec<String>) -> (text: String)
    ensures
        text@ == ended(texts(lines@)),
{
    let ghost all = texts(lines@);
    let mut text = "".to_owned();
    proof {
        reveal_strlit("");
    }
    let mut i: usize = 0;
    while i < lines.len()
        invariant
            all == texts(lines@),
            i <= lines@.len(),
            text@ =~= ended(all.take(i as int)),
        decreases lines.len() - i,
    {
        assert(all.take(i + 1).drop_last() =~= all.take(i as int));
        text.append(lines[i].as_str());
        text.push('\n');
        i = i + 1;
    }
    assert(all.take(i as int) =~= all);
    text
}

/// The comment above a set.
pub fn header(set: &str, count: usize, source: &Source) -> (text: String)
    ensures
        text@ == header_text(set@, count as nat, source.origin()),
{
    let origin = source.describe();
    let mut lines: Vec<String> = Vec::new();
    lines.push("# recon filter set, converted from a loghub event-template CSV by".to_owned());
    lines.push("# `loghub2recon`. Source:".to_owned());
    lines.push("#   ".to_owned().concat(origin.as_str()));
    lines.push("# ".to_owned().concat(decimal_text(count).as_str()).concat(" filters."));
    lines.push("#".to_owned());
    lines.push("# Append this to ~/.config/recon/filters.toml. recon never writes that file".to_owned());
    lines.push("# for you.".to_owned());
    lines.push("#".to_owned());
    lines.push("# The set starts disabled, and every filter in it starts off. Enable the".to_owned());
    lines.push("# `".to_owned().concat(set).concat("` row in recon's filter pane, then turn on the few filters that"));
    lines.push("# describe what you are looking for. To change that, add by hand:".to_owned());
    lines.push("#".to_owned());
    lines.push("#   [sets.".to_owned().concat(set).concat("]"));
    lines.push("#   autoload = true            # start the set enabled".to_owned());
    lines.push("#   priority = 10              # lower is nearer the top; the default is 50".to_owned());
    lines.push("#   [sets.".to_owned().concat(set).concat(".profiles]"));
    lines.push("#   default = [\"<a filter's name>\", ...]   # applied when the set is enabled".to_owned());
    lines.push("#".to_owned());
    lines.push("# loghub's data is licensed for research and academic use, and asks for a".to_owned());
    lines.push("# citation of https://github.com/logpai/loghub.".to_owned());
    lines.push("#".to_owned());
    lines.push("#   Jieming Zhu, Shilin He, Pinjia He, Jinyang Liu, Michael R. Lyu. Loghub: A".to_owned());
    lines.push("#   Large Collection of System Log Datasets for AI-driven Log Analytics. IEEE".to_owned());
    lines.push("#   International Symposium on Software Reliability Engineering (ISSRE), 2023.".to_owned());
    lines.push("".to_owned());
    assert(texts(lines@) =~= header_lines(set@, count as nat, source.origin()));
    end_lines(&lines)
}

/// Whether a line is empty or a comment.
pub open spec fn is_comment_line(line: Seq<char>) -> bool {
    is_printable(line) && (line.len() > 0 ==> line[0] == '#')
}

/// Lines that are empty or comments make a block of comments.
proof fn lemma_comment_lines(lines: Seq<Seq<char>>)
    requires
        forall|i: int| 0 <= i < lines.len() ==> is_comment_line(#[trigger] lines[i]),
    ensures
        is_comment_block(ended(lines)),
    decreases lines.len(),
{
    if lines.len() > 0 {
        let above = ended(lines.drop_last());
        let line = lines.last();
        let text = ended(lines);
        assert forall|i: int| 0 <= i < lines.drop_last().len() implies is_comment_line(
            #[trigger] lines.drop_last()[i],
        ) by {
            assert(lines.drop_last()[i] == lines[i]);
        }
        lemma_comment_lines(lines.drop_last());
        let n = above.len() as int;
        let m = line.len() as int;
        assert(is_comment_line(lines[lines.len() - 1]));
        assert(text.len() == n + m + 1);
        assert forall|i: int| 0 <= i < text.len() implies (#[trigger] text[i]) == '\n'
            || !is_control(text[i]) by {
            if i < n {
                assert(text[i] == above[i]);
            } else if i < n + m {
                assert(text[i] == line[i - n]);
            }
        }
        assert forall|i: int| 0 <= i < text.len() && (i == 0 || text[i - 1] == '\n') implies (
        #[trigger] text[i]) == '\n' || text[i] == '#' by {
            if i < n {
                assert(text[i] == above[i]);
                if i > 0 {
                    assert(text[i - 1] == above[i - 1]);
                }
            } else if i < n + m {
                assert(text[i] == line[i - n]);
                if i > n {
                    assert(text[i - 1] == line[i - 1 - n]);
                }
            }
        }
    }
}

proof fn lemma_decimal_is_printable(n: nat)
    ensures
        is_printable(decimal(n)),
    decreases n,
{
    if n >= 10 {
        lemma_decimal_is_printable(n / 10);
    }
}

/// A comment that goes on with a printable text is a comment.
proof fn lemma_comment_goes_on(start: Seq<char>, text: Seq<char>)
    requires
        is_comment_line(start),
        start.len() > 0,
        is_printable(text),
    ensures
        is_comment_line(start + text),
{
    let line = start + text;
    assert forall|i: int| 0 <= i < line.len() implies !is_control(#[trigger] line[i]) by {
        if i < start.len() {
            assert(line[i] == start[i]);
        } else {
            assert(line[i] == text[i - start.len()]);
        }
    }
}

proof fn lemma_header_lines_1()
    ensures
        is_comment_line("# recon filter set, converted from a loghub event-template CSV by"@),
        "# recon filter set, converted from a loghub event-template CSV by"@.len() > 0,
        is_comment_line("# `loghub2recon`. Source:"@),
        "# `loghub2recon`. Source:"@.len() > 0,
        is_comment_line("#   "@),
        "#   "@.len() > 0,
        is_comment_line("# "@),
        "# "@.len() > 0,
        is_comment_line("#"@),
        "#"@.len() > 0,
{
    reveal_strlit("# recon filter set, converted from a loghub event-template CSV by");
    reveal_strlit("# `loghub2recon`. Source:");
    reveal_strlit("#   ");
    reveal_strlit("# ");
    reveal_strlit("#");
}

proof fn lemma_header_lines_2()
    ensures
        is_comment_line("# Append this to ~/.config/recon/filters.toml. recon never writes that file"@),
        "# Append this to ~/.config/recon/filters.toml. recon never writes that file"@.len() > 0,
        is_comment_line("# for you."@),
        "# for you."@.len() > 0,
        is_comment_line("# The set starts disabled, and every filter in it starts off. Enable the"@),
        "# The set starts disabled, and every filter in it starts off. Enable the"@.len() > 0,
        is_comment_line("# `"@),
        "# `"@.len() > 0,
        is_comment_line("# describe what you are looking for. To change that, add by hand:"@),
        "# describe what you are looking for. To change that, add by hand:"@.len() > 0,
{
    reveal_strlit("# Append this to ~/.config/recon/filters.toml. recon never writes that file");
    reveal_strlit("# for you.");
    reveal_strlit("# The set starts disabled, and every filter in it starts off. Enable the");
    reveal_strlit("# `");
    reveal_strlit("# describe what you are looking for. To change that, add by hand:");
}

proof fn lemma_header_lines_3()
    ensures
        is_comment_line("#   [sets."@),
        "#   [sets."@.len() > 0,
        is_comment_line("#   autoload = true            # start the set enabled"@),
        "#   autoload = true            # start the set enabled"@.len() > 0,
        is_comment_line("#   priority = 10              # lower is nearer the top; the default is 50"@),
        "#   priority = 10              # lower is nearer the top; the default is 50"@.len() > 0,
        is_comment_line("#   default = [\"<a filter's name>\", ...]   # applied when the set is enabled"@),
        "#   default = [\"<a filter's name>\", ...]   # applied when the set is enabled"@.len() > 0,
        is_comment_line("# loghub's data is licensed for research and academic use, and asks for a"@),
        "# loghub's data is licensed for research and academic use, and asks for a"@.len() > 0,
{
    reveal_strlit("#   [sets.");
    reveal_strlit("#   autoload = true            # start the set enabled");
    reveal_strlit("#   priority = 10              # lower is nearer the top; the default is 50");
    reveal_strlit("#   default = [\"<a filter's name>\", ...]   # applied when the set is enabled");
    reveal_strlit("# loghub's data is licensed for research and academic use, and asks for a");
}

proof fn lemma_header_lines_4()
    ensures
        is_comment_line("# citation of https://github.com/logpai/loghub."@),
        "# citation of https://github.com/logpai/loghub."@.len() > 0,
        is_comment_line("#   Jieming Zhu, Shilin He, Pinjia He, Jinyang Liu, Michael R. Lyu. Loghub: A"@),
        "#   Jieming Zhu, Shilin He, Pinjia He, Jinyang Liu, Michael R. Lyu. Loghub: A"@.len() > 0,
        is_comment_line("#   Large Collection of System Log Datasets for AI-driven Log Analytics. IEEE"@),
        "#   Large Collection of System Log Datasets for AI-driven Log Analytics. IEEE"@.len() > 0,
        is_comment_line("#   International Symposium on Software Reliability Engineering (ISSRE), 2023."@),
        "#   International Symposium on Software Reliability Engineering (ISSRE), 2023."@.len() > 0,
{
    reveal_strlit("# citation of https://github.com/logpai/loghub.");
    reveal_strlit("#   Jieming Zhu, Shilin He, Pinjia He, Jinyang Liu, Michael R. Lyu. Loghub: A");
    reveal_strlit("#   Large Collection of System Log Datasets for AI-driven Log Analytics. IEEE");
    reveal_strlit("#   International Symposium on Software Reliability Engineering (ISSRE), 2023.");
}

proof fn lemma_header_ends()
    ensures
        ""@.len() == 0,
        is_printable(" filters."@),
        is_printable("` row in recon's filter pane, then turn on the few filters that"@),
        is_printable("]"@),
        is_printable(".profiles]"@),
{
    reveal_strlit("");
    reveal_strlit(" filters.");
    reveal_strlit("` row in recon's filter pane, then turn on the few filters that");
    reveal_strlit("]");
    reveal_strlit(".profiles]");
}

/// The comment above a set is nothing but comments, whatever the set is called and wherever it came
/// from, as long as neither holds a control character.
pub proof fn law_header_is_a_comment(set: Seq<char>, count: nat, origin: Seq<char>)
    requires
        is_printable(set),
        is_printable(origin),
    ensures
        is_comment_block(header_text(set, count, origin)),
{
    lemma_header_lines_1();
    lemma_header_lines_2();
    lemma_header_lines_3();
    lemma_header_lines_4();
    lemma_header_ends();
    lemma_decimal_is_printable(count);
    let lines = header_lines(set, count, origin);
    lemma_comment_goes_on("#   "@, origin);
    lemma_comment_goes_on("# "@, decimal(count));
    lemma_comment_goes_on("# "@ + decimal(count), " filters."@);
    lemma_comment_goes_on("# `"@, set);
    lemma_comment_goes_on(
        "# `"@ + set,
        "` row in recon's filter pane, then turn on the few filters that"@,
    );
    lemma_comment_goes_on("#   [sets."@, set);
    lemma_comment_goes_on("#   [sets."@ + set, "]"@);
    lemma_comment_goes_on("#   [sets."@ + set, ".profiles]"@);
    lemma_comment_lines(lines);
}

/// Whether `part` stands somewhere in `text`.
pub open spec fn holds(text: Seq<char>, part: Seq<char>) -> bool {
    exists|i: int|
        0 <= i <= text.len() - part.len() && #[trigger] text.subrange(i, i + part.len()) == part
}

proof fn lemma_ended_holds(lines: Seq<Seq<char>>, k: int, start: Seq<char>, part: Seq<char>)
    requires
        0 <= k < lines.len(),
        start.is_prefix_of(lines[k]),
        part.is_prefix_of(lines[k].skip(start.len() as int)),
    ensures
        holds(ended(lines), part),
    decreases lines.len(),
{
    let above = ended(lines.drop_last());
    let text = ended(lines);
    if k == lines.len() - 1 {
        let i = (above.len() + start.len()) as int;
        assert(text.subrange(i, i + part.len()) =~= part) by {
            assert forall|j: int| 0 <= j < part.len() implies text[i + j] == #[trigger] part[j] by {
                assert(lines[k].skip(start.len() as int)[j] == lines[k][start.len() + j]);
            }
        }
    } else {
        assert(lines.drop_last()[k] == lines[k]);
        lemma_ended_holds(lines.drop_last(), k, start, part);
        let i = choose|i: int|
            0 <= i <= above.len() - part.len() && #[trigger] above.subrange(i, i + part.len())
                == part;
        assert(text.subrange(i, i + part.len()) =~= above.subrange(i, i + part.len()));
    }
}

/// The comment above a set says where the set came from, however long ago that was.
pub proof fn law_header_says_where_it_came_from(set: Seq<char>, count: nat, origin: Seq<char>)
    ensures
        holds(header_text(set, count, origin), origin),
{
    let lines = header_lines(set, count, origin);
    assert(lines[2].skip("#   "@.len() as int) =~= origin);
    lemma_ended_holds(lines, 2, "#   "@, origin);
}

/// The comment above a set names loghub's repository and cites its paper.
pub proof fn law_header_cites_loghub(set: Seq<char>, count: nat, origin: Seq<char>)
    ensures
        holds(header_text(set, count, origin), "https://github.com/logpai/loghub"@),
        header_lines(set, count, origin).contains(
            "#   Jieming Zhu, Shilin He, Pinjia He, Jinyang Liu, Michael R. Lyu. Loghub: A"@,
        ),
        header_lines(set, count, origin).contains(
            "#   Large Collection of System Log Datasets for AI-driven Log Analytics. IEEE"@,
        ),
        header_lines(set, count, origin).contains(
            "#   International Symposium on Software Reliability Engineering (ISSRE), 2023."@,
        ),
{
    let lines = header_lines(set, count, origin);
    let line = "# citation of https://github.com/logpai/loghub."@;
    let start = "# citation of "@;
    let url = "https://github.com/logpai/loghub"@;
    reveal_strlit("# citation of https://github.com/logpai/loghub.");
    reveal_strlit("# citation of ");
    reveal_strlit("https://github.com/logpai/loghub");
    assert(lines[19] == line);
    assert(start =~= line.take(start.len() as int));
    assert(url =~= line.skip(start.len() as int).take(url.len() as int));
    lemma_ended_holds(lines, 19, start, url);
    assert(lines[21]
        == "#   Jieming Zhu, Shilin He, Pinjia He, Jinyang Liu, Michael R. Lyu. Loghub: A"@);
    assert(lines[22]
        == "#   Large Collection of System Log Datasets for AI-driven Log Analytics. IEEE"@);
    assert(lines[23]
        == "#   International Symposium on Software Reliability Engineering (ISSRE), 2023."@);
}

/// A template's pattern without a single quote is written as it is, with no escape in it, unless it
/// holds a control character.
pub proof fn law_patterns_are_written_as_they_are(template: Seq<char>, pattern: Seq<char>)
    requires
        pattern_of(template) == Some(pattern),
        is_printable(pattern),
        !pattern.contains('\''),
    ensures
        pattern_text(pattern) == seq!['\''] + pattern + seq!['\''],
{
    assert forall|i: int| 0 <= i < pattern.len() implies (#[trigger] pattern[i]) != '\n'
        && pattern[i] != '\r' by {
        law_patterns_hold_no_white_space(template, pattern, i);
    }
}

/// Whether a text can stand between single quotes as it is.
fn quotable(text: &str) -> (fit: bool)
    ensures
        fit == is_quotable(text@),
{
    let chars = chars_of(text);
    let mut i: usize = 0;
    while i < chars.len()
        invariant
            chars@ == text@,
            i <= chars@.len(),
            forall|j: int|
                0 <= j < i ==> (#[trigger] chars@[j]) != '\'' && chars@[j] != '\n' && chars@[j]
                    != '\r' && !is_control(chars@[j]),
        decreases chars.len() - i,
    {
        let c = chars[i];
        if c == '\'' || c == '\n' || c == '\r' || (c != '\t' && (c < ' ' || c == '\u{7f}')) {
            assert(text@[i as int] == c);
            return false;
        }
        i = i + 1;
    }
    true
}

/// A pattern as a TOML text: between single quotes and as it is where TOML has it so, else in
/// whatever quotes the writer chooses. There is no pattern that cannot be written.
///
/// The text between single quotes is made by reading one: `toml_edit` offers no way to choose the
/// quotes of a value, and keeps those of a value that it has read.
pub fn literal_string(pattern: &str) -> (item: Result<Item, Error>)
    ensures
        match item {
            Ok(item) => item_view(item) == (TomlItem::Text {
                value: pattern@,
                verbatim: fits_quotes(pattern@) && is_printable(pattern@),
            }),
            Err(_) => false,
        },
{
    if !quotable(pattern) {
        return Ok(text_item(pattern));
    }
    let line = "pattern = '".to_owned().concat(pattern).concat("'\n");
    assert(line@ == pattern_line(pattern@));
    let mut one = match parse_pattern_line(line.as_str()) {
        Ok(one) => one,
        Err(_) => return Err(Error::NothingQuoted),
    };
    let ghost before = document_view(one);
    let root = one.as_table_mut();
    match root.remove("pattern") {
        Some(item) => Ok(item),
        None => {
            assert(before.entries[0].0 == "pattern"@);
            Err(Error::NothingQuoted)
        },
    }
}

/// One filter as a table.
fn filter_to_table(name: &str, pattern: &str) -> (table: Result<Table, Error>)
    ensures
        match table {
            Ok(table) => table_view(table) == filter_table((name@, pattern@)),
            Err(_) => false,
        },
{
    let mut table = Table::new();
    table.insert("name", text_item(name));
    let item = match literal_string(pattern) {
        Ok(item) => item,
        Err(err) => return Err(err),
    };
    proof {
        reveal_strlit("name");
        reveal_strlit("pattern");
        assert("name"@.len() != "pattern"@.len());
        assert(table_view(table).entries =~= seq![
            ("name"@, TomlItem::Text { value: name@, verbatim: false }),
        ]);
        assert(!has_key(table_view(table), "pattern"@));
    }
    table.insert("pattern", item);
    Ok(table)
}

/// The set as the text of a file: a comment that says what it is, and below it the set with its
/// filters. Any filters can be written. A reader of TOML finds the set in it and nothing else, as
/// long as the comment is one.
pub fn emit(set: &str, filters: &[(String, String)], source: &Source) -> (text: Result<
    String,
    Error,
>)
    ensures
        match text {
            Ok(text) => {
                let written = filter_views(filters@);
                let above = header_text(set@, filters@.len(), source.origin());
                &&& text@ == above + written_document(set_document(set@, written))
                &&& all_printable(set@, written) ==> text@ == above + document_text(set@, written)
                &&& filters@.len() > 0 && is_comment_block(above) ==> is_read_as(
                    toml_tree(text@),
                    set@,
                    written,
                )
            },
            Err(_) => false,
        },
{
    let ghost all = filter_views(filters@);
    let mut array = ArrayOfTables::new();
    let mut i: usize = 0;
    assert(filter_tables(all.take(0)) =~= seq![]);
    while i < filters.len()
        invariant
            all == filter_views(filters@),
            i <= filters@.len(),
            tables_view(array) == filter_tables(all.take(i as int)),
        decreases filters.len() - i,
    {
        let table = match filter_to_table(filters[i].0.as_str(), filters[i].1.as_str()) {
            Ok(table) => table,
            Err(err) => return Err(err),
        };
        array.push(table);
        proof {
            assert(all[i as int] == (filters@[i as int].0@, filters@[i as int].1@));
            assert(tables_view(array) =~= filter_tables(all.take(i + 1)));
        }
        i = i + 1;
    }
    assert(all.take(i as int) =~= all);
    let mut table = Table::new();
    table.insert("filters", tables_item(array));
    let mut sets = Table::new();
    sets.set_implicit(true);
    sets.insert(set, table_item(table));
    let mut document = DocumentMut::new();
    let root = document.as_table_mut();
    root.insert("sets", table_item(sets));
    assert(document_view(document) == set_document(set@, all));
    let body = write_document(&document);
    let above = header(set, filters.len(), source);
    Ok(above.concat(body.as_str()))
}

/// Lines one after the other are ended one after the other, each by one end of line.
pub proof fn law_every_line_is_ended(a: Seq<Seq<char>>, line: Seq<char>)
    ensures
        ended(seq![]) == Seq::<char>::empty(),
        ended(a.push(line)) == ended(a) + line + "\n"@,
{
    reveal_strlit("\n");
    assert("\n"@ =~= seq!['\n']);
    assert(a.push(line).drop_last() =~= a);
}

/// The comment above a set says how many filters the set has, and what to do with it under the name
/// that it has: which file to append it to, which row to enable, and which tables to edit by hand.
pub proof fn law_header_says_what_to_do(set: Seq<char>, count: nat, origin: Seq<char>)
    ensures
        ({
            let lines = header_lines(set, count, origin);
            &&& header_text(set, count, origin) == ended(lines)
            &&& lines[0] == "# recon filter set, converted from a loghub event-template CSV by"@
            &&& lines[1] == "# `loghub2recon`. Source:"@
            &&& lines[2] == "#   "@ + origin
            &&& lines[3] == "# "@ + decimal(count) + " filters."@
            &&& lines[4] == "#"@
            &&& lines[5]
                == "# Append this to ~/.config/recon/filters.toml. recon never writes that file"@
            &&& lines[6] == "# for you."@
            &&& lines[7] == "#"@
            &&& lines[8]
                == "# The set starts disabled, and every filter in it starts off. Enable the"@
            &&& lines[9] == "# `"@ + set
                + "` row in recon's filter pane, then turn on the few filters that"@
            &&& lines[10] == "# describe what you are looking for. To change that, add by hand:"@
            &&& lines[11] == "#"@
            &&& lines[12] == "#   [sets."@ + set + "]"@
            &&& lines[13] == "#   autoload = true            # start the set enabled"@
            &&& lines[14]
                == "#   priority = 10              # lower is nearer the top; the default is 50"@
            &&& lines[15] == "#   [sets."@ + set + ".profiles]"@
            &&& lines[16]
                == "#   default = [\"<a filter's name>\", ...]   # applied when the set is enabled"@
            &&& lines[17] == "#"@
            &&& lines[18]
                == "# loghub's data is licensed for research and academic use, and asks for a"@
            &&& lines[19] == "# citation of https://github.com/logpai/loghub."@
            &&& lines[20] == "#"@
            &&& lines[21]
                == "#   Jieming Zhu, Shilin He, Pinjia He, Jinyang Liu, Michael R. Lyu. Loghub: A"@
            &&& lines[22]
                == "#   Large Collection of System Log Datasets for AI-driven Log Analytics. IEEE"@
            &&& lines[23]
                == "#   International Symposium on Software Reliability Engineering (ISSRE), 2023."@
            &&& lines.len() == 25
            &&& lines[24] == ""@
        }),
{
}

} // verus!
