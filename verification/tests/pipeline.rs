use loghub2recon::convert::{convert, Outcome};
use loghub2recon::error::Error;
use loghub2recon::matching::finds;
use loghub2recon::rows::{read_templates, templates_from_rows};
use loghub2recon::run::{
    is_stdout, make, may_write, report, set_name, target_for, NAVIGATOR_CEILING,
};
use loghub2recon::schema::{check_filter, check_shape, Fault};
use loghub2recon::source::{
    curl_arguments, dataset_list, dataset_named, decode, fetched, looks_like_a_path,
    set_name_for_file, template_url, Place, Source,
};
use loghub2recon::template::SMALL;
use loghub2recon::tree::{read_tree, Entry, Node, Value};
use loghub2recon::validate::{check_filters, say_fault, set_filters, validate};
use std::collections::BTreeMap;

fn pair(a: &str, b: &str) -> (String, String) {
    (a.to_string(), b.to_string())
}

fn row(cells: &[&str]) -> Vec<String> {
    cells.iter().map(|cell| cell.to_string()).collect()
}

fn bug(text: &str) -> Error {
    Error::Bug {
        message: text.to_string(),
    }
}

#[test]
fn the_log_types() {
    let names = dataset_list();
    assert_eq!(names.len(), 16);
    assert_eq!(names[0], "Android");
    assert_eq!(names[15], "Zookeeper");
    for name in &names {
        assert_eq!(dataset_named(&name.to_uppercase()), Some(name.as_str()));
        assert_eq!(dataset_named(&name.to_lowercase()), Some(name.as_str()));
    }
    assert_eq!(dataset_named("Macs"), None);
    assert_eq!(dataset_named(""), None);
    assert_eq!(dataset_named("\u{212a}"), None);
}

#[test]
fn where_a_log_type_is_fetched_from() {
    let url = "https://raw.githubusercontent.com/logpai/loghub/master/HDFS/HDFS_2k.log_templates.csv";
    assert_eq!(template_url("HDFS"), url);
    assert!(matches!(Source::Dataset("HDFS").place(), Place::Address(at) if at == url));
    assert_eq!(Source::Dataset("HDFS").describe(), url);
    let path = Source::Local("a/b.csv".to_string());
    assert!(matches!(path.place(), Place::File(at) if at == "a/b.csv"));
    assert_eq!(path.describe(), "a/b.csv");
    assert_eq!(
        curl_arguments("u"),
        ["--fail", "--silent", "--show-error", "--location", "u"]
    );
}

#[test]
fn a_file_comes_before_a_log_type() {
    let source = Source::resolve("Mac", true).expect("a file");
    assert!(matches!(source, Source::Local(path) if path == "Mac"));
    let source = Source::resolve("mAC", false).expect("a log type");
    assert!(matches!(source, Source::Dataset("Mac")));
}

#[test]
fn what_looks_like_a_path() {
    assert!(looks_like_a_path("a/b"));
    assert!(looks_like_a_path("a\\b"));
    assert!(looks_like_a_path("a.CsV"));
    assert!(looks_like_a_path(".csv"));
    assert!(!looks_like_a_path("csv"));
    assert!(!looks_like_a_path("a.csv2"));
    assert!(!looks_like_a_path(""));
}

#[test]
fn set_names_of_files() {
    assert_eq!(set_name_for_file("a_2k_2k.csv"), "a");
    assert_eq!(set_name_for_file("_2k"), "");
    assert_eq!(set_name_for_file("a.b.c"), "a.b");
    assert_eq!(set_name_for_file(".hidden"), "");
    let name = |path: &str| Source::Local(path.to_string()).default_set_name();
    assert_eq!(name("x/y_2k/z.csv"), "z");
    assert_eq!(name("x/y.csv/"), "y");
    assert_eq!(name("x/a:b:.csv"), "a:b:");
    assert_eq!(name("1:/x:"), "x:");
    assert_eq!(name("::"), "::");
    assert_eq!(name("x/y.csv/."), "y");
    assert_eq!(name(".."), "");
    assert_eq!(name("/"), "");
    assert_eq!(name(""), "");
    assert_eq!(set_name(Some("given".to_string()), &Source::Dataset("Mac")), "given");
    assert_eq!(set_name(None, &Source::Dataset("Mac")), "Mac");
}

#[test]
fn bytes_that_are_no_text_are_replaced() {
    assert_eq!(decode("é,b".as_bytes()), "é,b");
    assert_eq!(decode(b"a\xffb"), "a\u{fffd}b");
}

#[test]
fn what_is_left_of_a_fetch() {
    assert_eq!(fetched("u", true, b"x".to_vec(), b"noise").expect("bytes"), b"x");
    let err = fetched("u", false, b"x".to_vec(), b" not found\xff\n").expect_err("failed");
    assert_eq!(err.message(), "could not fetch u: not found\u{fffd}");
}

#[test]
fn rows_are_read_one_by_one() {
    let header = Ok(row(&["Id", " EventTemplate ", "EventTemplate"]));
    let rows = vec![
        Ok(row(&["1", "a"])),
        Ok(row(&["2"])),
        Ok(row(&["3", " \t"])),
        Ok(row(&["4", " b ", "c"])),
    ];
    let templates = templates_from_rows(&header, &rows, "t").expect("templates");
    assert_eq!(templates, ["a", " b "]);

    let rows = vec![Ok(row(&["1", "a"])), Err("one".to_string()), Err("two".to_string())];
    let err = templates_from_rows(&header, &rows, "t").expect_err("a bad row");
    assert_eq!(err.message(), "t: one");

    let rows = vec![Ok(row(&["1", " "]))];
    let err = templates_from_rows(&header, &rows, "t").expect_err("nothing");
    assert_eq!(err.message(), "t: the `EventTemplate` column is empty");

    let err = templates_from_rows(&Err("why".to_string()), &rows, "t").expect_err("no header");
    assert_eq!(err.message(), "t: could not read the header row: why");

    let header = Ok(row(&["a", "b\"c"]));
    let err = templates_from_rows(&header, &rows, "t").expect_err("no column");
    assert_eq!(
        err.message(),
        "t: no `EventTemplate` column; the header row is [\"a\", \"b\\\"c\"]"
    );
}

#[test]
fn a_csv_is_read_in_its_own_order() {
    let csv = "EventTemplate\r\nb\r\na,more\r\n\r\n\"c,\nd\"\r\n";
    assert_eq!(read_templates(csv, "t").expect("templates"), ["b", "a", "c,\nd"]);
    let err = read_templates("", "t").expect_err("nothing");
    assert_eq!(
        err.message(),
        "t: no `EventTemplate` column; the header row is []"
    );
    let err = read_templates("EventTemplate\n", "t").expect_err("nothing");
    assert!(matches!(err, Error::NoTemplates { source } if source == "t"));
}

fn node(at: usize, value: Value) -> Node {
    Node {
        start: at,
        end: at + 1,
        value,
    }
}

fn text_node(at: usize, text: &str) -> Node {
    node(at, Value::Text(text.to_string()))
}

fn keyed(at: usize, entries: Vec<(&str, Node)>) -> Node {
    let entries = entries
        .into_iter()
        .map(|(key, node)| Entry {
            start: node.start + 100,
            end: node.end + 100,
            key: key.to_string(),
            node,
        })
        .collect();
    node(at, Value::Keyed(entries))
}

fn fault(fault: Fault) -> (usize, usize, String) {
    (fault.start, fault.end, fault.message)
}

fn said(at: usize, message: &str) -> (usize, usize, String) {
    (at, at + 1, message.to_string())
}

#[test]
fn the_shape_of_a_filter() {
    let check = |node: Node| check_filter(&node).map_err(fault);
    let entries = || vec![("name", text_node(1, "n")), ("pattern", text_node(2, "p"))];
    assert_eq!(check(keyed(0, entries())), Ok(pair("n", "p")));
    let mut more = vec![("colour", text_node(7, "x"))];
    more.extend(entries());
    assert_eq!(
        check(keyed(0, more)),
        Err(said(107, "unknown field `colour`, expected `name` or `pattern`"))
    );
    assert_eq!(
        check(keyed(5, vec![("pattern", text_node(2, "p"))])),
        Err(said(5, "missing field `name`"))
    );
    assert_eq!(
        check(keyed(5, vec![("name", text_node(2, "n"))])),
        Err(said(5, "missing field `pattern`"))
    );
    assert_eq!(
        check(keyed(5, vec![("name", node(3, Value::Listed(vec![])))])),
        Err(said(3, "invalid type: sequence, expected a string"))
    );
    let list = |items| node(9, Value::Listed(items));
    let items = vec![text_node(1, "n"), text_node(2, "p"), text_node(3, "q")];
    assert_eq!(check(list(items)), Ok(pair("n", "p")));
    assert_eq!(
        check(list(vec![])),
        Err(said(9, "invalid length 0, expected struct FilterSchema with 2 elements"))
    );
    assert_eq!(
        check(list(vec![text_node(1, "n")])),
        Err(said(9, "invalid length 1, expected struct FilterSchema with 2 elements"))
    );
    assert_eq!(
        check(list(vec![text_node(1, "n"), keyed(4, vec![])])),
        Err(said(4, "invalid type: map, expected a string"))
    );
    assert_eq!(
        check(text_node(2, "a\"b")),
        Err(said(2, "invalid type: string \"a\\\"b\", expected struct FilterSchema"))
    );
    assert_eq!(
        check(node(2, Value::Date("1979-05-27".to_string()))),
        Err(said(
            2,
            "unknown field `$__toml_private_datetime`, expected `name` or `pattern`"
        ))
    );
    let other = |text: &str| node(2, Value::Other(text.to_string()));
    assert_eq!(
        check(other("invalid type: integer `1`, expected unit")),
        Err(said(2, "invalid type: integer `1`, expected struct FilterSchema"))
    );
    assert_eq!(
        check(other("integer number overflowed")),
        Err(said(2, "integer number overflowed"))
    );
}

#[test]
fn the_shape_of_a_file() {
    let check = |node: Node| check_shape(&node).map_err(fault);
    let filters = || {
        let filter = keyed(9, vec![("name", text_node(1, "n")), ("pattern", text_node(2, "p"))]);
        node(8, Value::Listed(vec![filter]))
    };
    let file = |set: Node| keyed(0, vec![("sets", keyed(1, vec![("s", set)]))]);
    let sets = || Ok(vec![("s".to_string(), vec![pair("n", "p")])]);
    assert_eq!(check(file(keyed(2, vec![("filters", filters())]))), sets());
    assert_eq!(check(file(node(2, Value::Listed(vec![filters()])))), sets());
    assert_eq!(check(keyed(0, vec![])), Err(said(0, "missing field `sets`")));
    assert_eq!(
        check(keyed(0, vec![("more", text_node(3, ""))])),
        Err(said(103, "unknown field `more`, expected `sets`"))
    );
    assert_eq!(check(file(keyed(2, vec![]))), Err(said(2, "missing field `filters`")));
    assert_eq!(
        check(file(keyed(2, vec![("autoload", text_node(4, ""))]))),
        Err(said(104, "unknown field `autoload`, expected `filters`"))
    );
    assert_eq!(
        check(file(node(2, Value::Listed(vec![])))),
        Err(said(2, "invalid length 0, expected struct SetSchema with 1 element"))
    );
    assert_eq!(
        check(file(text_node(2, "x"))),
        Err(said(2, "invalid type: string \"x\", expected struct SetSchema"))
    );
    assert_eq!(
        check(file(keyed(2, vec![("filters", text_node(4, "x"))]))),
        Err(said(4, "invalid type: string \"x\", expected a sequence"))
    );
    assert_eq!(
        check(keyed(0, vec![("sets", node(6, Value::Date("07:32:00".to_string())))])),
        Err(said(6, "invalid type: string \"07:32:00\", expected struct SetSchema"))
    );
    assert_eq!(
        check(keyed(0, vec![("sets", node(6, Value::Listed(vec![])))])),
        Err(said(6, "invalid type: sequence, expected a map"))
    );
}

#[test]
fn a_tree_is_read_with_its_places() {
    let text = "a = ['x', 7]\nb = 1979-05-27\n";
    let root = read_tree(text).expect("TOML");
    let Value::Keyed(entries) = &root.value else {
        panic!("a table");
    };
    assert_eq!(entries.len(), 2);
    assert_eq!(entries[0].key, "a");
    assert_eq!((entries[0].start, entries[0].end), (0, 1));
    let Value::Listed(items) = &entries[0].node.value else {
        panic!("an array");
    };
    assert_eq!(&text[items[0].start..items[0].end], "'x'");
    assert!(matches!(&items[0].value, Value::Text(text) if text == "x"));
    let Value::Other(said) = &items[1].value else {
        panic!("a number");
    };
    assert_eq!(said, "invalid type: integer `7`, expected unit");
    assert_eq!(entries[1].key, "b");
    assert!(matches!(&entries[1].node.value, Value::Date(date) if date == "1979-05-27"));
    let cause = read_tree("a = ").expect_err("no TOML");
    let expected = toml::from_str::<toml::Table>("a = ").expect_err("no TOML");
    assert_eq!(cause, expected.to_string());
}

#[test]
fn arrays_may_stand_for_tables() {
    for text in [
        "[sets.a]\nfilters = [['n', 'p']]\n",
        "[sets]\na = [[['n', 'p']]]\n",
        "[sets]\na = [[{ name = 'n', pattern = 'p' }, ['m', 'q', 1]], 'more']\n",
        "sets.a.filters = [{ pattern = 'p', name = 'n' }]\n",
    ] {
        assert!(validate(text, "a").is_ok(), "{text}");
    }
    let message = validate("[sets.a]\nfilters = [['n', '(']]\n", "a")
        .expect_err("refused")
        .message();
    assert!(message.contains("filter \"n\" has a pattern recon cannot compile"), "{message}");
}

/// `Range` is read as a filter is, but for its name, those of its two texts, and how it says that an
/// array is too short.
type Sets = BTreeMap<String, BTreeMap<String, BTreeMap<String, Vec<std::ops::Range<String>>>>>;

#[test]
fn what_is_said_of_a_wrong_shape() {
    let texts = [
        "[[sets.a.filters]]\nname  = 'x'\npattern = 'y'\ncolor = 'red'\n",
        "[[sets.a.filters]]\nname  = 'x'\n",
        "# é\n\n[[sets.a.filters]]\npattern = 'x'\n[[sets.a.filters]]\n",
        "[[sets.a.filters]]\nname  = 1\n",
        "[[sets.a.filters]]\nname  = 'x'\npattern = 1.5\n",
        "[[sets.a.filters]]\nname  = 'x'\npattern = [\n1]\n",
        "[[sets.a.filters]]\nname  = 1979-05-27\n",
        "[sets.a]\nfilters = 'é \\'\n",
        "[sets.a]\nfilters = [['x']]\n",
        "[sets.a]\nfilters = [[]]\n",
        "[sets.a]\nfilters = [[true, 'x']]\n",
        "[sets.a]\nfilters = [1979-05-27]\n",
        "[sets.a]\nfilters = [7]\n",
        "[sets.a]\nfilters = [18446744073709551615]\n",
        "[sets.a]\nfilters = [99999999999999999999999999999999999999999]\n",
        "[sets.a]\nfilters = ['x']\n",
        "[sets.a]\nfilters = {}\n",
        "sets = 1\n",
        "sets = []\n",
        "sets = ''",
        "[sets.a",
        "[sets.a]\n[sets.a]\n",
    ];
    for text in texts {
        let given = text.replace("name  =", "start =").replace("pattern =", "end     =");
        let expected = toml::from_str::<Sets>(&given)
            .expect_err("refused")
            .to_string()
            .replace("start =", "name  =")
            .replace("end     =", "pattern =")
            .replace("`start`", "`name`")
            .replace("`end`", "`pattern`")
            .replace("struct Range", "struct FilterSchema");
        let expected = if expected.contains("invalid length") {
            expected.replace("struct FilterSchema", "struct FilterSchema with 2 elements")
        } else {
            expected
        };
        let message = validate(text, "a").expect_err("refused").message();
        assert_eq!(message, bug(&expected).message(), "{text}");
    }
}

#[test]
fn where_a_fault_stands() {
    let text = "[[sets.a.filters]]\nname = 'x'\npattern = 'y'\ncolor = 'red'\n";
    assert_eq!(
        validate(text, "a").expect_err("refused").message(),
        bug("TOML parse error at line 4, column 1\n  |\n4 | color = 'red'\n  | ^^^^^\n\
             unknown field `color`, expected `name` or `pattern`\n")
        .message()
    );
    assert_eq!(
        validate("[sets.a]\nx = 1\n", "a").expect_err("refused").message(),
        bug("TOML parse error at line 2, column 1\n  |\n2 | x = 1\n  | ^\n\
             unknown field `x`, expected `filters`\n")
        .message()
    );
    assert_eq!(
        validate("", "a").expect_err("refused").message(),
        bug("TOML parse error at line 1, column 1\n  |\n1 | \n  | ^\nmissing field `sets`\n")
            .message()
    );
    let fault = |start, end| Fault {
        start,
        end,
        message: "m".to_string(),
    };
    assert_eq!(
        say_fault("ab\ncd", &fault(3, 5)),
        "TOML parse error at line 2, column 1\n  |\n2 | cd\n  | ^^\nm\n"
    );
    assert_eq!(say_fault("ab", &fault(1, 3)), "m\n");
    assert_eq!(say_fault("ab", &fault(1, 0)), "m\n");
}

#[test]
fn a_set_is_looked_up_in_a_file() {
    let filter = || keyed(9, vec![("name", text_node(1, "n")), ("pattern", text_node(2, "p"))]);
    let set = |filters| keyed(0, vec![("filters", node(0, Value::Listed(filters)))]);
    let sets = vec![("", set(vec![])), ("a", set(vec![])), ("b", set(vec![filter()]))];
    let tree = Ok(keyed(0, vec![("sets", keyed(0, sets))]));
    assert_eq!(set_filters("", &tree, "b").expect("filters"), [pair("n", "p")]);
    let message = |set: &str| set_filters("", &tree, set).expect_err("refused").message();
    assert_eq!(message("a"), bug("[sets.a] has no filters").message());
    assert_eq!(message("c"), bug("no [sets.c] table").message());
    assert_eq!(message(""), bug("the set's name is empty").message());
    let err = set_filters("", &Err("no TOML".to_string()), "a").expect_err("refused");
    assert_eq!(err.message(), bug("no TOML").message());
}

#[test]
fn filters_are_checked_in_order() {
    let filters = vec![pair("a", "1"), pair("b", "2"), pair("a", "3")];
    let none = vec![None, None, None];
    let err = check_filters(&filters, &none).expect_err("two of a name");
    assert_eq!(err.message(), bug("two filters named \"a\"").message());
    let some = vec![None, Some("why".to_string()), None];
    let err = check_filters(&filters, &some).expect_err("a bad pattern");
    assert_eq!(
        err.message(),
        bug("filter \"b\" has a pattern recon cannot compile: why").message()
    );
    let last = vec![None, None, Some("why".to_string())];
    let err = check_filters(&filters, &last).expect_err("a bad pattern");
    assert!(err.message().ends_with("cannot compile: why"));
    assert!(check_filters(&filters[..2].to_vec(), &none[..2].to_vec()).is_ok());
}

#[test]
fn a_file_is_validated_for_one_set() {
    let text = "[[sets.a.filters]]\nname = 'x'\npattern = 'p'\n\
                [[sets.b.filters]]\nname = 'x'\npattern = '('\n";
    assert!(validate(text, "a").is_ok());
    assert!(validate(text, "b").is_err());
    let message = validate("sets = 1\n", "a").expect_err("refused").message();
    assert!(message.contains("invalid type: integer `1`"), "{message}");
    let message = validate("", "a").expect_err("refused").message();
    assert!(message.ends_with("missing field `sets`\n"), "{message}");
}

#[test]
fn a_csv_becomes_a_file() {
    let source = Source::Dataset("Mac");
    let csv = "EventId,EventTemplate\nE1,a <*>\nE2,<*>\nE3,a  <NUM>\nE4,it's\n";
    let made = make(csv, "Mac".to_string(), &source).expect("a file");
    assert_eq!(made.set, "Mac");
    assert_eq!(made.outcome.empty, 1);
    assert_eq!(made.outcome.duplicate, 1);
    assert!(made.text.starts_with("# recon filter set"));
    assert!(made.text.contains("# 2 filters.\n"));
    assert!(made.text.ends_with(
        "\n\n[sets.Mac]\n\n[[sets.Mac.filters]]\nname = \"a <*>\"\npattern = 'a\\s+'\n\
         \n[[sets.Mac.filters]]\nname = \"it's\"\npattern = \"it's\"\n"
    ));
    assert!(validate(&made.text, "Mac").is_ok());
}

#[test]
fn what_stands_in_the_way_of_a_file() {
    let source = Source::Local("t.csv".to_string());
    let message = |csv: &str, set: &str| {
        make(csv, set.to_string(), &source)
            .expect_err("refused")
            .message()
    };
    assert_eq!(
        message("", ""),
        "the set's name is empty; give one with --set-name"
    );
    assert_eq!(
        message("", "definitions"),
        "\"definitions\" is one of recon's built-in set names, which may not carry filters; \
         give another with --set-name"
    );
    assert_eq!(
        message("", "s"),
        "t.csv: no `EventTemplate` column; the header row is []"
    );
    assert_eq!(
        message("EventTemplate\n<*>\n", "s"),
        "t.csv: no template produced a usable pattern"
    );
    assert!(message("EventTemplate\na\n", "s\n").contains("this is a bug"));
}

#[test]
fn a_control_character_in_a_template_does_no_harm() {
    let source = Source::Local("t.csv".to_string());
    let csv = "EventTemplate\n\u{1b}[0m <*> done\u{7f}\n";
    let made = make(csv, "s".to_string(), &source).expect("a file");
    assert_eq!(
        made.outcome.filters,
        [pair("\u{1b}[0m <*> done\u{7f}", "\u{1b}\\[0m\\s+.*?\\s+done\u{7f}")]
    );
    assert!(validate(&made.text, "s").is_ok());
}

#[test]
fn the_pattern_of_a_short_template_is_not_too_large() {
    let source = Source::Local("t.csv".to_string());
    for part in ["a ", "<*>", "a<*> ", "\u{10ffff}", "\u{10ffff} ", "\u{800}<*>"] {
        let mut template = "x".to_string();
        while template.chars().count() + part.chars().count() <= SMALL {
            template.push_str(part);
        }
        let csv = format!("EventTemplate\n{template}\n");
        let made = make(&csv, "s".to_string(), &source).expect("a file");
        assert_eq!(made.outcome.filters.len(), 1);
    }
    for piece in [r"\s+", ".*?", "\u{10ffff}", r"\*"] {
        let pattern = piece.repeat(SMALL);
        assert_eq!(finds(&pattern, "").is_ok(), true, "{piece}");
    }
}

#[test]
fn a_pattern_may_be_too_large() {
    let mut csv = "EventTemplate\n".to_string();
    for _ in 0..40_000 {
        csv.push_str("a ");
    }
    csv.push('b');
    let source = Source::Local("t.csv".to_string());
    let err = make(&csv, "s".to_string(), &source).expect_err("too large");
    assert!(err.message().ends_with(
        "has a pattern recon cannot compile: Compiled regex exceeds size limit of 10485760 bytes."
    ));
}

#[test]
fn where_a_set_is_written() {
    assert_eq!(target_for(None, "Mac"), "Mac-filters.toml");
    assert_eq!(target_for(Some("-".to_string()), "Mac"), "-");
    assert!(is_stdout("-"));
    assert!(!is_stdout("--"));
    assert!(!is_stdout(""));
    assert!(may_write("p", false, false).is_ok());
    assert!(may_write("p", true, true).is_ok());
    assert!(may_write("p", false, true).is_ok());
    let err = may_write("p", true, false).expect_err("already there");
    assert_eq!(err.message(), "p is already there; pass --force to overwrite");
}

#[test]
fn the_report() {
    let outcome = convert(&["a".to_string()]);
    assert_eq!(report(&outcome, "s", "-"), ["[sets.s]: 1 filters"]);
    let filters = (0..NAVIGATOR_CEILING)
        .map(|i| (i.to_string(), i.to_string()))
        .collect();
    let mut outcome = Outcome {
        filters,
        empty: 2,
        duplicate: 3,
    };
    assert_eq!(
        report(&outcome, "s", "t.toml"),
        [
            "[sets.s]: 64 filters",
            "  2 template(s) skipped: nothing but wildcards, so the pattern would match every line",
            "  3 template(s) skipped: another template gave the same pattern",
            "  append t.toml to ~/.config/recon/filters.toml to use it",
        ]
    );
    outcome.filters.push(pair("n", "p"));
    outcome.empty = 0;
    outcome.duplicate = 0;
    assert_eq!(
        report(&outcome, "s", "-"),
        [
            "[sets.s]: 65 filters",
            "  note: recon's navigator stops matching above 64 known patterns across all sets. \
             This set alone is over it, so keep it disabled unless you are using it.",
        ]
    );
}

#[test]
fn what_the_user_is_told() {
    let text = |text: &str| text.to_string();
    let cases = [
        (Error::NothingGiven, "no CSV or log type given"),
        (Error::NoSuchFile { argument: text("a/b") }, "no such file: a/b"),
        (
            Error::CannotRead { path: text("p"), cause: text("c") },
            "could not read p: c",
        ),
        (
            Error::CannotRunCurl { cause: text("c"), url: text("u") },
            "could not run `curl`: c. Download the CSV yourself and pass its path instead: u",
        ),
        (
            Error::CannotFetch { url: text("u"), stderr: text(" e\n") },
            "could not fetch u: e",
        ),
        (Error::NothingQuoted, "the snippet defines `pattern`"),
        (
            Error::CannotWrite { path: text("p"), cause: text("c") },
            "could not write p: c",
        ),
        (
            Error::Bug { message: text("m") },
            "loghub2recon produced a file recon will not load; this is a bug: m",
        ),
        (
            Error::UnknownLogType { argument: text("a\"") },
            "\"a\\\"\" is neither a file nor a loghub log type. The log types are: Android, Apache, \
             BGL, HDFS, HPC, Hadoop, HealthApp, Linux, Mac, OpenSSH, OpenStack, Proxifier, Spark, \
             Thunderbird, Windows, Zookeeper",
        ),
    ];
    for (error, expected) in cases {
        assert_eq!(error.message(), expected);
    }
}
