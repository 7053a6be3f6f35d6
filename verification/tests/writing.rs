use loghub2recon::emit::{emit, header, literal_string};
use loghub2recon::error::Error;
use loghub2recon::source::Source;
use loghub2recon::validate::validate;

fn source() -> Source {
    Source::Local("t.csv".to_string())
}

fn body(set: &str, filters: &[(&str, &str)]) -> String {
    let filters: Vec<(String, String)> = filters
        .iter()
        .map(|(name, pattern)| (name.to_string(), pattern.to_string()))
        .collect();
    let text = emit(set, &filters, &source()).expect("emits");
    let above = header(set, filters.len(), &source());
    text.strip_prefix(above.as_str())
        .expect("the header is above the set")
        .to_string()
}

fn read_back(text: &str, set: &str) -> Vec<(String, String)> {
    let file: toml::Table = toml::from_str(text).expect("valid TOML");
    assert_eq!(file.len(), 1);
    let sets = file["sets"].as_table().expect("sets");
    assert_eq!(sets.len(), 1);
    let table = sets[set].as_table().expect("the set");
    assert_eq!(table.len(), 1);
    table["filters"]
        .as_array()
        .expect("filters")
        .iter()
        .map(|filter| {
            let filter = filter.as_table().expect("a table");
            assert_eq!(filter.len(), 2);
            (
                filter["name"].as_str().expect("a name").to_string(),
                filter["pattern"].as_str().expect("a pattern").to_string(),
            )
        })
        .collect()
}

fn name_line(name: &str) -> String {
    let text = body("s", &[(name, "p")]);
    let line = text.lines().nth(3).expect("a name").to_string();
    assert_eq!(
        text,
        format!("[sets.s]\n\n[[sets.s.filters]]\n{line}\npattern = 'p'\n")
    );
    line.strip_prefix("name = ").expect("a name").to_string()
}

#[test]
fn the_whole_header() {
    let text = header("Mac", 12, &Source::Dataset("Mac"));
    let expected = "# recon filter set, converted from a loghub event-template CSV by\n\
        # `loghub2recon`. Source:\n\
        #   https://raw.githubusercontent.com/logpai/loghub/master/Mac/Mac_2k.log_templates.csv\n\
        # 12 filters.\n\
        #\n\
        # Append this to ~/.config/recon/filters.toml. recon never writes that file\n\
        # for you.\n\
        #\n\
        # The set starts disabled, and every filter in it starts off. Enable the\n\
        # `Mac` row in recon's filter pane, then turn on the few filters that\n\
        # describe what you are looking for. To change that, add by hand:\n\
        #\n\
        #   [sets.Mac]\n\
        #   autoload = true            # start the set enabled\n\
        #   priority = 10              # lower is nearer the top; the default is 50\n\
        #   [sets.Mac.profiles]\n\
        #   default = [\"<a filter's name>\", ...]   # applied when the set is enabled\n\
        #\n\
        # loghub's data is licensed for research and academic use, and asks for a\n\
        # citation of https://github.com/logpai/loghub.\n\
        #\n\
        #   Jieming Zhu, Shilin He, Pinjia He, Jinyang Liu, Michael R. Lyu. Loghub: A\n\
        #   Large Collection of System Log Datasets for AI-driven Log Analytics. IEEE\n\
        #   International Symposium on Software Reliability Engineering (ISSRE), 2023.\n\
        \n";
    assert_eq!(text, expected);
}

#[test]
fn the_header_is_nothing_but_comments() {
    let text = header("odd [name] é\t'\"", usize::MAX, &source());
    assert!(text.lines().all(|line| line.is_empty() || line.starts_with('#')));
    let file: toml::Table = toml::from_str(&text).expect("valid TOML");
    assert!(file.is_empty());
}

#[test]
fn the_layout_of_a_set() {
    let text = body(
        "OpenSSH",
        &[("Failed <*>", r"Failed\s+"), ("don't", "don't"), ("c", "")],
    );
    assert_eq!(
        text,
        "[sets.OpenSSH]\n\
         \n[[sets.OpenSSH.filters]]\nname = \"Failed <*>\"\npattern = 'Failed\\s+'\n\
         \n[[sets.OpenSSH.filters]]\nname = \"don't\"\npattern = \"don't\"\n\
         \n[[sets.OpenSSH.filters]]\nname = \"c\"\npattern = ''\n"
    );
}

#[test]
fn a_set_without_filters_is_a_bare_header() {
    assert_eq!(body("Mac", &[]), "[sets.Mac]\n");
}

#[test]
fn a_name_is_quoted_with_as_few_escapes_as_can_be() {
    assert_eq!(name_line("plain é 'text'"), "\"plain é 'text'\"");
    assert_eq!(name_line("a\ttab"), "\"a\\ttab\"");
    assert_eq!(name_line(""), "\"\"");
    assert_eq!(name_line(r"back\slash"), r"'back\slash'");
    assert_eq!(name_line("a \"quote\"\t"), "'a \"quote\"\t'");
    assert_eq!(name_line("it's a \"quote\"\t"), "\"\"\"it's a \"quote\"\\t\"\"\"");
    assert_eq!(name_line("'\"\"'"), "\"\"\"'\"\"'\"\"\"");
    assert_eq!(name_line(r"it's back\slash"), r"'''it's back\slash'''");
    assert_eq!(name_line("it's \"\"\""), "'''it's \"\"\"'''");
    assert_eq!(name_line(r"''' \ \\"), r#""''' \\ \\\\""#);
    assert_eq!(name_line("'''\"\"\"\t"), "\"'''\\\"\\\"\\\"\\t\"");
}

#[test]
fn a_set_is_named_by_a_bare_key_where_it_can_be() {
    let key = |set: &str| {
        let text = body(set, &[("n", "p")]);
        let key = text.lines().next().expect("a header");
        let key = key.strip_prefix("[sets.").expect("a header");
        let key = key.strip_suffix("]").expect("a header").to_string();
        let expected = format!(
            "[sets.{key}]\n\n[[sets.{key}.filters]]\nname = \"n\"\npattern = 'p'\n"
        );
        assert_eq!(text, expected);
        key
    };
    assert_eq!(key("Mac-2_k9"), "Mac-2_k9");
    assert_eq!(key(""), "\"\"");
    assert_eq!(key("a.b"), "\"a.b\"");
    assert_eq!(key("tab\tl"), "\"tab\\tl\"");
    assert_eq!(key("é"), "\"é\"");
    assert_eq!(key("it's"), "\"it's\"");
    assert_eq!(key("a\"b"), "'a\"b'");
    assert_eq!(key(r"a\b"), r"'a\b'");
    assert_eq!(key("it's \"a\\b\""), "\"it's \\\"a\\\\b\\\"\"");
}

#[test]
fn a_pattern_is_written_as_it_is() {
    let item = literal_string(r#"a\s+"b"\t	é"#).expect("quotes");
    assert_eq!(item.to_string().trim_start(), "'a\\s+\"b\"\\t\té'");
    let item = literal_string("it's").expect("quotes");
    assert_eq!(item.to_string().trim_start(), "\"it's\"");
    let item = literal_string("two\nlines").expect("quotes");
    assert_eq!(item.as_str(), Some("two\nlines"));
    let item = literal_string("a\r").expect("quotes");
    assert_eq!(item.as_str(), Some("a\r"));
}

#[test]
fn a_control_character_is_written_in_another_quoting() {
    for pattern in ["\u{1b}x", "\u{0}", "\u{7f}", "a\u{1}'b", "\\s+\u{8}"] {
        let item = literal_string(pattern).expect("can be written");
        assert_eq!(item.as_str(), Some(pattern));
    }
    let item = literal_string("\u{1b}x\\s+").expect("can be written");
    assert_eq!(item.to_string().trim_start(), "\"\\u001Bx\\\\s+\"");
    let filters = [
        ("a".to_string(), "fine\\s+".to_string()),
        ("b".to_string(), "first\u{1}".to_string()),
        ("c".to_string(), "second\u{2}\\s+".to_string()),
    ];
    let text = emit("s", &filters, &source()).expect("emits");
    assert_eq!(read_back(&text, "s"), filters);
    assert!(text.contains("pattern = 'fine\\s+'\n"));
    assert!(validate(&text, "s").is_ok());
}

#[test]
fn whatever_is_written_is_read_back() {
    let odd = [
        "", "a", "'", "''", "'''", "''''", "\"", "\"\"\"", "\\", "\\\\", "a\\", "\n", "\n\n",
        "\r", "\r\n", "\t", "\u{1b}", "\u{7f}", "\u{0}a", "\u{1b}'", "\u{7f}'", "\u{0}'\n", "'\n\"\"\"\"", "'''\n\\", "#", "é",
        "\u{feff}", "\u{85}", "\u{2028}", "\u{10ffff}", "a'b\"c\\d\ne", "ends'", "ends''", "\n'a''",
        "''\n''", "\"\"\n\"\"", "\"\"'\"\"\"\"\n'''", "\\u0041'", "\u{8}'\u{c}",
    ];
    let mut filters: Vec<(String, String)> = Vec::new();
    for name in odd {
        for pattern in odd {
            filters.push((name.to_string(), pattern.to_string()));
        }
    }
    for set in odd {
        let text = emit(set, &filters, &Source::Local(String::new()));
        if set.contains(|c: char| c != '\t' && c.is_ascii_control()) {
            continue;
        }
        assert_eq!(read_back(&text.expect("emits"), set), filters, "{set:?}");
    }
}

#[test]
fn every_character_is_read_back() {
    let mut filters: Vec<(String, String)> = Vec::new();
    let all: Vec<char> = (0..=0x10ffff_u32).filter_map(char::from_u32).collect();
    for some in all.chunks(997) {
        let text: String = some.iter().collect();
        filters.push((text.clone(), text));
    }
    for c in &all[..0x100] {
        filters.push((c.to_string(), c.to_string()));
    }
    let text = emit("all", &filters, &source()).expect("emits");
    assert_eq!(read_back(&text, "all"), filters);
}

#[test]
fn a_line_break_in_the_origin_is_noticed() {
    let filters = [("n".to_string(), "p".to_string())];
    let path = Source::Local("a\nb = 1".to_string());
    let text = emit("s", &filters, &path).expect("emits");
    let err = validate(&text, "s").expect_err("no comment");
    assert!(matches!(err, Error::Bug { .. }), "{err:?}");
}

#[test]
fn a_line_break_that_goes_on_with_a_comment_does_no_harm() {
    let filters = [("n".to_string(), "p".to_string())];
    let path = Source::Local("a\n#b\n".to_string());
    let text = emit("s", &filters, &path).expect("emits");
    assert_eq!(read_back(&text, "s"), filters);
    assert!(validate(&text, "s").is_ok());
}
