use loghub2recon::convert::convert;
use loghub2recon::matching::finds;
use loghub2recon::name::name_for;
use loghub2recon::template::{literal_to_pattern, pattern_for, split_template, Part};
use loghub2recon::text::{decimal_text, trim, white_space};

fn strings(list: &[&str]) -> Vec<String> {
    list.iter().map(|text| text.to_string()).collect()
}

fn finds_line(template: &str, line: &str) -> bool {
    let pattern = pattern_for(template).expect("a pattern");
    let found = finds(&pattern, line).expect("compiles");
    assert_eq!(found, regex::Regex::new(&pattern).expect("compiles").is_match(line));
    found
}

#[test]
fn white_space_is_what_the_standard_library_says() {
    for c in (0..=0x10ffff_u32).filter_map(char::from_u32) {
        assert_eq!(white_space(c), c.is_whitespace(), "{c:?}");
    }
}

#[test]
fn white_space_is_what_the_engine_says() {
    let space = regex::Regex::new(r"^\s$").expect("compiles");
    for c in (0..=0x10ffff_u32).filter_map(char::from_u32) {
        assert_eq!(white_space(c), space.is_match(&c.to_string()), "{c:?}");
    }
}

#[test]
fn trimming_takes_white_space_from_both_ends() {
    assert_eq!(trim(" \t a b\u{3000}\n"), "a b");
    assert_eq!(trim(" \n "), "");
    assert_eq!(trim("a"), "a");
}

#[test]
fn numbers_in_digits() {
    assert_eq!(decimal_text(0), "0");
    assert_eq!(decimal_text(10), "10");
    assert_eq!(decimal_text(341), "341");
    assert_eq!(decimal_text(usize::MAX), usize::MAX.to_string());
}

#[test]
fn a_template_falls_into_literals_and_wildcards() {
    assert_eq!(split_template(""), []);
    assert_eq!(split_template("a b"), [Part::Literal("a b")]);
    assert_eq!(split_template("<*>"), [Part::Wildcard]);
    assert_eq!(
        split_template("a<NUM><*>é<*"),
        [
            Part::Literal("a"),
            Part::Wildcard,
            Part::Wildcard,
            Part::Literal("é<*")
        ]
    );
    assert_eq!(
        split_template("<N<*>UM>"),
        [Part::Literal("<N"), Part::Wildcard, Part::Literal("UM>")]
    );
    assert_eq!(split_template("<<*>>"), [Part::Literal("<"), Part::Wildcard, Part::Literal(">")]);
}

#[test]
fn the_parts_of_a_template_spell_it() {
    for template in ["", "<*>", "a <*> b<*>", "<<*><*> <", "<ok> <*>é"] {
        let spelled: String = split_template(template)
            .iter()
            .map(|part| match part {
                Part::Literal(text) => text,
                Part::Wildcard => "<*>",
            })
            .collect();
        assert_eq!(spelled, template);
    }
}

#[test]
fn a_literal_is_escaped_and_its_spacing_made_flexible() {
    assert_eq!(literal_to_pattern(""), "");
    assert_eq!(literal_to_pattern(" "), r"\s+");
    assert_eq!(literal_to_pattern("a \t\nb\u{a0}"), r"a\s+b\s+");
    assert_eq!(
        literal_to_pattern(r"\.+*?()|[]{}^$#&-~"),
        r"\\\.\+\*\?\(\)\|\[\]\{\}\^\$\#\&\-\~"
    );
    assert_eq!(literal_to_pattern("a/b,é:<>'\"_=@!%`;"), "a/b,é:<>'\"_=@!%`;");
}

#[test]
fn every_character_stands_for_itself() {
    for c in (0..=0x10ffff_u32).filter_map(char::from_u32) {
        let pattern = literal_to_pattern(&c.to_string());
        let expected = if c.is_whitespace() {
            r"\s+".to_string()
        } else {
            regex::escape(&c.to_string())
        };
        assert_eq!(pattern, expected);
    }
}

#[test]
fn a_literal_finds_itself() {
    let some: Vec<char> = (0..0x3000_u32)
        .chain((0x3000..=0x10ffff_u32).step_by(997))
        .filter_map(char::from_u32)
        .filter(|c| !c.is_whitespace())
        .collect();
    for some in some.chunks(500) {
        let text: String = some.iter().collect();
        let regex = regex::Regex::new(&literal_to_pattern(&text)).expect("compiles");
        assert!(regex.is_match(&text));
    }
}

#[test]
fn a_pattern_of_each_shape() {
    let pattern = |template: &str| pattern_for(template);
    assert_eq!(pattern("a"), Some("a".to_string()));
    assert_eq!(pattern("<*>a<*>"), Some("a".to_string()));
    assert_eq!(pattern("<*><*>a<NUM><*>"), Some(".*?a.*?".to_string()));
    assert_eq!(pattern("a <*> <*>"), Some(r"a\s+.*?\s+".to_string()));
    assert_eq!(pattern("<N<*>UM>"), Some("<N.*?UM>".to_string()));
    assert_eq!(pattern(""), None);
    assert_eq!(pattern("\n<*>\u{2003}<NUM>"), None);
}

#[test]
fn a_pattern_without_literal_text_is_refused_even_with_spaces() {
    assert_eq!(pattern_for(" <*> "), None);
    assert_eq!(pattern_for("<NUM>"), None);
}

#[test]
fn a_pattern_finds_the_message_in_the_line() {
    assert!(finds_line("<*> pid = <*>", "host: the pid = 7"));
    assert!(!finds_line("<*> pid = <*>", "host: rpid = 7"));
    assert!(finds_line("a<*>b", "head a something b tail"));
    assert!(finds_line("a<*>b", "ab"));
    assert!(!finds_line("a<*>b", "b a"));
    assert!(!finds_line("a<*>b", "a\nb"));
    assert!(!finds_line("a b", "ab"));
    assert!(finds_line("^a$", "x^a$y"));
}

#[test]
fn a_template_finds_itself_wherever_it_stands() {
    for template in ["a <*> b", "<*>x<NUM>", "^(a|b)$ <*>", "é\t\n<*>.", "<NUM> \u{1b}[0m"] {
        assert!(finds_line(template, template), "{template:?}");
        assert!(finds_line(template, &format!("head {template} tail")), "{template:?}");
        assert!(finds_line(template, &format!("\n{template}\n")), "{template:?}");
        assert!(!finds_line(template, ""), "{template:?}");
    }
}

#[test]
fn what_is_found_of_other_patterns() {
    assert_eq!(finds("a{2}", "baa"), Ok(true));
    assert_eq!(finds("a{2}", "ba"), Ok(false));
    assert!(finds("(", "(").is_err());
}

#[test]
fn names_differ_where_words_do() {
    assert_eq!(name_for(" a\tb "), name_for("a \n b"));
    assert_ne!(name_for("ab"), name_for("a b"));
    let words: Vec<&str> = "a\u{3000}b  <*> c".split_whitespace().collect();
    assert_eq!(name_for("a\u{3000}b  <*> c"), words.join(" "));
}

#[test]
fn the_spelling_of_a_wildcard_is_forgotten() {
    assert_eq!(pattern_for("a <NUM>:<*> b"), pattern_for("a <*>:<NUM> b"));
}

#[test]
fn the_spacing_of_a_template_is_forgotten() {
    assert_eq!(pattern_for("a b <*>"), pattern_for("a\n\t b\u{3000}<*>"));
    assert_ne!(pattern_for("a b"), pattern_for("ab"));
}

#[test]
fn a_pattern_holds_no_white_space() {
    let pattern = pattern_for("a b\tc\nd <*>").expect("a pattern");
    assert_eq!(pattern, r"a\s+b\s+c\s+d\s+");
}

#[test]
fn a_name_named_again_is_the_same() {
    let name = name_for("  a \n\n b\t<*> ");
    assert_eq!(name, "a b <*>");
    assert_eq!(name_for(&name), name);
    assert_eq!(name_for(" \n"), "");
}

#[test]
fn every_template_is_accounted_for() {
    let templates = strings(&["a <*>", "<*>", "a  <NUM>", "b", " ", "b", "<*> <*>", " b"]);
    let outcome = convert(&templates);
    assert_eq!(outcome.empty, 3);
    assert_eq!(outcome.duplicate, 2);
    assert_eq!(outcome.filters.len(), 3);
    assert_eq!(
        outcome.filters,
        [
            ("a <*>".to_string(), r"a\s+".to_string()),
            ("b".to_string(), "b".to_string()),
            ("b #2".to_string(), r"\s+b".to_string()),
        ]
    );
}

#[test]
fn a_suffix_counts_until_it_is_free() {
    let templates = strings(&["x", " x", "x #2", "x ", " x "]);
    let names: Vec<String> = convert(&templates)
        .filters
        .into_iter()
        .map(|(name, _)| name)
        .collect();
    assert_eq!(names, ["x", "x #2", "x #2 #2", "x #3", "x #4"]);
}

#[test]
fn more_templates_leave_the_filters_before_them_alone() {
    let templates = strings(&["a", "b", "a", "c", " a"]);
    let all = convert(&templates).filters;
    for n in 0..=templates.len() {
        let some = convert(&templates[..n]).filters;
        assert_eq!(some[..], all[..some.len()]);
    }
    assert!(convert(&[]).filters.is_empty());
}

#[test]
fn names_and_patterns_are_distinct() {
    let templates = strings(&["a", " a", "a ", " a ", "a\n", "<*>a", "b", "a #2"]);
    let filters = convert(&templates).filters;
    for (i, one) in filters.iter().enumerate() {
        for other in &filters[..i] {
            assert_ne!(one.0, other.0);
            assert_ne!(one.1, other.1);
        }
    }
}
