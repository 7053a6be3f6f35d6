use loghub2recon::convert::convert;
use loghub2recon::emit::emit;
use loghub2recon::rows::read_templates;
use loghub2recon::run::BUILTIN_SETS;
use loghub2recon::source::Source;
use loghub2recon::validate::validate;

/// The filters of a file, as a TOML reader sees them.
fn read_back(text: &str, set: &str) -> Vec<(String, String)> {
    let file: toml::Table = toml::from_str(text).expect("valid TOML");
    let filters = file["sets"][set]["filters"].as_array().expect("filters");
    filters
        .iter()
        .map(|filter| {
            let filter = filter.as_table().expect("a table");
            assert_eq!(filter.len(), 2);
            (
                filter["name"].as_str().expect("a name").to_string(),
                filter["pattern"].as_str().expect("a pattern").to_string(),
            )
        })
        .collect()
}

/// The column is found by its heading, quoted cells may span lines, and more columns do no harm.
#[test]
fn the_csv_is_read_as_csv() {
    let csv = "EventId,EventTemplate,Occurrences\n\
               E1,size <*>,3\n\
               E2,\"Arranged view frame: {{<*>, <*>}\n{<*>, <*>}}\",1\n\
               E3,,0\n\
               E4,\"connection from \"\"#<*>#\"\"\",7\n";
    let templates = read_templates(csv, "t").expect("read");
    assert_eq!(templates.len(), 3, "the empty cell is not a template");
    assert!(templates[1].contains('\n'), "one row, not two");
    assert_eq!(templates[2], "connection from \"#<*>#\"");

    let message = read_templates("Id,Body\nE1,x\n", "t")
        .expect_err("no EventTemplate column")
        .message();
    assert!(message.contains("EventTemplate"), "{message}");
}

/// What is written is what recon loads.
#[test]
fn the_emitted_file_is_one_recon_loads() {
    let templates = [
        "Thermal pressure state: <*> Memory pressure state: <*>".to_string(),
        "check pass; user unknown".to_string(),
        "it's <*> quoted".to_string(),
        "BLOCK* ask <*> to delete <*>".to_string(),
    ];
    let outcome = convert(&templates);
    let text = emit("Mac", &outcome.filters, &Source::Dataset("Mac")).expect("emits");

    assert!(text.starts_with("# recon filter set"), "{text}");
    assert!(text.contains("raw.githubusercontent.com"), "{text}");
    assert!(text.contains("[sets.Mac]"), "{text}");
    assert!(!text.contains("\n[sets]\n"), "no bare [sets]: {text}");
    assert!(
        !text.contains("\nautoload") && !text.contains("\npriority"),
        "shown in the header comment, never set:\n{text}"
    );
    assert!(
        text.contains(r"pattern = 'BLOCK\*\s+ask\s+.*?\s+to\s+delete\s+'"),
        "a literal string, unescaped:\n{text}"
    );
    assert!(
        !text.contains(r"\\s+"),
        "no backslash tax anywhere in the file:\n{text}"
    );

    validate(&text, "Mac").expect("recon would load it");
    let mac = read_back(&text, "Mac");
    assert_eq!(mac.len(), 4);
    assert_eq!(mac[1].0, "check pass; user unknown");
    assert_eq!(
        mac[2].1, r"it's\s+.*?\s+quoted",
        "a pattern holding a quote survives the round trip"
    );
    assert!(
        !text.contains("\n[sets.Mac.profiles]"),
        "no profile the user did not ask for; the header comment shows \
         where one would go:\n{text}"
    );
}

/// Quotes, backslashes and tabs survive being written and read.
#[test]
fn awkward_patterns_still_round_trip() {
    let templates = [
        "won't <*>".to_string(),
        "ends with a quote <*>'".to_string(),
        "'quoted'".to_string(),
        r"back\slash <*>".to_string(),
        "tab\tseparated <*>".to_string(),
    ];
    let outcome = convert(&templates);
    assert_eq!(outcome.filters.len(), templates.len());
    let text = emit(
        "q",
        &outcome.filters,
        &Source::Local("t.csv".to_string()),
    )
    .expect("emits");
    validate(&text, "q").expect("recon would load it");
    assert_eq!(read_back(&text, "q"), outcome.filters);
}

/// Each rule, refused once, on files that are never written.
#[test]
fn validate_refuses_what_recon_would_refuse() {
    let refused = |text: &str, set: &str| {
        validate(text, set)
            .expect_err("recon would refuse this")
            .message()
    };

    assert!(refused("[sets.a", "a").contains("will not load"));
    let unknown = refused(
        "[[sets.a.filters]]\nname = 'x'\npattern = 'y'\ncolor = 'red'\n",
        "a",
    );
    assert!(unknown.contains("color"), "{unknown}");

    assert!(refused("[sets.a]\nfilters = []\n", "a").contains("no filters"));
    assert!(refused("[sets.a]\nfilters = []\n", "b").contains("no [sets.b] table"));

    let bad = refused("[[sets.a.filters]]\nname = 'opener'\npattern = '('\n", "a");
    assert!(bad.contains("cannot compile"), "{bad}");
    assert!(bad.contains("opener"), "names the filter: {bad}");

    let twice = refused(
        "[[sets.a.filters]]\nname = 'x'\npattern = 'p'\n\
         [[sets.a.filters]]\nname = 'x'\npattern = 'q'\n",
        "a",
    );
    assert!(twice.contains("two filters named \"x\""), "{twice}");
}

/// A file that recon refuses is no fault of the user's, and the message says so.
#[test]
fn a_validate_failure_calls_itself_a_bug() {
    let message = validate("[[sets.a.filters]]\nname = 'x'\npattern = '('\n", "a")
        .expect_err("refused")
        .message();
    assert!(message.contains("loghub2recon produced"), "{message}");
    assert!(message.contains("this is a bug"), "{message}");
}

/// Templates that are easily got wrong make a file that recon loads.
#[test]
fn every_awkward_template_passes_validation() {
    let templates: Vec<String> = [
        "############################## _getSysMsgList",
        "(DiskStore.Normal:<*>) <*> <*>",
        "BLOCK* ask <*> to delete <*>",
        "******* GOODBYE <*>:<*> ********",
        "*** info [mice.c(<*>)]:",
        "<<<< Boss >>>>",
        "< expand ICONS* >",
        "$QuotingInputFilter <*>",
        "a|b <*> c+d <*> e?f",
        r"path\to\<*>",
        "Arranged view frame: {{<*>, <*>}\n{<*>, <*>}}",
        "CCFile::captureLog id: <*>, RoamFail:sts:<NUM>_rsn:<NUM>",
    ]
    .iter()
    .map(|t| (*t).to_string())
    .collect();
    let outcome = convert(&templates);
    assert_eq!(outcome.filters.len(), templates.len(), "none dropped");
    let text = emit("awkward", &outcome.filters, &Source::Dataset("Mac")).expect("emits");
    validate(&text, "awkward").expect("recon would load it");
    assert_eq!(read_back(&text, "awkward"), outcome.filters);
}

/// Which names are recon's own.
#[test]
fn the_builtin_set_names_are_known() {
    assert!(BUILTIN_SETS.contains(&"definitions"));
    assert!(!BUILTIN_SETS.contains(&"Mac"));
}
