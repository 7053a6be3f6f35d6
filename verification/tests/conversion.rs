use loghub2recon::convert::convert;
use loghub2recon::name::name_for;
use loghub2recon::template::pattern_for;

/// Templates of real logs, each with a raw line that its pattern has to find.
#[test]
fn the_specs_worked_examples_convert_and_match() {
    let cases = [
        (
            "Thermal pressure state: <*> Memory pressure state: <*>",
            "Jul  1 09:01:05 host com.apple.CDScheduler[43]: Thermal pressure state: 1 \
             Memory pressure state: 0",
        ),
        (
            "PacketResponder <*> for block <*> terminating",
            "081109 203615 148 INFO dfs.DataNode$PacketResponder: PacketResponder 1 for \
             block blk_38865049064139660 terminating",
        ),
        (
            "check pass; user unknown",
            "Jun 14 15:16:02 combo sshd(pam_unix)[19937]: check pass; user unknown",
        ),
        (
            "mod_jk child workerEnv in error state <*>",
            "[Sun Dec 04 04:47:44 2005] [error] mod_jk child workerEnv in error state 6",
        ),
        (
            "acquire lock=<*>, flags=<*>, tag=\"<*>\", name=<*>, ws=<*>, uid=<*>, pid=<*>",
            "03-17 16:13:38.819  1702  8671 D PowerManagerService: acquire lock=233570404, \
             flags=0x1, tag=\"View Lock\", name=com.android.systemui, ws=null, uid=10037, \
             pid=2227",
        ),
        (
            "<*>(<*>)::listenerCallback - Thunderbolt HPD packet for route = <*> port = \
             <*> unplug = <*>",
            "Jul  1 09:00:55 host kernel[0]: IOThunderboltSwitch<0>(0x0)::listenerCallback \
             - Thunderbolt HPD packet for route = 0x0 port = 11 unplug = 0",
        ),
    ];
    for (template, line) in cases {
        let pattern = pattern_for(template).expect("a usable pattern");
        let regex = regex::Regex::new(&pattern).expect("compiles");
        assert!(regex.is_match(line), "{template:?} -> {pattern:?}");
    }
}

/// A pattern finds the message wherever it stands in the line.
#[test]
fn patterns_are_not_anchored() {
    let pattern = pattern_for("check pass; user unknown").expect("usable");
    assert_eq!(pattern, "check\\s+pass;\\s+user\\s+unknown");
}

/// Whatever is no wildcard stands for itself, `*` too.
#[test]
fn literal_metacharacters_are_escaped() {
    let cases = [
        (
            "BLOCK* ask <*> to delete <*>",
            "BLOCK* ask 10.251.73.220:50010 to delete blk_-7778709377942981985",
        ),
        (
            "******* GOODBYE <*>:<*> ********",
            "******* GOODBYE /10.10.34.11:57854 ********",
        ),
        ("*** info [mice.c(<*>)]:", "*** info [mice.c(174)]:"),
        (
            "(DiskStore.Normal:<*>) <*>",
            "(DiskStore.Normal:2) something",
        ),
        ("$QuotingInputFilter <*>", "$QuotingInputFilter 3"),
    ];
    for (template, line) in cases {
        let pattern = pattern_for(template).expect("usable");
        let regex = regex::Regex::new(&pattern).expect("compiles");
        assert!(regex.is_match(line), "{template:?} -> {pattern:?}");
    }
}

/// Only the exact tokens are wildcards; other angle brackets stay.
#[test]
fn literal_angle_brackets_survive() {
    for template in [
        "<ok>",
        "<ABORT code completed>",
        "<<<< Boss >>>>",
        "< FigByteStream >",
    ] {
        let pattern = pattern_for(template).expect("usable");
        let regex = regex::Regex::new(&pattern).expect("compiles");
        assert!(regex.is_match(template), "{template:?} -> {pattern:?}");
    }
}

/// `<NUM>` is another spelling of the wildcard.
#[test]
fn num_is_a_wildcard_too() {
    let template = "CCFile::captureLog Received Capture notice id: <*>, reason = \
                    RoamFail:sts:<NUM>_rsn:<NUM>";
    let pattern = pattern_for(template).expect("usable");
    let regex = regex::Regex::new(&pattern).expect("compiles");
    assert!(regex.is_match(
        "CCFile::captureLog Received Capture notice id: 4, reason = RoamFail:sts:8_rsn:2"
    ));
}

/// White space in a template stands for white space of any kind and length.
#[test]
fn whitespace_is_flexible() {
    let template = "authentication failure; logname= uid=<*> euid=<*> tty=<*> ruser= \
                    rhost=<*> user=<*>";
    let pattern = pattern_for(template).expect("usable");
    let regex = regex::Regex::new(&pattern).expect("compiles");
    assert!(
        regex.is_match(
            "authentication failure; logname= uid=0 euid=0 tty=NODEVssh ruser= \
             rhost=220-135-151-1.hinet-ip.hinet.net  user=root"
        ),
        "two spaces before user=root: {pattern:?}"
    );

    let newline = "Arranged view frame: {{<*>, <*>}\n{<*>, <*>}}";
    let pattern = pattern_for(newline).expect("usable");
    assert!(!pattern.contains('\n'), "no raw newline: {pattern:?}");
    let regex = regex::Regex::new(&pattern).expect("compiles");
    assert!(regex.is_match("Arranged view frame: {{0, 0} {1024, 768}}"));
}

/// A wildcard at an end is dropped; the white space beside it is not.
#[test]
fn edge_wildcards_are_stripped_but_their_spacing_is_kept() {
    assert_eq!(pattern_for("<*> pid = <*>"), Some(r"\s+pid\s+=\s+".into()));
    assert_eq!(
        pattern_for("<*>-_continuousScroll is deprecated"),
        Some(r"\-_continuousScroll\s+is\s+deprecated".into())
    );
    let pattern = pattern_for("<*> a <*> b <*>").expect("usable");
    assert_eq!(pattern, r"\s+a\s+.*?\s+b\s+");
}

/// A template without literal text gives no pattern.
#[test]
fn an_all_wildcard_template_is_refused() {
    for template in ["<*>", "<*> <*>", "<*><*>", "<NUM> <*>", "   "] {
        assert_eq!(pattern_for(template), None, "{template:?}");
    }
}

/// A name is the template with each run of white space made one space.
#[test]
fn names_are_the_template_on_one_line() {
    assert_eq!(name_for("a  b\nc"), "a b c");
    assert_eq!(
        name_for("Thermal pressure state: <*>"),
        "Thermal pressure state: <*>"
    );
}

/// Templates that give the same pattern give one filter.
#[test]
fn templates_that_render_alike_become_one_filter() {
    let outcome = convert(&[
        "size <*>".to_string(),
        "size  <*>".to_string(),  // \s+ eats the difference
        "size <NUM>".to_string(), // the other spelling of the wildcard
        "<*>".to_string(),        // no literal text at all
        "free <*>".to_string(),
    ]);
    assert_eq!(outcome.duplicate, 2);
    assert_eq!(outcome.empty, 1);
    let names: Vec<&str> = outcome
        .filters
        .iter()
        .map(|(name, _)| name.as_str())
        .collect();
    assert_eq!(names, ["size <*>", "free <*>"], "the first row wins");
}

/// Two patterns whose names would be the same get different names.
#[test]
fn a_name_collision_takes_a_suffix() {
    let outcome = convert(&[" size <*>".to_string(), "size <*>".to_string()]);
    assert_eq!(outcome.duplicate, 0, "\\s+size\\s+ is not size\\s+");
    let names: Vec<&str> = outcome
        .filters
        .iter()
        .map(|(name, _)| name.as_str())
        .collect();
    assert_eq!(names, ["size <*>", "size <*> #2"]);
}
