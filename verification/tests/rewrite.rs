use cfg_patch::{
    build_diff, rewrite_line, write_modified_file, Changes, Mapping, Modified, PathChanges,
};
use std::path::PathBuf;

fn mapping(pairs: &[(&str, &str)]) -> Mapping {
    let mut m = Mapping::new();
    for (key, value) in pairs {
        m.insert(key.to_string(), value.to_string());
    }
    m
}

fn changes(entries: &[(&str, &str, &str)]) -> Changes {
    let mut c = Changes::new();
    for (key, desired, previous) in entries {
        c.insert(key.to_string(), desired.to_string(), previous.to_string());
    }
    c
}

fn patch_of(pairs: &[(&str, &str)], text: &str) -> PathChanges {
    PathChanges { path: Some(PathBuf::from("engines.cfg")), changes: build_diff(&mapping(pairs), text) }
}

fn patched(pairs: &[(&str, &str)], text: &str) -> Modified {
    write_modified_file(&patch_of(pairs, text), text)
}

#[test]
fn annotated_rewrite_format() {
    let out = patched(&[("thrust", "100")], "thrust = 80 ; max");
    assert_eq!(out.text, "thrust = 100 ; 80 ; max");
    assert_eq!(out.report, vec!["thrust = 100 ; 80 ; max".to_string()]);
}

#[test]
fn annotated_rewrite_format_of_a_terminated_line() {
    let out = patched(&[("thrust", "100")], "thrust = 80 ; max\n");
    assert_eq!(out.text, "thrust = 100 ; 80 ; max\n");
    assert_eq!(out.report, vec!["thrust = 100 ; 80 ; max".to_string()]);
}

#[test]
fn annotated_rewrite_without_original_comment() {
    let out = patched(&[("mass", "600")], "mass = 500");
    assert_eq!(out.text, "mass = 600 ; 500");
    assert_eq!(out.report, vec!["mass = 600 ; 500".to_string()]);
    let ended = patched(&[("mass", "600")], "mass = 500\n");
    assert_eq!(ended.text, "mass = 600 ; 500\n");
}

#[test]
fn annotated_rewrite_of_a_line_without_blanks() {
    let out = patched(&[("thrust", "100")], "thrust=80;max=90;old");
    assert_eq!(out.text, "thrust = 100 ; 80 ; max=90;old");
}

#[test]
fn previous_value_is_written_trimmed() {
    let out = patched(&[("thrust", "100")], "thrust =\t  80 kN \t; max");
    assert_eq!(out.text, "thrust = 100 ; 80 kN ; max");
}

#[test]
fn comment_loses_only_the_blanks_at_its_start() {
    let out = patched(&[("thrust", "100")], "thrust = 80 ; \t max  thrust ; old  ");
    assert_eq!(out.text, "thrust = 100 ; 80 ; max  thrust ; old  ");
}

#[test]
fn empty_previous_value_and_empty_comment_are_written() {
    assert_eq!(patched(&[("k", "1")], "k =").text, "k = 1 ; ");
    assert_eq!(patched(&[("k", "1")], "k = ;").text, "k = 1 ;  ; ");
    assert_eq!(patched(&[("k", "1")], "k = 2 ;   ").text, "k = 1 ; 2 ; ");
}

#[test]
fn rewrite_line_gives_the_annotated_form() {
    let c = changes(&[("thrust", "100", " 80 ")]);
    assert_eq!(rewrite_line(&c, "thrust = 80"), Some("thrust = 100 ; 80".to_string()));
    assert_eq!(
        rewrite_line(&c, "  thrust=90;was 95"),
        Some("thrust = 100 ; 80 ; was 95".to_string())
    );
    assert_eq!(rewrite_line(&c, "thrust = 1 ;"), Some("thrust = 100 ; 80 ; ".to_string()));
}

#[test]
fn rewrite_line_leaves_other_lines_alone() {
    let c = changes(&[("thrust", "100", "80")]);
    assert_eq!(rewrite_line(&c, "mass = 500 ; kg"), None);
    assert_eq!(rewrite_line(&c, "[engines]"), None);
    assert_eq!(rewrite_line(&c, "Thrust = 80"), None);
    assert_eq!(rewrite_line(&c, ""), None);
    assert_eq!(rewrite_line(&Changes::new(), "thrust = 80"), None);
}

#[test]
fn passthrough_invariant() {
    let text = "[engines]\n  ; a comment\nname = Flyer X ; keep\n\nthrust = 80\nlast";
    let out = patched(&[("thrust", "100")], text);
    assert_eq!(
        out.text,
        "[engines]\n  ; a comment\nname = Flyer X ; keep\n\nthrust = 100 ; 80\nlast"
    );
    assert_eq!(out.report, vec!["thrust = 100 ; 80".to_string()]);
}

#[test]
fn every_line_of_a_changed_key_is_rewritten_with_the_recorded_value() {
    let out = patched(&[("k", "3")], "k = 1\nk = 3\nk = 2\n");
    assert_eq!(out.text, "k = 3 ; 2\nk = 3 ; 2\nk = 3 ; 2\n");
    assert_eq!(out.report.len(), 3);
}

#[test]
fn line_endings_are_kept() {
    let out = patched(&[("b", "2")], "a = 1\r\nb = 1\r\nc\nd = 4\n\r\ne");
    assert_eq!(out.text, "a = 1\r\nb = 2 ; 1\r\nc\nd = 4\n\r\ne");
    let ended = patched(&[("b", "2")], "b = 1\r\n");
    assert_eq!(ended.text, "b = 2 ; 1\r\n");
}

#[test]
fn untouched_text_is_written_as_it_came() {
    let patch = PathChanges { path: None, changes: changes(&[("x", "1", "0")]) };
    for text in ["; note\r\nmass=500", "", "\n", "a\r\n\r\nb\n", "rest\r", "a\rb\r\r\nc\r", "a = 1\nb\n"] {
        let out = write_modified_file(&patch, text);
        assert_eq!(out.text, text);
        assert!(out.report.is_empty());
    }
}

#[test]
fn bare_carriage_return_at_the_end_of_the_text() {
    let out = patched(&[("k", "1")], "k = 2 ; c\r");
    assert_eq!(out.text, "k = 1 ; 2 ; c\r");
    let plain = patched(&[("k", "1")], "k = 2\r");
    assert_eq!(plain.text, "k = 1 ; 2");
}

#[test]
fn empty_change_set_copies_the_text() {
    let patch = PathChanges { path: None, changes: Changes::new() };
    let out = write_modified_file(&patch, "a = 1\r\nb\n");
    assert_eq!(out.text, "a = 1\r\nb\n");
    assert!(out.report.is_empty());
    let nothing = write_modified_file(&patch, "");
    assert_eq!(nothing.text, "");
}

#[test]
fn idempotence() {
    let pairs = [("power", "75"), ("mix", "12"), ("idle", ""), ("name", "Flyer X")];
    for text in [
        "power = 50 ; base\r\nmix = 12\nidle = 4;x\nname=old\nname = older ; n\nrest\r",
        "power = 50\r",
        "name = a ; b\r\r\npower=1",
        "idle = 1 ;\n",
    ] {
        let first = patched(&pairs, text);
        assert!(!first.report.is_empty());
        let again = build_diff(&mapping(&pairs), &first.text);
        assert!(again.is_empty(), "{:?}", text);
    }
}

#[test]
fn idempotence_needs_values_that_settle() {
    for unsettled in [" 100", "100 ", "1;2", "1\n2"] {
        let pairs = [("thrust", unsettled)];
        let first = patched(&pairs, "thrust = 80\n");
        let again = build_diff(&mapping(&pairs), &first.text);
        assert!(!again.is_empty(), "{:?}", unsettled);
    }
}

#[test]
fn rewritten_file_reads_back_with_the_desired_value() {
    let out = patched(&[("thrust", "100")], "thrust = 80 ; max");
    let back = build_diff(&mapping(&[("thrust", "80")]), &out.text);
    assert_eq!(
        back.get("thrust").cloned(),
        Some(("80".to_string(), " 100 ".to_string()))
    );
}
