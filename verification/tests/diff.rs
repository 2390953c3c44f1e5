use cfg_patch::{build_diff, Changes, Mapping};

fn mapping(pairs: &[(&str, &str)]) -> Mapping {
    let mut m = Mapping::new();
    for (key, value) in pairs {
        m.insert(key.to_string(), value.to_string());
    }
    m
}

fn entry(changes: &Changes, key: &str) -> Option<(String, String)> {
    changes.get(key).cloned()
}

fn pair(desired: &str, previous: &str) -> Option<(String, String)> {
    Some((desired.to_string(), previous.to_string()))
}

#[test]
fn new_mapping_is_empty() {
    let m = Mapping::new();
    assert!(m.is_empty());
    assert_eq!(m.get("thrust"), None);
}

#[test]
fn mapping_insert_and_get() {
    let mut m = Mapping::new();
    assert_eq!(m.insert("thrust".to_string(), "100".to_string()), None);
    assert!(!m.is_empty());
    assert_eq!(m.get("thrust"), Some(&"100".to_string()));
    assert_eq!(m.get("Thrust"), None);
    assert_eq!(m.insert("thrust".to_string(), "120".to_string()), Some("100".to_string()));
    assert_eq!(m.get("thrust"), Some(&"120".to_string()));
}

#[test]
fn new_changes_are_empty() {
    let c = Changes::new();
    assert!(c.is_empty());
    assert_eq!(c.get("thrust"), None);
}

#[test]
fn changes_insert_and_get() {
    let mut c = Changes::new();
    assert_eq!(c.insert("thrust".to_string(), "100".to_string(), " 80 ".to_string()), None);
    assert!(!c.is_empty());
    assert_eq!(entry(&c, "thrust"), pair("100", " 80 "));
    assert_eq!(
        c.insert("thrust".to_string(), "100".to_string(), "90".to_string()),
        pair("100", " 80 ")
    );
    assert_eq!(entry(&c, "thrust"), pair("100", "90"));
    assert_eq!(entry(&c, "mass"), None);
}

#[test]
fn differing_value_is_recorded_with_the_value_region_as_it_stands() {
    let diff = build_diff(&mapping(&[("thrust", "100")]), "thrust = 80 ; max\n");
    assert!(!diff.is_empty());
    assert_eq!(entry(&diff, "thrust"), pair("100", " 80 "));
}

#[test]
fn value_equality_short_circuit() {
    let diff = build_diff(&mapping(&[("thrust", "100")]), "thrust = 100 ; max");
    assert!(diff.is_empty());
    assert_eq!(entry(&diff, "thrust"), None);
}

#[test]
fn values_are_compared_trimmed() {
    let diff = build_diff(&mapping(&[("thrust", "100")]), "thrust=\t100  \n");
    assert!(diff.is_empty());
}

#[test]
fn desired_values_are_taken_as_they_stand() {
    let diff = build_diff(&mapping(&[("thrust", " 100")]), "thrust = 100\n");
    assert_eq!(entry(&diff, "thrust"), pair(" 100", " 100"));
}

#[test]
fn missing_key_tolerance() {
    let diff = build_diff(&mapping(&[("thrust", "100"), ("mass", "600")]), "mass = 600\nname = x\n");
    assert!(diff.is_empty());
    assert_eq!(entry(&diff, "thrust"), None);
}

#[test]
fn keys_outside_the_mapping_are_left_alone() {
    let diff = build_diff(&mapping(&[("mass", "600")]), "mass = 500\nname = x\n");
    assert_eq!(entry(&diff, "mass"), pair("600", " 500"));
    assert_eq!(entry(&diff, "name"), None);
}

#[test]
fn keys_are_case_sensitive_and_trimmed() {
    let m = mapping(&[("Mass", "600")]);
    assert!(build_diff(&m, "mass = 500").is_empty());
    assert_eq!(entry(&build_diff(&m, "  Mass\t= 500"), "Mass"), pair("600", " 500"));
}

#[test]
fn last_differing_line_wins() {
    let diff = build_diff(&mapping(&[("k", "3")]), "k = 1\nk = 2\n");
    assert_eq!(entry(&diff, "k"), pair("3", " 2"));
}

#[test]
fn a_later_satisfied_line_keeps_the_earlier_entry() {
    let diff = build_diff(&mapping(&[("k", "2")]), "k = 1\nk = 2\n");
    assert_eq!(entry(&diff, "k"), pair("2", " 1"));
}

#[test]
fn empty_value_is_a_value() {
    let m = mapping(&[("k", "")]);
    assert!(build_diff(&m, "k =   ; gone").is_empty());
    assert_eq!(entry(&build_diff(&m, "k = 1"), "k"), pair("", " 1"));
    let wanted = mapping(&[("k", "1")]);
    assert_eq!(entry(&build_diff(&wanted, "k="), "k"), pair("1", ""));
}

#[test]
fn equals_in_a_comment_line_is_a_separator() {
    let diff = build_diff(&mapping(&[("; note", "4")]), "; note = 3 ; x\n");
    assert_eq!(entry(&diff, "; note"), pair("4", " 3 "));
}

#[test]
fn empty_text_and_empty_mapping_change_nothing() {
    assert!(build_diff(&mapping(&[("k", "1")]), "").is_empty());
    assert!(build_diff(&Mapping::new(), "k = 1\n").is_empty());
}

#[test]
fn several_keys_get_their_own_entries() {
    let m = mapping(&[("power", "75"), ("mix", "12"), ("idle", "3")]);
    let diff = build_diff(&m, "power = 50 ; base\r\nmix = 12\r\nidle=2\r\nother = 1");
    assert_eq!(entry(&diff, "power"), pair("75", " 50 "));
    assert_eq!(entry(&diff, "mix"), None);
    assert_eq!(entry(&diff, "idle"), pair("3", "2"));
    assert_eq!(entry(&diff, "other"), None);
}
