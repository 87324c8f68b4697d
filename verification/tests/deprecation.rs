use pulsar_reflection::deprecation::deprecation_warning_text;

#[test]
fn plain_warning_for_both_arguments() {
    let text = deprecation_warning_text(Some("src/a.rs:3:15".to_string()), Some("src/a.rs:3:26".to_string()), true);
    let expected = "\n\
warning: deprecated argument(s) passed to #[pulsar_type]\n \
--> src/a.rs:3:15\n \
| ─────────────────────────────\n \
| at:src/a.rs:3:15\n \
| in #[pulsar_type(primitive, ...)]: argument is silently ignored\n \
| at:src/a.rs:3:26\n \
| in #[pulsar_type(structure = ..., ...)]: argument is silently ignored\n \
|\n \
| note: the primitive / structure type distinction has been removed\n \
|       all types now follow a single unified registration path\n \
|\n \
| help:  #[pulsar_type(primitive, ...)]  →  #[pulsar_type(...)]\n \
| help:  #[pulsar_type(structure = ..., ...)]  →  #[pulsar_type(...)]\n \
| ─────────────────────────────\n\n";
    assert_eq!(text, expected);
}

#[test]
fn the_header_points_at_the_only_argument() {
    let text = deprecation_warning_text(None, Some("lib.rs:9:1".to_string()), true);
    assert!(text.contains(" --> lib.rs:9:1\n"));
    assert!(!text.contains("primitive, ...)]"));
    assert!(text.contains(" | help:  #[pulsar_type(structure = ..., ...)]  →  #[pulsar_type(...)]\n"));
}

#[test]
fn colored_warning_wraps_each_part_in_its_style() {
    let text = deprecation_warning_text(Some("m.rs:1:2".to_string()), None, false);
    assert!(text.starts_with("\n\x1b[1;33mwarning\x1b[0m: deprecated argument(s) passed to \x1b[1;37m#[pulsar_type]\x1b[0m\n"));
    assert!(text.contains(" \x1b[1;34m-->\x1b[0m \x1b[2;37mm.rs:1:2\x1b[0m\n"));
    assert!(text.ends_with(" \x1b[1;34m|\x1b[0m \x1b[2m─────────────────────────────\x1b[0m\n\n"));
}
