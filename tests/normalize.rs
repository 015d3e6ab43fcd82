use build_yaml_gen::generator::BuildYamlGenerator;

#[test]
fn strips_quotes_prefix_and_separators() {
    let g = BuildYamlGenerator::new("/home/u/app".to_string(), '/');
    let text = "generate_for:\n- '\"/home/u/app/lib/a.dart\"'\n- '\"/other/b.dart\"'\n";
    assert_eq!(g.format_build_yaml(text), "generate_for:\n- \"lib/a.dart\"\n- \"/other/b.dart\"\n");
}

#[test]
fn windows_separators_become_slashes() {
    let g = BuildYamlGenerator::new("C:\\work\\app".to_string(), '\\');
    let text = "- '\"C:\\work\\app\\lib\\models\\u.dart\"'\n";
    assert_eq!(g.format_build_yaml(text), "- \"lib/models/u.dart\"\n");
}

#[test]
fn normalizing_twice_is_normalizing_once() {
    let g = BuildYamlGenerator::new("/p".to_string(), '/');
    let text = "a: '\"/p/x.dart\"'\nb: it's\n";
    let once = g.format_build_yaml(text);
    assert_eq!(once, "a: \"x.dart\"\nb: its\n");
    assert_eq!(g.format_build_yaml(&once), once);
    let w = BuildYamlGenerator::new("C:\\p".to_string(), '\\');
    let once = w.format_build_yaml("- 'C:\\p\\C:\\p\\\\q'\n");
    assert_eq!(w.format_build_yaml(&once), once);
}

#[test]
fn empty_text_stays_empty() {
    let g = BuildYamlGenerator::new("/p".to_string(), '/');
    assert_eq!(g.format_build_yaml(""), "");
}
