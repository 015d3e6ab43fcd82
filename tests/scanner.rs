use build_yaml_gen::generator::{quote, BuildYamlGenerator, SourceFile};
use build_yaml_gen::registry::{AnnotationType, PatternRegistry};

fn file(path: &str, content: Option<&str>) -> SourceFile {
    SourceFile { path: path.to_string(), content: content.map(|c| c.to_string()) }
}

fn generator() -> BuildYamlGenerator {
    BuildYamlGenerator::new("/proj".to_string(), '/')
}

#[test]
fn registry_has_one_rule_per_kind() {
    let rules = PatternRegistry::get_patterns();
    assert_eq!(rules.len(), 3);
    assert_eq!(rules[0].0, AnnotationType::CopyWith);
    assert_eq!(rules[0].1.builder_key, "copy_with_extension_gen");
    assert_eq!(rules[1].1.builder_key, "json_serializable");
    assert_eq!(rules[2].1.pattern, r"@HiveType\s*\(");
    let hive = PatternRegistry::get_pattern(&AnnotationType::Hive).unwrap();
    assert_eq!(hive.builder_key, "hive_generator");
}

#[test]
fn pattern_allows_space_before_parenthesis() {
    let m = PatternRegistry::get_pattern(&AnnotationType::JsonSerializable).unwrap().compile().unwrap();
    assert!(m.is_match("@JsonSerializable()"));
    assert!(m.is_match("class A {}\n@JsonSerializable  (explicitToJson: true)"));
    assert!(!m.is_match("@JsonSerializable"));
    assert!(!m.is_match("JsonSerializable()"));
}

#[test]
fn new_joins_build_yaml() {
    assert_eq!(generator().build_yaml_path, "/proj/build.yaml");
    assert_eq!(BuildYamlGenerator::new("/proj/".to_string(), '/').build_yaml_path, "/proj/build.yaml");
    assert_eq!(BuildYamlGenerator::new("C:\\p".to_string(), '\\').build_yaml_path, "C:\\p\\build.yaml");
}

#[test]
fn part_of_resolves_to_sibling() {
    let g = generator();
    let r = g.process_part_of("/proj/models/user.g.dart", "// header\npart of user.dart;\n@HiveType(");
    assert_eq!(r, "/proj/models/user.dart");
    let r = g.process_part_of("/proj/models/a.dart", "part of   parent_file.dart  ;");
    assert_eq!(r, "/proj/models/parent_file.dart");
}

#[test]
fn without_part_of_resolves_to_itself() {
    let g = generator();
    assert_eq!(g.process_part_of("/proj/a.dart", "@HiveType(typeId: 1)"), "/proj/a.dart");
    assert_eq!(g.process_part_of("/proj/a.dart", "part of parent.dart"), "/proj/a.dart");
    assert_eq!(g.process_part_of("/proj/a.dart", "part ofx.dart;"), "/proj/a.dart");
}

#[test]
fn quote_wraps_in_double_quotes() {
    assert_eq!(quote("a/b.dart"), "\"a/b.dart\"");
    assert_eq!(quote(""), "\"\"");
}

#[test]
fn scan_selects_exactly_matching_dart_files() {
    let g = generator();
    let files = vec![
        file("/proj/models/user.dart", Some("@HiveType(typeId: 0)\nclass User {}")),
        file("/proj/models/other.dart", Some("class Other {}")),
        file("/proj/notes.txt", Some("@HiveType(")),
        file("/proj/broken.dart", None),
        file("/proj/.dart", Some("@HiveType(")),
    ];
    let r = g.find_files_with_annotation(&AnnotationType::Hive, &files).ok().unwrap();
    assert_eq!(r, vec!["\"/proj/models/user.dart\"".to_string()]);
}

#[test]
fn scan_results_are_sorted() {
    let g = generator();
    let files = vec![
        file("/proj/z.dart", Some("@CopyWith()")),
        file("/proj/a/b.dart", Some("@CopyWith ()")),
        file("/proj/m.dart", Some("@CopyWith(skip: true)")),
        file("/proj/a.dart", Some("@CopyWith()")),
    ];
    let r = g.find_files_with_annotation(&AnnotationType::CopyWith, &files).ok().unwrap();
    assert_eq!(
        r,
        vec![
            "\"/proj/a.dart\"".to_string(),
            "\"/proj/a/b.dart\"".to_string(),
            "\"/proj/m.dart\"".to_string(),
            "\"/proj/z.dart\"".to_string(),
        ]
    );
}

#[test]
fn scan_keeps_fragments_sharing_an_owner() {
    let g = generator();
    let files = vec![
        file("/proj/m/a.part.dart", Some("part of owner.dart;\n@JsonSerializable()")),
        file("/proj/m/b.part.dart", Some("part of owner.dart;\n@JsonSerializable()")),
    ];
    let r = g.find_files_with_annotation(&AnnotationType::JsonSerializable, &files).ok().unwrap();
    assert_eq!(r, vec!["\"/proj/m/owner.dart\"".to_string(), "\"/proj/m/owner.dart\"".to_string()]);
}

#[test]
fn scan_of_empty_tree_is_empty() {
    let r = generator().find_files_with_annotation(&AnnotationType::Hive, &Vec::new()).ok().unwrap();
    assert!(r.is_empty());
}

#[test]
fn source_files_are_dart_files() {
    let g = generator();
    assert!(g.is_source_file("/proj/lib/a.dart"));
    assert!(!g.is_source_file("/proj/lib/.dart"));
    assert!(!g.is_source_file("/proj/lib/a.dart.txt"));
    assert!(!g.is_source_file("/proj/x.dart/readme"));
}

#[test]
fn invalid_pattern_does_not_compile() {
    let bad = build_yaml_gen::registry::AnnotationPattern { pattern: "@Broken(", builder_key: "x" };
    assert!(bad.compile().is_err());
    let good = build_yaml_gen::registry::AnnotationPattern { pattern: r"@Ok\s*\(", builder_key: "x" };
    assert!(good.compile().unwrap().is_match("@Ok ("));
}

#[test]
fn every_kind_scans_successfully() {
    let g = generator();
    let files = vec![file("/proj/a.dart", Some("@HiveType(\n@CopyWith()\n@JsonSerializable()"))];
    for kind in [AnnotationType::CopyWith, AnnotationType::JsonSerializable, AnnotationType::Hive] {
        let r = g.find_files_with_annotation(&kind, &files);
        assert_eq!(r.ok().unwrap(), vec!["\"/proj/a.dart\"".to_string()]);
    }
}

#[test]
fn pattern_allows_unicode_white_space() {
    let m = PatternRegistry::get_pattern(&AnnotationType::Hive).unwrap().compile().unwrap();
    assert!(m.is_match("@HiveType\u{3000}\t\n("));
    assert!(!m.is_match("@HiveType x("));
    assert!(!m.is_match("@Hivetype("));
}
