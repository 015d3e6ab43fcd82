use build_yaml_gen::document::{apply_generate_for, YamlNode};
use build_yaml_gen::generator::{BuildYamlGenerator, SourceFile};

fn s(x: &str) -> YamlNode {
    YamlNode::Str(x.to_string())
}

fn map(entries: Vec<(&str, YamlNode)>) -> YamlNode {
    YamlNode::Mapping(entries.into_iter().map(|(k, v)| (s(k), v)).collect())
}

fn config() -> YamlNode {
    map(vec![(
        "targets",
        map(vec![(
            "$default",
            map(vec![(
                "builders",
                map(vec![
                    ("copy_with_extension_gen", map(vec![("generate_for", YamlNode::Sequence(vec![s("old.dart")]))])),
                    ("json_serializable", map(vec![("generate_for", YamlNode::Sequence(vec![s("keep.dart")])), ("enabled", YamlNode::Bool(true))])),
                    ("hive_generator", map(vec![("generate_for", YamlNode::Sequence(vec![]))])),
                ]),
            )]),
        )]),
    )])
}

fn get<'a>(node: &'a YamlNode, key: &str) -> Option<&'a YamlNode> {
    match node {
        YamlNode::Mapping(es) => es.iter().find(|(k, _)| matches!(k, YamlNode::Str(x) if x == key)).map(|(_, v)| v),
        _ => None,
    }
}

fn generate_for<'a>(doc: &'a YamlNode, builder: &str) -> &'a YamlNode {
    let b = get(get(get(get(doc, "targets").unwrap(), "$default").unwrap(), "builders").unwrap(), builder).unwrap();
    get(b, "generate_for").unwrap()
}

fn strings(node: &YamlNode) -> Vec<String> {
    match node {
        YamlNode::Sequence(v) => v
            .iter()
            .map(|n| match n {
                YamlNode::Str(x) => x.clone(),
                _ => panic!("not a string"),
            })
            .collect(),
        _ => panic!("not a sequence"),
    }
}

#[test]
fn written_list_reads_back() {
    let doc = apply_generate_for(config(), "hive_generator", vec!["\"b\"".to_string(), "\"a\"".to_string()]);
    assert_eq!(strings(generate_for(&doc, "hive_generator")), vec!["\"b\"", "\"a\""]);
    assert_eq!(strings(generate_for(&doc, "copy_with_extension_gen")), vec!["old.dart"]);
}

#[test]
fn missing_builder_leaves_document_alone() {
    let doc = apply_generate_for(config(), "freezed", vec!["x".to_string()]);
    assert_eq!(strings(generate_for(&doc, "hive_generator")), Vec::<String>::new());
    assert!(get(get(get(get(&doc, "targets").unwrap(), "$default").unwrap(), "builders").unwrap(), "freezed").is_none());
}

#[test]
fn tagged_nodes_are_looked_through() {
    let doc = YamlNode::Tagged("!cfg".to_string(), Box::new(config()));
    let doc = apply_generate_for(doc, "hive_generator", vec!["x".to_string()]);
    match &doc {
        YamlNode::Tagged(t, inner) => {
            assert_eq!(t, "!cfg");
            assert_eq!(strings(generate_for(inner, "hive_generator")), vec!["x"]);
        },
        _ => panic!("tag lost"),
    }
}

#[test]
fn hive_scenario_updates_only_its_builder() {
    let g = BuildYamlGenerator::new("/proj".to_string(), '/');
    let files = vec![SourceFile {
        path: "/proj/models/user.dart".to_string(),
        content: Some("import 'package:hive/hive.dart';\n@HiveType(typeId: 0)\nclass User {}".to_string()),
    }];
    let doc = g.update_document(config(), &files);
    assert_eq!(strings(generate_for(&doc, "hive_generator")), vec!["\"/proj/models/user.dart\""]);
    assert_eq!(strings(generate_for(&doc, "copy_with_extension_gen")), Vec::<String>::new());
    assert_eq!(strings(generate_for(&doc, "json_serializable")), Vec::<String>::new());
    let b = get(get(get(get(&doc, "targets").unwrap(), "$default").unwrap(), "builders").unwrap(), "json_serializable").unwrap();
    assert!(matches!(get(b, "enabled"), Some(YamlNode::Bool(true))));
    let written = "targets:\n  $default:\n    builders:\n      hive_generator:\n        generate_for:\n        - '\"/proj/models/user.dart\"'\n";
    assert_eq!(
        g.format_build_yaml(written),
        "targets:\n  $default:\n    builders:\n      hive_generator:\n        generate_for:\n        - \"models/user.dart\"\n"
    );
}
