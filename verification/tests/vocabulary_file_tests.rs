use lucidpm::yaml::{expand_tilde, extends_not_found, extends_path, merge_yaml, merged_over_base, schema_not_found, schema_source,
    strip_extends, yaml_eq, SchemaSource, Yaml};
use lucidpm::schema::SchemaError;

fn st(x: &str) -> Yaml {
    Yaml::Str(x.to_string())
}

fn map(entries: Vec<(&str, Yaml)>) -> Yaml {
    Yaml::Mapping(entries.into_iter().map(|(k, v)| (st(k), v)).collect())
}

fn keys(y: &Yaml) -> Vec<String> {
    match y {
        Yaml::Mapping(m) => m
            .iter()
            .map(|(k, _)| match k {
                Yaml::Str(s) => s.clone(),
                _ => String::new(),
            })
            .collect(),
        _ => Vec::new(),
    }
}

#[test]
fn mappings_merge_recursively_and_the_rest_is_replaced() {
    let base = map(vec![
        ("schemaVersion", Yaml::Number("1".to_string())),
        ("pageTypes", map(vec![("Risk", map(vec![("uses", Yaml::List(vec![st("status")]))]))])),
        ("statuses", map(vec![("open", Yaml::Null)])),
    ]);
    let over = map(vec![
        ("pageTypes", map(vec![("Workstream", map(vec![]))])),
        ("statuses", Yaml::List(vec![st("done")])),
        ("extra", Yaml::Bool(true)),
    ]);
    let merged = merge_yaml(base, &over);
    assert_eq!(keys(&merged), vec!["schemaVersion", "pageTypes", "statuses", "extra"]);
    match &merged {
        Yaml::Mapping(m) => {
            assert_eq!(keys(&m[1].1), vec!["Risk", "Workstream"]);
            assert!(yaml_eq(&m[2].1, &Yaml::List(vec![st("done")])));
            assert!(yaml_eq(&m[3].1, &Yaml::Bool(true)));
        },
        _ => panic!("a mapping was expected"),
    }
}

#[test]
fn a_value_that_is_not_a_mapping_replaces_the_base() {
    let merged = merge_yaml(map(vec![("a", st("x"))]), &st("y"));
    assert!(yaml_eq(&merged, &st("y")));
    let merged = merge_yaml(st("x"), &map(vec![("a", st("y"))]));
    assert!(yaml_eq(&merged, &map(vec![("a", st("y"))])));
}

#[test]
fn the_extends_key_is_dropped_by_swap_removal() {
    let doc = map(vec![("extends", st("base.yaml")), ("a", Yaml::Null), ("b", Yaml::Null)]);
    let stripped = strip_extends(doc);
    assert_eq!(keys(&stripped), vec!["b", "a"]);
    let plain = strip_extends(map(vec![("a", Yaml::Null)]));
    assert_eq!(keys(&plain), vec!["a"]);
}

#[test]
fn the_project_document_is_merged_over_its_base() {
    let base = map(vec![("statuses", map(vec![("open", Yaml::Null)]))]);
    let project = map(vec![("extends", st("~/base.yaml")), ("statuses", map(vec![("done", Yaml::Null)]))]);
    let merged = merged_over_base(base, project);
    assert_eq!(keys(&merged), vec!["statuses"]);
    match &merged {
        Yaml::Mapping(m) => assert_eq!(keys(&m[0].1), vec!["open", "done"]),
        _ => panic!("a mapping was expected"),
    }
}

#[test]
fn extended_files_are_found_with_the_home_directory() {
    assert_eq!(expand_tilde("~/x.yaml", Some("/home/u")), "/home/u/x.yaml");
    assert_eq!(expand_tilde("~x.yaml", Some("/home/u")), "~x.yaml");
    assert_eq!(expand_tilde("~/x.yaml", None), "~/x.yaml");
    let doc = map(vec![("extends", st("~/base.yaml"))]);
    assert_eq!(extends_path(&doc, Some("/h")), Some("/h/base.yaml".to_string()));
    let tagged = Yaml::Tagged("!t".to_string(), Box::new(map(vec![("extends", Yaml::Tagged("!s".to_string(), Box::new(st("b.yaml"))))])));
    assert_eq!(extends_path(&tagged, None), Some("b.yaml".to_string()));
    assert_eq!(extends_path(&map(vec![("extends", Yaml::Number("3".to_string()))]), None), None);
    assert_eq!(extends_path(&st("x"), None), None);
}

#[test]
fn the_vocabulary_source_is_chosen_in_order() {
    assert!(matches!(schema_source(true, true), SchemaSource::Project));
    assert!(matches!(schema_source(false, true), SchemaSource::DefaultOnly));
    assert!(matches!(schema_source(false, false), SchemaSource::NotFound));
}

#[test]
fn loading_errors_say_what_failed() {
    match schema_not_found() {
        SchemaError::NotFound { searched } => {
            assert_eq!(searched, vec![
                "project vocabulary (project-schema.yaml)".to_string(),
                "shared default (~/.lucidpm/default-schema.yaml)".to_string(),
            ]);
        },
        _ => panic!("NotFound was expected"),
    }
    let e = extends_not_found("/x.yaml");
    assert_eq!(e.event_type(), "SchemaParseError");
    assert_eq!(e.message(), "Schema parse error: extends: path not found: /x.yaml");
}
