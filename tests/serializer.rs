use workflowy::cli::{Export, Format};
use workflowy::serializer::{
    export_to_csv, extract, extract_root_id, find_remove_prefix, print, serialize, strip_prefix,
    traverse_trees, ErrorKind, Row,
};
use workflowy::workflowy::{point, MainProjectTreeInfo, Point, ProjectTreeData, Tree};

fn s(x: &str) -> String {
    x.to_string()
}

fn leaf(id: &str, content: &str) -> Point {
    point(s(id), s(content), None)
}

fn node(id: &str, content: &str, children: Vec<Point>) -> Point {
    point(s(id), s(content), Some(children))
}

fn export(prefix: &[&str], append: &[&str], root: &str) -> Export {
    Export {
        prefix: prefix.iter().map(|p| s(p)).collect(),
        append: append.iter().map(|a| s(a)).collect(),
        format: Format::AnkiDict,
        output: s("-"),
        root: s(root),
    }
}

fn tree(children: Vec<Point>) -> Tree {
    Tree {
        project_tree_data: ProjectTreeData {
            client_id: s("client"),
            main_project_tree_info: MainProjectTreeInfo {
                root_project_children: children,
                initial_most_recent_operation_transaction_id: s("0"),
            },
        },
        features: vec![],
    }
}

#[test]
fn test_find_remove_prefix() {
    assert_eq!(
        find_remove_prefix(
            "example(s): this is an example".to_string(),
            &"example(s)".to_string(),
        )
        .unwrap(),
        Some(": this is an example".to_string())
    );
}

#[test]
fn test_extract_root_id_from_url() {
    assert_eq!(
        extract_root_id(&"https://workflowy.com/#/6af512b586de".to_string()),
        Some("6af512b586de".to_string())
    );
}

#[test]
fn test_extract_root_id_from_id() {
    assert_eq!(
        extract_root_id(&"6af512b586de".to_string()),
        Some("6af512b586de".to_string())
    );
}

#[test]
fn root_id_skips_trailing_slashes() {
    assert_eq!(extract_root_id(&s("https://host/#/abc//")), Some(s("abc")));
}

#[test]
fn root_id_of_empty_or_slashes_is_none() {
    assert_eq!(extract_root_id(&s("")), None);
    assert_eq!(extract_root_id(&s("///")), None);
}

#[test]
fn find_remove_prefix_is_case_insensitive_and_skips_markup() {
    assert_eq!(
        find_remove_prefix(s("<b>Example(S)</b>: here"), &s("example(s)")).unwrap(),
        Some(s("</b>: here"))
    );
}

#[test]
fn find_remove_prefix_escapes_special_characters() {
    assert_eq!(find_remove_prefix(s("examples: x"), &s("example(s)")).unwrap(), None);
    assert_eq!(find_remove_prefix(s("a.c rest"), &s("a.c")).unwrap(), Some(s(" rest")));
    assert_eq!(find_remove_prefix(s("abc rest"), &s("a.c")).unwrap(), None);
}

#[test]
fn strip_prefix_drops_colons_spaces_and_closing_tags() {
    assert_eq!(strip_prefix(s("</b>: here")), s("here"));
    assert_eq!(strip_prefix(s(": this is an example")), s("this is an example"));
    assert_eq!(strip_prefix(s("plain")), s("plain"));
}

#[test]
fn suffix_match_locates_by_id_and_by_url() {
    let t = tree(vec![node("root", "top", vec![leaf("6af512b586de", "target")])]);
    let by_id = traverse_trees(
        &t.project_tree_data.main_project_tree_info.root_project_children,
        &s("6af512b586de"),
    )
    .unwrap();
    let id = extract_root_id(&s("https://host/#/6af512b586de")).unwrap();
    let by_url =
        traverse_trees(&t.project_tree_data.main_project_tree_info.root_project_children, &id)
            .unwrap();
    assert_eq!(by_id.content, "target");
    assert!(std::ptr::eq(by_id, by_url));
}

#[test]
fn suffix_match_accepts_longer_stored_id() {
    let forest = vec![leaf("prefix-6af512b586de", "long")];
    let found = traverse_trees(&forest, &s("6af512b586de")).unwrap();
    assert_eq!(found.content, "long");
}

#[test]
fn first_match_in_depth_first_order_wins() {
    let forest = vec![
        node("a", "first branch", vec![node("b", "deep", vec![leaf("x-42", "deepest")])]),
        leaf("y-42", "second branch"),
    ];
    let found = traverse_trees(&forest, &s("42")).unwrap();
    assert_eq!(found.content, "deepest");
}

#[test]
fn word_without_attributes_is_skipped() {
    let root = node(
        "r",
        "root",
        vec![leaf("w1", "alone"), node("w2", "empty", vec![]), node("w3", "cat", vec![leaf("a", "def: x")])],
    );
    let rows = extract(&root, &vec![s("def")]).unwrap();
    assert_eq!(rows.len(), 1);
    assert_eq!(rows[0].headword, "cat");
    assert_eq!(rows[0].definitions, vec![s("x")]);
}

#[test]
fn prefix_extraction_round_trip() {
    let root = node(
        "r",
        "root",
        vec![node("w", "  word  ", vec![leaf("a", "example(s): this is an example")])],
    );
    let rows = extract(&root, &vec![s("example(s)")]).unwrap();
    assert_eq!(rows[0].headword, "word");
    assert_eq!(rows[0].definitions, vec![s("this is an example")]);
}

#[test]
fn two_matching_rules_give_two_definitions_in_rule_order() {
    let root = node("r", "root", vec![node("w", "cat", vec![leaf("a", "<i>def</i>: feline")])]);
    let rows = extract(&root, &vec![s("<i>def"), s("def")]).unwrap();
    assert_eq!(rows[0].definitions, vec![s("feline"), s("feline")]);
    let rows = extract(&root, &vec![s("def"), s("<i>def")]).unwrap();
    assert_eq!(rows[0].definitions.len(), 2);
}

#[test]
fn definitions_follow_attribute_order_then_rule_order() {
    let root = node(
        "r",
        "root",
        vec![node("w", "cat", vec![leaf("a", "def: feline"), leaf("b", "syn: kitty")])],
    );
    let rows = extract(&root, &vec![s("syn"), s("def")]).unwrap();
    assert_eq!(rows[0].definitions, vec![s("feline"), s("kitty")]);
}

#[test]
fn serialization_shape() {
    let rows = vec![Row { headword: s("cat"), definitions: vec![s("feline"), s("pet")] }];
    assert_eq!(serialize(&rows, &vec![s("noun")]), "cat\tfeline\tpet\tnoun\n");
}

#[test]
fn serialization_of_no_rows_is_empty() {
    assert_eq!(serialize(&vec![], &vec![s("noun")]), "");
}

#[test]
fn serialization_of_headword_alone() {
    let rows = vec![
        Row { headword: s("a"), definitions: vec![] },
        Row { headword: s("b"), definitions: vec![s("x")] },
    ];
    assert_eq!(serialize(&rows, &vec![]), "a\nb\tx\n");
}

#[test]
fn empty_definitions_still_emit_a_row() {
    let root = node("r", "root", vec![node("w", "dog", vec![leaf("a", "nothing here")])]);
    let e = export(&["def"], &["noun", "animal"], "r");
    assert_eq!(export_to_csv(&e, &root).unwrap(), "dog\tnoun\tanimal\n");
}

#[test]
fn empty_prefix_list_gives_rows_without_definitions() {
    let root = node("r", "root", vec![node("w", "dog", vec![leaf("a", "def: x")])]);
    let e = export(&[], &[], "r");
    assert_eq!(export_to_csv(&e, &root).unwrap(), "dog\n");
}

#[test]
fn no_match_anywhere_is_not_found() {
    let t = tree(vec![node("root", "top", vec![leaf("abc", "x")])]);
    let err = print(&export(&["def"], &[], "https://host/#/zzz"), &t).unwrap_err();
    assert_eq!(err.kind, ErrorKind::NotFound);
}

#[test]
fn found_empty_subtree_is_empty_text() {
    let t = tree(vec![node("root", "top", vec![leaf("abc", "x")])]);
    assert_eq!(print(&export(&["def"], &[], "abc"), &t).unwrap(), "");
}

#[test]
fn reference_without_identifier_is_invalid() {
    let t = tree(vec![leaf("abc", "x")]);
    let err = print(&export(&[], &[], "//"), &t).unwrap_err();
    assert_eq!(err.kind, ErrorKind::InvalidReference);
}

#[test]
fn print_exports_the_located_subtree() {
    let t = tree(vec![node(
        "top",
        "top",
        vec![node(
            "dict-6af512b586de",
            "dict",
            vec![
                node("w1", " cat ", vec![leaf("a1", "<b>def</b>: feline"), leaf("a2", "def: pet")]),
                leaf("w2", "bare"),
                node("w3", "dog", vec![leaf("a3", "other")]),
            ],
        )],
    )]);
    let out = print(&export(&["def"], &["noun"], "https://host/#/6af512b586de"), &t).unwrap();
    assert_eq!(out, "cat\tfeline\tpet\tnoun\ndog\tnoun\n");
}

#[test]
fn oversized_rule_is_a_compilation_error() {
    let huge = "a".repeat(2_000_000);
    let root = node("r", "root", vec![node("w", "cat", vec![leaf("a", "def: x")])]);
    let err = extract(&root, &vec![s("def"), huge.clone()]).err().unwrap();
    assert_eq!(err.kind, ErrorKind::RuleCompilation);
    assert!(find_remove_prefix(s("aaa"), &huge).is_err());
}
