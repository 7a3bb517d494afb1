use gh_updater::codec::{parse_document, ParseError};
use gh_updater::config::Config;
use gh_updater::document::{patch_document, yaml_update, DocumentError};
use gh_updater::node::Node;
use gh_updater::patch::{apply_patch, set_key_inplace, FieldUpdate};

fn s(text: &str) -> String {
    text.to_string()
}

fn scalar(text: &str) -> Node {
    Node::Scalar(s(text))
}

fn update(name: &str, value: Option<&str>) -> FieldUpdate {
    FieldUpdate { field_name: s(name), new_value: value.map(s) }
}

fn test_config(image: &str, new_name: Option<&str>, new_tag: Option<&str>) -> Config {
    Config {
        installation_id: 1,
        app_id: 1,
        private_key_pem: s(""),
        repo_owner: s("foobar"),
        repo_name: s("foo"),
        file_to_edit: s("foo"),
        image_name: s(image),
        new_name: new_name.map(s),
        new_tag: new_tag.map(s),
    }
}

#[test]
fn test_update_yaml() {
    let cfg = test_config("app-image", Some("meow"), Some("meow"));
    let res = yaml_update(
        "
    images: #cool file
      -
        name: app-image
        newName: ghcr.io/creandum/colab-api
        newTag: cc01b9f6a37e40ac45acf1910bb587b2dca3834a
    ",
        &cfg,
    );
    let out = res.unwrap();
    println!("{}", out);
    let tree = parse_document(&out).unwrap();
    let expected = Node::Mapping(vec![(
        s("images"),
        Node::Sequence(vec![Node::Mapping(vec![
            (s("name"), scalar("app-image")),
            (s("newName"), scalar("meow")),
            (s("newTag"), scalar("meow")),
        ])]),
    )]);
    assert_eq!(tree, expected);
}

#[test]
fn patch_updates_both_fields() {
    let input = "images:\n  - name: app-image\n    newName: ghcr.io/x/old\n    newTag: aaa111\n";
    let updates = vec![
        update("newName", Some("ghcr.io/x/new")),
        update("newTag", Some("bbb222")),
    ];
    let (out, changed) = patch_document(input, "images", "name", "app-image", &updates).unwrap();
    assert!(changed);
    let tree = parse_document(&out).unwrap();
    let expected = Node::Mapping(vec![(
        s("images"),
        Node::Sequence(vec![Node::Mapping(vec![
            (s("name"), scalar("app-image")),
            (s("newName"), scalar("ghcr.io/x/new")),
            (s("newTag"), scalar("bbb222")),
        ])]),
    )]);
    assert_eq!(tree, expected);
}

#[test]
fn no_match_is_a_no_op() {
    let input = "images:\n  - name: app-image\n    newName: ghcr.io/x/old\n    newTag: aaa111\n";
    let updates = vec![
        update("newName", Some("ghcr.io/x/new")),
        update("newTag", Some("bbb222")),
    ];
    let (out, changed) = patch_document(input, "images", "name", "other-image", &updates).unwrap();
    assert!(!changed);
    assert_eq!(parse_document(&out).unwrap(), parse_document(input).unwrap());
}

#[test]
fn only_the_first_match_is_patched() {
    let input = "images:\n  - name: app-image\n    newTag: aaa111\n  - name: app-image\n    newTag: ccc333\n";
    let updates = vec![update("newTag", Some("bbb222"))];
    let (out, changed) = patch_document(input, "images", "name", "app-image", &updates).unwrap();
    assert!(changed);
    let expected = Node::Mapping(vec![(
        s("images"),
        Node::Sequence(vec![
            Node::Mapping(vec![(s("name"), scalar("app-image")), (s("newTag"), scalar("bbb222"))]),
            Node::Mapping(vec![(s("name"), scalar("app-image")), (s("newTag"), scalar("ccc333"))]),
        ]),
    )]);
    assert_eq!(parse_document(&out).unwrap(), expected);
}

#[test]
fn partial_update_keeps_the_other_field() {
    let input = "images:\n  - name: app-image\n    newName: keepme\n    newTag: aaa111\n";
    let updates = vec![update("newName", None), update("newTag", Some("bbb222"))];
    let (out, changed) = patch_document(input, "images", "name", "app-image", &updates).unwrap();
    assert!(changed);
    let expected = Node::Mapping(vec![(
        s("images"),
        Node::Sequence(vec![Node::Mapping(vec![
            (s("name"), scalar("app-image")),
            (s("newName"), scalar("keepme")),
            (s("newTag"), scalar("bbb222")),
        ])]),
    )]);
    assert_eq!(parse_document(&out).unwrap(), expected);
}

#[test]
fn partial_update_keeps_the_tag() {
    let cfg = test_config("app-image", Some("fresh"), None);
    let out = yaml_update("images:\n  - name: app-image\n    newTag: aaa111\n", &cfg).unwrap();
    let expected = Node::Mapping(vec![(
        s("images"),
        Node::Sequence(vec![Node::Mapping(vec![
            (s("name"), scalar("app-image")),
            (s("newTag"), scalar("aaa111")),
            (s("newName"), scalar("fresh")),
        ])]),
    )]);
    assert_eq!(parse_document(&out).unwrap(), expected);
}

#[test]
fn patching_twice_gives_the_same_text() {
    let input = "images:\n  - name: app-image\n    newName: ghcr.io/x/old\n    newTag: aaa111\n";
    let updates = vec![
        update("newName", Some("ghcr.io/x/new")),
        update("newTag", Some("bbb222")),
    ];
    let (once, _) = patch_document(input, "images", "name", "app-image", &updates).unwrap();
    let (twice, _) = patch_document(&once, "images", "name", "app-image", &updates).unwrap();
    assert_eq!(once, twice);
}

#[test]
fn missing_fields_are_appended_in_update_order() {
    let input = "images:\n  - name: app-image\n";
    let updates = vec![
        update("newName", Some("n1")),
        update("newTag", Some("t1")),
    ];
    let (out, changed) = patch_document(input, "images", "name", "app-image", &updates).unwrap();
    assert!(changed);
    let expected = Node::Mapping(vec![(
        s("images"),
        Node::Sequence(vec![Node::Mapping(vec![
            (s("name"), scalar("app-image")),
            (s("newName"), scalar("n1")),
            (s("newTag"), scalar("t1")),
        ])]),
    )]);
    assert_eq!(parse_document(&out).unwrap(), expected);
}

#[test]
fn untouched_keys_keep_their_order() {
    let input = "first: one\nimages:\n  - name: app-image\n    newTag: aaa111\nlast: two\n";
    let updates = vec![update("newTag", Some("bbb222"))];
    let (out, _) = patch_document(input, "images", "name", "app-image", &updates).unwrap();
    let expected = Node::Mapping(vec![
        (s("first"), scalar("one")),
        (
            s("images"),
            Node::Sequence(vec![Node::Mapping(vec![
                (s("name"), scalar("app-image")),
                (s("newTag"), scalar("bbb222")),
            ])]),
        ),
        (s("last"), scalar("two")),
    ]);
    assert_eq!(parse_document(&out).unwrap(), expected);
}

#[test]
fn non_mapping_elements_are_skipped() {
    let input = "images:\n  - plain\n  - name: app-image\n    newTag: aaa111\n";
    let updates = vec![update("newTag", Some("bbb222"))];
    let (out, changed) = patch_document(input, "images", "name", "app-image", &updates).unwrap();
    assert!(changed);
    let expected = Node::Mapping(vec![(
        s("images"),
        Node::Sequence(vec![
            scalar("plain"),
            Node::Mapping(vec![(s("name"), scalar("app-image")), (s("newTag"), scalar("bbb222"))]),
        ]),
    )]);
    assert_eq!(parse_document(&out).unwrap(), expected);
}

#[test]
fn absent_top_level_key_changes_nothing() {
    let input = "services:\n  - name: app-image\n";
    let updates = vec![update("newTag", Some("bbb222"))];
    let (out, changed) = patch_document(input, "images", "name", "app-image", &updates).unwrap();
    assert!(!changed);
    assert_eq!(parse_document(&out).unwrap(), parse_document(input).unwrap());
}

#[test]
fn scalar_under_top_level_key_changes_nothing() {
    let input = "images: nothing here\n";
    let updates = vec![update("newTag", Some("bbb222"))];
    let (out, changed) = patch_document(input, "images", "name", "app-image", &updates).unwrap();
    assert!(!changed);
    assert_eq!(parse_document(&out).unwrap(), parse_document(input).unwrap());
}

#[test]
fn malformed_text_is_a_parse_error() {
    let updates = vec![update("newTag", Some("bbb222"))];
    let res = patch_document("images: [", "images", "name", "app-image", &updates);
    assert!(matches!(res, Err(DocumentError::Parse(ParseError::Syntax(_)))));
}

#[test]
fn empty_text_is_a_parse_error() {
    let updates: Vec<FieldUpdate> = Vec::new();
    let res = patch_document("", "images", "name", "app-image", &updates);
    assert!(matches!(res, Err(DocumentError::Parse(ParseError::NoDocument))));
}

#[test]
fn sequence_root_is_a_parse_error() {
    let updates: Vec<FieldUpdate> = Vec::new();
    let res = patch_document("- a\n- b\n", "images", "name", "app-image", &updates);
    assert!(matches!(res, Err(DocumentError::Parse(ParseError::RootNotMapping))));
}

#[test]
fn non_string_key_is_a_parse_error() {
    let updates: Vec<FieldUpdate> = Vec::new();
    let res = patch_document("1: a\n", "images", "name", "app-image", &updates);
    assert!(matches!(res, Err(DocumentError::Parse(ParseError::UnsupportedStructure))));
}

#[test]
fn apply_patch_reports_a_match() {
    let mut doc = Node::Mapping(vec![(
        s("images"),
        Node::Sequence(vec![Node::Mapping(vec![(s("name"), scalar("app-image"))])]),
    )]);
    let updates = vec![update("newTag", Some("t1"))];
    let changed = apply_patch(&mut doc, "images", "name", "app-image", &updates);
    assert!(changed);
    let expected = Node::Mapping(vec![(
        s("images"),
        Node::Sequence(vec![Node::Mapping(vec![
            (s("name"), scalar("app-image")),
            (s("newTag"), scalar("t1")),
        ])]),
    )]);
    assert_eq!(doc, expected);
}

#[test]
fn apply_patch_without_match_keeps_the_tree() {
    let mut doc = Node::Mapping(vec![(
        s("images"),
        Node::Sequence(vec![Node::Mapping(vec![(s("name"), scalar("app-image"))])]),
    )]);
    let original = Node::Mapping(vec![(
        s("images"),
        Node::Sequence(vec![Node::Mapping(vec![(s("name"), scalar("app-image"))])]),
    )]);
    let updates = vec![update("newTag", Some("t1"))];
    let changed = apply_patch(&mut doc, "images", "name", "other", &updates);
    assert!(!changed);
    assert_eq!(doc, original);
}

#[test]
fn set_key_inplace_replaces_in_position() {
    let mut entries = vec![
        (s("a"), scalar("1")),
        (s("b"), scalar("2")),
        (s("c"), scalar("3")),
    ];
    set_key_inplace(&mut entries, &s("b"), &s("two"));
    assert_eq!(
        entries,
        vec![(s("a"), scalar("1")), (s("b"), scalar("two")), (s("c"), scalar("3"))],
    );
}

#[test]
fn set_key_inplace_appends_a_new_key() {
    let mut entries = vec![(s("a"), scalar("1"))];
    set_key_inplace(&mut entries, &s("b"), &s("2"));
    assert_eq!(entries, vec![(s("a"), scalar("1")), (s("b"), scalar("2"))]);
}
