use schemafy::error::ExpandError;
use schemafy::expander::Expander;
use schemafy::schema::{add_clipped, count_nodes, schema_eq, OneOrMany, Schema, SimpleTypes};

fn typed(kind: SimpleTypes) -> Schema {
    Schema { type_: OneOrMany::One(Box::new(kind)), ..Schema::default() }
}

fn reference(to: &str) -> Schema {
    Schema { ref_: Some(to.to_string()), ..Schema::default() }
}

fn kinds_of(s: &Schema) -> Vec<SimpleTypes> {
    (0..s.type_.len()).map(|i| *s.type_.get(i)).collect()
}

fn document() -> Schema {
    let mut inner = typed(SimpleTypes::Object);
    inner.definitions.push(("leaf".to_string(), typed(SimpleTypes::Boolean)));
    let mut root = typed(SimpleTypes::Object);
    root.definitions.push(("fooBar".to_string(), typed(SimpleTypes::String)));
    root.definitions.push(("nested".to_string(), inner));
    root.definitions.push(("definitions".to_string(), typed(SimpleTypes::Null)));
    root
}

#[test]
fn new_expander_has_expanded_nothing() {
    let root = document();
    let e = Expander::new(Some("Root"), &root);
    assert_eq!(e.root_name, Some("Root"));
    assert!(!e.needs_one_or_many);
    assert!(schema_eq(e.root, &root));
}

#[test]
fn reference_to_a_definition() {
    let root = document();
    let e = Expander::new(None, &root);
    let found = e.schema_ref("#/definitions/fooBar").expect("defined");
    assert_eq!(kinds_of(found), vec![SimpleTypes::String]);
}

#[test]
fn reference_to_the_root() {
    let root = document();
    let e = Expander::new(None, &root);
    assert!(schema_eq(e.schema_ref("#").expect("root"), &root));
}

#[test]
fn empty_segment_names_a_definition() {
    let root = document();
    let e = Expander::new(None, &root);
    assert!(matches!(e.schema_ref(""), Err(ExpandError::UnresolvedReference)));
    assert!(matches!(e.schema_ref("#/"), Err(ExpandError::UnresolvedReference)));
}

#[test]
fn nested_definitions_are_reached_segment_by_segment() {
    let root = document();
    let e = Expander::new(None, &root);
    let found = e.schema_ref("#/definitions/nested/definitions/leaf").expect("defined");
    assert_eq!(kinds_of(found), vec![SimpleTypes::Boolean]);
    let found = e.schema_ref("#/nested/leaf").expect("defined");
    assert_eq!(kinds_of(found), vec![SimpleTypes::Boolean]);
}

#[test]
fn hash_jumps_back_to_the_root() {
    let root = document();
    let e = Expander::new(None, &root);
    let found = e.schema_ref("nested/#/fooBar").expect("defined");
    assert_eq!(kinds_of(found), vec![SimpleTypes::String]);
}

#[test]
fn segment_called_definitions_is_passed_over() {
    let root = document();
    let e = Expander::new(None, &root);
    // The entry named "definitions" is never reached: the segment keeps the
    // current node.
    let found = e.schema_ref("#/definitions").expect("root");
    assert!(schema_eq(found, &root));
}

#[test]
fn unknown_definition_is_an_error() {
    let root = document();
    let e = Expander::new(None, &root);
    assert!(matches!(e.schema_ref("#/definitions/missing"), Err(ExpandError::UnresolvedReference)));
    assert!(matches!(e.schema_ref("#/definitions/leaf"), Err(ExpandError::UnresolvedReference)));
    assert!(matches!(
        e.schema_ref("#/definitions/missing/definitions/fooBar"),
        Err(ExpandError::UnresolvedReference)
    ));
}

#[test]
fn type_name_of_a_reference() {
    let root = document();
    let e = Expander::new(Some("my_root"), &root);
    assert_eq!(e.type_ref("#/definitions/fooBar"), Ok("FooBar".to_string()));
    assert_eq!(e.type_ref("#/definitions/not_there"), Ok("NotThere".to_string()));
    assert_eq!(e.type_ref("plain"), Ok("Plain".to_string()));
    assert_eq!(e.type_ref("#"), Ok("MyRoot".to_string()));
}

#[test]
fn type_name_of_the_root_needs_a_root_name() {
    let root = document();
    let e = Expander::new(None, &root);
    assert_eq!(e.type_ref("#"), Err(ExpandError::MissingRootName));
    assert_eq!(e.type_ref("#/definitions/fooBar"), Ok("FooBar".to_string()));
}

#[test]
fn plain_node_resolves_to_itself() {
    let root = document();
    let e = Expander::new(None, &root);
    let node = typed(SimpleTypes::Integer);
    let resolved = e.schema(&node).expect("plain");
    assert!(schema_eq(resolved.get(), &node));
    let empty_all_of = Schema { all_of: Some(vec![]), ..typed(SimpleTypes::Integer) };
    let resolved = e.schema(&empty_all_of).expect("plain");
    assert!(schema_eq(resolved.get(), &empty_all_of));
}

#[test]
fn reference_resolves_to_its_target() {
    let root = document();
    let e = Expander::new(None, &root);
    let node = reference("#/definitions/fooBar");
    let resolved = e.schema(&node).expect("defined");
    assert_eq!(kinds_of(resolved.get()), vec![SimpleTypes::String]);
    assert!(resolved.get().ref_.is_none());
    assert!(matches!(e.schema(&reference("#/definitions/zip")), Err(ExpandError::UnresolvedReference)));
}

#[test]
fn all_of_is_merged_from_the_left() {
    let mut root = Schema::default();
    let mut base = typed(SimpleTypes::Object);
    base.properties.push(("id".to_string(), typed(SimpleTypes::Integer)));
    base.required = Some(vec!["id".to_string()]);
    root.definitions.push(("base".to_string(), base));
    let e = Expander::new(None, &root);

    let mut extra = typed(SimpleTypes::Object);
    extra.properties.push(("name".to_string(), typed(SimpleTypes::String)));
    extra.required = Some(vec!["name".to_string()]);
    let mut node = typed(SimpleTypes::Array);
    node.properties.push(("ignored".to_string(), Schema::default()));
    node.all_of = Some(vec![reference("#/definitions/base"), extra]);

    let resolved = e.schema(&node).expect("resolves").into_owned();
    let keys: Vec<&str> = resolved.properties.iter().map(|p| p.0.as_str()).collect();
    assert_eq!(keys, vec!["id", "name"]);
    assert_eq!(resolved.required, Some(vec!["id".to_string(), "name".to_string()]));
    assert_eq!(kinds_of(&resolved), vec![SimpleTypes::Object]);
}

#[test]
fn all_of_inside_all_of() {
    let root = Schema::default();
    let e = Expander::new(None, &root);
    let inner = Schema {
        all_of: Some(vec![
            Schema { required: Some(vec!["a".to_string()]), ..Schema::default() },
            Schema { required: Some(vec!["b".to_string()]), ..Schema::default() },
        ]),
        ..Schema::default()
    };
    let node = Schema {
        all_of: Some(vec![inner, Schema { required: Some(vec!["c".to_string()]), ..Schema::default() }]),
        ..Schema::default()
    };
    let resolved = e.schema(&node).expect("resolves");
    assert_eq!(
        resolved.get().required,
        Some(vec!["a".to_string(), "b".to_string(), "c".to_string()])
    );
}

#[test]
fn failing_component_fails_the_composition() {
    let root = Schema::default();
    let e = Expander::new(None, &root);
    let node = Schema {
        all_of: Some(vec![Schema::default(), reference("#/definitions/none")]),
        ..Schema::default()
    };
    assert!(matches!(e.schema(&node), Err(ExpandError::UnresolvedReference)));
}

#[test]
fn composition_that_contains_itself_is_too_deep() {
    let mut root = Schema::default();
    root.definitions.push((
        "loop".to_string(),
        Schema { all_of: Some(vec![reference("#/definitions/loop")]), ..Schema::default() },
    ));
    let e = Expander::new(None, &root);
    assert!(matches!(e.schema(&reference("#/definitions/loop")), Err(ExpandError::TooDeep)));
}

#[test]
fn depth_counts_compositions() {
    let root = Schema::default();
    let e = Expander::new(None, &root);
    let mut node = Schema { required: Some(vec!["x".to_string()]), ..Schema::default() };
    for _ in 0..3 {
        node = Schema { all_of: Some(vec![node]), ..Schema::default() };
    }
    assert!(matches!(e.schema_within(&node, 2), Err(ExpandError::TooDeep)));
    let resolved = e.schema_within(&node, 3).expect("deep enough");
    assert_eq!(resolved.get().required, Some(vec!["x".to_string()]));
    assert!(e.schema_within(&Schema::default(), 0).is_ok());
    assert!(e.schema(&node).is_ok());
}

#[test]
fn deep_composition_without_a_cycle_resolves() {
    let root = Schema::default();
    let e = Expander::new(None, &root);
    let mut node = Schema { required: Some(vec!["x".to_string()]), ..Schema::default() };
    for _ in 0..200 {
        node = Schema { all_of: Some(vec![node]), ..Schema::default() };
    }
    let resolved = e.schema(&node).expect("no cycle");
    assert_eq!(resolved.get().required, Some(vec!["x".to_string()]));
}

#[test]
fn deep_chain_of_references_resolves() {
    let mut root = Schema::default();
    root.definitions.push((
        "d0".to_string(),
        Schema { required: Some(vec!["x".to_string()]), ..Schema::default() },
    ));
    for i in 1..150 {
        root.definitions.push((
            format!("d{}", i),
            Schema { all_of: Some(vec![reference(&format!("#/definitions/d{}", i - 1))]), ..Schema::default() },
        ));
    }
    let e = Expander::new(None, &root);
    let last = reference("#/definitions/d149");
    let resolved = e.schema(&last).expect("no cycle");
    assert_eq!(resolved.get().required, Some(vec!["x".to_string()]));
}

#[test]
fn cycle_through_two_definitions_is_too_deep() {
    let mut root = Schema::default();
    root.definitions.push((
        "a".to_string(),
        Schema { all_of: Some(vec![reference("#/definitions/b")]), ..Schema::default() },
    ));
    root.definitions.push((
        "b".to_string(),
        Schema { all_of: Some(vec![Schema::default(), reference("#/definitions/a")]), ..Schema::default() },
    ));
    let e = Expander::new(None, &root);
    assert!(matches!(e.schema(&reference("#/definitions/a")), Err(ExpandError::TooDeep)));
    assert!(matches!(e.schema(&root.definitions[1].1), Err(ExpandError::TooDeep)));
}

#[test]
fn nodes_are_counted() {
    assert_eq!(count_nodes(&Schema::default()), 1);
    let mut node = Schema::default();
    node.properties.push(("a".to_string(), Schema::default()));
    node.definitions.push(("b".to_string(), array_node()));
    node.items.push(Schema::default());
    node.additional_properties = Some(Box::new(Schema::default()));
    node.all_of = Some(vec![Schema::default(), Schema::default()]);
    node.any_of = Some(vec![Schema::default()]);
    assert_eq!(count_nodes(&node), 9);
    assert_eq!(add_clipped(2, 3), 5);
    assert_eq!(add_clipped(usize::MAX, 1), usize::MAX);
    assert_eq!(add_clipped(usize::MAX - 1, 1), usize::MAX);
}

fn array_node() -> Schema {
    Schema { items: vec![Schema::default()], ..typed(SimpleTypes::Array) }
}
