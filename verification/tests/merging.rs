use schemafy::merge::{common_kinds, has_kind, merge_all_of, merge_option};
use schemafy::schema::{schema_eq, OneOrMany, Schema, SimpleTypes};

fn typed(kinds: Vec<SimpleTypes>) -> Schema {
    Schema { type_: OneOrMany::Many(kinds), ..Schema::default() }
}

fn names(list: &[&str]) -> Option<Vec<String>> {
    Some(list.iter().map(|s| s.to_string()).collect())
}

fn kinds_of(s: &Schema) -> Vec<SimpleTypes> {
    (0..s.type_.len()).map(|i| *s.type_.get(i)).collect()
}

#[test]
fn required_names_are_united() {
    let mut a = Schema { required: names(&["a"]), ..Schema::default() };
    let b = Schema { required: names(&["b"]), ..Schema::default() };
    merge_all_of(&mut a, &b);
    assert_eq!(a.required, names(&["a", "b"]));
}

#[test]
fn declared_kinds_are_intersected() {
    let mut a = typed(vec![SimpleTypes::String]);
    let b = typed(vec![SimpleTypes::String, SimpleTypes::Integer]);
    merge_all_of(&mut a, &b);
    assert_eq!(kinds_of(&a), vec![SimpleTypes::String]);

    let mut a = typed(vec![SimpleTypes::String, SimpleTypes::Integer, SimpleTypes::Null]);
    let b = typed(vec![SimpleTypes::Null, SimpleTypes::String]);
    merge_all_of(&mut a, &b);
    assert_eq!(kinds_of(&a), vec![SimpleTypes::String, SimpleTypes::Null]);

    let mut a = typed(vec![SimpleTypes::String]);
    let b = typed(vec![]);
    merge_all_of(&mut a, &b);
    assert_eq!(kinds_of(&a), vec![]);
}

#[test]
fn single_kind_is_narrowed_as_a_list() {
    let mut a = Schema { type_: OneOrMany::One(Box::new(SimpleTypes::Object)), ..Schema::default() };
    let b = Schema { type_: OneOrMany::One(Box::new(SimpleTypes::Object)), ..Schema::default() };
    merge_all_of(&mut a, &b);
    assert_eq!(kinds_of(&a), vec![SimpleTypes::Object]);
    assert!(matches!(a.type_, OneOrMany::Many(_)));
}

#[test]
fn merge_option_cases() {
    let mut r = names(&["a"]);
    merge_option(&mut r, &names(&["b", "a"]));
    assert_eq!(r, names(&["a", "b", "a"]));

    let mut r = None;
    merge_option(&mut r, &names(&["b"]));
    assert_eq!(r, names(&["b"]));

    let mut r = names(&["a"]);
    merge_option(&mut r, &None);
    assert_eq!(r, names(&["a"]));

    let mut r: Option<Vec<String>> = None;
    merge_option(&mut r, &None);
    assert_eq!(r, None);

    let mut r = names(&[]);
    merge_option(&mut r, &names(&[]));
    assert_eq!(r, names(&[]));
}

#[test]
fn properties_are_added_or_merged() {
    let mut a = Schema::default();
    a.properties.push(("x".to_string(), Schema { required: names(&["p"]), ..typed(vec![SimpleTypes::String, SimpleTypes::Null]) }));
    a.properties.push(("y".to_string(), typed(vec![SimpleTypes::Integer])));
    let mut b = Schema::default();
    b.properties.push(("z".to_string(), typed(vec![SimpleTypes::Boolean])));
    b.properties.push(("x".to_string(), Schema { required: names(&["q"]), ..typed(vec![SimpleTypes::String]) }));
    merge_all_of(&mut a, &b);
    let keys: Vec<&str> = a.properties.iter().map(|e| e.0.as_str()).collect();
    assert_eq!(keys, vec!["x", "y", "z"]);
    assert_eq!(kinds_of(&a.properties[0].1), vec![SimpleTypes::String]);
    assert_eq!(a.properties[0].1.required, names(&["p", "q"]));
    assert_eq!(kinds_of(&a.properties[1].1), vec![SimpleTypes::Integer]);
    assert_eq!(kinds_of(&a.properties[2].1), vec![SimpleTypes::Boolean]);
}

#[test]
fn reference_and_description_of_the_source_win() {
    let mut a = Schema {
        ref_: Some("#/definitions/a".to_string()),
        description: Some("first".to_string()),
        ..Schema::default()
    };
    let b = Schema {
        ref_: Some("#/definitions/b".to_string()),
        description: Some("second".to_string()),
        ..Schema::default()
    };
    merge_all_of(&mut a, &b);
    assert_eq!(a.ref_, Some("#/definitions/b".to_string()));
    assert_eq!(a.description, Some("second".to_string()));
    merge_all_of(&mut a, &Schema::default());
    assert_eq!(a.ref_, Some("#/definitions/b".to_string()));
    assert_eq!(a.description, Some("second".to_string()));
}

#[test]
fn other_attributes_stay_those_of_the_target() {
    let mut a = Schema::default();
    a.items.push(typed(vec![SimpleTypes::String]));
    a.definitions.push(("d".to_string(), Schema::default()));
    let mut b = Schema::default();
    b.items.push(typed(vec![SimpleTypes::Integer]));
    b.definitions.push(("e".to_string(), Schema::default()));
    b.any_of = Some(vec![]);
    merge_all_of(&mut a, &b);
    assert_eq!(a.items.len(), 1);
    assert_eq!(kinds_of(&a.items[0]), vec![SimpleTypes::String]);
    assert_eq!(a.definitions.len(), 1);
    assert_eq!(a.definitions[0].0, "d");
    assert!(a.any_of.is_none());
}

#[test]
fn merging_is_associative_in_required_names_and_kinds() {
    let a = Schema { required: names(&["a"]), ..typed(vec![SimpleTypes::String, SimpleTypes::Integer, SimpleTypes::Null]) };
    let b = Schema { required: None, ..typed(vec![SimpleTypes::Integer, SimpleTypes::String]) };
    let c = Schema { required: names(&["c"]), ..typed(vec![SimpleTypes::String, SimpleTypes::Null]) };

    let mut left = schemafy::schema::clone_schema(&a);
    merge_all_of(&mut left, &b);
    merge_all_of(&mut left, &c);

    let mut bc = schemafy::schema::clone_schema(&b);
    merge_all_of(&mut bc, &c);
    let mut right = schemafy::schema::clone_schema(&a);
    merge_all_of(&mut right, &bc);

    assert_eq!(left.required, right.required);
    assert_eq!(left.required, names(&["a", "c"]));
    assert_eq!(kinds_of(&left), kinds_of(&right));
    assert_eq!(kinds_of(&left), vec![SimpleTypes::String]);
    assert!(schema_eq(&left, &right));
}

#[test]
fn kinds_helpers() {
    let kinds = OneOrMany::Many(vec![SimpleTypes::String, SimpleTypes::Null]);
    assert!(has_kind(&kinds, SimpleTypes::Null));
    assert!(!has_kind(&kinds, SimpleTypes::Array));
    assert_eq!(
        common_kinds(&vec![SimpleTypes::Null, SimpleTypes::Array, SimpleTypes::Null], &kinds),
        vec![SimpleTypes::Null, SimpleTypes::Null]
    );
}

#[test]
fn new_property_goes_where_its_name_belongs() {
    let mut a = Schema::default();
    a.properties.push(("b".to_string(), typed(vec![SimpleTypes::String])));
    a.properties.push(("d".to_string(), typed(vec![SimpleTypes::String])));
    let mut b = Schema::default();
    b.properties.push(("e".to_string(), typed(vec![SimpleTypes::Integer])));
    b.properties.push(("a".to_string(), typed(vec![SimpleTypes::Integer])));
    b.properties.push(("c".to_string(), typed(vec![SimpleTypes::Integer])));
    merge_all_of(&mut a, &b);
    let keys: Vec<&str> = a.properties.iter().map(|e| e.0.as_str()).collect();
    assert_eq!(keys, vec!["a", "b", "c", "d", "e"]);
    assert!(schemafy::schema::is_well_formed(&a));
}
