use schemafy::merge::merge_all_of;
use schemafy::schema::{
    as_mut_vec, clone_schema, find_entry, is_well_formed, keys_are_sorted, literal_eq,
    schema_eq, Literal, OneOrMany, Schema, SimpleTypes,
};

fn typed(kind: SimpleTypes) -> Schema {
    Schema { type_: OneOrMany::One(Box::new(kind)), ..Schema::default() }
}

#[test]
fn single_item_becomes_a_list() {
    let mut one = OneOrMany::One(Box::new(SimpleTypes::String));
    as_mut_vec(&mut one).push(SimpleTypes::Null);
    match one {
        OneOrMany::Many(items) => assert_eq!(items, vec![SimpleTypes::String, SimpleTypes::Null]),
        OneOrMany::One(_) => panic!("still a single item"),
    }
}

#[test]
fn list_stays_a_list() {
    let mut many = OneOrMany::Many(vec![SimpleTypes::Integer, SimpleTypes::Number]);
    assert_eq!(as_mut_vec(&mut many).len(), 2);
    as_mut_vec(&mut many).clear();
    assert_eq!(many.len(), 0);
}

#[test]
fn one_or_many_len_and_get() {
    let one = OneOrMany::One(Box::new(7u8));
    assert_eq!(one.len(), 1);
    assert_eq!(*one.get(0), 7);
    let many = OneOrMany::Many(vec![1u8, 2, 3]);
    assert_eq!(many.len(), 3);
    assert_eq!(*many.get(2), 3);
}

#[test]
fn default_schema_is_empty() {
    let s = Schema::default();
    assert!(s.ref_.is_none());
    assert_eq!(s.type_.len(), 0);
    assert!(s.properties.is_empty());
    assert!(s.required.is_none());
    assert!(s.items.is_empty());
    assert!(s.additional_properties.is_none());
    assert!(s.all_of.is_none());
    assert!(s.any_of.is_none());
    assert!(s.enum_.is_none());
    assert!(s.default.is_none());
    assert!(s.description.is_none());
    assert!(s.definitions.is_empty());
}

#[test]
fn copy_equals_original() {
    let mut s = typed(SimpleTypes::Object);
    s.ref_ = Some("#/definitions/a".to_string());
    s.properties.push(("a".to_string(), typed(SimpleTypes::String)));
    s.required = Some(vec!["a".to_string()]);
    s.items.push(typed(SimpleTypes::Integer));
    s.additional_properties = Some(Box::new(typed(SimpleTypes::Boolean)));
    s.all_of = Some(vec![typed(SimpleTypes::Null)]);
    s.any_of = Some(vec![]);
    s.enum_ = Some(vec![Literal::Text("x".to_string()), Literal::Number("1".to_string())]);
    s.default = Some(Literal::Object(vec![("k".to_string(), Literal::Array(vec![Literal::Null]))]));
    s.description = Some("text".to_string());
    s.definitions.push(("d".to_string(), Schema::default()));
    let copy = clone_schema(&s);
    assert!(schema_eq(&s, &copy));
    assert_eq!(copy.properties[0].0, "a");
    assert_eq!(copy.required, Some(vec!["a".to_string()]));
    assert_eq!(copy.description, Some("text".to_string()));
}

#[test]
fn equality_sees_every_attribute() {
    let base = typed(SimpleTypes::String);
    assert!(schema_eq(&base, &typed(SimpleTypes::String)));
    assert!(!schema_eq(&base, &typed(SimpleTypes::Integer)));

    let mut other = typed(SimpleTypes::String);
    other.ref_ = Some("#".to_string());
    assert!(!schema_eq(&base, &other));

    let mut other = typed(SimpleTypes::String);
    other.properties.push(("a".to_string(), Schema::default()));
    assert!(!schema_eq(&base, &other));

    let mut other = typed(SimpleTypes::String);
    other.required = Some(vec![]);
    assert!(!schema_eq(&base, &other));

    let mut other = typed(SimpleTypes::String);
    other.items.push(Schema::default());
    assert!(!schema_eq(&base, &other));

    let mut other = typed(SimpleTypes::String);
    other.additional_properties = Some(Box::new(Schema::default()));
    assert!(!schema_eq(&base, &other));

    let mut other = typed(SimpleTypes::String);
    other.all_of = Some(vec![]);
    assert!(!schema_eq(&base, &other));

    let mut other = typed(SimpleTypes::String);
    other.any_of = Some(vec![]);
    assert!(!schema_eq(&base, &other));

    let mut other = typed(SimpleTypes::String);
    other.enum_ = Some(vec![]);
    assert!(!schema_eq(&base, &other));

    let mut other = typed(SimpleTypes::String);
    other.default = Some(Literal::Null);
    assert!(!schema_eq(&base, &other));

    let mut other = typed(SimpleTypes::String);
    other.description = Some(String::new());
    assert!(!schema_eq(&base, &other));

    let mut other = typed(SimpleTypes::String);
    other.definitions.push(("a".to_string(), Schema::default()));
    assert!(!schema_eq(&base, &other));
}

#[test]
fn single_kind_equals_list_of_that_kind() {
    let one = typed(SimpleTypes::String);
    let many = Schema { type_: OneOrMany::Many(vec![SimpleTypes::String]), ..Schema::default() };
    assert!(schema_eq(&one, &many));
}

#[test]
fn nested_difference_is_found() {
    let mut a = Schema::default();
    a.properties.push(("p".to_string(), typed(SimpleTypes::String)));
    let mut b = Schema::default();
    b.properties.push(("p".to_string(), typed(SimpleTypes::Integer)));
    assert!(!schema_eq(&a, &b));
    let mut c = Schema::default();
    c.properties.push(("q".to_string(), typed(SimpleTypes::String)));
    assert!(!schema_eq(&a, &c));
}

#[test]
fn literal_equality() {
    let a = Literal::Object(vec![("k".to_string(), Literal::Array(vec![Literal::Bool(true)]))]);
    let b = Literal::Object(vec![("k".to_string(), Literal::Array(vec![Literal::Bool(true)]))]);
    let c = Literal::Object(vec![("k".to_string(), Literal::Array(vec![Literal::Bool(false)]))]);
    assert!(literal_eq(&a, &b));
    assert!(!literal_eq(&a, &c));
    assert!(!literal_eq(&Literal::Null, &Literal::Bool(false)));
    assert!(!literal_eq(&Literal::Number("1".to_string()), &Literal::Text("1".to_string())));
    assert!(literal_eq(&Literal::Number("1".to_string()), &Literal::Number("1".to_string())));
    assert!(!literal_eq(&Literal::Array(vec![]), &Literal::Array(vec![Literal::Null])));
    assert!(!literal_eq(&Literal::Object(vec![]), &Literal::Array(vec![])));
}

#[test]
fn find_entry_gives_first_match_or_length() {
    let list = vec![
        ("a".to_string(), typed(SimpleTypes::String)),
        ("b".to_string(), typed(SimpleTypes::Integer)),
        ("a".to_string(), typed(SimpleTypes::Boolean)),
    ];
    assert_eq!(find_entry(&list, "a"), 0);
    assert_eq!(find_entry(&list, "b"), 1);
    assert_eq!(find_entry(&list, "c"), 3);
    assert_eq!(find_entry(&Vec::new(), "a"), 0);
}

#[test]
fn names_out_of_order_are_found() {
    let unsorted = vec![
        ("b".to_string(), Schema::default()),
        ("a".to_string(), Schema::default()),
    ];
    assert!(!keys_are_sorted(&unsorted));
    let prefix_first = vec![
        ("ab".to_string(), Schema::default()),
        ("abc".to_string(), Schema::default()),
        ("b".to_string(), Schema::default()),
        ("é".to_string(), Schema::default()),
    ];
    assert!(keys_are_sorted(&prefix_first));
    let mut names: Vec<String> = prefix_first.iter().map(|e| e.0.clone()).collect();
    names.sort();
    assert_eq!(names, vec!["ab", "abc", "b", "é"]);
    assert!(keys_are_sorted(&vec![("only".to_string(), Schema::default())]));
}

#[test]
fn names_that_occur_twice_are_found() {
    let distinct = vec![
        ("a".to_string(), Schema::default()),
        ("b".to_string(), Schema::default()),
        ("c".to_string(), Schema::default()),
    ];
    assert!(keys_are_sorted(&distinct));
    assert!(keys_are_sorted(&Vec::new()));
    let twice = vec![
        ("a".to_string(), Schema::default()),
        ("b".to_string(), Schema::default()),
        ("a".to_string(), Schema::default()),
    ];
    assert!(!keys_are_sorted(&twice));
}

#[test]
fn well_formed_means_distinct_names_all_the_way_down() {
    assert!(is_well_formed(&Schema::default()));
    let mut good = typed(SimpleTypes::Object);
    good.properties.push(("a".to_string(), typed(SimpleTypes::String)));
    good.properties.push(("b".to_string(), typed(SimpleTypes::String)));
    good.definitions.push(("a".to_string(), typed(SimpleTypes::String)));
    assert!(is_well_formed(&good));

    let mut bad = typed(SimpleTypes::Object);
    bad.properties.push(("a".to_string(), typed(SimpleTypes::String)));
    bad.properties.push(("a".to_string(), typed(SimpleTypes::Integer)));
    assert!(!is_well_formed(&bad));

    let mut bad_definitions = Schema::default();
    bad_definitions.definitions.push(("a".to_string(), Schema::default()));
    bad_definitions.definitions.push(("a".to_string(), Schema::default()));
    assert!(!is_well_formed(&bad_definitions));

    for place in 0..6 {
        let mut outer = Schema::default();
        let inner = clone_schema(&bad);
        match place {
            0 => outer.properties.push(("p".to_string(), inner)),
            1 => outer.definitions.push(("d".to_string(), inner)),
            2 => outer.items.push(inner),
            3 => outer.additional_properties = Some(Box::new(inner)),
            4 => outer.all_of = Some(vec![Schema::default(), inner]),
            _ => outer.any_of = Some(vec![inner]),
        }
        assert!(!is_well_formed(&outer));
    }
}

#[test]
fn unsorted_properties_are_not_well_formed() {
    let mut node = Schema::default();
    node.properties.push(("b".to_string(), Schema::default()));
    node.properties.push(("a".to_string(), Schema::default()));
    assert!(!is_well_formed(&node));
}

#[test]
fn merging_keeps_names_distinct() {
    let mut a = Schema::default();
    a.properties.push(("x".to_string(), typed(SimpleTypes::String)));
    a.properties.push(("y".to_string(), typed(SimpleTypes::String)));
    let mut b = Schema::default();
    b.properties.push(("y".to_string(), typed(SimpleTypes::String)));
    b.properties.push(("z".to_string(), typed(SimpleTypes::String)));
    assert!(is_well_formed(&a) && is_well_formed(&b));
    merge_all_of(&mut a, &b);
    assert!(is_well_formed(&a));
    assert_eq!(a.properties.len(), 3);
}
