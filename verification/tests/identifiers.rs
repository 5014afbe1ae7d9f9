use schemafy::error::ExpandError;
use schemafy::ident::{
    append_rename_attr, contains_sigil, field, field_from_snake, rename_keyword, to_type_name,
    without_sigils, MAX_NAME_LEN,
};
use schemafy::tokens::{concat_tokens, separate_tokens};

fn tokens_of(text: &str) -> quote::Tokens {
    let mut t = quote::Tokens::new();
    t.append(text);
    t
}

#[test]
fn type_names_are_pascal_case() {
    assert_eq!(to_type_name("fooBar"), Ok("FooBar".to_string()));
    assert_eq!(to_type_name("foo_bar"), Ok("FooBar".to_string()));
    assert_eq!(to_type_name("positiveInteger"), Ok("PositiveInteger".to_string()));
    assert_eq!(to_type_name("Schema"), Ok("Schema".to_string()));
    assert_eq!(to_type_name("$schema"), Ok("Schema".to_string()));
}

#[test]
fn name_that_is_too_long_is_refused() {
    let long = "a".repeat(MAX_NAME_LEN + 1);
    assert_eq!(to_type_name(&long), Err(ExpandError::NameTooLong));
    assert!(matches!(field(&long), Err(ExpandError::NameTooLong)));
}

#[test]
fn reserved_words_get_an_underscore() {
    for word in ["type", "struct", "enum"] {
        let t = rename_keyword("pub", word).expect("reserved");
        assert_eq!(
            t.as_str(),
            format!("# [ serde ( rename = \"{}\" ) ] pub {}_", word, word)
        );
    }
}

#[test]
fn reserved_word_without_prefix() {
    let t = rename_keyword("", "enum").expect("reserved");
    assert_eq!(t.as_str(), "# [ serde ( rename = \"enum\" ) ] enum_");
}

#[test]
fn other_words_are_not_renamed() {
    assert!(rename_keyword("pub", "name").is_none());
    assert!(rename_keyword("pub", "Type").is_none());
    assert!(rename_keyword("pub", "types").is_none());
    assert!(rename_keyword("pub", "").is_none());
}

#[test]
fn property_named_type_becomes_type_underscore() {
    let t = field("type").expect("short name");
    assert_eq!(t.as_str(), "# [ serde ( rename = \"type\" ) ] pub type_");
}

#[test]
fn plain_field_stands_as_it_is() {
    assert_eq!(field("name").expect("short name").as_str(), "pub name");
    assert_eq!(field("foo_bar").expect("short name").as_str(), "pub foo_bar");
}

#[test]
fn camel_case_field_is_renamed() {
    assert_eq!(
        field("fooBar").expect("short name").as_str(),
        "# [ serde ( rename = \"fooBar\" ) ] pub foo_bar"
    );
    assert_eq!(
        field("additionalProperties").expect("short name").as_str(),
        "# [ serde ( rename = \"additionalProperties\" ) ] pub additional_properties"
    );
}

#[test]
fn field_with_a_sigil_keeps_its_name_on_the_wire() {
    let t = field("$ref").expect("short name");
    assert_eq!(t.as_str(), "# [ serde ( rename = \"$ref\" ) ] pub ref_");
    let t = field("$schema").expect("short name");
    assert_eq!(t.as_str(), "# [ serde ( rename = \"$schema\" ) ] pub schema");
}

#[test]
fn field_from_a_given_snake_case() {
    assert_eq!(
        field_from_snake("$ref", "$ref").as_str(),
        "# [ serde ( rename = \"$ref\" ) ] pub ref_"
    );
    assert_eq!(
        field_from_snake("$ref", "ref").as_str(),
        "# [ serde ( rename = \"$ref\" ) ] pub ref_"
    );
    assert_eq!(
        field_from_snake("Ref", "$ref").as_str(),
        "# [ serde ( rename = \"Ref\" ) ] pub ref_"
    );
    assert_eq!(
        field_from_snake("$schema", "$schema").as_str(),
        "# [ serde ( rename = \"$schema\" ) ] pub schema"
    );
    assert_eq!(
        field_from_snake("a#b", "a#b").as_str(),
        "# [ serde ( rename = \"a#b\" ) ] pub ab"
    );
    assert_eq!(
        field_from_snake("fooBar", "foo_bar").as_str(),
        "# [ serde ( rename = \"fooBar\" ) ] pub foo_bar"
    );
    assert_eq!(field_from_snake("foo", "foo").as_str(), "pub foo");
    assert_eq!(
        field_from_snake("type", "anything").as_str(),
        "# [ serde ( rename = \"type\" ) ] pub type_"
    );
}

#[test]
fn sigils_are_found_and_removed() {
    let chars: Vec<char> = "a$b#c".chars().collect();
    assert!(contains_sigil(&chars));
    assert_eq!(without_sigils(&chars), "abc");
    let plain: Vec<char> = "abc".chars().collect();
    assert!(!contains_sigil(&plain));
    assert_eq!(without_sigils(&plain), "abc");
    assert!(!contains_sigil(&Vec::new()));
    assert_eq!(without_sigils(&Vec::new()), "");
}

#[test]
fn rename_attribute_escapes_the_name() {
    let mut t = quote::Tokens::new();
    append_rename_attr(&mut t, "a\"b\\c");
    assert_eq!(t.as_str(), "# [ serde ( rename = \"a\\\"b\\\\c\" ) ]");
    let mut t = tokens_of("x");
    append_rename_attr(&mut t, "n");
    assert_eq!(t.as_str(), "x # [ serde ( rename = \"n\" ) ]");
}

#[test]
fn tokens_are_joined_by_single_spaces() {
    let list = vec![tokens_of("a"), tokens_of(""), tokens_of("b c"), tokens_of("d")];
    assert_eq!(concat_tokens(&list).as_str(), "a b c d");
    assert_eq!(concat_tokens(&Vec::new()).as_str(), "");
}

#[test]
fn tokens_are_separated() {
    let list = vec![tokens_of("a"), tokens_of("b"), tokens_of("c")];
    assert_eq!(separate_tokens(&list, ",").as_str(), "a , b , c");
    assert_eq!(separate_tokens(&vec![tokens_of("a")], ",").as_str(), "a");
    assert_eq!(separate_tokens(&Vec::new(), ",").as_str(), "");
}
