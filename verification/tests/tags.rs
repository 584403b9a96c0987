use item_registry::model::TypeDesc;
use item_registry::tag::derive_tag;

fn named(s: &str) -> TypeDesc {
    TypeDesc::Named(s.to_string())
}

fn tag_of(t: &TypeDesc) -> String {
    derive_tag(t).expect("type should be supported")
}

#[test]
fn named_type_is_capitalized() {
    assert_eq!(tag_of(&named("u8")), "U8");
    assert_eq!(tag_of(&named("String")), "String");
    assert_eq!(tag_of(&named("i32")), "I32");
}

#[test]
fn unit_tuple_has_unit_tag() {
    let t = TypeDesc::Tuple(Vec::new());
    assert_eq!(tag_of(&t), "Unit");
}

#[test]
fn nested_composite_array_of_pointers() {
    // [*const u8; 3]: the element name, then the pointer suffix, then the
    // array length suffix.
    let t = TypeDesc::Array(
        Box::new(TypeDesc::Ptr(Box::new(named("u8")), false)),
        "3".to_string(),
    );
    assert_eq!(tag_of(&t), "U8Ptr_3");
}

#[test]
fn mutable_pointer_suffix() {
    let t = TypeDesc::Ptr(Box::new(named("u8")), true);
    assert_eq!(tag_of(&t), "U8MutPtr");
}

#[test]
fn reference_and_slice_suffixes() {
    assert_eq!(tag_of(&TypeDesc::Reference(Box::new(named("str")))), "StrRef");
    assert_eq!(tag_of(&TypeDesc::Slice(Box::new(named("u8")))), "U8Slice");
}

#[test]
fn tuple_concatenates_component_tags_in_order() {
    let t = TypeDesc::Tuple(vec![named("u8"), named("i32")]);
    assert_eq!(tag_of(&t), "U8I32");
    let one = TypeDesc::Tuple(vec![named("bool")]);
    assert_eq!(tag_of(&one), "Bool");
}

#[test]
fn unit_tuple_nested_inside_a_tuple() {
    let t = TypeDesc::Tuple(vec![TypeDesc::Tuple(Vec::new()), named("u8")]);
    assert_eq!(tag_of(&t), "UnitU8");
}

#[test]
fn never_tag() {
    assert_eq!(tag_of(&TypeDesc::Never), "Never");
}

#[test]
fn array_length_text_is_embedded_verbatim() {
    let t = TypeDesc::Array(Box::new(named("u8")), "LEN".to_string());
    assert_eq!(tag_of(&t), "U8_LEN");
}

#[test]
fn unsupported_type_is_rejected_with_its_rendering() {
    let t = TypeDesc::Unsupported("dyn Trait".to_string());
    let err = derive_tag(&t).unwrap_err();
    let item_registry::model::BuildError::UnsupportedType(msg) = err;
    assert_eq!(msg, "dyn Trait");
}

#[test]
fn unsupported_nested_inside_composite_is_rejected() {
    let t = TypeDesc::Tuple(vec![
        named("u8"),
        TypeDesc::Slice(Box::new(TypeDesc::Unsupported("fn()".to_string()))),
        TypeDesc::Unsupported("impl T".to_string()),
    ]);
    let item_registry::model::BuildError::UnsupportedType(msg) = derive_tag(&t).unwrap_err();
    // the first offending form in a left-to-right traversal is reported
    assert_eq!(msg, "fn()");
}
