use item_registry::model::{BuildError, Category, Declaration, ModuleItem, TypeDesc};
use item_registry::registry::{build_registry, classify, Registry};

fn named(s: &str) -> TypeDesc {
    TypeDesc::Named(s.to_string())
}

fn value(name: &str, ty: TypeDesc) -> Declaration {
    Declaration { name: name.to_string(), ty, category: Category::Value }
}

fn location(name: &str, ty: TypeDesc) -> Declaration {
    Declaration { name: name.to_string(), ty, category: Category::Location }
}

fn build(decls: Vec<Declaration>) -> Registry {
    build_registry(decls).expect("all declarations should be supported")
}

#[test]
fn table_order_equals_source_order() {
    let reg = build(vec![
        value("A", named("u8")),
        value("B", named("i32")),
        value("C", named("u8")),
    ]);
    let names: Vec<&str> = reg.consts.iter().map(|e| e.name.as_str()).collect();
    assert_eq!(names, ["A", "B", "C"]);
}

#[test]
fn partition_by_category_is_exact() {
    let reg = build(vec![
        value("A", named("u8")),
        location("S", named("u8")),
        value("B", named("i32")),
        location("T", named("str")),
    ]);
    let consts: Vec<&str> = reg.consts.iter().map(|e| e.name.as_str()).collect();
    let statics: Vec<&str> = reg.statics.iter().map(|e| e.name.as_str()).collect();
    assert_eq!(consts, ["A", "B"]);
    assert_eq!(statics, ["S", "T"]);
    assert_eq!(reg.consts.len() + reg.statics.len(), 4);
}

#[test]
fn location_bindings_tag_the_referenced_type() {
    let reg = build(vec![location("S", named("u8"))]);
    assert_eq!(reg.statics[0].tag, "U8Ref");
    assert_eq!(reg.variants.len(), 1);
    assert_eq!(reg.variants[0].tag, "U8Ref");
    assert!(matches!(reg.variants[0].category, Category::Location));
}

#[test]
fn variants_deduplicate_by_tag_in_first_occurrence_order() {
    let reg = build(vec![
        value("A", named("u8")),
        value("B", named("i32")),
        value("C", named("u8")),
    ]);
    let tags: Vec<&str> = reg.variants.iter().map(|v| v.tag.as_str()).collect();
    assert_eq!(tags, ["U8", "I32"]);
}

#[test]
fn colliding_tags_keep_last_writers_payload() {
    // two distinct base names that collide after capitalization
    let reg = build(vec![value("A", named("point")), value("B", named("Point"))]);
    assert_eq!(reg.variants.len(), 1);
    assert_eq!(reg.variants[0].tag, "Point");
    match &reg.variants[0].payload {
        TypeDesc::Named(n) => assert_eq!(n, "Point"),
        _ => panic!("payload should be the last writer's type"),
    }
    // both table rows still reference the shared tag
    assert_eq!(reg.consts[0].tag, "Point");
    assert_eq!(reg.consts[1].tag, "Point");
}

#[test]
fn unsupported_declaration_is_fatal_for_the_module() {
    let r = build_registry(vec![
        value("A", named("u8")),
        value("B", TypeDesc::Unsupported("Vec<T>".to_string())),
        value("C", named("i32")),
    ]);
    let BuildError::UnsupportedType(msg) = match r {
        Ok(_) => panic!("generation must abort with no partial output"),
        Err(e) => e,
    };
    assert_eq!(msg, "Vec<T>");
}

#[test]
fn classification_keeps_bindings_and_skips_the_rest() {
    let decls = classify(vec![
        ModuleItem::Other,
        ModuleItem::Value("A".to_string(), named("u8")),
        ModuleItem::Other,
        ModuleItem::Location("S".to_string(), named("i32")),
        ModuleItem::Other,
    ]);
    assert_eq!(decls.len(), 2);
    assert_eq!(decls[0].name, "A");
    assert!(matches!(decls[0].category, Category::Value));
    assert_eq!(decls[1].name, "S");
    assert!(matches!(decls[1].category, Category::Location));
}

#[test]
fn empty_module_builds_empty_registry() {
    let reg = build(Vec::new());
    assert!(reg.consts.is_empty());
    assert!(reg.statics.is_empty());
    assert!(reg.variants.is_empty());
}
