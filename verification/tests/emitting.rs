use item_registry::emit::{emit_registry, generate, render_type_string, usize_to_dec};
use item_registry::model::{BuildError, Category, Declaration, ModuleItem, TypeDesc};
use item_registry::registry::build_registry;

fn named(s: &str) -> TypeDesc {
    TypeDesc::Named(s.to_string())
}

fn value_item(name: &str, ty: TypeDesc) -> ModuleItem {
    ModuleItem::Value(name.to_string(), ty)
}

fn location_item(name: &str, ty: TypeDesc) -> ModuleItem {
    ModuleItem::Location(name.to_string(), ty)
}

#[test]
fn decimal_rendering() {
    assert_eq!(usize_to_dec(0), "0");
    assert_eq!(usize_to_dec(7), "7");
    assert_eq!(usize_to_dec(10), "10");
    assert_eq!(usize_to_dec(123), "123");
    assert_eq!(usize_to_dec(1000), "1000");
}

#[test]
fn type_rendering() {
    assert_eq!(render_type_string(&named("u8")), "u8");
    assert_eq!(
        render_type_string(&TypeDesc::Array(Box::new(named("u8")), "3".to_string())),
        "[u8; 3]"
    );
    assert_eq!(render_type_string(&TypeDesc::Tuple(Vec::new())), "()");
    assert_eq!(render_type_string(&TypeDesc::Tuple(vec![named("u8")])), "(u8,)");
    assert_eq!(
        render_type_string(&TypeDesc::Tuple(vec![named("u8"), named("i32"), named("bool")])),
        "(u8, i32, bool)"
    );
    assert_eq!(
        render_type_string(&TypeDesc::Ptr(Box::new(named("u8")), false)),
        "*const u8"
    );
    assert_eq!(render_type_string(&TypeDesc::Ptr(Box::new(named("u8")), true)), "*mut u8");
    assert_eq!(
        render_type_string(&TypeDesc::Reference(Box::new(named("str")))),
        "&'static str"
    );
    assert_eq!(render_type_string(&TypeDesc::Slice(Box::new(named("u8")))), "[u8]");
    assert_eq!(render_type_string(&TypeDesc::Never), "!");
}

#[test]
fn emitted_text_for_a_small_module() {
    let out = generate(vec![
        value_item("A", named("u8")),
        ModuleItem::Other,
        location_item("S", named("u8")),
    ])
    .expect("generation should succeed");
    let expected = "pub const CONSTS: [(&'static str, Item); 1] = [(\"A\", Item::U8(A)), ];\npub static STATICS: &[(&'static str, Item)] = &[(\"S\", Item::U8Ref(&(S))), ];\n#[non_exhaustive]\npub enum Item { U8(u8), U8Ref(&'static u8), }\n";
    assert_eq!(out, expected);
}

#[test]
fn emitted_text_for_an_empty_module() {
    let out = generate(Vec::new()).expect("generation should succeed");
    let expected = "pub const CONSTS: [(&'static str, Item); 0] = [];\npub static STATICS: &[(&'static str, Item)] = &[];\n#[non_exhaustive]\npub enum Item { }\n";
    assert_eq!(out, expected);
}

#[test]
fn generation_is_deterministic() {
    let items = || {
        vec![
            value_item("A", TypeDesc::Tuple(vec![named("u8"), named("i32")])),
            location_item("S", TypeDesc::Array(Box::new(named("u8")), "4".to_string())),
            value_item("B", named("bool")),
        ]
    };
    let first = generate(items()).expect("generation should succeed");
    let second = generate(items()).expect("generation should succeed");
    assert_eq!(first, second);
}

#[test]
fn fatal_rejection_emits_nothing() {
    let r = generate(vec![
        value_item("A", named("u8")),
        value_item("B", TypeDesc::Unsupported("dyn Fn()".to_string())),
    ]);
    match r {
        Ok(_) => panic!("generation must abort with no partial output"),
        Err(BuildError::UnsupportedType(msg)) => assert_eq!(msg, "dyn Fn()"),
    }
}

#[test]
fn variant_payload_rendering_follows_category() {
    let reg = build_registry(vec![
        Declaration { name: "A".to_string(), ty: named("u8"), category: Category::Value },
        Declaration { name: "S".to_string(), ty: named("i32"), category: Category::Location },
    ])
    .expect("supported");
    let out = emit_registry(&reg);
    assert!(out.contains("U8(u8), I32Ref(&'static i32), "));
}
