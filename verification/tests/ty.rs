#![allow(unused_imports)]

use vl::ty::VlType;

fn obj(name: &str) -> VlType {
    VlType::Object(name.into())
}

#[test]
fn display_round_trips_mutable_spelling() {
    assert_eq!(VlType::Mutable(Box::new(obj("Foo"))).to_string(), "*Foo");
    assert_eq!(
        VlType::Mutable(Box::new(VlType::Array(Box::new(VlType::U64)))).to_string(),
        "*Array[u64]"
    );
    assert_eq!(
        VlType::Array(Box::new(VlType::Mutable(Box::new(obj("Foo"))))).to_string(),
        "Array[*Foo]"
    );
    assert_eq!(
        VlType::Mutable(Box::new(VlType::Array(Box::new(VlType::Mutable(
            Box::new(obj("Foo"))
        )))))
        .to_string(),
        "*Array[*Foo]"
    );
}

#[test]
fn reference_and_mutable_predicates() {
    assert!(VlType::String.is_reference_type());
    assert!(VlType::File.is_reference_type());
    assert!(obj("Foo").is_reference_type());
    assert!(VlType::Array(Box::new(VlType::U64)).is_reference_type());
    assert!(!VlType::U64.is_reference_type());
    assert!(!VlType::Bool.is_reference_type());
    assert!(!VlType::Void.is_reference_type());
    assert!(!VlType::Param("T".into()).is_reference_type());

    let m = VlType::Mutable(Box::new(obj("Foo")));
    assert!(m.is_mutable_view());
    assert!(m.is_reference_type());
    assert!(!obj("Foo").is_mutable_view());
    assert_eq!(m.readonly_view(), obj("Foo"));
    assert_eq!(obj("Foo").readonly_view(), obj("Foo"));
}

#[test]
fn erase_and_runtime_type() {
    let t = VlType::Mutable(Box::new(VlType::Array(Box::new(VlType::Mutable(
        Box::new(obj("Foo")),
    )))));
    assert_eq!(t.erase_capability(), VlType::Array(Box::new(obj("Foo"))));
    assert_eq!(t.runtime_type(), VlType::Array(Box::new(obj("Foo"))));
    assert_eq!(VlType::U64.erase_capability(), VlType::U64);
}

#[test]
fn array_elem_looks_through_mutable() {
    let inner = VlType::U64;
    let arr = VlType::Array(Box::new(inner.clone()));
    let marr = VlType::Mutable(Box::new(arr.clone()));
    assert_eq!(arr.array_elem(), Some(&inner));
    assert_eq!(marr.array_elem(), Some(&inner));
    assert_eq!(VlType::U64.array_elem(), None);
}

#[test]
fn mutable_wellformedness() {
    // Valid reference capabilities.
    assert_eq!(
        VlType::Mutable(Box::new(obj("Foo"))).mutable_wellformed_error(),
        None
    );
    assert_eq!(
        VlType::Mutable(Box::new(VlType::String)).mutable_wellformed_error(),
        None
    );
    assert_eq!(
        VlType::Mutable(Box::new(VlType::Array(Box::new(VlType::U64))))
            .mutable_wellformed_error(),
        None
    );
    assert_eq!(
        VlType::Mutable(Box::new(VlType::Array(Box::new(VlType::Param("T".into())))))
            .mutable_wellformed_error(),
        None
    );
    assert_eq!(
        VlType::Array(Box::new(VlType::Mutable(Box::new(obj("Foo")))))
            .mutable_wellformed_error(),
        None
    );
    // Invalid shapes.
    assert!(VlType::Mutable(Box::new(VlType::U64))
        .mutable_wellformed_error()
        .is_some());
    assert!(VlType::Mutable(Box::new(VlType::Bool))
        .mutable_wellformed_error()
        .is_some());
    assert!(VlType::Mutable(Box::new(VlType::Void))
        .mutable_wellformed_error()
        .is_some());
    assert!(
        VlType::Mutable(Box::new(VlType::Mutable(Box::new(obj("Foo")))))
            .mutable_wellformed_error()
            .is_some()
    );
    assert!(VlType::Mutable(Box::new(VlType::Param("T".into())))
        .mutable_wellformed_error()
        .is_some());
    assert!(
        VlType::Array(Box::new(VlType::Mutable(Box::new(VlType::U64))))
            .mutable_wellformed_error()
            .is_some()
    );
    assert!(
        VlType::Mutable(Box::new(VlType::Array(Box::new(VlType::Mutable(
            Box::new(VlType::U64)
        )))))
        .mutable_wellformed_error()
        .is_some()
    );
}

#[test]
fn void_is_recursive() {
    assert!(VlType::Void.is_void());
    assert!(VlType::Mutable(Box::new(VlType::Void)).is_void());
    assert!(!obj("Foo").is_void());
    assert!(!VlType::U64.is_void());
}
