#![allow(unused_imports)]

use vl::module::{Export, ExportKind, FuncSig, ModuleInterface, ModuleOrigin, ModulePath, ModuleSpec, ParamSig, TypeParamSig, UnionExport, UnionVariantSig};
use vl::ty::{GenericBound, VlType};

#[test]
fn monomorphic_and_generic_signatures_with_bounds() {
    let mono = FuncSig::new(&[("a", VlType::U64)], VlType::U64);
    assert!(!mono.is_generic());
    let generic = FuncSig::generic(
        vec![TypeParamSig {
            name: "T".into(),
            bound: Some(GenericBound::Numeric),
        }],
        vec![ParamSig {
            name: "a".into(),
            ty: VlType::Param("T".into()),
        }],
        VlType::Param("T".into()),
    );
    assert!(generic.is_generic());
    assert_eq!(generic.type_params[0].bound, Some(GenericBound::Numeric));
}

#[test]
fn source_and_target_exports_after_merge() {
    let mut catalog = [ModuleSpec::new(
        &["std", "math"],
        &[("mod_u64", &[("a", VlType::U64)], VlType::U64)],
    )];
    assert_eq!(catalog[0].exports[0].kind, ExportKind::Target);
    let helper = Export::source(
        "max".into(),
        FuncSig::generic(
            vec![TypeParamSig {
                name: "T".into(),
                bound: Some(GenericBound::Numeric),
            }],
            vec![],
            VlType::Param("T".into()),
        ),
    );
    assert!(helper.is_generic());
    assert!(helper.is_source());
    catalog[0].exports.push(helper);
    let native = catalog[0].lookup("mod_u64").expect("native");
    let generic = catalog[0].lookup("max").expect("helper");
    assert_eq!(native.kind, ExportKind::Target);
    assert_eq!(generic.kind, ExportKind::Source);
}

#[test]
fn interface_spec_round_trip_preserves_union_metadata() {
    let interface = ModuleInterface {
        path: ModulePath::from_dotted("demo.types"),
        origin: ModuleOrigin::Source,
        functions: Vec::new(),
        objects: Vec::new(),
        unions: vec![UnionExport {
            name: "Option".into(),
            qualified: "demo.types.Option".into(),
            type_params: vec![TypeParamSig {
                name: "T".into(),
                bound: None,
            }],
            variants: vec![UnionVariantSig {
                name: "Some".into(),
                payload: vec![VlType::Param("T".into())],
            }],
        }],
        parse_poisoned: false,
        poisoned_exports: Vec::new(),
        global_dependent_exports: Vec::new(),
    };
    let spec = interface.as_spec();
    assert_eq!(spec.unions, interface.unions);
}
