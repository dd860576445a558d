//! The native-definition catalogue: type resolution along parent chains,
//! pointer-suffix detection, and the mapping onto binding types.
use cfx_rt::natives::{
    append_native_to_set, context_arg_type, convert_type, find_client_native, find_native,
    find_server_native, find_type, make_server_getter, ApiSet, Argument, CfxNative, CfxType,
    NativeSets, Rpc, RpcType, TypeMap,
};

fn ty(name: &[u8], native_type: &[u8], parent: Option<&[u8]>) -> CfxType {
    CfxType {
        name: name.to_vec(),
        native_type: native_type.to_vec(),
        parent: parent.map(|p| p.to_vec()),
    }
}

fn sample_types() -> TypeMap {
    let mut m = TypeMap::new();
    m.push(ty(b"Entity", b"int", None));
    m.push(ty(b"Ped", b"int", Some(b"Entity")));
    m.push(ty(b"Player", b"int", None));
    m.push(ty(b"charPtr", b"string", None));
    m.push(ty(b"float", b"float", None));
    m.push(ty(b"object", b"object", None));
    m
}

#[test]
fn is_type_follows_parent_chains() {
    let types = sample_types();
    let ped = ty(b"Ped", b"int", Some(b"Entity"));
    assert!(ped.is_type(&types, &b"Ped".to_vec()));
    assert!(ped.is_type(&types, &b"Entity".to_vec()));
    assert!(!ped.is_type(&types, &b"Player".to_vec()));
    let player = ty(b"Player", b"int", None);
    assert!(!player.is_type(&types, &b"Entity".to_vec()));
}

#[test]
fn is_type_survives_a_cyclic_chain() {
    let mut types = TypeMap::new();
    types.push(ty(b"A", b"int", Some(b"B")));
    types.push(ty(b"B", b"int", Some(b"A")));
    let a = ty(b"A", b"int", Some(b"B"));
    assert!(!a.is_type(&types, &b"C".to_vec()));
    assert!(a.is_type(&types, &b"B".to_vec()));
}

#[test]
fn primitive_and_pointer_classification() {
    assert!(ty(b"Any", b"int", None).is_primitive());
    assert!(ty(b"charPtr", b"string", None).is_primitive());
    assert!(!ty(b"Entity", b"int", None).is_primitive());
    assert!(ty(b"intPtr", b"int", None).is_ptr());
    assert!(!ty(b"int", b"int", None).is_ptr());
    assert!(ty(b"f", b"float", None).is_float());
    assert!(!ty(b"i", b"int", None).is_float());
}

#[test]
fn convert_type_maps_native_types_onto_binding_types() {
    let cases: Vec<(&[u8], bool, &[u8], bool)> = vec![
        (b"int", false, b"i32", true),
        (b"long", false, b"i64", true),
        (b"float", false, b"f32", true),
        (b"bool", false, b"bool", true),
        (b"vector3", false, b"cfx_core::types::Vector3", true),
        (b"string", true, b"String", false),
        (b"string", false, b"impl cfx_core::types::AsCharPtr", false),
        (b"func", true, b"cfx_core::ref_funcs::ExternRefFunction", false),
        (b"func", false, b"cfx_core::ref_funcs::RefFunction", false),
        (b"object", true, b"cfx_core::types::Packed<Ret>", false),
        (b"object", false, b"impl serde::Serialize", false),
        (b"mystery", false, b"()", true),
    ];
    for (nt, in_ret, expect_name, expect_default) in cases {
        let r = convert_type(&ty(b"T", nt, None), in_ret);
        assert_eq!(r.name, expect_name.to_vec());
        assert_eq!(r.may_be_default, expect_default);
    }
    let conv = convert_type(&ty(b"T", b"string", None), false);
    assert_eq!(conv.convert, Some(b"as_char_ptr().into()".to_vec()));
    let plain = convert_type(&ty(b"T", b"int", None), false);
    assert_eq!(plain.convert, None);
}

#[test]
fn find_type_resolves_pointer_stems() {
    let types = sample_types();
    let (is_ptr, t) = find_type(&types, &b"EntityPtr".to_vec()).expect("the stem resolves");
    assert!(is_ptr);
    assert_eq!(t.name, b"Entity".to_vec());
    let (is_ptr2, t2) = find_type(&types, &b"charPtr".to_vec()).expect("the string type is direct");
    assert!(!is_ptr2);
    assert_eq!(t2.name, b"charPtr".to_vec());
    assert!(find_type(&types, &b"GhostPtr".to_vec()).is_none());
    assert!(find_type(&types, &b"Ghost".to_vec()).is_none());
}

#[test]
fn api_set_labels_round_trip() {
    assert_eq!(ApiSet::from_label(&b"client".to_vec()), ApiSet::Client);
    assert_eq!(ApiSet::from_label(&b"shared".to_vec()), ApiSet::Shared);
    assert_eq!(ApiSet::from_label(&b"server".to_vec()), ApiSet::Server);
    assert_eq!(ApiSet::from_label(&b"anything".to_vec()), ApiSet::Server);
    assert_eq!(ApiSet::Client.to_string(), b"client".to_vec());
    assert_eq!(ApiSet::default(), ApiSet::Server);
}

#[test]
fn argument_textual_form() {
    assert_eq!(Argument::Text(b"0x123".to_vec()).to_string(), b"0x123".to_vec());
    assert_eq!(Argument::Table(Vec::new()).to_string(), b"table".to_vec());
}

fn native(name: &[u8], set: ApiSet) -> CfxNative {
    CfxNative {
        name: name.to_vec(),
        hash: 0,
        apiset: set,
        namespace: None,
        game: None,
        arguments: Vec::new(),
        returns: b"void".to_vec(),
        doc: None,
    }
}

#[test]
fn native_sets_find_by_surface() {
    let mut sets = NativeSets { server: Vec::new(), client: Vec::new(), shared: Vec::new() };
    sets.client.push(native(b"GET_THING", ApiSet::Client));
    append_native_to_set(native(b"SET_THING", ApiSet::Server), &mut sets);

    assert!(find_client_native(&b"GET_THING".to_vec(), &sets).is_some());
    assert!(find_server_native(&b"GET_THING".to_vec(), &sets).is_none());
    assert!(find_server_native(&b"SET_THING".to_vec(), &sets).is_some());
    assert!(find_native(&b"GET_THING".to_vec(), ApiSet::Shared, &sets).is_none());
}

#[test]
fn server_getter_is_derived_from_the_paired_setter() {
    let types = sample_types();
    let setter = CfxNative {
        name: b"SET_SPEED".to_vec(),
        hash: 1,
        apiset: ApiSet::Client,
        namespace: None,
        game: Some(b"gta5".to_vec()),
        arguments: vec![
            (b"ped".to_vec(), b"Ped".to_vec()),
            (b"speed".to_vec(), b"float".to_vec()),
        ],
        returns: b"void".to_vec(),
        doc: None,
    };
    let rpc = Rpc {
        name: b"SET_SPEED".to_vec(),
        ty: RpcType::Context,
        getter: Some(b"GET_SPEED".to_vec()),
    };
    let mut sets = NativeSets { server: Vec::new(), client: Vec::new(), shared: Vec::new() };
    make_server_getter(&rpc, &setter, &mut sets, &types);

    let getter = find_server_native(&b"GET_SPEED".to_vec(), &sets).expect("the getter appears");
    assert_eq!(getter.name, b"GET_SPEED".to_vec());
    // The identifier really is the lowercase hash of the getter name, not
    // some copy of the input.
    assert_eq!(getter.hash, joaat::hash_ascii_lowercase(b"get_speed") as u64);
    assert_ne!(getter.hash, setter.hash);
    assert_eq!(getter.apiset, ApiSet::Server);
    assert_eq!(getter.namespace, Some(b"CFX".to_vec()));
    assert_eq!(getter.arguments, vec![(b"this".to_vec(), b"Entity".to_vec())]);
    assert_eq!(getter.returns, b"float".to_vec());
    assert_eq!(getter.game, Some(b"gta5".to_vec()));

    // A second derivation is a no-op: the getter already exists.
    make_server_getter(&rpc, &setter, &mut sets, &types);
    assert_eq!(sets.server.len(), 1);
}

#[test]
fn context_argument_prefers_the_first_usable_argument() {
    let types = sample_types();
    let native = CfxNative {
        name: b"X".to_vec(),
        hash: 0,
        apiset: ApiSet::Server,
        namespace: None,
        game: None,
        arguments: vec![
            (b"n".to_vec(), b"float".to_vec()),
            (b"p".to_vec(), b"Player".to_vec()),
        ],
        returns: b"void".to_vec(),
        doc: None,
    };
    assert_eq!(context_arg_type(&native, &types), Some(b"Player".to_vec()));
}
