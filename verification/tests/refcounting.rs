//! Lifetime of callback handles: counts start at zero, duplicate and remove
//! signals move them, and the entry is erased once the count would fall to
//! zero or below; a call against an erased index yields no result.
use cfx_rt::refreg::{ExternRefFunction, RefRegistry};
use cfx_rt::wire::MpValue;

struct EchoBody;

#[test]
fn creation_starts_at_zero_and_indices_grow() {
    let mut reg: RefRegistry<EchoBody> = RefRegistry::new();
    let a = reg.register(EchoBody);
    let b = reg.register(EchoBody);
    assert_eq!(a, 1);
    assert_eq!(b, 2);
    assert_eq!(reg.ref_count(a), Some(0));
    assert_eq!(reg.ref_count(b), Some(0));
}

#[test]
fn duplicate_increments_and_remove_erases_at_zero() {
    let mut reg: RefRegistry<EchoBody> = RefRegistry::new();
    let idx = reg.register(EchoBody);
    assert_eq!(reg.ref_count(idx), Some(0));

    assert_eq!(reg.duplicate_ref(idx), idx);
    assert_eq!(reg.ref_count(idx), Some(1));

    assert_eq!(reg.duplicate_ref(idx), idx);
    assert_eq!(reg.ref_count(idx), Some(2));

    // Dropping one of two references keeps the entry alive.
    reg.remove_ref(idx);
    assert_eq!(reg.ref_count(idx), Some(1));

    // Dropping the last reference takes the count to zero and erases.
    reg.remove_ref(idx);
    assert_eq!(reg.ref_count(idx), None);
}

#[test]
fn remove_on_fresh_entry_erases_immediately() {
    // A fresh handle holds no references, so the first remove signal
    // already erases it.
    let mut reg: RefRegistry<EchoBody> = RefRegistry::new();
    let idx = reg.register(EchoBody);
    reg.remove_ref(idx);
    assert_eq!(reg.ref_count(idx), None);
}

#[test]
fn call_on_erased_index_yields_no_result() {
    let mut reg: RefRegistry<EchoBody> = RefRegistry::new();
    let idx = reg.register(EchoBody);
    assert!(reg.call_ref(idx).is_some());
    reg.remove_ref(idx);
    assert!(reg.call_ref(idx).is_none());
    assert!(reg.call_ref(999).is_none());
}

#[test]
fn indices_are_never_reassigned() {
    let mut reg: RefRegistry<EchoBody> = RefRegistry::new();
    let a = reg.register(EchoBody);
    reg.remove_ref(a);
    let b = reg.register(EchoBody);
    assert!(b > a);
    assert_eq!(reg.ref_count(a), None);
    assert_eq!(reg.ref_count(b), Some(0));
}

#[test]
fn duplicate_and_remove_ignore_unknown_indices() {
    let mut reg: RefRegistry<EchoBody> = RefRegistry::new();
    assert_eq!(reg.duplicate_ref(5), 5);
    reg.remove_ref(5);
    assert_eq!(reg.ref_count(5), None);
}

#[test]
fn extern_ref_travels_as_the_reserved_extension() {
    let handle = ExternRefFunction::new(b"_cfx_internal:1:2".to_vec());
    let v = handle.to_value();
    match &v {
        MpValue::Ext(t, d) => {
            assert_eq!(*t, cfx_rt::wire::CALLBACK_EXT_TYPE);
            assert_eq!(d, &b"_cfx_internal:1:2".to_vec());
        }
        _ => panic!("a callback reference must travel as the reserved extension"),
    }
    let back = ExternRefFunction::from_value(&v).expect("the extension is recognized");
    assert_eq!(back.name(), &b"_cfx_internal:1:2".to_vec());
    // Ordinary data is never mistaken for a callback reference.
    assert!(ExternRefFunction::from_value(&MpValue::Str(b"x".to_vec())).is_none());
    assert!(ExternRefFunction::from_value(&MpValue::Ext(9, b"x".to_vec())).is_none());
}
