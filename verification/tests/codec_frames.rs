//! The argument codec: slot marshaling, NUL truncation, return-type tags,
//! and the status-code taxonomy.
use cfx_rt::codec::{self, truncate_at_nul, GuestArg, ReturnType, ReturnValue};
use cfx_rt::invoker::{build_frame, map_invoke_code, ArgValue, InvokeError, Val};

#[test]
fn return_type_tags_round_trip() {
    for (tag, ty) in [
        (0u32, ReturnType::Empty),
        (1, ReturnType::Number),
        (2, ReturnType::Str),
        (3, ReturnType::Vector3),
        (4, ReturnType::MsgPack),
        (5, ReturnType::Unk),
        (77, ReturnType::Unk),
    ] {
        assert_eq!(ReturnType::from(tag), ty);
    }
    assert_eq!(ReturnType::Str.as_tag(), 2);
    let rv = ReturnValue::new(ReturnType::Number, 16, 4096);
    assert_eq!(rv.rettype, ReturnType::Number);
    assert_eq!(rv.buffer, 16);
    assert_eq!(rv.capacity, 4096);
}

#[test]
fn guest_arg_reference_slots_advertise_address_size() {
    let inline = GuestArg::new(42, 4, false);
    assert!(!inline.is_ref);
    assert_eq!(inline.size, 4);
    let by_ref = GuestArg::new(42, 4, true);
    assert!(by_ref.is_ref);
    assert_eq!(by_ref.size, 8);
}

#[test]
fn strings_truncate_at_the_first_nul() {
    assert_eq!(truncate_at_nul(&b"abc".to_vec()), b"abc".to_vec());
    assert_eq!(truncate_at_nul(&b"ab\0cd".to_vec()), b"ab".to_vec());
    assert_eq!(truncate_at_nul(&b"\0cd".to_vec()), Vec::<u8>::new());
    assert_eq!(truncate_at_nul(&Vec::new()), Vec::<u8>::new());
}

#[test]
fn frames_resolve_each_argument_kind() {
    let args = vec![
        Val::Integer(7),
        Val::Long(0x1_0000_0000),
        Val::RefInteger(9),
        Val::Str(b"na\0me".to_vec()),
        Val::Bytes(vec![1, 2]),
    ];
    let frame = build_frame(0xABCD, &args).expect("five arguments fit the frame");
    assert_eq!(frame.identifier, 0xABCD);
    assert_eq!(frame.args.len(), 5);
    match &frame.args[0] {
        ArgValue::Scalar { value, size } => {
            assert_eq!(*value, 7);
            assert_eq!(*size, 4);
        }
        _ => panic!("an integer marshals inline"),
    }
    match &frame.args[1] {
        ArgValue::Scalar { value, size } => {
            assert_eq!(*value, 0x1_0000_0000);
            assert_eq!(*size, 8);
        }
        _ => panic!("a long marshals inline"),
    }
    match &frame.args[2] {
        ArgValue::RefScalar { value } => assert_eq!(*value, 9),
        _ => panic!("a reference marshals by address"),
    }
    match &frame.args[3] {
        ArgValue::CString(s) => assert_eq!(s, &b"na".to_vec()),
        _ => panic!("a string marshals NUL-terminated"),
    }
    match &frame.args[4] {
        ArgValue::Buffer(b) => assert_eq!(b, &vec![1, 2]),
        _ => panic!("bytes marshal as a buffer"),
    }
}

#[test]
fn frame_rejects_more_slots_than_the_maximum() {
    let mut args = Vec::new();
    for i in 0..33u32 {
        args.push(Val::Integer(i));
    }
    match build_frame(1, &args) {
        Err(e) => assert_eq!(e, InvokeError::Code(codec::TOO_MUCH_ARGS)),
        Ok(_) => panic!("an oversized argument list must be rejected"),
    }
}

#[test]
fn status_codes_map_onto_the_error_taxonomy() {
    assert_eq!(map_invoke_code(0), None);
    assert_eq!(map_invoke_code(17), None);
    assert_eq!(map_invoke_code(codec::NO_SPACE_IN_BUFFER), Some(InvokeError::NoSpace));
    assert_eq!(map_invoke_code(codec::NO_RETURN_VALUE), Some(InvokeError::NullResult));
    assert_eq!(map_invoke_code(codec::NULL_RESULT), Some(InvokeError::NullResult));
    assert_eq!(map_invoke_code(codec::WRONG_ARGS), Some(InvokeError::Code(codec::WRONG_ARGS)));
    assert_eq!(
        map_invoke_code(codec::CRITICAL_ERROR),
        Some(InvokeError::Code(codec::CRITICAL_ERROR))
    );
}
