//! Scope filtering of inbound events, the single-slot subscription registry,
//! and the silent drop of undecodable payloads.
use cfx_rt::events::{classify_source, decode_event, EventRegistry, EventScope, SourceClass};
use cfx_rt::wire::{encode, MpValue};

#[test]
fn classify_strips_markers() {
    match classify_source(&b"net:alice".to_vec()) {
        SourceClass::Network(s) => assert_eq!(s, b"alice".to_vec()),
        _ => panic!("network marker not recognized"),
    }
    match classify_source(&b"internal-net:bob".to_vec()) {
        SourceClass::Relayed(s) => assert_eq!(s, b"bob".to_vec()),
        _ => panic!("relay marker not recognized"),
    }
    match classify_source(&b"carol".to_vec()) {
        SourceClass::Local => {}
        _ => panic!("unmarked source must classify as local"),
    }
}

#[test]
fn network_event_reaches_only_network_scope() {
    let name = b"ping".to_vec();
    let payload = b"pp".to_vec();

    let mut reg = EventRegistry::new();
    reg.subscribe(&name, EventScope::Network);
    assert!(reg.on_event(&name, &payload, &b"net:alice".to_vec()));
    let q = reg.drain(&name);
    assert_eq!(q.len(), 1);
    assert_eq!(q[0].source, b"alice".to_vec());
    assert_eq!(q[0].payload, payload);

    let mut reg2 = EventRegistry::new();
    reg2.subscribe(&name, EventScope::Local);
    assert!(!reg2.on_event(&name, &payload, &b"net:alice".to_vec()));
    assert_eq!(reg2.drain(&name).len(), 0);
}

#[test]
fn local_event_reaches_only_local_scope_with_empty_source() {
    let name = b"ping".to_vec();
    let payload = b"pp".to_vec();

    let mut reg = EventRegistry::new();
    reg.subscribe(&name, EventScope::Local);
    assert!(reg.on_event(&name, &payload, &b"some-sender".to_vec()));
    let q = reg.drain(&name);
    assert_eq!(q.len(), 1);
    // The true sender string is discarded: the logical source is empty.
    assert_eq!(q[0].source, Vec::<u8>::new());

    let mut reg2 = EventRegistry::new();
    reg2.subscribe(&name, EventScope::Network);
    assert!(!reg2.on_event(&name, &payload, &b"some-sender".to_vec()));
}

#[test]
fn relayed_event_reaches_both_scopes() {
    let name = b"ping".to_vec();
    let payload = b"pp".to_vec();
    for scope in [EventScope::Local, EventScope::Network] {
        let mut reg = EventRegistry::new();
        reg.subscribe(&name, scope);
        assert!(reg.on_event(&name, &payload, &b"internal-net:bob".to_vec()));
        let q = reg.drain(&name);
        assert_eq!(q.len(), 1);
        assert_eq!(q[0].source, b"bob".to_vec());
    }
}

#[test]
fn unknown_event_name_is_dropped() {
    let mut reg = EventRegistry::new();
    reg.subscribe(&b"ping".to_vec(), EventScope::Local);
    assert!(!reg.on_event(&b"pong".to_vec(), &b"pp".to_vec(), &b"".to_vec()));
    assert_eq!(reg.drain(&b"ping".to_vec()).len(), 0);
}

#[test]
fn resubscription_overwrites_the_single_slot() {
    // One slot per name: the most recent subscription is the only active
    // one, and it starts with a fresh queue.
    let name = b"ping".to_vec();
    let payload = b"pp".to_vec();

    let mut reg = EventRegistry::new();
    reg.subscribe(&name, EventScope::Local);
    assert!(reg.on_event(&name, &payload, &b"".to_vec()));

    reg.subscribe(&name, EventScope::Network);
    // The queued local event is gone with the replaced subscription.
    // The new scope decides: local delivery is now refused...
    assert!(!reg.on_event(&name, &payload, &b"".to_vec()));
    // ...and network delivery accepted.
    assert!(reg.on_event(&name, &payload, &b"net:alice".to_vec()));
    let q = reg.drain(&name);
    assert_eq!(q.len(), 1);
    assert_eq!(q[0].source, b"alice".to_vec());
}

#[test]
fn undecodable_payload_is_dropped_silently() {
    let name = b"ping".to_vec();
    let mut reg = EventRegistry::new();
    reg.subscribe(&name, EventScope::Local);
    assert!(reg.on_event(&name, &vec![0xc1], &b"".to_vec()));
    let q = reg.drain(&name);
    assert_eq!(q.len(), 1);
    assert!(decode_event(&q[0]).is_none());
}

#[test]
fn decoded_event_keeps_source_and_payload() {
    let name = b"ping".to_vec();
    let payload = encode(&MpValue::Dict(vec![(
        MpValue::Str(b"req".to_vec()),
        MpValue::Str(b"x".to_vec()),
    )]));
    let mut reg = EventRegistry::new();
    reg.subscribe(&name, EventScope::Network);
    assert!(reg.on_event(&name, &payload, &b"net:alice".to_vec()));
    let q = reg.drain(&name);
    let ev = decode_event(&q[0]).expect("well-formed payload decodes");
    assert_eq!(ev.source(), &b"alice".to_vec());
    let expected = MpValue::Dict(vec![(
        MpValue::Str(b"req".to_vec()),
        MpValue::Str(b"x".to_vec()),
    )]);
    assert!(ev.payload().eq_value(&expected));
}

#[test]
fn handler_fn_wraps_and_unwraps() {
    let h = cfx_rt::events::handler_fn(7u32);
    assert_eq!(*h.get(), 7);
    assert_eq!(h.into_inner(), 7);
}

#[test]
fn raw_event_ref_copies_into_an_owned_event() {
    let source = b"alice".to_vec();
    let payload = vec![1, 2, 3];
    let r = cfx_rt::events::RawEventRef { source: &source, payload: &payload };
    let owned = r.to_raw_event();
    assert_eq!(owned.source, source);
    assert_eq!(owned.payload, payload);
}
