//! End-to-end flows through the host runtime: a guest task publishes an
//! event, the embedder relays it back as a local event, a registered
//! subscription receives the decoded payload; callback handles registered by
//! the guest are called back, duplicated and removed by the host.
use cfx_rt::events::{decode_event, EventScope};
use cfx_rt::invoker::ArgValue;
use cfx_rt::runtime::{
    NativeHost, NativeResult, RefHandler, Runtime, TRIGGER_EVENT_INTERNAL,
};
use cfx_rt::sched::{GuestAction, GuestTask, TaskCtx, TaskStep};
use cfx_rt::wire::{encode, MpValue};

/// The embedder: captures published events and log lines, and canonicalizes
/// callback names as `test:<index>`.
struct RecordingHost {
    published: Vec<(Vec<u8>, Vec<u8>)>,
    logged: Vec<Vec<u8>>,
}

impl RecordingHost {
    fn new() -> RecordingHost {
        RecordingHost { published: Vec::new(), logged: Vec::new() }
    }
}

impl NativeHost for RecordingHost {
    fn invoke_native(&mut self, frame: &cfx_rt::invoker::NativeCallFrame) -> NativeResult {
        if frame.identifier == TRIGGER_EVENT_INTERNAL {
            let name = match &frame.args[0] {
                ArgValue::CString(s) => s.clone(),
                _ => panic!("the event name crosses as a NUL-terminated string"),
            };
            let payload = match &frame.args[1] {
                ArgValue::Buffer(b) => b.clone(),
                _ => panic!("the payload crosses as a byte buffer"),
            };
            self.published.push((name, payload));
        }
        NativeResult::Nothing
    }

    fn canonicalize_ref(&mut self, idx: u32, buffer: &mut Vec<u8>) -> i32 {
        let mut name = b"test:".to_vec();
        let mut digits = Vec::new();
        let mut n = idx;
        loop {
            digits.push(b'0' + (n % 10) as u8);
            n /= 10;
            if n == 0 {
                break;
            }
        }
        digits.reverse();
        name.extend_from_slice(&digits);
        for (i, b) in name.iter().enumerate() {
            buffer[i] = *b;
        }
        (name.len() + 1) as i32
    }

    fn invoke_ref(&mut self, _name: &Vec<u8>, args: &Vec<u8>, buffer: &mut Vec<u8>) -> i32 {
        // Echo the encoded arguments back as the result.
        for (i, b) in args.iter().enumerate() {
            buffer[i] = *b;
        }
        args.len() as i32
    }

    fn log(&mut self, message: &Vec<u8>) {
        self.logged.push(message.clone());
    }
}

/// A guest task that publishes `ping` with the payload `{req: "x"}` once.
struct PingTask {
    sent: bool,
}

impl GuestTask for PingTask {
    fn poll(&mut self, ctx: &mut TaskCtx) -> TaskStep {
        if !self.sent {
            self.sent = true;
            let payload = encode(&MpValue::Dict(vec![(
                MpValue::Str(b"req".to_vec()),
                MpValue::Str(b"x".to_vec()),
            )]));
            ctx.actions.push(GuestAction::Emit { name: b"ping".to_vec(), payload });
        }
        TaskStep::Done
    }
}

/// A guest callback body that reverses its raw input bytes.
struct ReverseBody;

impl RefHandler for ReverseBody {
    fn call(&self, input: &Vec<u8>) -> Vec<u8> {
        let mut out = input.clone();
        out.reverse();
        out
    }
}

#[test]
fn guest_emitted_event_comes_back_to_its_handler() {
    let mut rt: Runtime<ReverseBody, PingTask> = Runtime::new();
    let mut host = RecordingHost::new();
    rt.load_module(true);

    {
        let m = rt.script.as_mut().unwrap();
        m.subscribe(&mut host, &b"ping".to_vec(), EventScope::Local);
        m.sched.spawn(PingTask { sent: false });
    }

    // The tick polls the task; its published event reaches the embedder
    // through the trigger-event native.
    rt.tick(&mut host, 1);
    assert_eq!(host.published.len(), 1);
    let (name, payload) = host.published[0].clone();
    assert_eq!(name, b"ping".to_vec());

    // The embedder relays it back as a local event.
    let delivered = rt.trigger_event(&mut host, &name, &payload, &b"".to_vec());
    assert!(delivered);

    let q = rt.script.as_mut().unwrap().events.drain(&b"ping".to_vec());
    assert_eq!(q.len(), 1);
    let ev = decode_event(&q[0]).expect("the relayed payload decodes");
    assert_eq!(ev.source(), &Vec::<u8>::new());
    let expected = MpValue::Dict(vec![(
        MpValue::Str(b"req".to_vec()),
        MpValue::Str(b"x".to_vec()),
    )]);
    assert!(ev.payload().eq_value(&expected));
}

#[test]
fn callback_handles_live_through_the_host_lifecycle() {
    let mut rt: Runtime<ReverseBody, PingTask> = Runtime::new();
    let mut host = RecordingHost::new();
    rt.load_module(true);

    let handle = rt
        .script
        .as_mut()
        .unwrap()
        .register_ref_function(&mut host, ReverseBody);
    assert_eq!(handle.index(), 1);
    assert_eq!(handle.name(), &b"test:1".to_vec());
    assert_eq!(
        handle.as_extern_ref_func().name(),
        &b"test:1".to_vec()
    );

    // The host calls back by index; the guest body runs on the raw bytes.
    let mut out = Vec::new();
    let len = rt.call_ref(handle.index(), &vec![1, 2, 3], &mut out);
    assert_eq!(len, 3);
    assert_eq!(out, vec![3, 2, 1]);

    // Two duplicates, then two removes: the entry survives while a
    // reference is still held, and is erased once the count reaches zero.
    assert_eq!(rt.duplicate_ref(handle.index()), handle.index());
    assert_eq!(rt.duplicate_ref(handle.index()), handle.index());
    rt.remove_ref(handle.index());
    let len2 = rt.call_ref(handle.index(), &vec![9], &mut out);
    assert_eq!(len2, 1);
    rt.remove_ref(handle.index());

    // Calling an erased index yields no result rather than panicking.
    let len3 = rt.call_ref(handle.index(), &vec![9], &mut out);
    assert_eq!(len3, 0);
    assert_eq!(out, Vec::<u8>::new());
}

#[test]
fn trigger_event_without_module_is_a_no_op() {
    let mut rt: Runtime<ReverseBody, PingTask> = Runtime::new();
    let mut host = RecordingHost::new();
    assert!(!rt.trigger_event(&mut host, &b"ping".to_vec(), &b"".to_vec(), &b"".to_vec()));
    assert_eq!(rt.memory_size(), 0);
}

#[test]
fn memory_usage_reports_pages() {
    let mut rt: Runtime<ReverseBody, PingTask> = Runtime::new();
    rt.load_module(false);
    // The fresh module owns a 32 KiB scratch buffer: zero full 64 KiB pages.
    assert_eq!(rt.memory_size(), 0);
}

#[test]
fn network_scoped_relay_through_runtime() {
    let mut rt: Runtime<ReverseBody, PingTask> = Runtime::new();
    let mut host = RecordingHost::new();
    rt.load_module(true);
    rt.script
        .as_mut()
        .unwrap()
        .subscribe(&mut host, &b"join".to_vec(), EventScope::Network);

    let payload = encode(&MpValue::Str(b"hi".to_vec()));
    assert!(rt.trigger_event(&mut host, &b"join".to_vec(), &payload, &b"net:alice".to_vec()));
    assert!(!rt.trigger_event(&mut host, &b"join".to_vec(), &payload, &b"plain".to_vec()));

    let q = rt.script.as_mut().unwrap().events.drain(&b"join".to_vec());
    assert_eq!(q.len(), 1);
    assert_eq!(q[0].source, b"alice".to_vec());
}

#[test]
fn invoke_ref_func_round_trips_through_the_embedder() {
    let mut host = RecordingHost::new();
    let func = cfx_rt::refreg::ExternRefFunction::new(b"test:7".to_vec());
    let args = MpValue::Array(vec![MpValue::UInt(5)]);
    let back = cfx_rt::runtime::invoke_ref_func(&mut host, &func, &args)
        .expect("the echoed encoding decodes");
    assert!(back.eq_value(&args));
}

#[test]
fn canonical_name_reading_follows_the_answer_code() {
    let buf = b"_cfx_internal:app:1\0\0\0".to_vec();
    // A positive code names the first code - 1 bytes.
    let name = cfx_rt::runtime::read_canonical_name(20, &buf).expect("a positive code names");
    assert_eq!(name, b"_cfx_internal:app:1".to_vec());
    // A code reporting more than the buffer holds is clamped to the buffer.
    let clamped = cfx_rt::runtime::read_canonical_name(100, &buf).expect("clamped to the buffer");
    assert_eq!(clamped, buf);
    // Zero and negative codes carry no name.
    assert!(cfx_rt::runtime::read_canonical_name(0, &buf).is_none());
    assert!(cfx_rt::runtime::read_canonical_name(-30, &buf).is_none());
}

#[test]
fn ref_results_decode_by_status_code() {
    let value = MpValue::Array(vec![MpValue::UInt(1), MpValue::Nil]);
    let mut buf = encode(&value);
    let n = buf.len() as i32;
    buf.push(0xc1);
    buf.push(0xc1);
    // A negative status carries no value.
    assert!(cfx_rt::runtime::decode_ref_result(-1, &buf).is_none());
    // A length beyond the buffer carries no value.
    assert!(cfx_rt::runtime::decode_ref_result(buf.len() as i32 + 1, &buf).is_none());
    // A valid length decodes exactly its first bytes.
    let back = cfx_rt::runtime::decode_ref_result(n, &buf).expect("the prefix decodes");
    assert!(back.eq_value(&value));
    // A prefix that is not one well-formed value carries none.
    assert!(cfx_rt::runtime::decode_ref_result(n + 1, &buf).is_none());
    assert!(cfx_rt::runtime::decode_ref_result(0, &buf).is_none());
}
