//! The typed-return protocol: an undersized scratch buffer triggers exactly
//! one resize sized to the exact needed length; a refused resize fails the
//! one call with the no-space code and leaves guest memory untouched.
use cfx_rt::codec::{self, Packed, RetVal, Vector3};
use cfx_rt::wire::{encode, MpValue};
use cfx_rt::invoker::{InvokeError, NativeCallFrame, Val};
use cfx_rt::runtime::{NativeResult, RETVAL_BUFFER_SIZE};
use cfx_rt::sched::{GuestTask, TaskCtx, TaskStep};

struct IdleBody;

impl cfx_rt::runtime::RefHandler for IdleBody {
    fn call(&self, input: &Vec<u8>) -> Vec<u8> {
        input.clone()
    }
}

struct IdleTask;

impl GuestTask for IdleTask {
    fn poll(&mut self, _ctx: &mut TaskCtx) -> TaskStep {
        TaskStep::Done
    }
}

type Module = cfx_rt::runtime::ScriptModule<IdleBody, IdleTask>;

#[test]
fn small_result_is_written_in_place() {
    let mut m: Module = Module::new(false, true, true);
    let cap_before = m.retval_cap;
    let off_before = m.retval_off;
    let code = m.deliver_bytes(&vec![1, 2, 3, 4]);
    assert_eq!(code, 4);
    assert_eq!(m.retval_cap, cap_before);
    assert_eq!(m.retval_off, off_before);
    assert_eq!(&m.mem[off_before..off_before + 4], &[1, 2, 3, 4]);
}

#[test]
fn oversized_result_grows_the_buffer_to_the_exact_length() {
    let mut m: Module = Module::new(false, true, true);
    let mem_before = m.mem.len();
    let want = vec![7u8; RETVAL_BUFFER_SIZE + 1000];
    let code = m.deliver_bytes(&want);
    assert_eq!(code, want.len() as i32);
    // Exactly one resize, sized to the exact needed length.
    assert_eq!(m.retval_cap, want.len());
    assert_eq!(m.retval_off, mem_before);
    assert_eq!(&m.mem[m.retval_off..m.retval_off + want.len()], &want[..]);
}

#[test]
fn refused_resize_reports_no_space_and_leaves_memory_untouched() {
    let mut m: Module = Module::new(false, false, true);
    let mem_before = m.mem.clone();
    let cap_before = m.retval_cap;
    let want = vec![7u8; RETVAL_BUFFER_SIZE + 1];
    let code = m.deliver_bytes(&want);
    assert_eq!(code, codec::NO_SPACE_IN_BUFFER);
    assert_eq!(m.retval_cap, cap_before);
    assert_eq!(m.mem, mem_before);
}

/// An embedder whose one native echoes a fixed result.
struct FixedHost {
    result_str: Vec<u8>,
    calls: usize,
}

impl cfx_rt::runtime::NativeHost for FixedHost {
    fn invoke_native(&mut self, frame: &NativeCallFrame) -> NativeResult {
        self.calls += 1;
        match frame.identifier {
            1 => NativeResult::Number(0x11223344),
            2 => NativeResult::Str(self.result_str.clone()),
            3 => NativeResult::Vec3(Vector3 { x: 1, y: 2, z: 3 }),
            4 => NativeResult::Object(vec![0xc0]),
            _ => NativeResult::Nothing,
        }
    }

    fn canonicalize_ref(&mut self, _idx: u32, _buffer: &mut Vec<u8>) -> i32 {
        0
    }

    fn invoke_ref(&mut self, _name: &Vec<u8>, _args: &Vec<u8>, _buffer: &mut Vec<u8>) -> i32 {
        -1
    }

    fn log(&mut self, _message: &Vec<u8>) {}
}

#[test]
fn invoke_reads_typed_results_back() {
    let mut m: Module = Module::new(false, true, true);
    let mut host = FixedHost { result_str: b"hello".to_vec(), calls: 0 };

    let n: u32 = m.invoke(&mut host, 1, &Vec::new()).expect("a numeric result");
    assert_eq!(n, 0x11223344);

    let s: Vec<u8> = m.invoke(&mut host, 2, &Vec::new()).expect("a string result");
    assert_eq!(s, b"hello".to_vec());

    let v: Vector3 = m.invoke(&mut host, 3, &Vec::new()).expect("a vector result");
    assert_eq!(v, Vector3 { x: 1, y: 2, z: 3 });

    let r: Result<(), InvokeError> = m.invoke(&mut host, 99, &Vec::new());
    assert!(r.is_ok());
}

#[test]
fn oversized_string_result_grows_once_then_succeeds() {
    let mut m: Module = Module::new(false, true, true);
    let want = vec![b'z'; RETVAL_BUFFER_SIZE + 5];
    let mut host = FixedHost { result_str: want.clone(), calls: 0 };
    let s: Vec<u8> = m.invoke(&mut host, 2, &Vec::new()).expect("the grown buffer holds it");
    assert_eq!(s, want);
    assert_eq!(m.retval_cap, want.len());
    // The resize happened inside one call: the native was dispatched once.
    assert_eq!(host.calls, 1);
}

#[test]
fn oversized_result_without_resize_export_reports_no_space() {
    let mut m: Module = Module::new(false, false, true);
    let want = vec![b'z'; RETVAL_BUFFER_SIZE + 5];
    let mut host = FixedHost { result_str: want, calls: 0 };
    let r: Result<Vec<u8>, InvokeError> = m.invoke(&mut host, 2, &Vec::new());
    assert_eq!(r, Err(InvokeError::NoSpace));
}

#[test]
fn absent_result_where_one_is_expected_is_a_null_result() {
    let mut m: Module = Module::new(false, true, true);
    let mut host = FixedHost { result_str: Vec::new(), calls: 0 };
    let r: Result<u32, InvokeError> = m.invoke(&mut host, 99, &Vec::new());
    assert_eq!(r, Err(InvokeError::NullResult));
}

#[test]
fn oversized_argument_list_is_rejected_before_crossing() {
    let mut m: Module = Module::new(false, true, true);
    let mut host = FixedHost { result_str: Vec::new(), calls: 0 };
    let mut args = Vec::new();
    for i in 0..(codec::MAX_ARGS as u32 + 1) {
        args.push(Val::Integer(i));
    }
    let r: Result<(), InvokeError> = m.invoke(&mut host, 1, &args);
    assert_eq!(r, Err(InvokeError::Code(codec::TOO_MUCH_ARGS)));
    // Nothing crossed the boundary.
    assert_eq!(host.calls, 0);
}

#[test]
fn retval_conversions_read_little_endian() {
    let bytes = vec![0x44, 0x33, 0x22, 0x11];
    assert_eq!(u32::convert(&bytes), 0x11223344);
    let neg = vec![0xff, 0xff, 0xff, 0xff];
    assert_eq!(i32::convert(&neg), -1);
    let eight = vec![1, 0, 0, 0, 0, 0, 0, 0x80];
    assert_eq!(u64::convert(&eight), 0x8000_0000_0000_0001);
    assert_eq!(i64::convert(&eight), i64::MIN + 1);
}

#[test]
fn packed_results_decode_as_structured_values() {
    let mut m: Module = Module::new(false, true, true);
    let inner = MpValue::Array(vec![MpValue::UInt(1), MpValue::Str(b"ok".to_vec())]);
    let mut host = ObjectHost { bytes: encode(&inner) };
    let p: Packed = m.invoke(&mut host, 4, &Vec::new()).expect("a structured result");
    assert_eq!(p.payload(), &encode(&inner));
    let v = p.decode_value().expect("the structured result decodes");
    assert!(v.eq_value(&inner));
}

/// An embedder whose natives answer with a fixed structured result.
struct ObjectHost {
    bytes: Vec<u8>,
}

impl cfx_rt::runtime::NativeHost for ObjectHost {
    fn invoke_native(&mut self, _frame: &NativeCallFrame) -> NativeResult {
        NativeResult::Object(self.bytes.clone())
    }

    fn canonicalize_ref(&mut self, _idx: u32, _buffer: &mut Vec<u8>) -> i32 {
        0
    }

    fn invoke_ref(&mut self, _name: &Vec<u8>, _args: &Vec<u8>, _buffer: &mut Vec<u8>) -> i32 {
        -1
    }

    fn log(&mut self, _message: &Vec<u8>) {}
}

#[test]
fn mismatched_result_kind_reports_wrong_arguments() {
    let mut m: Module = Module::new(false, true, true);
    // The native answers with a string while the caller declared a number.
    let mut host = FixedHost { result_str: b"oops".to_vec(), calls: 0 };
    let r: Result<u32, InvokeError> = m.invoke(&mut host, 2, &Vec::new());
    assert_eq!(r, Err(InvokeError::Code(codec::WRONG_ARGS)));
}

#[test]
fn resize_preserves_the_old_buffer_prefix() {
    let mut m: Module = Module::new(false, true, true);
    let code = m.deliver_bytes(&vec![9, 8, 7]);
    assert_eq!(code, 3);
    let off = m
        .extend_retval_buffer(RETVAL_BUFFER_SIZE + 10)
        .expect("the module can grow its buffer");
    let off = off as usize;
    // The old scratch bytes survive the move; the growth is zero-filled.
    assert_eq!(&m.mem[off..off + 3], &[9, 8, 7]);
    assert_eq!(m.mem[off + RETVAL_BUFFER_SIZE], 0);
    assert_eq!(m.retval_cap, RETVAL_BUFFER_SIZE + 10);
}

#[test]
fn shrinking_resize_keeps_the_leading_bytes() {
    let mut m: Module = Module::new(false, true, true);
    let code = m.deliver_bytes(&vec![1, 2, 3, 4]);
    assert_eq!(code, 4);
    let off = m.extend_retval_buffer(2).expect("shrinking is a resize too") as usize;
    assert_eq!(&m.mem[off..off + 2], &[1, 2]);
    assert_eq!(m.retval_cap, 2);
}
