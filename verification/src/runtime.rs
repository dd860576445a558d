//! The module host: owns the guest instance (its memory, registries and
//! scheduler), exposes the tick / trigger-event / call-ref entry points to
//! the embedder, and implements the host side of the native-invocation
//! protocol, including the typed-return write with dynamic buffer growth.
use vstd::prelude::*;

use crate::codec;
use crate::codec::{le_bytes, RetVal, ReturnType, Vector3};
use crate::events::{accepts, logical_source, EventRegistry, EventScope};
use crate::invoker;
use crate::invoker::{InvokeError, NativeCallFrame, Val};
use crate::refreg::{ExternRefFunction, RefFunction, RefRegistry};
use crate::sched::{GuestAction, GuestTask, Scheduler};
use crate::wire;
use crate::wire::MpValue;

verus! {

/// Function identifier of the native that publishes a local event.
pub const TRIGGER_EVENT_INTERNAL: u64 = 0x91310870;

/// Function identifier of the native that publishes an event to a client.
pub const TRIGGER_CLIENT_EVENT_INTERNAL: u64 = 0x2F7A49E6;

/// Function identifier of the native that registers the module as a handler
/// of an event name.
pub const REGISTER_RESOURCE_AS_EVENT_HANDLER: u64 = 0xD233A168;

/// Initial capacity of the guest's typed-return scratch buffer.
pub const RETVAL_BUFFER_SIZE: usize = 32768;

/// Initial capacity of the buffer used for canonical-name round trips.
pub const CANON_BUFFER_SIZE: usize = 1024;

/// Guest memory offsets and the scratch buffer must stay addressable with
/// 32 bits.
pub const GUEST_MEM_LIMIT: usize = 0xffff_ffff;

/// The result the embedder's native dispatch hands back for one call.
pub enum NativeResult {
    /// The native produced no result.
    Nothing,
    /// A numeric result (or the bit pattern of a floating-point one).
    Number(u32),
    /// A three-component vector result.
    Vec3(Vector3),
    /// A NUL-terminated string result, without its terminator.
    Str(Vec<u8>),
    /// A structured result: a byte range in the wire format.
    Object(Vec<u8>),
}

/// The embedder-supplied callbacks the host runtime proxies into: the actual
/// native catalogue, the callback-name canonicalization policy, the sink for
/// cross-module callback invocations, and the logging sink. The runtime
/// never hardcodes native behavior itself, so nothing is promised of these
/// calls: every verified caller states what holds of every outcome.
pub trait NativeHost {
    /// Dispatches one native call frame and reports its result.
    fn invoke_native(&mut self, frame: &NativeCallFrame) -> NativeResult;

    /// Writes the canonical name of callback `idx` into `buffer`; the code
    /// reports the produced length plus one, a needed capacity as a negative
    /// count, or zero for failure.
    fn canonicalize_ref(&mut self, idx: u32, buffer: &mut Vec<u8>) -> i32;

    /// Invokes the callback canonically named `name` with encoded `args`,
    /// writing the encoded result into `buffer`; a negative code means no
    /// value was returned.
    fn invoke_ref(&mut self, name: &Vec<u8>, args: &Vec<u8>, buffer: &mut Vec<u8>) -> i32;

    /// Consumes one log line.
    fn log(&mut self, message: &Vec<u8>);
}

/// A guest-registered callback body: invoked on the raw encoded argument
/// bytes, it produces the raw encoded result bytes.
pub trait RefHandler {
    /// Handles one callback invocation.
    fn call(&self, input: &Vec<u8>) -> Vec<u8>;
}

/// Appends `n` zero bytes to `out`.
pub fn push_zeros(out: &mut Vec<u8>, n: usize)
    ensures
        final(out)@ == old(out)@ + Seq::new(n as nat, |i: int| 0u8),
{
    let mut i: usize = 0;
    while i < n
        invariant
            i <= n,
            out@ == old(out)@ + Seq::new(i as nat, |j: int| 0u8),
        decreases n - i,
    {
        out.push(0);
        assert(out@ =~= old(out)@ + Seq::new((i + 1) as nat, |j: int| 0u8));
        i = i + 1;
    }
}

/// Overwrites `mem[off .. off + data.len()]` with `data`, leaving every
/// other byte and the length unchanged.
pub fn write_at(mem: &mut Vec<u8>, off: usize, data: &Vec<u8>)
    requires
        off + data@.len() <= old(mem)@.len(),
    ensures
        final(mem)@.len() == old(mem)@.len(),
        final(mem)@.subrange(off as int, off + data@.len()) == data@,
        forall|i: int|
            0 <= i < old(mem)@.len() && !(off <= i < off + data@.len()) ==> final(mem)@[i] == old(
                mem,
            )@[i],
{
    let n = data.len();
    let mlen = mem.len();
    let mut i: usize = 0;
    while i < n
        invariant
            i <= n,
            n == data@.len(),
            off + n <= mlen,
            mlen == mem@.len(),
            mem@.len() == old(mem)@.len(),
            forall|j: int| 0 <= j < i ==> mem@[off + j] == data@[j],
            forall|j: int|
                0 <= j < old(mem)@.len() && !(off <= j < off + i) ==> mem@[j] == old(mem)@[j],
        decreases n - i,
    {
        let b = data[i];
        mem.set(off + i, b);
        i = i + 1;
    }
    assert(mem@.subrange(off as int, off + data@.len()) =~= data@);
}

/// The bytes a typed result occupies in the return buffer, when the
/// result's kind matches the declared return type: a number is a 4-byte
/// little-endian copy, a vector a 24-byte record (three scalars, each padded
/// to 8 bytes), a string or structured result its own byte run.
pub open spec fn expected_bytes(rettype: ReturnType, result: NativeResult) -> Option<Seq<u8>> {
    match (rettype, result) {
        (ReturnType::Number, NativeResult::Number(v)) => Some(le_bytes(v as nat, 4)),
        (ReturnType::Vector3, NativeResult::Vec3(v)) => Some(vec3_bytes(v)),
        (ReturnType::Str, NativeResult::Str(b)) => Some(b@),
        (ReturnType::MsgPack, NativeResult::Object(b)) => Some(b@),
        _ => None,
    }
}

/// The 24-byte record of a vector result: each component is a 4-byte
/// little-endian scalar followed by 4 bytes of zero padding.
pub open spec fn vec3_bytes(v: Vector3) -> Seq<u8> {
    le_bytes(v.x as nat, 4) + le_bytes(0, 4) + le_bytes(v.y as nat, 4) + le_bytes(0, 4) + le_bytes(
        v.z as nat,
        4,
    ) + le_bytes(0, 4)
}

/// Whether `v` is the typed reading of some result of at least its minimal
/// length inside the scratch region of `cap` bytes at `off` in `mem`.
pub open spec fn converted_in_region<Ret: RetVal>(mem: Seq<u8>, off: int, cap: int, v: Ret) -> bool {
    exists|len: int|
        Ret::min_len() <= len <= cap && #[trigger] Ret::converted(mem.subrange(off, off + len), v)
}

/// The guest module instance: its linear memory, the event and callback
/// registries, the cooperative scheduler, and the typed-return scratch
/// region inside the memory. `F` is the callback handler type and `T` the
/// task type of the guest's own code.
pub struct ScriptModule<F, T> {
    /// The guest's linear memory; offsets stay within 32 bits.
    pub mem: Vec<u8>,
    /// The event subscription registry.
    pub events: EventRegistry,
    /// The callback-handle registry.
    pub refs: RefRegistry<F>,
    /// The cooperative scheduler and timer.
    pub sched: Scheduler<T>,
    /// Offset of the typed-return scratch buffer in `mem`.
    pub retval_off: usize,
    /// Authoritative capacity of the scratch buffer.
    pub retval_cap: usize,
    /// Whether the module exports the buffer-resize operation; without it,
    /// an oversized result fails with a no-space code instead of growing.
    pub can_extend: bool,
    /// Whether the module exports an event entry; without it, event
    /// delivery degrades to a no-op.
    pub has_event_entry: bool,
    /// Whether the module was instantiated with the richer server-side
    /// system-call surface.
    pub is_server: bool,
}

impl<F, T: GuestTask> ScriptModule<F, T> {
    /// The memory stays 32-bit addressable, the scratch region lies inside
    /// it, and every registry is well-formed.
    pub open spec fn wf(&self) -> bool {
        &&& self.mem@.len() <= GUEST_MEM_LIMIT
        &&& self.retval_off + self.retval_cap <= self.mem@.len()
        &&& self.events.wf()
        &&& self.refs.wf()
        &&& self.sched.wf()
    }

    /// A fresh instance: empty registries, a zeroed scratch buffer at the
    /// start of memory, and the requested capability surface.
    pub fn new(is_server: bool, can_extend: bool, has_event_entry: bool) -> (r: ScriptModule<F, T>)
        ensures
            r.wf(),
            r.is_server == is_server,
            r.can_extend == can_extend,
            r.has_event_entry == has_event_entry,
            r.retval_cap == RETVAL_BUFFER_SIZE,
            forall|n: Seq<u8>| r.events.sub_of(n) is None,
            forall|idx: u32| r.refs.entry_of(idx) is None,
            forall|id: u64| r.sched.state_of(id) is None,
    {
        let mut mem: Vec<u8> = Vec::new();
        push_zeros(&mut mem, RETVAL_BUFFER_SIZE);
        ScriptModule {
            mem,
            events: EventRegistry::new(),
            refs: RefRegistry::new(),
            sched: Scheduler::new(),
            retval_off: 0,
            retval_cap: RETVAL_BUFFER_SIZE,
            can_extend,
            has_event_entry,
            is_server,
        }
    }

    /// Copies `bytes` into freshly allocated guest memory and yields the
    /// allocation's offset; fails (leaving memory untouched) only when the
    /// memory would outgrow its 32-bit limit.
    pub fn alloc_bytes(&mut self, bytes: &Vec<u8>) -> (r: Option<u32>)
        requires
            old(self).wf(),
        ensures
            final(self).wf(),
            final(self).retval_off == old(self).retval_off,
            final(self).retval_cap == old(self).retval_cap,
            final(self).events == old(self).events,
            final(self).refs == old(self).refs,
            final(self).sched == old(self).sched,
            match r {
                Some(off) => off == old(self).mem@.len() && final(self).mem@ == old(self).mem@
                    + bytes@,
                None => old(self).mem@.len() + bytes@.len() > GUEST_MEM_LIMIT && final(self).mem@
                    == old(self).mem@,
            },
    {
        if bytes.len() > GUEST_MEM_LIMIT - self.mem.len() {
            return None;
        }
        let off = self.mem.len();
        wire::push_bytes(&mut self.mem, bytes);
        Some(off as u32)
    }

    /// Grows (or shrinks) the typed-return scratch buffer to exactly
    /// `new_size` bytes and reports its new offset: the old buffer's leading
    /// bytes are preserved up to the new size, any growth is zero-filled.
    /// Refused when the module lacks the resize export or memory is
    /// exhausted.
    pub fn extend_retval_buffer(&mut self, new_size: usize) -> (r: Option<u32>)
        requires
            old(self).wf(),
        ensures
            final(self).wf(),
            final(self).events == old(self).events,
            final(self).refs == old(self).refs,
            final(self).sched == old(self).sched,
            ({
                let copied = if old(self).retval_cap < new_size {
                    old(self).retval_cap
                } else {
                    new_size
                };
                match r {
                    Some(off) => old(self).can_extend && off == old(self).mem@.len() && final(self).mem@ == old(self).mem@ + old(self).mem@.subrange(
                        old(self).retval_off as int,
                        old(self).retval_off + copied,
                    ) + Seq::new((new_size - copied) as nat, |i: int| 0u8) && final(self).retval_off == off && final(self).retval_cap == new_size,
                    None => (!old(self).can_extend || old(self).mem@.len() + new_size
                        > GUEST_MEM_LIMIT) && final(self).mem@ == old(self).mem@ && final(self).retval_off == old(self).retval_off && final(self).retval_cap == old(self).retval_cap,
                }
            }),
            final(self).can_extend == old(self).can_extend,
            final(self).has_event_entry == old(self).has_event_entry,
            final(self).is_server == old(self).is_server,
    {
        if !self.can_extend {
            return None;
        }
        if new_size > GUEST_MEM_LIMIT - self.mem.len() {
            return None;
        }
        let off = self.mem.len();
        let copied = if self.retval_cap < new_size {
            self.retval_cap
        } else {
            new_size
        };
        let old_region = wire::copy_range(&self.mem, self.retval_off, copied);
        wire::push_bytes(&mut self.mem, &old_region);
        push_zeros(&mut self.mem, new_size - copied);
        self.retval_off = off;
        self.retval_cap = new_size;
        Some(off as u32)
    }

    /// Writes `bytes` into the typed-return scratch buffer, growing it by
    /// exactly one resize request — sized to the exact needed length — when
    /// it is too small. When the buffer cannot grow, the write is refused
    /// with a no-space code and guest memory is left untouched.
    pub fn deliver_bytes(&mut self, bytes: &Vec<u8>) -> (code: i32)
        requires
            old(self).wf(),
        ensures
            final(self).wf(),
            final(self).events == old(self).events,
            final(self).refs == old(self).refs,
            final(self).sched == old(self).sched,
            final(self).can_extend == old(self).can_extend,
            final(self).has_event_entry == old(self).has_event_entry,
            final(self).is_server == old(self).is_server,
            bytes@.len() > 0x7fff_ffff ==> code == codec::NO_SPACE_IN_BUFFER && final(self).mem@
                == old(self).mem@ && final(self).retval_off == old(self).retval_off && final(self).retval_cap == old(self).retval_cap,
            bytes@.len() <= 0x7fff_ffff && bytes@.len() <= old(self).retval_cap ==> code
                == bytes@.len() && final(self).retval_off == old(self).retval_off && final(self).retval_cap == old(self).retval_cap && final(self).mem@.len() == old(self).mem@.len()
                && final(self).mem@.subrange(
                old(self).retval_off as int,
                old(self).retval_off + bytes@.len(),
            ) == bytes@ && (forall|i: int|
                0 <= i < old(self).mem@.len() && !(old(self).retval_off <= i < old(self).retval_off
                    + bytes@.len()) ==> final(self).mem@[i] == old(self).mem@[i]),
            bytes@.len() <= 0x7fff_ffff && bytes@.len() > old(self).retval_cap && old(self).can_extend && old(self).mem@.len() + bytes@.len() <= GUEST_MEM_LIMIT ==> code
                == bytes@.len() && final(self).retval_off == old(self).mem@.len() && final(self).retval_cap == bytes@.len() && final(self).mem@ == old(self).mem@ + bytes@,
            bytes@.len() <= 0x7fff_ffff && bytes@.len() > old(self).retval_cap && !(old(self).can_extend && old(self).mem@.len() + bytes@.len() <= GUEST_MEM_LIMIT) ==> code
                == codec::NO_SPACE_IN_BUFFER && final(self).mem@ == old(self).mem@ && final(self).retval_off == old(self).retval_off && final(self).retval_cap == old(self).retval_cap,
            code >= 0 ==> code <= final(self).retval_cap && code == bytes@.len(),
    {
        if bytes.len() > 0x7fff_ffff {
            return codec::NO_SPACE_IN_BUFFER;
        }
        if bytes.len() <= self.retval_cap {
            let off = self.retval_off;
            write_at(&mut self.mem, off, bytes);
            return bytes.len() as i32;
        }
        match self.extend_retval_buffer(bytes.len()) {
            Some(off) => {
                let ghost grown = self.mem@;
                let offu = off as usize;
                write_at(&mut self.mem, offu, bytes);
                proof {
                    assert(self.mem@ =~= old(self).mem@ + bytes@);
                }
                bytes.len() as i32
            },
            None => codec::NO_SPACE_IN_BUFFER,
        }
    }

    /// Implements the host side of one typed-return delivery: dispatches on
    /// the declared return type, checks the result's kind against it, and
    /// writes the result bytes through the growth protocol. An empty return
    /// type succeeds with nothing written; an absent result where one was
    /// expected, or an unknown type tag, reports the no-return code; a
    /// mismatched result kind reports the wrong-arguments code.
    pub fn write_result(&mut self, rettype: ReturnType, result: &NativeResult) -> (code: i32)
        requires
            old(self).wf(),
        ensures
            final(self).wf(),
            final(self).events == old(self).events,
            final(self).refs == old(self).refs,
            final(self).sched == old(self).sched,
            final(self).can_extend == old(self).can_extend,
            final(self).has_event_entry == old(self).has_event_entry,
            final(self).is_server == old(self).is_server,
            rettype == ReturnType::Empty ==> code == codec::SUCCESS && final(self).mem@ == old(self).mem@ && final(self).retval_off == old(self).retval_off && final(self).retval_cap
                == old(self).retval_cap,
            rettype == ReturnType::Unk ==> code == codec::NO_RETURN_VALUE && final(self).mem@
                == old(self).mem@ && final(self).retval_off == old(self).retval_off && final(self).retval_cap == old(self).retval_cap,
            rettype != ReturnType::Empty && rettype != ReturnType::Unk && result is Nothing
                ==> code == codec::NO_RETURN_VALUE && final(self).mem@ == old(self).mem@ && final(self).retval_off == old(self).retval_off && final(self).retval_cap == old(self).retval_cap,
            rettype != ReturnType::Empty && rettype != ReturnType::Unk && !(result is Nothing)
                && expected_bytes(rettype, *result) is None ==> code == codec::WRONG_ARGS && final(self).mem@ == old(self).mem@ && final(self).retval_off == old(self).retval_off && final(self).retval_cap == old(self).retval_cap,
            (match expected_bytes(rettype, *result) {
                Some(bytes) => rettype != ReturnType::Empty ==> {
                    &&& (bytes.len() > 0x7fff_ffff ==> code == codec::NO_SPACE_IN_BUFFER && final(self).mem@ == old(self).mem@ && final(self).retval_off == old(self).retval_off
                        && final(self).retval_cap == old(self).retval_cap)
                    &&& (bytes.len() <= 0x7fff_ffff && bytes.len() <= old(self).retval_cap
                        ==> code == bytes.len() && final(self).retval_off == old(self).retval_off
                        && final(self).retval_cap == old(self).retval_cap && final(self).mem@.subrange(
                        old(self).retval_off as int,
                        old(self).retval_off + bytes.len(),
                    ) == bytes)
                    &&& (bytes.len() <= 0x7fff_ffff && bytes.len() > old(self).retval_cap && old(self).can_extend && old(self).mem@.len() + bytes.len() <= GUEST_MEM_LIMIT
                        ==> code == bytes.len() && final(self).retval_off == old(self).mem@.len()
                        && final(self).retval_cap == bytes.len() && final(self).mem@ == old(self).mem@ + bytes)
                    &&& (bytes.len() <= 0x7fff_ffff && bytes.len() > old(self).retval_cap && !(old(self).can_extend && old(self).mem@.len() + bytes.len() <= GUEST_MEM_LIMIT)
                        ==> code == codec::NO_SPACE_IN_BUFFER && final(self).mem@ == old(self).mem@ && final(self).retval_off == old(self).retval_off && final(self).retval_cap
                        == old(self).retval_cap)
                },
                None => true,
            }),
            code >= 0 ==> code <= final(self).retval_cap && final(self).retval_off + final(self).retval_cap <= final(self).mem@.len(),
    {
        match rettype {
            ReturnType::Empty => codec::SUCCESS,
            ReturnType::Unk => codec::NO_RETURN_VALUE,
            ReturnType::Number => match result {
                NativeResult::Number(v) => {
                    let mut bytes: Vec<u8> = Vec::new();
                    proof {
                        reveal_with_fuel(crate::wire::pow256, 5);
                    }
                    codec::push_le(&mut bytes, *v as u64, 4);
                    proof {
                        assert(bytes@ =~= le_bytes(*v as nat, 4));
                    }
                    self.deliver_bytes(&bytes)
                },
                NativeResult::Nothing => codec::NO_RETURN_VALUE,
                _ => codec::WRONG_ARGS,
            },
            ReturnType::Vector3 => match result {
                NativeResult::Vec3(v) => {
                    let mut bytes: Vec<u8> = Vec::new();
                    proof {
                        reveal_with_fuel(crate::wire::pow256, 5);
                    }
                    codec::push_le(&mut bytes, v.x as u64, 4);
                    codec::push_le(&mut bytes, 0, 4);
                    codec::push_le(&mut bytes, v.y as u64, 4);
                    codec::push_le(&mut bytes, 0, 4);
                    codec::push_le(&mut bytes, v.z as u64, 4);
                    codec::push_le(&mut bytes, 0, 4);
                    proof {
                        assert(bytes@ =~= vec3_bytes(*v));
                    }
                    self.deliver_bytes(&bytes)
                },
                NativeResult::Nothing => codec::NO_RETURN_VALUE,
                _ => codec::WRONG_ARGS,
            },
            ReturnType::Str => match result {
                NativeResult::Str(b) => self.deliver_bytes(b),
                NativeResult::Nothing => codec::NO_RETURN_VALUE,
                _ => codec::WRONG_ARGS,
            },
            ReturnType::MsgPack => match result {
                NativeResult::Object(b) => self.deliver_bytes(b),
                NativeResult::Nothing => codec::NO_RETURN_VALUE,
                _ => codec::WRONG_ARGS,
            },
        }
    }
}

} // verus!

verus! {

/// In a buffer laid out as `s`, a NUL terminator, and a tail, the C-string
/// read stops exactly at the terminator.
pub proof fn lemma_trunc_nul_terminated(s: Seq<u8>, rest: Seq<u8>)
    requires
        forall|i: int| 0 <= i < s.len() ==> s[i] != 0,
    ensures
        codec::nul_pos(s + seq![0u8] + rest) == s.len(),
        codec::trunc_nul(s + seq![0u8] + rest) == s,
    decreases s.len(),
{
    let t = s + seq![0u8] + rest;
    if s.len() == 0 {
        assert(t[0] == 0);
    } else {
        assert(t[0] == s[0]);
        assert(t.drop_first() =~= s.drop_first() + seq![0u8] + rest);
        assert forall|i: int| 0 <= i < s.drop_first().len() implies s.drop_first()[i] != 0 by {
            assert(s.drop_first()[i] == s[i + 1]);
        }
        lemma_trunc_nul_terminated(s.drop_first(), rest);
    }
    assert(codec::trunc_nul(t) =~= s);
}

impl<F, T: GuestTask> ScriptModule<F, T> {
    /// Copies `bytes` into fresh guest memory, known to fit.
    pub fn alloc_bytes_exact(&mut self, bytes: &Vec<u8>) -> (off: u32)
        requires
            old(self).wf(),
            old(self).mem@.len() + bytes@.len() <= GUEST_MEM_LIMIT,
        ensures
            final(self).wf(),
            off == old(self).mem@.len(),
            final(self).mem@ == old(self).mem@ + bytes@,
            final(self).retval_off == old(self).retval_off,
            final(self).retval_cap == old(self).retval_cap,
            final(self).events == old(self).events,
            final(self).refs == old(self).refs,
            final(self).sched == old(self).sched,
            final(self).can_extend == old(self).can_extend,
            final(self).has_event_entry == old(self).has_event_entry,
            final(self).is_server == old(self).is_server,
    {
        let off = self.mem.len();
        wire::push_bytes(&mut self.mem, bytes);
        off as u32
    }

    /// Copies `bytes` plus a NUL terminator into fresh guest memory.
    pub fn alloc_cstr(&mut self, bytes: &Vec<u8>) -> (off: u32)
        requires
            old(self).wf(),
            old(self).mem@.len() + bytes@.len() + 1 <= GUEST_MEM_LIMIT,
        ensures
            final(self).wf(),
            off == old(self).mem@.len(),
            final(self).mem@ == old(self).mem@ + bytes@ + seq![0u8],
            final(self).retval_off == old(self).retval_off,
            final(self).retval_cap == old(self).retval_cap,
            final(self).events == old(self).events,
            final(self).refs == old(self).refs,
            final(self).sched == old(self).sched,
            final(self).can_extend == old(self).can_extend,
            final(self).has_event_entry == old(self).has_event_entry,
            final(self).is_server == old(self).is_server,
    {
        let off = self.mem.len();
        wire::push_bytes(&mut self.mem, bytes);
        self.mem.push(0);
        proof {
            assert(self.mem@ =~= old(self).mem@ + bytes@ + seq![0u8]);
        }
        off as u32
    }

    /// Releases one guest allocation. The model allocator only ever grows,
    /// so releasing is accepted and ignored; the offsets of live data never
    /// move.
    pub fn free_bytes(&mut self, off: u32, len: u32)
        requires
            old(self).wf(),
        ensures
            *final(self) == *old(self),
    {
    }

    /// Reads the NUL-terminated byte string at `off` (up to the end of
    /// memory when no terminator occurs).
    pub fn read_cstr(&self, off: usize) -> (r: Vec<u8>)
        requires
            self.wf(),
            off <= self.mem@.len(),
        ensures
            r@ == codec::trunc_nul(self.mem@.skip(off as int)),
    {
        let tail = wire::copy_range(&self.mem, off, self.mem.len() - off);
        proof {
            assert(tail@ =~= self.mem@.skip(off as int));
        }
        codec::truncate_at_nul(&tail)
    }

    /// One native invocation, guest side: marshals the arguments into a
    /// frame (rejecting an oversized list before anything crosses, and only
    /// then), lets the embedder dispatch it, writes the typed result back
    /// through the growth protocol, and reads the declared return type out
    /// of the scratch buffer. What crosses is fixed by [`invoker::build_frame`];
    /// what each status code yields is fixed by [`ScriptModule::write_result`]
    /// and [`invoker::map_invoke_code`]. Here: any value handed back is the
    /// typed reading of the final scratch region, every error is one of the
    /// taxonomy's, and a call with an empty return type writes nothing and
    /// succeeds.
    pub fn invoke<Ret: RetVal, H: NativeHost>(&mut self, host: &mut H, hash: u64, args: &Vec<Val>)
        -> (r: Result<Ret, InvokeError>)
        requires
            old(self).wf(),
        ensures
            final(self).wf(),
            final(self).events == old(self).events,
            final(self).refs == old(self).refs,
            final(self).sched == old(self).sched,
            final(self).can_extend == old(self).can_extend,
            final(self).has_event_entry == old(self).has_event_entry,
            final(self).is_server == old(self).is_server,
            (r == Err::<Ret, InvokeError>(InvokeError::Code(codec::TOO_MUCH_ARGS))) == (
            args@.len() > codec::MAX_ARGS),
            (match r {
                Ok(v) => converted_in_region::<Ret>(
                    final(self).mem@,
                    final(self).retval_off as int,
                    final(self).retval_cap as int,
                    v,
                ),
                Err(_) => true,
            }),
            (match r {
                Err(e) => e == InvokeError::NoSpace || e == InvokeError::NullResult || (match e {
                    InvokeError::Code(c) => c < 0 && c != codec::NO_SPACE_IN_BUFFER && c
                        != codec::NULL_RESULT && c != codec::NO_RETURN_VALUE,
                    _ => true,
                }),
                Ok(_) => true,
            }),
            Ret::ret_ident() == ReturnType::Empty && args@.len() <= codec::MAX_ARGS ==> final(self).mem@ == old(self).mem@ && final(self).retval_off == old(self).retval_off && final(self).retval_cap == old(self).retval_cap,
            Ret::ret_ident() == ReturnType::Empty && Ret::min_len() == 0 && args@.len()
                <= codec::MAX_ARGS ==> r is Ok,
    {
        let frame = match invoker::build_frame(hash, args) {
            Ok(f) => f,
            Err(e) => {
                return Err(e);
            },
        };
        let result = host.invoke_native(&frame);
        let rettype = Ret::ident();
        let code = self.write_result(rettype, &result);
        proof {
            assert(code != codec::TOO_MUCH_ARGS);
        }
        match invoker::map_invoke_code(code) {
            Some(e) => Err(e),
            None => {
                let len = code as usize;
                if len < Ret::required_len() {
                    return Err(InvokeError::Code(codec::WRONG_ARGS));
                }
                let slice = wire::copy_range(&self.mem, self.retval_off, len);
                let v = Ret::convert(&slice);
                proof {
                    assert(slice@ =~= self.mem@.subrange(
                        self.retval_off as int,
                        self.retval_off + len,
                    ));
                    assert(converted_in_region::<Ret>(
                        self.mem@,
                        self.retval_off as int,
                        self.retval_cap as int,
                        v,
                    )) by {
                        assert(Ret::min_len() <= len as int <= self.retval_cap as int);
                        assert(Ret::converted(
                            self.mem@.subrange(
                                self.retval_off as int,
                                self.retval_off + len as int,
                            ),
                            v,
                        ));
                    }
                }
                Ok(v)
            },
        }
    }

    /// Publishes a local event: the payload is re-encoded in the wire
    /// format and the trigger-event native is invoked with the name, the
    /// bytes and their length.
    pub fn emit<H: NativeHost>(&mut self, host: &mut H, event_name: &Vec<u8>, payload: &MpValue)
        requires
            old(self).wf(),
            wire::wf(payload@),
        ensures
            final(self).wf(),
            final(self).events == old(self).events,
            final(self).refs == old(self).refs,
            final(self).sched == old(self).sched,
            final(self).mem@ == old(self).mem@,
            final(self).retval_off == old(self).retval_off,
            final(self).retval_cap == old(self).retval_cap,
    {
        let bytes = wire::encode(payload);
        let len = bytes.len() as u32;
        let mut args: Vec<Val> = Vec::new();
        args.push(Val::Str(wire::copy_range(event_name, 0, event_name.len())));
        args.push(Val::Bytes(bytes));
        args.push(Val::Integer(len));
        let _ = self.invoke::<(), H>(host, TRIGGER_EVENT_INTERNAL, &args);
    }

    /// Publishes an event toward a remote peer, through the client-event
    /// native.
    pub fn emit_net<H: NativeHost>(
        &mut self,
        host: &mut H,
        event_name: &Vec<u8>,
        target: &Vec<u8>,
        payload: &MpValue,
    )
        requires
            old(self).wf(),
            wire::wf(payload@),
        ensures
            final(self).wf(),
            final(self).events == old(self).events,
            final(self).refs == old(self).refs,
            final(self).sched == old(self).sched,
            final(self).mem@ == old(self).mem@,
            final(self).retval_off == old(self).retval_off,
            final(self).retval_cap == old(self).retval_cap,
    {
        let bytes = wire::encode(payload);
        let len = bytes.len() as u32;
        let mut args: Vec<Val> = Vec::new();
        args.push(Val::Str(wire::copy_range(event_name, 0, event_name.len())));
        args.push(Val::Str(wire::copy_range(target, 0, target.len())));
        args.push(Val::Bytes(bytes));
        args.push(Val::Integer(len));
        let _ = self.invoke::<(), H>(host, TRIGGER_CLIENT_EVENT_INTERNAL, &args);
    }

    /// Performs the actions polled tasks requested: local and remote event
    /// publications go through the invocation protocol, log lines go to the
    /// embedder's sink.
    pub fn perform_actions<H: NativeHost>(&mut self, host: &mut H, actions: &Vec<GuestAction>)
        requires
            old(self).wf(),
        ensures
            final(self).wf(),
            final(self).events == old(self).events,
            final(self).refs == old(self).refs,
            final(self).sched == old(self).sched,
            final(self).mem@ == old(self).mem@,
            final(self).retval_off == old(self).retval_off,
            final(self).retval_cap == old(self).retval_cap,
    {
        let n = actions.len();
        let mut i: usize = 0;
        while i < n
            invariant
                i <= n,
                n == actions@.len(),
                self.wf(),
                self.events == old(self).events,
                self.refs == old(self).refs,
                self.sched == old(self).sched,
                self.mem@ == old(self).mem@,
                self.retval_off == old(self).retval_off,
                self.retval_cap == old(self).retval_cap,
            decreases n - i,
        {
            match &actions[i] {
                GuestAction::Emit { name, payload } => {
                    let len = payload.len() as u32;
                    let mut args: Vec<Val> = Vec::new();
                    args.push(Val::Str(wire::copy_range(name, 0, name.len())));
                    args.push(Val::Bytes(wire::copy_range(payload, 0, payload.len())));
                    args.push(Val::Integer(len));
                    let _ = self.invoke::<(), H>(host, TRIGGER_EVENT_INTERNAL, &args);
                },
                GuestAction::EmitNet { name, target, payload } => {
                    let len = payload.len() as u32;
                    let mut args: Vec<Val> = Vec::new();
                    args.push(Val::Str(wire::copy_range(name, 0, name.len())));
                    args.push(Val::Str(wire::copy_range(target, 0, target.len())));
                    args.push(Val::Bytes(wire::copy_range(payload, 0, payload.len())));
                    args.push(Val::Integer(len));
                    let _ = self.invoke::<(), H>(host, TRIGGER_CLIENT_EVENT_INTERNAL, &args);
                },
                GuestAction::Log(msg) => {
                    host.log(msg);
                },
            }
            i = i + 1;
        }
    }

    /// Registers (or replaces) a subscription and notifies the host once
    /// that this module now handles the event name.
    pub fn subscribe<H: NativeHost>(
        &mut self,
        host: &mut H,
        event_name: &Vec<u8>,
        scope: EventScope,
    )
        requires
            old(self).wf(),
        ensures
            final(self).wf(),
            final(self).refs == old(self).refs,
            final(self).sched == old(self).sched,
            final(self).mem@ == old(self).mem@,
            final(self).retval_off == old(self).retval_off,
            final(self).retval_cap == old(self).retval_cap,
            final(self).events.sub_of(event_name@) matches Some(s) && s.scope == scope
                && s.queue@.len() == 0,
            forall|n: Seq<u8>|
                n != event_name@ ==> final(self).events.sub_of(n) == old(self).events.sub_of(n),
    {
        self.events.subscribe(event_name, scope);
        let mut args: Vec<Val> = Vec::new();
        args.push(Val::Str(wire::copy_range(event_name, 0, event_name.len())));
        let _ = self.invoke::<(), H>(host, REGISTER_RESOURCE_AS_EVENT_HANDLER, &args);
    }

    /// Delivers one inbound raw event to the module, the way the host hands
    /// it over: the name, payload and source are copied into freshly
    /// allocated guest memory, read back as the event entry would read them,
    /// filtered by scope, queued, and the task pool is run until it stalls.
    /// Delivery is a no-op when the copies would not fit in guest memory.
    pub fn deliver_event<H: NativeHost>(
        &mut self,
        host: &mut H,
        name: &Vec<u8>,
        payload: &Vec<u8>,
        source: &Vec<u8>,
    ) -> (delivered: bool)
        requires
            old(self).wf(),
            forall|i: int| 0 <= i < name@.len() ==> name@[i] != 0,
            forall|i: int| 0 <= i < source@.len() ==> source@[i] != 0,
        ensures
            final(self).wf(),
            final(self).refs == old(self).refs,
            ({
                let fits = old(self).mem@.len() + name@.len() + payload@.len() + source@.len() + 2
                    <= GUEST_MEM_LIMIT;
                &&& (!fits ==> final(self).events == old(self).events && !delivered)
                &&& (fits ==> delivered == (old(self).events.sub_of(name@) matches Some(s)
                    && accepts(s.scope, source@)))
                &&& (fits ==> forall|n: Seq<u8>|
                    n != name@ ==> final(self).events.sub_of(n) == old(self).events.sub_of(n))
                &&& (fits && !delivered ==> final(self).events.sub_of(name@) == old(self).events.sub_of(name@))
                &&& (fits && delivered ==> (old(self).events.sub_of(name@) matches Some(s1)
                    && final(self).events.sub_of(name@) matches Some(s2) && s2.scope == s1.scope
                    && s2.queue@.len() == s1.queue@.len() + 1 && s2.queue@.take(
                    s1.queue@.len() as int,
                ) == s1.queue@ && s2.queue@.last()@ == (logical_source(source@), payload@)))
            }),
            forall|id: u64|
                !(#[trigger] final(self).sched.state_of(id) matches Some(
                    crate::sched::TaskState::Ready,
                )),
    {
        if payload.len() > GUEST_MEM_LIMIT || name.len() > GUEST_MEM_LIMIT - payload.len()
            || source.len() > GUEST_MEM_LIMIT - payload.len() - name.len() || 2 > GUEST_MEM_LIMIT
            - payload.len() - name.len() - source.len() || self.mem.len() > GUEST_MEM_LIMIT
            - payload.len() - name.len() - source.len() - 2 {
            self.sched.wake_parked();
            let actions = self.sched.run_until_stalled();
            self.perform_actions(host, &actions);
            return false;
        }
        let name_off = self.alloc_cstr(name);
        let pay_off = self.alloc_bytes_exact(payload);
        let src_off = self.alloc_cstr(source);
        let name2 = self.read_cstr(name_off as usize);
        let pay2 = wire::copy_range(&self.mem, pay_off as usize, payload.len());
        let src2 = self.read_cstr(src_off as usize);
        proof {
            lemma_trunc_nul_terminated(name@, payload@ + source@ + seq![0u8]);
            assert(self.mem@.skip(name_off as int) =~= name@ + seq![0u8] + (payload@ + source@
                + seq![0u8]));
            assert(name2@ =~= name@);
            assert(pay2@ =~= payload@);
            lemma_trunc_nul_terminated(source@, Seq::<u8>::empty());
            assert(self.mem@.skip(src_off as int) =~= source@ + seq![0u8] + Seq::<u8>::empty());
            assert(src2@ =~= source@);
        }
        let delivered = self.events.on_event(&name2, &pay2, &src2);
        let name_len = (name.len() as u64 + 1) as u32;
        let pay_len = payload.len() as u32;
        let src_len = (source.len() as u64 + 1) as u32;
        self.free_bytes(name_off, name_len);
        self.free_bytes(pay_off, pay_len);
        self.free_bytes(src_off, src_len);
        self.sched.wake_parked();
        let actions = self.sched.run_until_stalled();
        self.perform_actions(host, &actions);
        delivered
    }

    /// One host-driven tick: wakes due timer waiters, runs the pool until it
    /// stalls, and performs the actions the tasks requested. A waiter whose
    /// deadline lies after `now` remains suspended.
    pub fn on_tick<H: NativeHost>(&mut self, host: &mut H, now: u64)
        requires
            old(self).wf(),
            now >= old(self).sched.spec_now(),
        ensures
            final(self).wf(),
            final(self).events == old(self).events,
            final(self).refs == old(self).refs,
            final(self).sched.spec_now() == now,
            forall|id: u64| !(#[trigger] final(self).sched.state_of(id) matches Some(
                crate::sched::TaskState::Ready,
            )),
            forall|id: u64, d: u64|
                old(self).sched.state_of(id) == Some(crate::sched::TaskState::Sleeping(d)) && d
                    > now ==> final(self).sched.state_of(id) == Some(
                    crate::sched::TaskState::Sleeping(d),
                ),
            forall|id: u64, d: u64|
                old(self).sched.state_of(id) == Some(crate::sched::TaskState::Sleeping(d)) && d
                    < now && #[trigger] old(self).sched.timer_waiters(d).contains(id) ==> !(
                #[trigger] final(self).sched.state_of(id) matches Some(
                    crate::sched::TaskState::Sleeping(e),
                ) && e < now),
            forall|id: u64|
                old(self).sched.state_of(id) is None ==> final(self).sched.state_of(id) is None,
    {
        let actions = self.sched.tick(now);
        self.perform_actions(host, &actions);
    }

    /// Wraps a guest callback body into a registered, host-resolvable
    /// handle: the next monotonic index is assigned, the host is asked once
    /// for the canonical name of that index, and the entry starts with a
    /// reference count of zero.
    pub fn register_ref_function<H: NativeHost>(&mut self, host: &mut H, func: F) -> (r:
        RefFunction)
        requires
            old(self).wf(),
            old(self).refs.spec_next_idx() < u32::MAX,
        ensures
            final(self).wf(),
            final(self).events == old(self).events,
            final(self).sched == old(self).sched,
            final(self).mem@ == old(self).mem@,
            r.spec_idx() == old(self).refs.spec_next_idx() + 1,
            old(self).refs.entry_of(r.spec_idx()) is None,
            final(self).refs.spec_next_idx() == r.spec_idx(),
            final(self).refs.entry_of(r.spec_idx()) matches Some(e) && e.refs == 0 && e.func
                == func && e.idx == r.spec_idx(),
            forall|n: u32|
                n != r.spec_idx() ==> final(self).refs.entry_of(n) == old(self).refs.entry_of(n),
    {
        let idx = self.refs.register(func);
        let name = canonicalize_ref(host, idx);
        RefFunction::new_handle(name, idx)
    }
}

/// The name one canonicalization answer denotes: a non-positive code
/// carries no name; a positive code carries the first `code - 1` bytes the
/// embedder wrote (clamped to the buffer, should the embedder report more
/// than it produced).
pub fn read_canonical_name(code: i32, buffer: &Vec<u8>) -> (r: Option<Vec<u8>>)
    ensures
        code <= 0 ==> r is None,
        code > 0 ==> (match r {
            Some(name) => name@ == (if code - 1 <= buffer@.len() {
                buffer@.take(code - 1)
            } else {
                buffer@
            }) && name@.len() <= code - 1,
            None => false,
        }),
{
    if code <= 0 {
        return None;
    }
    let take = (code - 1) as usize;
    let lim = if take <= buffer.len() {
        take
    } else {
        buffer.len()
    };
    let name = wire::copy_range(buffer, 0, lim);
    proof {
        if code - 1 <= buffer@.len() {
            assert(name@ =~= buffer@.take(code - 1));
        } else {
            assert(name@ =~= buffer@);
        }
    }
    Some(name)
}

/// Asks the embedder for the canonical name of callback `idx`: one round
/// trip with a fixed-size buffer, retried once with the capacity a negative
/// code requested. A zero code, or a second refusal, yields an empty name;
/// a positive code yields the name [`read_canonical_name`] reads from the
/// answer. The name is whatever the embedder produced; only its length
/// bound can be promised of it.
pub fn canonicalize_ref<H: NativeHost>(host: &mut H, idx: u32) -> (name: Vec<u8>)
    ensures
        name@.len() < 0x8000_0000,
{
    let mut buf: Vec<u8> = Vec::new();
    push_zeros(&mut buf, CANON_BUFFER_SIZE);
    let code = host.canonicalize_ref(idx, &mut buf);
    if code >= 0 {
        return match read_canonical_name(code, &buf) {
            Some(n) => n,
            None => Vec::new(),
        };
    }
    let need = if code == i32::MIN {
        0x8000_0000u64
    } else {
        (-code) as u64
    };
    if need > usize::MAX as u64 {
        return Vec::new();
    }
    let mut buf2: Vec<u8> = Vec::new();
    push_zeros(&mut buf2, need as usize);
    let code2 = host.canonicalize_ref(idx, &mut buf2);
    match read_canonical_name(code2, &buf2) {
        Some(n) => n,
        None => Vec::new(),
    }
}

impl ExternRefFunction {
    /// Invokes the callback this reference names, through the embedder's
    /// callback sink: the mirror of the host calling into this module. Any
    /// value handed back decodes from exactly one well-formed wire encoding;
    /// [`decode_ref_result`] fixes what each status code yields.
    pub fn invoke<H: NativeHost>(&self, host: &mut H, args: &MpValue) -> (r: Option<MpValue>)
        requires
            wire::wf(args@),
        ensures
            (match r {
                Some(v) => exists|bytes: Seq<u8>|
                    #[trigger] wire::dec_val(bytes, 0, bytes.len()) == Some(
                        (v@, bytes.len() as int),
                    ),
                None => true,
            }),
    {
        invoke_ref_func(host, self, args)
    }
}

/// Registers this module as a handler of an event name: a plain native call
/// with the name as its only argument.
pub fn register_resource_as_event_handler<F, T: GuestTask, H: NativeHost>(
    module: &mut ScriptModule<F, T>,
    host: &mut H,
    event: &Vec<u8>,
) -> (r: Result<(), InvokeError>)
    requires
        old(module).wf(),
    ensures
        final(module).wf(),
        final(module).events == old(module).events,
        final(module).refs == old(module).refs,
        final(module).sched == old(module).sched,
        final(module).mem@ == old(module).mem@,
        final(module).retval_off == old(module).retval_off,
        final(module).retval_cap == old(module).retval_cap,
        r is Ok,
{
    let mut args: Vec<Val> = Vec::new();
    args.push(Val::Str(wire::copy_range(event, 0, event.len())));
    module.invoke::<(), H>(host, REGISTER_RESOURCE_AS_EVENT_HANDLER, &args)
}

/// The structured value one callback answer denotes: a negative code means
/// no value was returned; a length within the buffer decodes its first
/// `code` bytes as exactly one wire value (an undecodable or partial
/// encoding, or a length beyond the buffer, yields no value).
pub fn decode_ref_result(code: i32, buf: &Vec<u8>) -> (r: Option<MpValue>)
    ensures
        code < 0 ==> r is None,
        code >= 0 && code > buf@.len() ==> r is None,
        code >= 0 && code <= buf@.len() ==> (match r {
            Some(v) => wire::dec_val(buf@.take(code as int), 0, code as nat) == Some(
                (v@, code as int),
            ),
            None => !(wire::dec_val(buf@.take(code as int), 0, code as nat) matches Some((_, p))
                && p == code),
        }),
{
    if code < 0 {
        return None;
    }
    let len = code as usize;
    if len > buf.len() {
        return None;
    }
    let slice = wire::copy_range(&buf, 0, len);
    proof {
        assert(slice@ =~= buf@.take(code as int));
    }
    wire::decode(&slice)
}

/// Invokes a host-held external callback reference: the arguments are
/// encoded in the wire format and handed to the embedder with a scratch
/// buffer, and the answer is read back through [`decode_ref_result`], whose
/// contract fixes what each status code yields. Any value handed back
/// decodes from exactly one well-formed wire encoding.
pub fn invoke_ref_func<H: NativeHost>(host: &mut H, func: &ExternRefFunction, args: &MpValue) -> (r:
    Option<MpValue>)
    requires
        wire::wf(args@),
    ensures
        (match r {
            Some(v) => exists|bytes: Seq<u8>|
                #[trigger] wire::dec_val(bytes, 0, bytes.len()) == Some((v@, bytes.len() as int)),
            None => true,
        }),
{
    let encoded = wire::encode(args);
    let mut buf: Vec<u8> = Vec::new();
    push_zeros(&mut buf, RETVAL_BUFFER_SIZE);
    let code = host.invoke_ref(func.name(), &encoded, &mut buf);
    let r = decode_ref_result(code, &buf);
    proof {
        if r is Some && 0 <= code <= buf@.len() {
            let bytes = buf@.take(code as int);
            assert(wire::dec_val(bytes, 0, bytes.len()) == Some(
                (r.unwrap()@, bytes.len() as int),
            ));
        }
    }
    r
}

} // verus!

verus! {

impl<F: RefHandler, T: GuestTask> ScriptModule<F, T> {
    /// The guest's callback entry: looks the index up and, when a handler
    /// still lives there, runs it on the raw argument bytes, filling `out`
    /// with the encoded result and reporting its length. An erased or
    /// never-assigned index yields no result (and no panic): a zero length
    /// and an empty buffer.
    pub fn call_ref(&self, idx: u32, args: &Vec<u8>, out: &mut Vec<u8>) -> (r: u32)
        requires
            self.wf(),
        ensures
            self.refs.entry_of(idx) is None ==> r == 0 && final(out)@.len() == 0,
            final(out)@.len() <= 0xffff_ffff,
            r == final(out)@.len(),
    {
        out.clear();
        match self.refs.call_ref(idx) {
            Some(f) => {
                let res = f.call(args);
                let lim = if res.len() > 0xffff_ffffusize {
                    0xffff_ffffusize
                } else {
                    res.len()
                };
                let copied = wire::copy_range(&res, 0, lim);
                wire::push_bytes(out, &copied);
                proof {
                    assert(out@ =~= copied@);
                }
                lim as u32
            },
            None => 0,
        }
    }
}

/// The host runtime an embedder drives: it owns at most one guest module
/// instance, loaded once and kept alive for the whole session, and proxies
/// the tick, trigger-event and callback-lifecycle entry points into it. A
/// missing module (or a missing optional export) degrades each entry point
/// to a no-op rather than failing.
pub struct Runtime<F, T> {
    /// The loaded guest module, if any.
    pub script: Option<ScriptModule<F, T>>,
}

impl<F: RefHandler, T: GuestTask> Runtime<F, T> {
    /// The loaded module, if any, is well-formed.
    pub open spec fn wf(&self) -> bool {
        match self.script {
            Some(m) => m.wf(),
            None => true,
        }
    }

    /// A runtime with no module loaded yet.
    pub fn new() -> (r: Runtime<F, T>)
        ensures
            r.wf(),
            r.script is None,
    {
        Runtime { script: None }
    }

    /// Instantiates the guest module, replacing any earlier instance.
    /// `is_server` selects the richer server-side system-call surface.
    pub fn load_module(&mut self, is_server: bool)
        ensures
            final(self).wf(),
            final(self).script matches Some(m) && m.is_server == is_server && m.can_extend
                && m.has_event_entry && (forall|n: Seq<u8>| m.events.sub_of(n) is None) && (
            forall|idx: u32| m.refs.entry_of(idx) is None) && (forall|id: u64|
                m.sched.state_of(id) is None),
    {
        self.script = Some(ScriptModule::new(is_server, true, true));
    }

    /// Hands one inbound event to the module: the name, payload and source
    /// are copied into guest memory and delivered through the scope filter.
    /// Without a module, or without an event entry, nothing happens.
    pub fn trigger_event<H: NativeHost>(
        &mut self,
        host: &mut H,
        name: &Vec<u8>,
        payload: &Vec<u8>,
        source: &Vec<u8>,
    ) -> (delivered: bool)
        requires
            old(self).wf(),
            forall|i: int| 0 <= i < name@.len() ==> name@[i] != 0,
            forall|i: int| 0 <= i < source@.len() ==> source@[i] != 0,
        ensures
            final(self).wf(),
            old(self).script is None ==> final(self).script is None && !delivered,
            (match old(self).script {
                Some(m0) => !m0.has_event_entry ==> final(self).script == old(self).script
                    && !delivered,
                None => true,
            }),
            (match (old(self).script, final(self).script) {
                (Some(m0), Some(m1)) => m0.has_event_entry && m0.mem@.len() + name@.len()
                    + payload@.len() + source@.len() + 2 <= GUEST_MEM_LIMIT ==> {
                &&& delivered == (m0.events.sub_of(name@) matches Some(s) && accepts(
                    s.scope,
                    source@,
                ))
                &&& (forall|n: Seq<u8>|
                    n != name@ ==> m1.events.sub_of(n) == m0.events.sub_of(n))
                &&& (!delivered ==> m1.events.sub_of(name@) == m0.events.sub_of(name@))
                &&& (delivered ==> (m0.events.sub_of(name@) matches Some(s1)
                    && m1.events.sub_of(name@) matches Some(s2) && s2.scope == s1.scope
                    && s2.queue@.len() == s1.queue@.len() + 1 && s2.queue@.take(
                    s1.queue@.len() as int,
                ) == s1.queue@ && s2.queue@.last()@ == (logical_source(source@), payload@)))
                },
                (Some(_), None) => false,
                (None, _) => true,
            }),
    {
        match &mut self.script {
            Some(m) => {
                if m.has_event_entry {
                    m.deliver_event(host, name, payload, source)
                } else {
                    false
                }
            },
            None => false,
        }
    }

    /// One host-driven tick at time `now`: due timer waiters wake, the task
    /// pool runs until stalled, and requested actions are performed. A
    /// waiter with a later deadline remains suspended.
    pub fn tick<H: NativeHost>(&mut self, host: &mut H, now: u64)
        requires
            old(self).wf(),
            (match old(self).script {
                Some(m) => now >= m.sched.spec_now(),
                None => true,
            }),
        ensures
            final(self).wf(),
            old(self).script is None ==> final(self).script is None,
            (match (old(self).script, final(self).script) {
                (Some(m0), Some(m1)) => {
                    &&& m1.events == m0.events
                    &&& m1.refs == m0.refs
                    &&& m1.sched.spec_now() == now
                    &&& (forall|id: u64| !(#[trigger] m1.sched.state_of(id) matches Some(
                        crate::sched::TaskState::Ready,
                    )))
                    &&& (forall|id: u64, d: u64|
                        m0.sched.state_of(id) == Some(crate::sched::TaskState::Sleeping(d)) && d
                            > now ==> m1.sched.state_of(id) == Some(
                            crate::sched::TaskState::Sleeping(d),
                        ))
                    &&& (forall|id: u64, d: u64|
                        m0.sched.state_of(id) == Some(crate::sched::TaskState::Sleeping(d)) && d
                            < now && #[trigger] m0.sched.timer_waiters(d).contains(id) ==> !(
                        #[trigger] m1.sched.state_of(id) matches Some(
                            crate::sched::TaskState::Sleeping(e),
                        ) && e < now))
                },
                (Some(_), None) => false,
                (None, _) => true,
            }),
    {
        match &mut self.script {
            Some(m) => {
                m.on_tick(host, now);
            },
            None => {},
        }
    }

    /// Calls back into a guest callback by index, filling `ret_buf` with the
    /// encoded result and reporting its length; an erased or unknown index,
    /// or a missing module, yields a zero length and an empty buffer.
    pub fn call_ref(&mut self, ref_idx: u32, args: &Vec<u8>, ret_buf: &mut Vec<u8>) -> (r: u32)
        requires
            old(self).wf(),
        ensures
            final(self).wf(),
            final(self).script == old(self).script,
            r == final(ret_buf)@.len(),
            final(ret_buf)@.len() <= 0xffff_ffff,
            old(self).script is None ==> r == 0,
            (match old(self).script {
                Some(m) => m.refs.entry_of(ref_idx) is None ==> r == 0,
                None => true,
            }),
    {
        match &self.script {
            Some(m) => m.call_ref(ref_idx, args, ret_buf),
            None => {
                ret_buf.clear();
                0
            },
        }
    }

    /// The host signals one more reference to the callback under `ref_idx`;
    /// the index is echoed back, or zero without a module.
    pub fn duplicate_ref(&mut self, ref_idx: u32) -> (r: u32)
        requires
            old(self).wf(),
        ensures
            final(self).wf(),
            old(self).script is None ==> final(self).script is None && r == 0,
            (match (old(self).script, final(self).script) {
                (Some(m0), Some(m1)) => r == ref_idx && m1.events == m0.events && m1.sched
                    == m0.sched && (forall|n: u32|
                    n != ref_idx ==> m1.refs.entry_of(n) == m0.refs.entry_of(n)) && (
                match m0.refs.entry_of(ref_idx) {
                    Some(e) => m1.refs.entry_of(ref_idx) matches Some(e2) && e2.idx == e.idx
                        && e2.func == e.func && e2.refs == if e.refs < i64::MAX {
                        e.refs + 1
                    } else {
                        e.refs as int
                    },
                    None => m1.refs.entry_of(ref_idx) is None,
                }),
                (Some(_), None) => false,
                (None, _) => true,
            }),
    {
        match &mut self.script {
            Some(m) => m.refs.duplicate_ref(ref_idx),
            None => 0,
        }
    }

    /// The host signals that it dropped one reference to the callback under
    /// `ref_idx`: the count falls, and the entry is erased once it would
    /// reach zero or below.
    pub fn remove_ref(&mut self, ref_idx: u32)
        requires
            old(self).wf(),
        ensures
            final(self).wf(),
            old(self).script is None ==> final(self).script is None,
            (match (old(self).script, final(self).script) {
                (Some(m0), Some(m1)) => m1.events == m0.events && m1.sched == m0.sched && (forall|
                    n: u32,
                |
                    n != ref_idx ==> m1.refs.entry_of(n) == m0.refs.entry_of(n)) && (
                match m0.refs.entry_of(ref_idx) {
                    Some(e) => if e.refs <= 1 {
                        m1.refs.entry_of(ref_idx) is None
                    } else {
                        m1.refs.entry_of(ref_idx) matches Some(e2) && e2.idx == e.idx && e2.func
                            == e.func && e2.refs == e.refs - 1
                    },
                    None => m1.refs.entry_of(ref_idx) is None,
                }),
                (Some(_), None) => false,
                (None, _) => true,
            }),
    {
        match &mut self.script {
            Some(m) => m.refs.remove_ref(ref_idx),
            None => {},
        }
    }

    /// The guest memory footprint, in 64 KiB pages; zero without a module.
    pub fn memory_size(&self) -> (r: u32)
        requires
            self.wf(),
        ensures
            match self.script {
                Some(m) => r == m.mem@.len() / 0x10000,
                None => r == 0,
            },
    {
        match &self.script {
            Some(m) => (m.mem.len() / 0x10000) as u32,
            None => 0,
        }
    }
}

} // verus!
