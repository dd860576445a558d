//! Building a native call: the typed argument list is marshaled into a
//! fixed-size frame of resolved argument slots, and the status code the host
//! reports is mapped back onto the caller-visible error taxonomy.
use vstd::prelude::*;

use crate::codec;
use crate::codec::Vector3;
use crate::refreg::RefFunction;
use crate::wire;

verus! {

/// One typed argument of a native call, as guest code passes it.
///
/// Floating-point arguments travel as their 32-bit bit patterns: the
/// marshaling layer only moves the bits.
pub enum Val {
    RefInteger(u32),
    RefFloat(u32),
    RefLong(u64),
    MutRefInteger(u32),
    MutRefFloat(u32),
    MutRefLong(u64),
    Integer(u32),
    Float(u32),
    Long(u64),
    Vector3(Vector3),
    RefVector3(Vector3),
    MutRefVector3(Vector3),
    Str(Vec<u8>),
    Bytes(Vec<u8>),
    MutBytes(Vec<u8>),
    RefFunc(RefFunction),
}

/// Why an invocation failed, as surfaced to the calling guest code.
#[derive(Debug, Clone, PartialEq, Eq, Structural)]
pub enum InvokeError {
    /// The call produced no result where one was expected.
    NullResult,
    /// The return buffer was too small and could not be grown.
    NoSpace,
    /// Any other failure, passed through as the host's numeric code.
    Code(i32),
}

/// One resolved argument slot of a call frame: the plain value the host-side
/// dispatch reads through the slot's address.
pub enum ArgValue {
    /// An inline scalar of the given size (4 or 8 bytes).
    Scalar { value: u64, size: u32 },
    /// A by-reference scalar.
    RefScalar { value: u64 },
    /// An inline three-component vector.
    Vector(Vector3),
    /// A by-reference three-component vector.
    RefVector(Vector3),
    /// A NUL-terminated string: the bytes before the terminator.
    CString(Vec<u8>),
    /// A byte buffer passed by address and length.
    Buffer(Vec<u8>),
    /// The canonical name of a callback handle.
    RefName(Vec<u8>),
}

/// The model of one resolved slot.
pub enum ArgValueModel {
    Scalar { value: u64, size: u32 },
    RefScalar { value: u64 },
    Vector(Vector3),
    RefVector(Vector3),
    CString(Seq<u8>),
    Buffer(Seq<u8>),
    RefName(Seq<u8>),
}

impl View for ArgValue {
    type V = ArgValueModel;

    open spec fn view(&self) -> ArgValueModel {
        match self {
            ArgValue::Scalar { value, size } => ArgValueModel::Scalar { value: *value, size: *size },
            ArgValue::RefScalar { value } => ArgValueModel::RefScalar { value: *value },
            ArgValue::Vector(v) => ArgValueModel::Vector(*v),
            ArgValue::RefVector(v) => ArgValueModel::RefVector(*v),
            ArgValue::CString(s) => ArgValueModel::CString(s@),
            ArgValue::Buffer(s) => ArgValueModel::Buffer(s@),
            ArgValue::RefName(s) => ArgValueModel::RefName(s@),
        }
    }
}

/// The slot a typed argument marshals to. A string is truncated at its first
/// NUL byte, since it crosses the boundary in a NUL-terminated form; a
/// callback handle crosses as its canonical name.
pub open spec fn slot_of(v: Val) -> ArgValueModel {
    match v {
        Val::Integer(n) => ArgValueModel::Scalar { value: n as u64, size: 4 },
        Val::Float(bits) => ArgValueModel::Scalar { value: bits as u64, size: 4 },
        Val::Long(n) => ArgValueModel::Scalar { value: n, size: 8 },
        Val::RefInteger(n) => ArgValueModel::RefScalar { value: n as u64 },
        Val::RefFloat(bits) => ArgValueModel::RefScalar { value: bits as u64 },
        Val::RefLong(n) => ArgValueModel::RefScalar { value: n },
        Val::MutRefInteger(n) => ArgValueModel::RefScalar { value: n as u64 },
        Val::MutRefFloat(bits) => ArgValueModel::RefScalar { value: bits as u64 },
        Val::MutRefLong(n) => ArgValueModel::RefScalar { value: n },
        Val::Vector3(v) => ArgValueModel::Vector(v),
        Val::RefVector3(v) => ArgValueModel::RefVector(v),
        Val::MutRefVector3(v) => ArgValueModel::RefVector(v),
        Val::Str(s) => ArgValueModel::CString(codec::trunc_nul(s@)),
        Val::Bytes(s) => ArgValueModel::Buffer(s@),
        Val::MutBytes(s) => ArgValueModel::Buffer(s@),
        Val::RefFunc(f) => ArgValueModel::RefName(f.spec_name()),
    }
}

/// The slots of a whole argument list, in order.
pub open spec fn slots_of(vals: Seq<Val>) -> Seq<ArgValueModel>
    decreases vals.len(),
{
    if vals.len() == 0 {
        Seq::empty()
    } else {
        seq![slot_of(vals[0])] + slots_of(vals.drop_first())
    }
}

pub proof fn lemma_slots_of_index(vals: Seq<Val>)
    ensures
        slots_of(vals).len() == vals.len(),
        forall|i: int| 0 <= i < vals.len() ==> slots_of(vals)[i] == slot_of(vals[i]),
    decreases vals.len(),
{
    if vals.len() > 0 {
        lemma_slots_of_index(vals.drop_first());
        assert forall|i: int| 0 <= i < vals.len() implies slots_of(vals)[i] == slot_of(
            vals[i],
        ) by {
            if i > 0 {
                assert(vals.drop_first()[i - 1] == vals[i]);
            }
        }
    }
}

/// The host-side record of one call: the 64-bit function identifier and the
/// resolved argument slots, never more than [`codec::MAX_ARGS`] of them.
pub struct NativeCallFrame {
    pub identifier: u64,
    pub args: Vec<ArgValue>,
}

impl View for NativeCallFrame {
    type V = (u64, Seq<ArgValueModel>);

    open spec fn view(&self) -> (u64, Seq<ArgValueModel>) {
        (self.identifier, self.args@.map_values(|a: ArgValue| a@))
    }
}

/// Marshals one typed argument into its slot.
pub fn marshal_arg(v: &Val) -> (r: ArgValue)
    ensures
        r@ == slot_of(*v),
{
    match v {
        Val::Integer(n) => ArgValue::Scalar { value: *n as u64, size: 4 },
        Val::Float(bits) => ArgValue::Scalar { value: *bits as u64, size: 4 },
        Val::Long(n) => ArgValue::Scalar { value: *n, size: 8 },
        Val::RefInteger(n) => ArgValue::RefScalar { value: *n as u64 },
        Val::RefFloat(bits) => ArgValue::RefScalar { value: *bits as u64 },
        Val::RefLong(n) => ArgValue::RefScalar { value: *n },
        Val::MutRefInteger(n) => ArgValue::RefScalar { value: *n as u64 },
        Val::MutRefFloat(bits) => ArgValue::RefScalar { value: *bits as u64 },
        Val::MutRefLong(n) => ArgValue::RefScalar { value: *n },
        Val::Vector3(v3) => ArgValue::Vector(*v3),
        Val::RefVector3(v3) => ArgValue::RefVector(*v3),
        Val::MutRefVector3(v3) => ArgValue::RefVector(*v3),
        Val::Str(s) => ArgValue::CString(codec::truncate_at_nul(s)),
        Val::Bytes(s) => {
            let copied = wire::copy_range(s, 0, s.len());
            proof {
                assert(copied@ =~= s@);
            }
            ArgValue::Buffer(copied)
        },
        Val::MutBytes(s) => {
            let copied = wire::copy_range(s, 0, s.len());
            proof {
                assert(copied@ =~= s@);
            }
            ArgValue::Buffer(copied)
        },
        Val::RefFunc(f) => {
            let name = f.name();
            let copied = wire::copy_range(name, 0, name.len());
            proof {
                assert(copied@ =~= f.spec_name());
            }
            ArgValue::RefName(copied)
        },
    }
}

/// Builds the call frame for `hash` over `args`, rejecting an argument list
/// that exceeds the fixed slot maximum before anything crosses the boundary.
#[verifier::loop_isolation(false)]
pub fn build_frame(hash: u64, args: &Vec<Val>) -> (r: Result<NativeCallFrame, InvokeError>)
    ensures
        args@.len() > codec::MAX_ARGS ==> r == Err::<NativeCallFrame, InvokeError>(
            InvokeError::Code(codec::TOO_MUCH_ARGS),
        ),
        args@.len() <= codec::MAX_ARGS ==> (r matches Ok(f) && f.identifier == hash && f@.1
            == slots_of(args@)),
{
    if args.len() > codec::MAX_ARGS {
        return Err(InvokeError::Code(codec::TOO_MUCH_ARGS));
    }
    proof {
        lemma_slots_of_index(args@);
    }
    let n = args.len();
    let mut slots: Vec<ArgValue> = Vec::new();
    let mut i: usize = 0;
    while i < n
        invariant
            i <= n,
            n == args@.len(),
            slots@.len() == i,
            forall|j: int| 0 <= j < i ==> (#[trigger] slots@[j])@ == slots_of(args@)[j],
        decreases n - i,
    {
        slots.push(marshal_arg(&args[i]));
        i = i + 1;
    }
    let frame = NativeCallFrame { identifier: hash, args: slots };
    proof {
        assert(frame@.1 =~= slots_of(args@));
    }
    Ok(frame)
}

/// The error a negative invocation status code denotes: buffer exhaustion,
/// an absent or null result, or an opaque host code; a non-negative code is
/// a success carrying the result length.
pub open spec fn spec_code_error(code: i32) -> Option<InvokeError> {
    if code >= codec::SUCCESS {
        None
    } else if code == codec::NO_SPACE_IN_BUFFER {
        Some(InvokeError::NoSpace)
    } else if code == codec::NO_RETURN_VALUE || code == codec::NULL_RESULT {
        Some(InvokeError::NullResult)
    } else {
        Some(InvokeError::Code(code))
    }
}

/// Maps an invocation status code onto the caller-visible error taxonomy.
pub fn map_invoke_code(code: i32) -> (r: Option<InvokeError>)
    ensures
        r == spec_code_error(code),
{
    if code >= codec::SUCCESS {
        None
    } else if code == codec::NO_SPACE_IN_BUFFER {
        Some(InvokeError::NoSpace)
    } else if code == codec::NO_RETURN_VALUE || code == codec::NULL_RESULT {
        Some(InvokeError::NullResult)
    } else {
        Some(InvokeError::Code(code))
    }
}

} // verus!
