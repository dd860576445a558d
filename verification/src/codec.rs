//! The native-call data layout: tagged argument slots, the typed-return
//! descriptor, and the conversions a guest applies to the raw result bytes
//! the host writes back.
use vstd::prelude::*;

verus! {

/// Maximum number of argument slots in one native call frame.
pub const MAX_ARGS: usize = 32;

/// The call completed and a result of the reported length was written.
pub const SUCCESS: i32 = 0;

/// The return buffer was too small and could not be grown.
pub const NO_SPACE_IN_BUFFER: i32 = -1;

/// The call produced no result where one was expected.
pub const NO_RETURN_VALUE: i32 = -2;

/// More argument slots were passed than a call frame holds.
pub const TOO_MUCH_ARGS: i32 = -3;

/// The call produced a null result.
pub const NULL_RESULT: i32 = -4;

/// The call was handed arguments it cannot take.
pub const WRONG_ARGS: i32 = -5;

/// The call failed for a reason the host did not classify.
pub const CRITICAL_ERROR: i32 = -6;

/// The logical type of a native call's result.
#[derive(Clone, Copy, Debug, PartialEq, Eq, Structural)]
pub enum ReturnType {
    Empty,
    Number,
    Str,
    Vector3,
    MsgPack,
    Unk,
}

/// The numeric tag of each return type, as carried in a return descriptor.
pub open spec fn return_type_tag(t: ReturnType) -> u32 {
    match t {
        ReturnType::Empty => 0,
        ReturnType::Number => 1,
        ReturnType::Str => 2,
        ReturnType::Vector3 => 3,
        ReturnType::MsgPack => 4,
        ReturnType::Unk => 5,
    }
}

/// The return type a numeric tag denotes; an unknown tag is `Unk`.
pub open spec fn spec_return_type(val: u32) -> ReturnType {
    if val == 0 {
        ReturnType::Empty
    } else if val == 1 {
        ReturnType::Number
    } else if val == 2 {
        ReturnType::Str
    } else if val == 3 {
        ReturnType::Vector3
    } else if val == 4 {
        ReturnType::MsgPack
    } else {
        ReturnType::Unk
    }
}

impl From<u32> for ReturnType {
    fn from(val: u32) -> (r: ReturnType) {
        match val {
            0 => ReturnType::Empty,
            1 => ReturnType::Number,
            2 => ReturnType::Str,
            3 => ReturnType::Vector3,
            4 => ReturnType::MsgPack,
            _ => ReturnType::Unk,
        }
    }
}

impl vstd::std_specs::convert::FromSpecImpl<u32> for ReturnType {
    open spec fn obeys_from_spec() -> bool {
        true
    }

    open spec fn from_spec(v: u32) -> ReturnType {
        spec_return_type(v)
    }
}

impl ReturnType {
    /// The numeric tag of this return type.
    pub fn as_tag(&self) -> (r: u32)
        ensures
            r == return_type_tag(*self),
    {
        match self {
            ReturnType::Empty => 0,
            ReturnType::Number => 1,
            ReturnType::Str => 2,
            ReturnType::Vector3 => 3,
            ReturnType::MsgPack => 4,
            ReturnType::Unk => 5,
        }
    }
}

/// The typed-return descriptor a guest hands the host: where the result goes
/// inside guest memory and how large that scratch region currently is. The
/// capacity is authoritative: the host never writes past it without first
/// obtaining a larger buffer from the guest.
#[derive(Clone, Copy, Debug)]
pub struct ReturnValue {
    pub rettype: ReturnType,
    /// Guest-memory offset of the scratch buffer.
    pub buffer: u32,
    /// Capacity of the scratch buffer, in bytes.
    pub capacity: u32,
}

impl ReturnValue {
    /// A descriptor for a `rettype` result in the region of `capacity` bytes
    /// at guest offset `buffer`.
    pub fn new(rettype: ReturnType, buffer: u32, capacity: u32) -> (r: ReturnValue)
        ensures
            r.rettype == rettype,
            r.buffer == buffer,
            r.capacity == capacity,
    {
        ReturnValue { rettype, buffer, capacity }
    }
}

/// A guest-side record of a byte range: address and length.
#[derive(Clone, Copy, Debug, PartialEq, Eq, Structural)]
pub struct ScrObject {
    pub data: u64,
    pub length: u64,
}

/// A three-component vector, each component carried as the bit pattern of a
/// 32-bit floating-point value. The codec only moves these bits; it never
/// interprets them numerically.
#[derive(Clone, Copy, Debug, PartialEq, Eq, Structural)]
pub struct Vector3 {
    pub x: u32,
    pub y: u32,
    pub z: u32,
}

/// One fixed-size argument slot as passed by address to the host: either an
/// inline value or a reference, with the size the host may read.
#[derive(Clone, Copy, Debug, PartialEq, Eq, Structural)]
pub struct GuestArg {
    pub is_ref: bool,
    pub value: u64,
    pub size: u32,
}

impl GuestArg {
    /// A slot holding `value`. A by-reference slot always advertises the
    /// size of an address; an inline slot advertises the value's own size.
    pub fn new(value: u64, size: u32, is_ref: bool) -> (r: GuestArg)
        ensures
            r.is_ref == is_ref,
            r.value == value,
            r.size == if is_ref {
                8u32
            } else {
                size
            },
    {
        GuestArg { is_ref, value, size: if is_ref { 8 } else { size } }
    }
}

/// Position of the first NUL byte in `s`, or `s.len()` when none occurs.
pub open spec fn nul_pos(s: Seq<u8>) -> int
    decreases s.len(),
{
    if s.len() == 0 {
        0
    } else if s[0] == 0 {
        0
    } else {
        1 + nul_pos(s.drop_first())
    }
}

pub proof fn lemma_nul_pos(s: Seq<u8>)
    ensures
        0 <= nul_pos(s) <= s.len(),
        forall|i: int| 0 <= i < nul_pos(s) ==> s[i] != 0,
        nul_pos(s) < s.len() ==> s[nul_pos(s)] == 0,
    decreases s.len(),
{
    if s.len() > 0 && s[0] != 0 {
        lemma_nul_pos(s.drop_first());
        assert forall|i: int| 0 <= i < nul_pos(s) implies s[i] != 0 by {
            if i > 0 {
                assert(s.drop_first()[i - 1] == s[i]);
            }
        }
        if nul_pos(s) < s.len() {
            assert(s.drop_first()[nul_pos(s) - 1] == s[nul_pos(s)]);
        }
    }
}

/// The prefix of `s` before its first NUL byte: what survives conversion to
/// a NUL-terminated representation.
pub open spec fn trunc_nul(s: Seq<u8>) -> Seq<u8> {
    s.take(nul_pos(s))
}

/// A copy of `s` up to (not including) its first NUL byte.
pub fn truncate_at_nul(s: &Vec<u8>) -> (r: Vec<u8>)
    ensures
        r@ == trunc_nul(s@),
{
    proof {
        lemma_nul_pos(s@);
    }
    let n = s.len();
    let mut r: Vec<u8> = Vec::new();
    let mut i: usize = 0;
    while i < n
        invariant
            i <= n,
            n == s@.len(),
            i <= nul_pos(s@),
            r@ == s@.take(i as int),
            forall|j: int| 0 <= j < nul_pos(s@) ==> s@[j] != 0,
            nul_pos(s@) < s@.len() ==> s@[nul_pos(s@)] == 0,
            nul_pos(s@) <= s@.len(),
        decreases n - i,
    {
        if s[i] == 0 {
            assert(i == nul_pos(s@));
            return r;
        }
        assert(i != nul_pos(s@));
        r.push(s[i]);
        assert(r@ =~= s@.take(i + 1));
        i = i + 1;
    }
    assert(nul_pos(s@) == s@.len());
    assert(r@ =~= s@.take(nul_pos(s@)));
    r
}

/// The value of a little-endian byte string.
pub open spec fn le_val(s: Seq<u8>) -> nat
    decreases s.len(),
{
    if s.len() == 0 {
        0
    } else {
        s[0] as nat + 256 * le_val(s.drop_first())
    }
}

/// The `width`-byte little-endian encoding of `n`.
pub open spec fn le_bytes(n: nat, width: nat) -> Seq<u8>
    decreases width,
{
    if width == 0 {
        Seq::empty()
    } else {
        seq![(n % 256) as u8] + le_bytes(n / 256, (width - 1) as nat)
    }
}

/// Reads a `width`-byte little-endian unsigned value at `pos`.
pub fn read_le(b: &Vec<u8>, pos: usize, width: usize) -> (r: u64)
    requires
        width <= 8,
        pos + width <= b@.len(),
    ensures
        r as nat == le_val(b@.subrange(pos as int, pos + width)),
        (r as nat) < crate::wire::pow256(width as nat),
    decreases width,
{
    proof {
        crate::wire::lemma_pow256_monotonic(width as nat, 8);
        assert(crate::wire::pow256(8) == 0x1_0000_0000_0000_0000) by {
            reveal_with_fuel(crate::wire::pow256, 9);
        }
    }
    if width == 0 {
        assert(b@.subrange(pos as int, pos as int) =~= Seq::<u8>::empty());
        0
    } else {
        let blen = b.len();
        assert(pos + 1 <= blen);
        let lo = b[pos];
        let hi = read_le(b, pos + 1, width - 1);
        proof {
            let s = b@.subrange(pos as int, pos + width);
            assert(s.drop_first() =~= b@.subrange(pos + 1, pos + 1 + (width - 1)));
            assert(s[0] == b@[pos as int]);
            assert((lo as nat) + 256 * (hi as nat) < 256 * crate::wire::pow256((width - 1) as nat))
                by (nonlinear_arith)
                requires
                    (hi as nat) < crate::wire::pow256((width - 1) as nat),
                    lo < 256,
            ;
        }
        (lo as u64) + 256 * hi
    }
}

/// Appends the `width`-byte little-endian encoding of `n` to `out`.
pub fn push_le(out: &mut Vec<u8>, n: u64, width: usize)
    requires
        width <= 8,
        (n as nat) < crate::wire::pow256(width as nat),
    ensures
        final(out)@ == old(out)@ + le_bytes(n as nat, width as nat),
    decreases width,
{
    if width == 0 {
        assert(out@ =~= old(out)@ + le_bytes(n as nat, 0));
    } else {
        proof {
            assert((n as nat) / 256 < crate::wire::pow256((width - 1) as nat)) by (nonlinear_arith)
                requires
                    (n as nat) < 256 * crate::wire::pow256((width - 1) as nat),
            ;
        }
        out.push((n % 256) as u8);
        push_le(out, n / 256, width - 1);
        assert(out@ =~= old(out)@ + le_bytes(n as nat, width as nat));
    }
}

/// A typed result as read back from the raw bytes the host wrote.
pub trait RetVal: Sized {
    /// The logical return type this conversion expects.
    spec fn ret_ident() -> ReturnType;

    /// How many leading bytes of the buffer the conversion reads.
    spec fn min_len() -> nat;

    /// What it means for `r` to be the value the leading bytes denote.
    spec fn converted(s: Seq<u8>, r: Self) -> bool;

    /// The logical return type this conversion expects.
    fn ident() -> (r: ReturnType)
        ensures
            r == Self::ret_ident(),
    ;

    /// How many leading bytes of the buffer the conversion reads.
    fn required_len() -> (r: usize)
        ensures
            r == Self::min_len(),
    ;

    /// Reads the value back from the result bytes.
    fn convert(bytes: &Vec<u8>) -> (r: Self)
        requires
            bytes@.len() >= Self::min_len(),
        ensures
            Self::converted(bytes@, r),
    ;
}

impl RetVal for () {
    open spec fn ret_ident() -> ReturnType {
        ReturnType::Empty
    }

    open spec fn min_len() -> nat {
        0
    }

    open spec fn converted(s: Seq<u8>, r: ()) -> bool {
        true
    }

    fn ident() -> ReturnType {
        ReturnType::Empty
    }

    fn required_len() -> usize {
        0
    }

    fn convert(bytes: &Vec<u8>) -> () {
        ()
    }
}

impl RetVal for u32 {
    open spec fn ret_ident() -> ReturnType {
        ReturnType::Number
    }

    open spec fn min_len() -> nat {
        4
    }

    open spec fn converted(s: Seq<u8>, r: u32) -> bool {
        r == le_val(s.subrange(0, 4))
    }

    fn ident() -> ReturnType {
        ReturnType::Number
    }

    fn required_len() -> usize {
        4
    }

    fn convert(bytes: &Vec<u8>) -> (r: u32)
    {
        let n = read_le(bytes, 0, 4);
        proof {
            reveal_with_fuel(crate::wire::pow256, 5);
        }
        n as u32
    }
}

impl RetVal for u64 {
    open spec fn ret_ident() -> ReturnType {
        ReturnType::Number
    }

    open spec fn min_len() -> nat {
        8
    }

    open spec fn converted(s: Seq<u8>, r: u64) -> bool {
        r == le_val(s.subrange(0, 8))
    }

    fn ident() -> ReturnType {
        ReturnType::Number
    }

    fn required_len() -> usize {
        8
    }

    fn convert(bytes: &Vec<u8>) -> (r: u64)
    {
        let n = read_le(bytes, 0, 8);
        proof {
            reveal_with_fuel(crate::wire::pow256, 9);
        }
        n
    }
}

impl RetVal for i32 {
    open spec fn ret_ident() -> ReturnType {
        ReturnType::Number
    }

    open spec fn min_len() -> nat {
        4
    }

    open spec fn converted(s: Seq<u8>, r: i32) -> bool {
        r == crate::wire::signed_of(le_val(s.subrange(0, 4)), 4)
    }

    fn ident() -> ReturnType {
        ReturnType::Number
    }

    fn required_len() -> usize {
        4
    }

    fn convert(bytes: &Vec<u8>) -> (r: i32)
    {
        let n = read_le(bytes, 0, 4);
        proof {
            reveal_with_fuel(crate::wire::pow256, 5);
        }
        if n < 0x8000_0000 {
            n as i32
        } else {
            ((n as i64) - 0x1_0000_0000) as i32
        }
    }
}

impl RetVal for i64 {
    open spec fn ret_ident() -> ReturnType {
        ReturnType::Number
    }

    open spec fn min_len() -> nat {
        8
    }

    open spec fn converted(s: Seq<u8>, r: i64) -> bool {
        r == crate::wire::signed_of(le_val(s.subrange(0, 8)), 8)
    }

    fn ident() -> ReturnType {
        ReturnType::Number
    }

    fn required_len() -> usize {
        8
    }

    fn convert(bytes: &Vec<u8>) -> (r: i64)
    {
        let n = read_le(bytes, 0, 8);
        proof {
            reveal_with_fuel(crate::wire::pow256, 9);
        }
        if n < 0x8000_0000_0000_0000 {
            n as i64
        } else {
            ((n as i128) - 0x1_0000_0000_0000_0000i128) as i64
        }
    }
}

impl RetVal for Vec<u8> {
    open spec fn ret_ident() -> ReturnType {
        ReturnType::Str
    }

    open spec fn min_len() -> nat {
        0
    }

    open spec fn converted(s: Seq<u8>, r: Vec<u8>) -> bool {
        r@ == s
    }

    fn ident() -> ReturnType {
        ReturnType::Str
    }

    fn required_len() -> usize {
        0
    }

    fn convert(bytes: &Vec<u8>) -> (r: Vec<u8>)
    {
        let r = crate::wire::copy_range(bytes, 0, bytes.len());
        proof {
            assert(r@ =~= bytes@);
        }
        r
    }
}

impl RetVal for Vector3 {
    open spec fn ret_ident() -> ReturnType {
        ReturnType::Vector3
    }

    open spec fn min_len() -> nat {
        24
    }

    open spec fn converted(s: Seq<u8>, r: Vector3) -> bool {
        &&& r.x == le_val(s.subrange(0, 4))
        &&& r.y == le_val(s.subrange(8, 12))
        &&& r.z == le_val(s.subrange(16, 20))
    }

    fn ident() -> ReturnType {
        ReturnType::Vector3
    }

    fn required_len() -> usize {
        24
    }

    fn convert(bytes: &Vec<u8>) -> (r: Vector3)
    {
        proof {
            reveal_with_fuel(crate::wire::pow256, 5);
        }
        let x = read_le(bytes, 0, 4);
        let y = read_le(bytes, 8, 4);
        let z = read_le(bytes, 16, 4);
        Vector3 { x: x as u32, y: y as u32, z: z as u32 }
    }
}

} // verus!

verus! {

/// A structured (self-describing) result: the raw byte range the host wrote,
/// decoded on demand.
pub struct Packed {
    raw: Vec<u8>,
}

impl Packed {
    /// The raw bytes, in the model.
    pub closed spec fn spec_raw(&self) -> Seq<u8> {
        self.raw@
    }

    /// The raw encoded payload.
    pub fn payload(&self) -> (r: &Vec<u8>)
        ensures
            r@ == self.spec_raw(),
    {
        &self.raw
    }

    /// Consumes the wrapper and yields the raw encoded payload.
    pub fn into_inner(self) -> (r: Vec<u8>)
        ensures
            r@ == self.spec_raw(),
    {
        self.raw
    }

    /// Decodes the payload as exactly one structured value; a malformed or
    /// partial payload yields nothing.
    pub fn decode_value(&self) -> (r: Option<crate::wire::MpValue>)
        ensures
            match r {
                Some(v) => crate::wire::dec_val(self.spec_raw(), 0, self.spec_raw().len()) == Some(
                    (v@, self.spec_raw().len() as int),
                ),
                None => !(crate::wire::dec_val(self.spec_raw(), 0, self.spec_raw().len())
                    matches Some((_, p)) && p == self.spec_raw().len()),
            },
    {
        crate::wire::decode(&self.raw)
    }
}

impl RetVal for Packed {
    open spec fn ret_ident() -> ReturnType {
        ReturnType::MsgPack
    }

    open spec fn min_len() -> nat {
        0
    }

    open spec fn converted(s: Seq<u8>, r: Packed) -> bool {
        r.spec_raw() == s
    }

    fn ident() -> ReturnType {
        ReturnType::MsgPack
    }

    fn required_len() -> usize {
        0
    }

    fn convert(bytes: &Vec<u8>) -> (r: Packed)
    {
        let raw = crate::wire::copy_range(bytes, 0, bytes.len());
        proof {
            assert(raw@ =~= bytes@);
        }
        Packed { raw }
    }
}

} // verus!
