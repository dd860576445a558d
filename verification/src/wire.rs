//! The wire format for structured payloads: a compact self-describing binary
//! encoding. Struct-like payloads are maps of named fields, tuple-like
//! payloads are positional arrays, and one reserved extension tag carries a
//! callback-handle reference. The encoder always emits the shortest form of
//! each value; the decoder accepts every standard form (floating-point forms
//! are rejected, since the runtime's payloads never carry them).
use vstd::prelude::*;

verus! {

/// A structured value as carried on the wire.
///
/// Integers are split by sign: a non-negative integer is always a `UInt` and
/// an `Int` is negative (see [`wf`]). Text and binary payloads are byte
/// strings. `Ext` is the reserved extension form; the callback-reference tag
/// is [`CALLBACK_EXT_TYPE`].
pub enum MpValue {
    Nil,
    Bool(bool),
    UInt(u64),
    Int(i64),
    Str(Vec<u8>),
    Bin(Vec<u8>),
    Array(Vec<MpValue>),
    Dict(Vec<(MpValue, MpValue)>),
    Ext(i8, Vec<u8>),
}

/// The mathematical model of a wire value: what contracts speak about.
pub enum SpecValue {
    Nil,
    Bool(bool),
    UInt(nat),
    Int(int),
    Str(Seq<u8>),
    Bin(Seq<u8>),
    Array(Seq<SpecValue>),
    Dict(Seq<(SpecValue, SpecValue)>),
    Ext(i8, Seq<u8>),
}

/// The extension type tag reserved for callback-handle references.
pub const CALLBACK_EXT_TYPE: i8 = 10;

pub open spec fn view_of(v: MpValue) -> SpecValue
    decreases v,
{
    match v {
        MpValue::Nil => SpecValue::Nil,
        MpValue::Bool(b) => SpecValue::Bool(b),
        MpValue::UInt(n) => SpecValue::UInt(n as nat),
        MpValue::Int(i) => SpecValue::Int(i as int),
        MpValue::Str(s) => SpecValue::Str(s@),
        MpValue::Bin(s) => SpecValue::Bin(s@),
        MpValue::Array(es) => SpecValue::Array(view_list(es@)),
        MpValue::Dict(ps) => SpecValue::Dict(view_entries(ps@)),
        MpValue::Ext(t, d) => SpecValue::Ext(t, d@),
    }
}

pub open spec fn view_list(s: Seq<MpValue>) -> Seq<SpecValue>
    decreases s,
{
    if s.len() == 0 {
        Seq::empty()
    } else {
        seq![view_of(s[0])] + view_list(s.drop_first())
    }
}

pub open spec fn view_entries(s: Seq<(MpValue, MpValue)>) -> Seq<(SpecValue, SpecValue)>
    decreases s,
{
    if s.len() == 0 {
        Seq::empty()
    } else {
        seq![(view_of(s[0].0), view_of(s[0].1))] + view_entries(s.drop_first())
    }
}

impl View for MpValue {
    type V = SpecValue;

    open spec fn view(&self) -> SpecValue {
        view_of(*self)
    }
}

pub proof fn lemma_view_list_index(s: Seq<MpValue>)
    ensures
        view_list(s).len() == s.len(),
        forall|i: int| 0 <= i < s.len() ==> view_list(s)[i] == view_of(s[i]),
    decreases s.len(),
{
    if s.len() > 0 {
        lemma_view_list_index(s.drop_first());
        assert forall|i: int| 0 <= i < s.len() implies view_list(s)[i] == view_of(s[i]) by {
            if i > 0 {
                assert(s.drop_first()[i - 1] == s[i]);
            }
        }
    }
}

pub proof fn lemma_view_entries_index(s: Seq<(MpValue, MpValue)>)
    ensures
        view_entries(s).len() == s.len(),
        forall|i: int|
            0 <= i < s.len() ==> view_entries(s)[i] == (view_of(s[i].0), view_of(s[i].1)),
    decreases s.len(),
{
    if s.len() > 0 {
        lemma_view_entries_index(s.drop_first());
        assert forall|i: int|
            0 <= i < s.len() implies view_entries(s)[i] == (view_of(s[i].0), view_of(s[i].1)) by {
            if i > 0 {
                assert(s.drop_first()[i - 1] == s[i]);
            }
        }
    }
}

/// 256 to the power `w`: the number of values a `w`-byte big-endian field holds.
pub open spec fn pow256(w: nat) -> nat
    decreases w,
{
    if w == 0 {
        1
    } else {
        256 * pow256((w - 1) as nat)
    }
}

/// The `width`-byte big-endian encoding of `n` (most significant byte first).
pub open spec fn be_bytes(n: nat, width: nat) -> Seq<u8>
    decreases width,
{
    if width == 0 {
        Seq::empty()
    } else {
        be_bytes(n / 256, (width - 1) as nat) + seq![(n % 256) as u8]
    }
}

/// The unsigned value of a big-endian byte string.
pub open spec fn be_val(s: Seq<u8>) -> nat
    decreases s.len(),
{
    if s.len() == 0 {
        0
    } else {
        be_val(s.drop_last()) * 256 + s.last() as nat
    }
}

pub proof fn lemma_be_bytes_len(n: nat, width: nat)
    ensures
        be_bytes(n, width).len() == width,
    decreases width,
{
    if width > 0 {
        lemma_be_bytes_len(n / 256, (width - 1) as nat);
    }
}

pub proof fn lemma_be_roundtrip(n: nat, width: nat)
    requires
        n < pow256(width),
    ensures
        be_val(be_bytes(n, width)) == n,
    decreases width,
{
    if width > 0 {
        let w1 = (width - 1) as nat;
        assert(n / 256 < pow256(w1)) by (nonlinear_arith)
            requires
                n < 256 * pow256(w1),
        ;
        lemma_be_roundtrip(n / 256, w1);
        lemma_be_bytes_len(n / 256, w1);
        let s = be_bytes(n, width);
        assert(s.drop_last() =~= be_bytes(n / 256, w1));
        assert(n / 256 * 256 + n % 256 == n) by (nonlinear_arith);
    } else {
        assert(n == 0);
    }
}

pub proof fn lemma_pow256_monotonic(w1: nat, w2: nat)
    requires
        w1 <= w2,
    ensures
        pow256(w1) <= pow256(w2),
    decreases w2,
{
    if w1 < w2 {
        lemma_pow256_monotonic(w1, (w2 - 1) as nat);
        assert(pow256((w2 - 1) as nat) <= 256 * pow256((w2 - 1) as nat)) by (nonlinear_arith)
            requires
                pow256((w2 - 1) as nat) >= 0,
        ;
    }
}

/// The signed value a `w`-byte two's-complement field with unsigned value `m` denotes.
pub open spec fn signed_of(m: nat, w: nat) -> int {
    if m < pow256(w) / 2 {
        m as int
    } else {
        m - pow256(w)
    }
}

/// Appends the `width`-byte big-endian encoding of `n` to `out`.
pub fn push_be(out: &mut Vec<u8>, n: u64, width: usize)
    requires
        width <= 8,
        (n as nat) < pow256(width as nat),
    ensures
        final(out)@ == old(out)@ + be_bytes(n as nat, width as nat),
    decreases width,
{
    if width == 0 {
        assert(out@ =~= old(out)@ + be_bytes(n as nat, 0));
    } else {
        proof {
            assert((n as nat) / 256 < pow256((width - 1) as nat)) by (nonlinear_arith)
                requires
                    (n as nat) < 256 * pow256((width - 1) as nat),
            ;
        }
        push_be(out, n / 256, width - 1);
        out.push((n % 256) as u8);
        assert(out@ =~= old(out)@ + be_bytes(n as nat, width as nat));
    }
}

/// Reads a `width`-byte big-endian unsigned value at `pos`.
pub fn read_be(b: &Vec<u8>, pos: usize, width: usize) -> (r: u64)
    requires
        width <= 8,
        pos + width <= b@.len(),
    ensures
        r as nat == be_val(b@.subrange(pos as int, pos + width)),
        (r as nat) < pow256(width as nat),
{
    let blen = b.len();
    let mut acc: u64 = 0;
    let mut i: usize = 0;
    proof {
        assert(b@.subrange(pos as int, pos as int) =~= Seq::<u8>::empty());
    }
    while i < width
        invariant
            i <= width,
            width <= 8,
            blen == b@.len(),
            pos + width <= blen,
            acc as nat == be_val(b@.subrange(pos as int, pos + i)),
            (acc as nat) < pow256(i as nat),
        decreases width - i,
    {
        proof {
            lemma_pow256_monotonic((i + 1) as nat, 8);
            assert(pow256(8) == 0x1_0000_0000_0000_0000) by {
                reveal_with_fuel(pow256, 9);
            }
            assert((acc as nat) * 256 + 256 <= pow256((i + 1) as nat)) by (nonlinear_arith)
                requires
                    (acc as nat) < pow256(i as nat),
                    pow256((i + 1) as nat) == 256 * pow256(i as nat),
            ;
        }
        let byte = b[pos + i];
        let next: u64 = acc * 256 + (byte as u64);
        proof {
            let s1 = b@.subrange(pos as int, pos + i + 1);
            assert(s1.drop_last() =~= b@.subrange(pos as int, pos + i));
            assert(s1.last() == b@[pos + i]);
        }
        acc = next;
        i = i + 1;
    }
    acc
}

/// A value the wire format can carry: a negative `Int`, a `UInt` within 64
/// bits, and every length within the format's 32-bit limits.
pub open spec fn wf(v: SpecValue) -> bool
    decreases v,
{
    match v {
        SpecValue::Nil => true,
        SpecValue::Bool(_) => true,
        SpecValue::UInt(n) => n < 0x1_0000_0000_0000_0000,
        SpecValue::Int(i) => -0x8000_0000_0000_0000 <= i < 0,
        SpecValue::Str(s) => s.len() <= 0xffff_ffff,
        SpecValue::Bin(s) => s.len() <= 0xffff_ffff,
        SpecValue::Array(es) => es.len() <= 0xffff_ffff && wf_list(es),
        SpecValue::Dict(ps) => ps.len() <= 0xffff_ffff && wf_entries(ps),
        SpecValue::Ext(_, d) => d.len() <= 0xffff_ffff,
    }
}

pub open spec fn wf_list(s: Seq<SpecValue>) -> bool
    decreases s,
{
    if s.len() == 0 {
        true
    } else {
        wf(s[0]) && wf_list(s.drop_first())
    }
}

pub open spec fn wf_entries(s: Seq<(SpecValue, SpecValue)>) -> bool
    decreases s,
{
    if s.len() == 0 {
        true
    } else {
        wf(s[0].0) && wf(s[0].1) && wf_entries(s.drop_first())
    }
}

/// Nesting depth of a value: scalars have height 1, a container is one more
/// than its deepest element.
pub open spec fn height_of(v: SpecValue) -> nat
    decreases v,
{
    match v {
        SpecValue::Array(es) => 1 + height_list(es),
        SpecValue::Dict(ps) => 1 + height_entries(ps),
        _ => 1,
    }
}

pub open spec fn height_list(s: Seq<SpecValue>) -> nat
    decreases s,
{
    if s.len() == 0 {
        0
    } else {
        let h0 = height_of(s[0]);
        let hr = height_list(s.drop_first());
        if h0 >= hr {
            h0
        } else {
            hr
        }
    }
}

pub open spec fn height_entries(s: Seq<(SpecValue, SpecValue)>) -> nat
    decreases s,
{
    if s.len() == 0 {
        0
    } else {
        let h0 = height_of(s[0].0);
        let h1 = height_of(s[0].1);
        let hr = height_entries(s.drop_first());
        if h0 >= h1 && h0 >= hr {
            h0
        } else if h1 >= hr {
            h1
        } else {
            hr
        }
    }
}

/// The two's-complement byte of an extension type tag.
pub open spec fn ext_type_byte(t: i8) -> u8 {
    if t >= 0 {
        t as u8
    } else {
        (t + 0x100) as u8
    }
}

/// Shortest-form header plus big-endian value of a non-negative integer.
pub open spec fn enc_uint(n: nat) -> Seq<u8> {
    if n < 0x80 {
        seq![n as u8]
    } else if n < 0x100 {
        seq![0xccu8, n as u8]
    } else if n < 0x10000 {
        seq![0xcdu8] + be_bytes(n, 2)
    } else if n < 0x1_0000_0000 {
        seq![0xceu8] + be_bytes(n, 4)
    } else {
        seq![0xcfu8] + be_bytes(n, 8)
    }
}

/// Shortest-form encoding of a negative integer.
pub open spec fn enc_int(i: int) -> Seq<u8> {
    if i >= -32 {
        seq![(i + 0x100) as u8]
    } else if i >= -0x80 {
        seq![0xd0u8, (i + 0x100) as u8]
    } else if i >= -0x8000 {
        seq![0xd1u8] + be_bytes((i + 0x10000) as nat, 2)
    } else if i >= -0x8000_0000 {
        seq![0xd2u8] + be_bytes((i + 0x1_0000_0000) as nat, 4)
    } else {
        seq![0xd3u8] + be_bytes((i + 0x1_0000_0000_0000_0000) as nat, 8)
    }
}

pub open spec fn enc_str_hdr(len: nat) -> Seq<u8> {
    if len < 32 {
        seq![(0xa0 + len) as u8]
    } else if len < 0x100 {
        seq![0xd9u8, len as u8]
    } else if len < 0x10000 {
        seq![0xdau8] + be_bytes(len, 2)
    } else {
        seq![0xdbu8] + be_bytes(len, 4)
    }
}

pub open spec fn enc_bin_hdr(len: nat) -> Seq<u8> {
    if len < 0x100 {
        seq![0xc4u8, len as u8]
    } else if len < 0x10000 {
        seq![0xc5u8] + be_bytes(len, 2)
    } else {
        seq![0xc6u8] + be_bytes(len, 4)
    }
}

pub open spec fn enc_arr_hdr(len: nat) -> Seq<u8> {
    if len < 16 {
        seq![(0x90 + len) as u8]
    } else if len < 0x10000 {
        seq![0xdcu8] + be_bytes(len, 2)
    } else {
        seq![0xddu8] + be_bytes(len, 4)
    }
}

pub open spec fn enc_map_hdr(len: nat) -> Seq<u8> {
    if len < 16 {
        seq![(0x80 + len) as u8]
    } else if len < 0x10000 {
        seq![0xdeu8] + be_bytes(len, 2)
    } else {
        seq![0xdfu8] + be_bytes(len, 4)
    }
}

pub open spec fn enc_ext_hdr(t: i8, len: nat) -> Seq<u8> {
    if len == 1 {
        seq![0xd4u8, ext_type_byte(t)]
    } else if len == 2 {
        seq![0xd5u8, ext_type_byte(t)]
    } else if len == 4 {
        seq![0xd6u8, ext_type_byte(t)]
    } else if len == 8 {
        seq![0xd7u8, ext_type_byte(t)]
    } else if len == 16 {
        seq![0xd8u8, ext_type_byte(t)]
    } else if len < 0x100 {
        seq![0xc7u8, len as u8, ext_type_byte(t)]
    } else if len < 0x10000 {
        seq![0xc8u8] + be_bytes(len, 2) + seq![ext_type_byte(t)]
    } else {
        seq![0xc9u8] + be_bytes(len, 4) + seq![ext_type_byte(t)]
    }
}

/// The encoding of a well-formed value.
pub open spec fn enc(v: SpecValue) -> Seq<u8>
    decreases v,
{
    match v {
        SpecValue::Nil => seq![0xc0u8],
        SpecValue::Bool(b) => if b {
            seq![0xc3u8]
        } else {
            seq![0xc2u8]
        },
        SpecValue::UInt(n) => enc_uint(n),
        SpecValue::Int(i) => enc_int(i),
        SpecValue::Str(s) => enc_str_hdr(s.len()) + s,
        SpecValue::Bin(s) => enc_bin_hdr(s.len()) + s,
        SpecValue::Array(es) => enc_arr_hdr(es.len()) + enc_list(es),
        SpecValue::Dict(ps) => enc_map_hdr(ps.len()) + enc_entries(ps),
        SpecValue::Ext(t, d) => enc_ext_hdr(t, d.len()) + d,
    }
}

pub open spec fn enc_list(s: Seq<SpecValue>) -> Seq<u8>
    decreases s,
{
    if s.len() == 0 {
        Seq::empty()
    } else {
        enc(s[0]) + enc_list(s.drop_first())
    }
}

pub open spec fn enc_entries(s: Seq<(SpecValue, SpecValue)>) -> Seq<u8>
    decreases s,
{
    if s.len() == 0 {
        Seq::empty()
    } else {
        enc(s[0].0) + enc(s[0].1) + enc_entries(s.drop_first())
    }
}

pub proof fn lemma_wf_list_index(s: Seq<SpecValue>, i: int)
    requires
        wf_list(s),
        0 <= i < s.len(),
    ensures
        wf(s[i]),
    decreases i,
{
    if i > 0 {
        lemma_wf_list_index(s.drop_first(), i - 1);
    }
}

pub proof fn lemma_wf_entries_index(s: Seq<(SpecValue, SpecValue)>, i: int)
    requires
        wf_entries(s),
        0 <= i < s.len(),
    ensures
        wf(s[i].0),
        wf(s[i].1),
    decreases i,
{
    if i > 0 {
        lemma_wf_entries_index(s.drop_first(), i - 1);
    }
}

pub proof fn lemma_enc_list_append(s1: Seq<SpecValue>, s2: Seq<SpecValue>)
    ensures
        enc_list(s1 + s2) == enc_list(s1) + enc_list(s2),
    decreases s1.len(),
{
    if s1.len() == 0 {
        assert(s1 + s2 =~= s2);
        assert(enc_list(s1) + enc_list(s2) =~= enc_list(s2));
    } else {
        assert((s1 + s2).drop_first() =~= s1.drop_first() + s2);
        lemma_enc_list_append(s1.drop_first(), s2);
        assert((s1 + s2)[0] == s1[0]);
        assert(enc(s1[0]) + (enc_list(s1.drop_first()) + enc_list(s2)) =~= (enc(s1[0])
            + enc_list(s1.drop_first())) + enc_list(s2));
    }
}

pub proof fn lemma_enc_entries_append(s1: Seq<(SpecValue, SpecValue)>, s2: Seq<(SpecValue, SpecValue)>)
    ensures
        enc_entries(s1 + s2) == enc_entries(s1) + enc_entries(s2),
    decreases s1.len(),
{
    if s1.len() == 0 {
        assert(s1 + s2 =~= s2);
        assert(enc_entries(s1) + enc_entries(s2) =~= enc_entries(s2));
    } else {
        assert((s1 + s2).drop_first() =~= s1.drop_first() + s2);
        lemma_enc_entries_append(s1.drop_first(), s2);
        assert((s1 + s2)[0] == s1[0]);
        assert(enc(s1[0].0) + enc(s1[0].1) + (enc_entries(s1.drop_first()) + enc_entries(s2)) =~= (
        enc(s1[0].0) + enc(s1[0].1) + enc_entries(s1.drop_first())) + enc_entries(s2));
    }
}

proof fn lemma_enc_list_take_snoc(s: Seq<SpecValue>, i: int)
    requires
        0 <= i < s.len(),
    ensures
        enc_list(s.take(i + 1)) == enc_list(s.take(i)) + enc(s[i]),
{
    assert(s.take(i + 1) =~= s.take(i) + seq![s[i]]);
    lemma_enc_list_append(s.take(i), seq![s[i]]);
    assert(seq![s[i]].drop_first() =~= Seq::<SpecValue>::empty());
    assert(enc_list(Seq::<SpecValue>::empty()) =~= Seq::<u8>::empty());
    assert(enc_list(seq![s[i]]) =~= enc(s[i]));
}

proof fn lemma_enc_entries_take_snoc(s: Seq<(SpecValue, SpecValue)>, i: int)
    requires
        0 <= i < s.len(),
    ensures
        enc_entries(s.take(i + 1)) == enc_entries(s.take(i)) + enc(s[i].0) + enc(s[i].1),
{
    assert(s.take(i + 1) =~= s.take(i) + seq![s[i]]);
    lemma_enc_entries_append(s.take(i), seq![s[i]]);
    assert(seq![s[i]].drop_first() =~= Seq::<(SpecValue, SpecValue)>::empty());
    assert(enc_entries(Seq::<(SpecValue, SpecValue)>::empty()) =~= Seq::<u8>::empty());
    assert(enc_entries(seq![s[i]]) =~= enc(s[i].0) + enc(s[i].1));
}

/// Appends a copy of `data` to `out`.
pub fn push_bytes(out: &mut Vec<u8>, data: &Vec<u8>)
    ensures
        final(out)@ == old(out)@ + data@,
{
    let mut i: usize = 0;
    while i < data.len()
        invariant
            i <= data@.len(),
            out@ == old(out)@ + data@.take(i as int),
        decreases data@.len() - i,
    {
        out.push(data[i]);
        assert(out@ =~= old(out)@ + data@.take(i + 1));
        i = i + 1;
    }
    assert(out@ =~= old(out)@ + data@);
}

/// Appends the shortest-form encoding of a non-negative integer.
pub fn encode_uint(out: &mut Vec<u8>, n: u64)
    ensures
        final(out)@ == old(out)@ + enc_uint(n as nat),
{
    if n < 0x80 {
        out.push(n as u8);
        assert(out@ =~= old(out)@ + enc_uint(n as nat));
    } else if n < 0x100 {
        out.push(0xcc);
        out.push(n as u8);
        assert(out@ =~= old(out)@ + enc_uint(n as nat));
    } else if n < 0x10000 {
        out.push(0xcd);
        proof {
            reveal_with_fuel(pow256, 3);
        }
        push_be(out, n, 2);
        assert(out@ =~= old(out)@ + enc_uint(n as nat));
    } else if n < 0x1_0000_0000 {
        out.push(0xce);
        proof {
            reveal_with_fuel(pow256, 5);
        }
        push_be(out, n, 4);
        assert(out@ =~= old(out)@ + enc_uint(n as nat));
    } else {
        out.push(0xcf);
        proof {
            reveal_with_fuel(pow256, 9);
        }
        push_be(out, n, 8);
        assert(out@ =~= old(out)@ + enc_uint(n as nat));
    }
}

/// Appends the shortest-form encoding of a negative integer.
pub fn encode_int(out: &mut Vec<u8>, i: i64)
    requires
        i < 0,
    ensures
        final(out)@ == old(out)@ + enc_int(i as int),
{
    if i >= -32 {
        out.push((i + 0x100) as u8);
        assert(out@ =~= old(out)@ + enc_int(i as int));
    } else if i >= -0x80 {
        out.push(0xd0);
        out.push((i + 0x100) as u8);
        assert(out@ =~= old(out)@ + enc_int(i as int));
    } else if i >= -0x8000 {
        out.push(0xd1);
        proof {
            reveal_with_fuel(pow256, 3);
        }
        push_be(out, (i + 0x10000) as u64, 2);
        assert(out@ =~= old(out)@ + enc_int(i as int));
    } else if i >= -0x8000_0000 {
        out.push(0xd2);
        proof {
            reveal_with_fuel(pow256, 5);
        }
        push_be(out, (i + 0x1_0000_0000) as u64, 4);
        assert(out@ =~= old(out)@ + enc_int(i as int));
    } else {
        out.push(0xd3);
        proof {
            reveal_with_fuel(pow256, 9);
        }
        let m: u64 = ((i as i128) + 0x1_0000_0000_0000_0000i128) as u64;
        assert(m as nat == (i + 0x1_0000_0000_0000_0000) as nat);
        push_be(out, m, 8);
        assert(out@ =~= old(out)@ + enc_int(i as int));
    }
}

/// The two's-complement byte of an extension type tag.
pub fn ext_type_byte_of(t: i8) -> (r: u8)
    ensures
        r == ext_type_byte(t),
{
    if t >= 0 {
        t as u8
    } else {
        ((t as i16) + 0x100) as u8
    }
}

fn encode_str_hdr(out: &mut Vec<u8>, len: usize)
    requires
        len <= 0xffff_ffff,
    ensures
        final(out)@ == old(out)@ + enc_str_hdr(len as nat),
{
    if len < 32 {
        out.push((0xa0 + len) as u8);
        assert(out@ =~= old(out)@ + enc_str_hdr(len as nat));
    } else if len < 0x100 {
        out.push(0xd9);
        out.push(len as u8);
        assert(out@ =~= old(out)@ + enc_str_hdr(len as nat));
    } else if len < 0x10000 {
        out.push(0xda);
        proof {
            reveal_with_fuel(pow256, 3);
        }
        push_be(out, len as u64, 2);
        assert(out@ =~= old(out)@ + enc_str_hdr(len as nat));
    } else {
        out.push(0xdb);
        proof {
            reveal_with_fuel(pow256, 5);
        }
        push_be(out, len as u64, 4);
        assert(out@ =~= old(out)@ + enc_str_hdr(len as nat));
    }
}

fn encode_bin_hdr(out: &mut Vec<u8>, len: usize)
    requires
        len <= 0xffff_ffff,
    ensures
        final(out)@ == old(out)@ + enc_bin_hdr(len as nat),
{
    if len < 0x100 {
        out.push(0xc4);
        out.push(len as u8);
        assert(out@ =~= old(out)@ + enc_bin_hdr(len as nat));
    } else if len < 0x10000 {
        out.push(0xc5);
        proof {
            reveal_with_fuel(pow256, 3);
        }
        push_be(out, len as u64, 2);
        assert(out@ =~= old(out)@ + enc_bin_hdr(len as nat));
    } else {
        out.push(0xc6);
        proof {
            reveal_with_fuel(pow256, 5);
        }
        push_be(out, len as u64, 4);
        assert(out@ =~= old(out)@ + enc_bin_hdr(len as nat));
    }
}

fn encode_arr_hdr(out: &mut Vec<u8>, len: usize)
    requires
        len <= 0xffff_ffff,
    ensures
        final(out)@ == old(out)@ + enc_arr_hdr(len as nat),
{
    if len < 16 {
        out.push((0x90 + len) as u8);
        assert(out@ =~= old(out)@ + enc_arr_hdr(len as nat));
    } else if len < 0x10000 {
        out.push(0xdc);
        proof {
            reveal_with_fuel(pow256, 3);
        }
        push_be(out, len as u64, 2);
        assert(out@ =~= old(out)@ + enc_arr_hdr(len as nat));
    } else {
        out.push(0xdd);
        proof {
            reveal_with_fuel(pow256, 5);
        }
        push_be(out, len as u64, 4);
        assert(out@ =~= old(out)@ + enc_arr_hdr(len as nat));
    }
}

fn encode_map_hdr(out: &mut Vec<u8>, len: usize)
    requires
        len <= 0xffff_ffff,
    ensures
        final(out)@ == old(out)@ + enc_map_hdr(len as nat),
{
    if len < 16 {
        out.push((0x80 + len) as u8);
        assert(out@ =~= old(out)@ + enc_map_hdr(len as nat));
    } else if len < 0x10000 {
        out.push(0xde);
        proof {
            reveal_with_fuel(pow256, 3);
        }
        push_be(out, len as u64, 2);
        assert(out@ =~= old(out)@ + enc_map_hdr(len as nat));
    } else {
        out.push(0xdf);
        proof {
            reveal_with_fuel(pow256, 5);
        }
        push_be(out, len as u64, 4);
        assert(out@ =~= old(out)@ + enc_map_hdr(len as nat));
    }
}

fn encode_ext_hdr(out: &mut Vec<u8>, t: i8, len: usize)
    requires
        len <= 0xffff_ffff,
    ensures
        final(out)@ == old(out)@ + enc_ext_hdr(t, len as nat),
{
    let tb = ext_type_byte_of(t);
    if len == 1 {
        out.push(0xd4);
        out.push(tb);
        assert(out@ =~= old(out)@ + enc_ext_hdr(t, len as nat));
    } else if len == 2 {
        out.push(0xd5);
        out.push(tb);
        assert(out@ =~= old(out)@ + enc_ext_hdr(t, len as nat));
    } else if len == 4 {
        out.push(0xd6);
        out.push(tb);
        assert(out@ =~= old(out)@ + enc_ext_hdr(t, len as nat));
    } else if len == 8 {
        out.push(0xd7);
        out.push(tb);
        assert(out@ =~= old(out)@ + enc_ext_hdr(t, len as nat));
    } else if len == 16 {
        out.push(0xd8);
        out.push(tb);
        assert(out@ =~= old(out)@ + enc_ext_hdr(t, len as nat));
    } else if len < 0x100 {
        out.push(0xc7);
        out.push(len as u8);
        out.push(tb);
        assert(out@ =~= old(out)@ + enc_ext_hdr(t, len as nat));
    } else if len < 0x10000 {
        out.push(0xc8);
        proof {
            reveal_with_fuel(pow256, 3);
        }
        push_be(out, len as u64, 2);
        out.push(tb);
        assert(out@ =~= old(out)@ + enc_ext_hdr(t, len as nat));
    } else {
        out.push(0xc9);
        proof {
            reveal_with_fuel(pow256, 5);
        }
        push_be(out, len as u64, 4);
        out.push(tb);
        assert(out@ =~= old(out)@ + enc_ext_hdr(t, len as nat));
    }
}

/// Appends the encoding of `v` to `out`.
#[verifier::loop_isolation(false)]
pub fn encode_value(v: &MpValue, out: &mut Vec<u8>)
    requires
        wf(v@),
    ensures
        final(out)@ == old(out)@ + enc(v@),
    decreases *v,
{
    match v {
        MpValue::Nil => {
            out.push(0xc0);
            assert(out@ =~= old(out)@ + enc(v@));
        },
        MpValue::Bool(b) => {
            if *b {
                out.push(0xc3);
            } else {
                out.push(0xc2);
            }
            assert(out@ =~= old(out)@ + enc(v@));
        },
        MpValue::UInt(n) => {
            encode_uint(out, *n);
        },
        MpValue::Int(i) => {
            encode_int(out, *i);
        },
        MpValue::Str(s) => {
            encode_str_hdr(out, s.len());
            push_bytes(out, s);
            assert(out@ =~= old(out)@ + enc(v@));
        },
        MpValue::Bin(s) => {
            encode_bin_hdr(out, s.len());
            push_bytes(out, s);
            assert(out@ =~= old(out)@ + enc(v@));
        },
        MpValue::Ext(t, d) => {
            encode_ext_hdr(out, *t, d.len());
            push_bytes(out, d);
            assert(out@ =~= old(out)@ + enc(v@));
        },
        MpValue::Array(es) => {
            proof {
                lemma_view_list_index(es@);
            }
            encode_arr_hdr(out, es.len());
            let ghost base = out@;
            let mut i: usize = 0;
            proof {
                assert(view_list(es@).take(0) =~= Seq::<SpecValue>::empty());
            }
            while i < es.len()
                invariant
                    i <= es@.len(),
                    out@ == base + enc_list(view_list(es@).take(i as int)),
                decreases es@.len() - i,
            {
                proof {
                    lemma_wf_list_index(view_list(es@), i as int);
                    lemma_enc_list_take_snoc(view_list(es@), i as int);
                }
                encode_value(&es[i], out);
                assert(out@ =~= base + enc_list(view_list(es@).take(i + 1)));
                i = i + 1;
            }
            assert(view_list(es@).take(es@.len() as int) =~= view_list(es@));
            assert(out@ =~= old(out)@ + enc(v@));
        },
        MpValue::Dict(ps) => {
            proof {
                lemma_view_entries_index(ps@);
            }
            encode_map_hdr(out, ps.len());
            let ghost base = out@;
            let mut i: usize = 0;
            proof {
                assert(view_entries(ps@).take(0) =~= Seq::<(SpecValue, SpecValue)>::empty());
            }
            while i < ps.len()
                invariant
                    i <= ps@.len(),
                    out@ == base + enc_entries(view_entries(ps@).take(i as int)),
                decreases ps@.len() - i,
            {
                proof {
                    lemma_wf_entries_index(view_entries(ps@), i as int);
                    lemma_enc_entries_take_snoc(view_entries(ps@), i as int);
                }
                encode_value(&ps[i].0, out);
                encode_value(&ps[i].1, out);
                assert(out@ =~= base + enc_entries(view_entries(ps@).take(i + 1)));
                i = i + 1;
            }
            assert(view_entries(ps@).take(ps@.len() as int) =~= view_entries(ps@));
            assert(out@ =~= old(out)@ + enc(v@));
        },
    }
}

/// The encoding of `v` as a fresh byte vector.
pub fn encode(v: &MpValue) -> (r: Vec<u8>)
    requires
        wf(v@),
    ensures
        r@ == enc(v@),
{
    let mut out: Vec<u8> = Vec::new();
    encode_value(v, &mut out);
    assert(out@ =~= enc(v@));
    out
}

} // verus!

verus! {

/// The signed reading of one byte.
pub open spec fn sbyte(x: u8) -> int {
    if x < 0x80 {
        x as int
    } else {
        x - 0x100
    }
}

/// The extension type tag a byte denotes.
pub open spec fn i8_of_byte(x: u8) -> i8 {
    if x < 0x80 {
        x as i8
    } else {
        (x - 0x100) as i8
    }
}

/// A decoded signed value: canonically a `UInt` when non-negative.
pub open spec fn int_or_uint(i: int) -> SpecValue {
    if i < 0 {
        SpecValue::Int(i)
    } else {
        SpecValue::UInt(i as nat)
    }
}

/// A `len`-byte string payload starting at `dstart`.
pub open spec fn dec_str(b: Seq<u8>, dstart: int, len: nat) -> Option<(SpecValue, int)> {
    if dstart + len <= b.len() {
        Some((SpecValue::Str(b.subrange(dstart, dstart + len)), dstart + len))
    } else {
        None
    }
}

/// A `len`-byte binary payload starting at `dstart`.
pub open spec fn dec_bin(b: Seq<u8>, dstart: int, len: nat) -> Option<(SpecValue, int)> {
    if dstart + len <= b.len() {
        Some((SpecValue::Bin(b.subrange(dstart, dstart + len)), dstart + len))
    } else {
        None
    }
}

/// A `len`-byte extension payload of type `t` starting at `dstart`.
pub open spec fn dec_ext(b: Seq<u8>, dstart: int, t: i8, len: nat) -> Option<(SpecValue, int)> {
    if dstart + len <= b.len() {
        Some((SpecValue::Ext(t, b.subrange(dstart, dstart + len)), dstart + len))
    } else {
        None
    }
}

/// Decodes one value at `pos`. `depth` bounds container nesting; every
/// encoding of a value `v` decodes within depth `height_of(v)`.
pub open spec fn dec_val(b: Seq<u8>, pos: int, depth: nat) -> Option<(SpecValue, int)>
    decreases depth, 0nat,
{
    if !(0 <= pos < b.len()) {
        None
    } else {
        let h = b[pos];
        if h < 0x80 {
            Some((SpecValue::UInt(h as nat), pos + 1))
        } else if h < 0x90 {
            if depth == 0 {
                None
            } else {
                match dec_entries(b, pos + 1, (h - 0x80) as nat, (depth - 1) as nat) {
                    Some((ps, p2)) => Some((SpecValue::Dict(ps), p2)),
                    None => None,
                }
            }
        } else if h < 0xa0 {
            if depth == 0 {
                None
            } else {
                match dec_list(b, pos + 1, (h - 0x90) as nat, (depth - 1) as nat) {
                    Some((vs, p2)) => Some((SpecValue::Array(vs), p2)),
                    None => None,
                }
            }
        } else if h < 0xc0 {
            dec_str(b, pos + 1, (h - 0xa0) as nat)
        } else if h == 0xc0 {
            Some((SpecValue::Nil, pos + 1))
        } else if h == 0xc1 {
            None
        } else if h == 0xc2 {
            Some((SpecValue::Bool(false), pos + 1))
        } else if h == 0xc3 {
            Some((SpecValue::Bool(true), pos + 1))
        } else if h == 0xc4 {
            if pos + 2 <= b.len() {
                dec_bin(b, pos + 2, b[pos + 1] as nat)
            } else {
                None
            }
        } else if h == 0xc5 {
            if pos + 3 <= b.len() {
                dec_bin(b, pos + 3, be_val(b.subrange(pos + 1, pos + 3)))
            } else {
                None
            }
        } else if h == 0xc6 {
            if pos + 5 <= b.len() {
                dec_bin(b, pos + 5, be_val(b.subrange(pos + 1, pos + 5)))
            } else {
                None
            }
        } else if h == 0xc7 {
            if pos + 3 <= b.len() {
                dec_ext(b, pos + 3, i8_of_byte(b[pos + 2]), b[pos + 1] as nat)
            } else {
                None
            }
        } else if h == 0xc8 {
            if pos + 4 <= b.len() {
                dec_ext(b, pos + 4, i8_of_byte(b[pos + 3]), be_val(b.subrange(pos + 1, pos + 3)))
            } else {
                None
            }
        } else if h == 0xc9 {
            if pos + 6 <= b.len() {
                dec_ext(b, pos + 6, i8_of_byte(b[pos + 5]), be_val(b.subrange(pos + 1, pos + 5)))
            } else {
                None
            }
        } else if h == 0xca || h == 0xcb {
            None
        } else if h == 0xcc {
            if pos + 2 <= b.len() {
                Some((SpecValue::UInt(b[pos + 1] as nat), pos + 2))
            } else {
                None
            }
        } else if h == 0xcd {
            if pos + 3 <= b.len() {
                Some((SpecValue::UInt(be_val(b.subrange(pos + 1, pos + 3))), pos + 3))
            } else {
                None
            }
        } else if h == 0xce {
            if pos + 5 <= b.len() {
                Some((SpecValue::UInt(be_val(b.subrange(pos + 1, pos + 5))), pos + 5))
            } else {
                None
            }
        } else if h == 0xcf {
            if pos + 9 <= b.len() {
                Some((SpecValue::UInt(be_val(b.subrange(pos + 1, pos + 9))), pos + 9))
            } else {
                None
            }
        } else if h == 0xd0 {
            if pos + 2 <= b.len() {
                Some((int_or_uint(sbyte(b[pos + 1])), pos + 2))
            } else {
                None
            }
        } else if h == 0xd1 {
            if pos + 3 <= b.len() {
                Some((int_or_uint(signed_of(be_val(b.subrange(pos + 1, pos + 3)), 2)), pos + 3))
            } else {
                None
            }
        } else if h == 0xd2 {
            if pos + 5 <= b.len() {
                Some((int_or_uint(signed_of(be_val(b.subrange(pos + 1, pos + 5)), 4)), pos + 5))
            } else {
                None
            }
        } else if h == 0xd3 {
            if pos + 9 <= b.len() {
                Some((int_or_uint(signed_of(be_val(b.subrange(pos + 1, pos + 9)), 8)), pos + 9))
            } else {
                None
            }
        } else if h == 0xd4 {
            if pos + 2 <= b.len() {
                dec_ext(b, pos + 2, i8_of_byte(b[pos + 1]), 1)
            } else {
                None
            }
        } else if h == 0xd5 {
            if pos + 2 <= b.len() {
                dec_ext(b, pos + 2, i8_of_byte(b[pos + 1]), 2)
            } else {
                None
            }
        } else if h == 0xd6 {
            if pos + 2 <= b.len() {
                dec_ext(b, pos + 2, i8_of_byte(b[pos + 1]), 4)
            } else {
                None
            }
        } else if h == 0xd7 {
            if pos + 2 <= b.len() {
                dec_ext(b, pos + 2, i8_of_byte(b[pos + 1]), 8)
            } else {
                None
            }
        } else if h == 0xd8 {
            if pos + 2 <= b.len() {
                dec_ext(b, pos + 2, i8_of_byte(b[pos + 1]), 16)
            } else {
                None
            }
        } else if h == 0xd9 {
            if pos + 2 <= b.len() {
                dec_str(b, pos + 2, b[pos + 1] as nat)
            } else {
                None
            }
        } else if h == 0xda {
            if pos + 3 <= b.len() {
                dec_str(b, pos + 3, be_val(b.subrange(pos + 1, pos + 3)))
            } else {
                None
            }
        } else if h == 0xdb {
            if pos + 5 <= b.len() {
                dec_str(b, pos + 5, be_val(b.subrange(pos + 1, pos + 5)))
            } else {
                None
            }
        } else if h == 0xdc {
            if pos + 3 <= b.len() && depth > 0 {
                match dec_list(
                    b,
                    pos + 3,
                    be_val(b.subrange(pos + 1, pos + 3)),
                    (depth - 1) as nat,
                ) {
                    Some((vs, p2)) => Some((SpecValue::Array(vs), p2)),
                    None => None,
                }
            } else {
                None
            }
        } else if h == 0xdd {
            if pos + 5 <= b.len() && depth > 0 {
                match dec_list(
                    b,
                    pos + 5,
                    be_val(b.subrange(pos + 1, pos + 5)),
                    (depth - 1) as nat,
                ) {
                    Some((vs, p2)) => Some((SpecValue::Array(vs), p2)),
                    None => None,
                }
            } else {
                None
            }
        } else if h == 0xde {
            if pos + 3 <= b.len() && depth > 0 {
                match dec_entries(
                    b,
                    pos + 3,
                    be_val(b.subrange(pos + 1, pos + 3)),
                    (depth - 1) as nat,
                ) {
                    Some((ps, p2)) => Some((SpecValue::Dict(ps), p2)),
                    None => None,
                }
            } else {
                None
            }
        } else if h == 0xdf {
            if pos + 5 <= b.len() && depth > 0 {
                match dec_entries(
                    b,
                    pos + 5,
                    be_val(b.subrange(pos + 1, pos + 5)),
                    (depth - 1) as nat,
                ) {
                    Some((ps, p2)) => Some((SpecValue::Dict(ps), p2)),
                    None => None,
                }
            } else {
                None
            }
        } else {
            Some((SpecValue::Int(h - 0x100), pos + 1))
        }
    }
}

/// Decodes `count` consecutive values starting at `pos`.
pub open spec fn dec_list(b: Seq<u8>, pos: int, count: nat, depth: nat) -> Option<
    (Seq<SpecValue>, int),
>
    decreases depth, count,
{
    if count == 0 {
        Some((Seq::empty(), pos))
    } else {
        match dec_val(b, pos, depth) {
            Some((v, p2)) => match dec_list(b, p2, (count - 1) as nat, depth) {
                Some((vs, p3)) => Some((seq![v] + vs, p3)),
                None => None,
            },
            None => None,
        }
    }
}

/// Decodes `count` consecutive key/value pairs starting at `pos`.
pub open spec fn dec_entries(b: Seq<u8>, pos: int, count: nat, depth: nat) -> Option<
    (Seq<(SpecValue, SpecValue)>, int),
>
    decreases depth, count,
{
    if count == 0 {
        Some((Seq::empty(), pos))
    } else {
        match dec_val(b, pos, depth) {
            Some((k, p2)) => match dec_val(b, p2, depth) {
                Some((v, p3)) => match dec_entries(b, p3, (count - 1) as nat, depth) {
                    Some((ps, p4)) => Some((seq![(k, v)] + ps, p4)),
                    None => None,
                },
                None => None,
            },
            None => None,
        }
    }
}

} // verus!

verus! {

/// A copy of `b[start .. start + len]`.
pub fn copy_range(b: &Vec<u8>, start: usize, len: usize) -> (r: Vec<u8>)
    requires
        start + len <= b@.len(),
    ensures
        r@ == b@.subrange(start as int, start + len),
{
    let blen = b.len();
    let mut r: Vec<u8> = Vec::new();
    let mut i: usize = 0;
    proof {
        assert(b@.subrange(start as int, start as int) =~= Seq::<u8>::empty());
    }
    while i < len
        invariant
            i <= len,
            blen == b@.len(),
            start + len <= blen,
            r@ == b@.subrange(start as int, start + i),
        decreases len - i,
    {
        r.push(b[start + i]);
        assert(r@ =~= b@.subrange(start as int, start + i + 1));
        i = i + 1;
    }
    r
}

/// Decodes one value at `pos`, mirroring [`dec_val`].
pub fn decode_at(b: &Vec<u8>, pos: usize, depth: usize) -> (r: Option<(MpValue, usize)>)
    ensures
        match r {
            Some((v, p2)) => dec_val(b@, pos as int, depth as nat) == Some((v@, p2 as int)),
            None => dec_val(b@, pos as int, depth as nat) is None,
        },
    decreases depth, 0nat,
{
    let blen = b.len();
    if pos >= blen {
        return None;
    }
    let h = b[pos];
    if h < 0x80 {
        Some((MpValue::UInt(h as u64), pos + 1))
    } else if h < 0x90 {
        if depth == 0 {
            None
        } else {
            match decode_entries_at(b, pos + 1, (h - 0x80) as u64, depth - 1) {
                Some((ps, p2)) => Some((MpValue::Dict(ps), p2)),
                None => None,
            }
        }
    } else if h < 0xa0 {
        if depth == 0 {
            None
        } else {
            match decode_list_at(b, pos + 1, (h - 0x90) as u64, depth - 1) {
                Some((vs, p2)) => Some((MpValue::Array(vs), p2)),
                None => None,
            }
        }
    } else if h < 0xc0 {
        let len = (h - 0xa0) as usize;
        if len <= blen - (pos + 1) {
            Some((MpValue::Str(copy_range(b, pos + 1, len)), pos + 1 + len))
        } else {
            None
        }
    } else if h == 0xc0 {
        Some((MpValue::Nil, pos + 1))
    } else if h == 0xc1 {
        None
    } else if h == 0xc2 {
        Some((MpValue::Bool(false), pos + 1))
    } else if h == 0xc3 {
        Some((MpValue::Bool(true), pos + 1))
    } else if h == 0xc4 {
        if blen - pos >= 2 {
            let len = b[pos + 1] as usize;
            if len <= blen - (pos + 2) {
                Some((MpValue::Bin(copy_range(b, pos + 2, len)), pos + 2 + len))
            } else {
                None
            }
        } else {
            None
        }
    } else if h == 0xc5 {
        if blen - pos >= 3 {
            let len64 = read_be(b, pos + 1, 2);
            proof {
                reveal_with_fuel(pow256, 3);
            }
            let len = len64 as usize;
            if len <= blen - (pos + 3) {
                Some((MpValue::Bin(copy_range(b, pos + 3, len)), pos + 3 + len))
            } else {
                None
            }
        } else {
            None
        }
    } else if h == 0xc6 {
        if blen - pos >= 5 {
            let len64 = read_be(b, pos + 1, 4);
            proof {
                reveal_with_fuel(pow256, 5);
            }
            let len = len64 as usize;
            if len <= blen - (pos + 5) {
                Some((MpValue::Bin(copy_range(b, pos + 5, len)), pos + 5 + len))
            } else {
                None
            }
        } else {
            None
        }
    } else if h == 0xc7 {
        if blen - pos >= 3 {
            let len = b[pos + 1] as usize;
            let t = byte_to_i8(b[pos + 2]);
            if len <= blen - (pos + 3) {
                Some((MpValue::Ext(t, copy_range(b, pos + 3, len)), pos + 3 + len))
            } else {
                None
            }
        } else {
            None
        }
    } else if h == 0xc8 {
        if blen - pos >= 4 {
            let len64 = read_be(b, pos + 1, 2);
            proof {
                reveal_with_fuel(pow256, 3);
            }
            let len = len64 as usize;
            let t = byte_to_i8(b[pos + 3]);
            if len <= blen - (pos + 4) {
                Some((MpValue::Ext(t, copy_range(b, pos + 4, len)), pos + 4 + len))
            } else {
                None
            }
        } else {
            None
        }
    } else if h == 0xc9 {
        if blen - pos >= 6 {
            let len64 = read_be(b, pos + 1, 4);
            proof {
                reveal_with_fuel(pow256, 5);
            }
            let len = len64 as usize;
            let t = byte_to_i8(b[pos + 5]);
            if len <= blen - (pos + 6) {
                Some((MpValue::Ext(t, copy_range(b, pos + 6, len)), pos + 6 + len))
            } else {
                None
            }
        } else {
            None
        }
    } else if h == 0xca || h == 0xcb {
        None
    } else if h == 0xcc {
        if blen - pos >= 2 {
            Some((MpValue::UInt(b[pos + 1] as u64), pos + 2))
        } else {
            None
        }
    } else if h == 0xcd {
        if blen - pos >= 3 {
            let n = read_be(b, pos + 1, 2);
            Some((MpValue::UInt(n), pos + 3))
        } else {
            None
        }
    } else if h == 0xce {
        if blen - pos >= 5 {
            let n = read_be(b, pos + 1, 4);
            Some((MpValue::UInt(n), pos + 5))
        } else {
            None
        }
    } else if h == 0xcf {
        if blen - pos >= 9 {
            let n = read_be(b, pos + 1, 8);
            Some((MpValue::UInt(n), pos + 9))
        } else {
            None
        }
    } else if h == 0xd0 {
        if blen - pos >= 2 {
            let m = b[pos + 1];
            if m < 0x80 {
                Some((MpValue::UInt(m as u64), pos + 2))
            } else {
                Some((MpValue::Int((m as i64) - 0x100), pos + 2))
            }
        } else {
            None
        }
    } else if h == 0xd1 {
        if blen - pos >= 3 {
            let m = read_be(b, pos + 1, 2);
            proof {
                reveal_with_fuel(pow256, 3);
            }
            if m < 0x8000 {
                Some((MpValue::UInt(m), pos + 3))
            } else {
                Some((MpValue::Int((m as i64) - 0x10000), pos + 3))
            }
        } else {
            None
        }
    } else if h == 0xd2 {
        if blen - pos >= 5 {
            let m = read_be(b, pos + 1, 4);
            proof {
                reveal_with_fuel(pow256, 5);
            }
            if m < 0x8000_0000 {
                Some((MpValue::UInt(m), pos + 5))
            } else {
                Some((MpValue::Int((m as i64) - 0x1_0000_0000), pos + 5))
            }
        } else {
            None
        }
    } else if h == 0xd3 {
        if blen - pos >= 9 {
            let m = read_be(b, pos + 1, 8);
            proof {
                reveal_with_fuel(pow256, 9);
            }
            if m < 0x8000_0000_0000_0000 {
                Some((MpValue::UInt(m), pos + 9))
            } else {
                let sv: i64 = ((m as i128) - 0x1_0000_0000_0000_0000i128) as i64;
                Some((MpValue::Int(sv), pos + 9))
            }
        } else {
            None
        }
    } else if h == 0xd4 {
        decode_fixext(b, pos, 1)
    } else if h == 0xd5 {
        decode_fixext(b, pos, 2)
    } else if h == 0xd6 {
        decode_fixext(b, pos, 4)
    } else if h == 0xd7 {
        decode_fixext(b, pos, 8)
    } else if h == 0xd8 {
        decode_fixext(b, pos, 16)
    } else if h == 0xd9 {
        if blen - pos >= 2 {
            let len = b[pos + 1] as usize;
            if len <= blen - (pos + 2) {
                Some((MpValue::Str(copy_range(b, pos + 2, len)), pos + 2 + len))
            } else {
                None
            }
        } else {
            None
        }
    } else if h == 0xda {
        if blen - pos >= 3 {
            let len64 = read_be(b, pos + 1, 2);
            proof {
                reveal_with_fuel(pow256, 3);
            }
            let len = len64 as usize;
            if len <= blen - (pos + 3) {
                Some((MpValue::Str(copy_range(b, pos + 3, len)), pos + 3 + len))
            } else {
                None
            }
        } else {
            None
        }
    } else if h == 0xdb {
        if blen - pos >= 5 {
            let len64 = read_be(b, pos + 1, 4);
            proof {
                reveal_with_fuel(pow256, 5);
            }
            let len = len64 as usize;
            if len <= blen - (pos + 5) {
                Some((MpValue::Str(copy_range(b, pos + 5, len)), pos + 5 + len))
            } else {
                None
            }
        } else {
            None
        }
    } else if h == 0xdc {
        if blen - pos >= 3 && depth > 0 {
            let n = read_be(b, pos + 1, 2);
            match decode_list_at(b, pos + 3, n, depth - 1) {
                Some((vs, p2)) => Some((MpValue::Array(vs), p2)),
                None => None,
            }
        } else {
            None
        }
    } else if h == 0xdd {
        if blen - pos >= 5 && depth > 0 {
            let n = read_be(b, pos + 1, 4);
            match decode_list_at(b, pos + 5, n, depth - 1) {
                Some((vs, p2)) => Some((MpValue::Array(vs), p2)),
                None => None,
            }
        } else {
            None
        }
    } else if h == 0xde {
        if blen - pos >= 3 && depth > 0 {
            let n = read_be(b, pos + 1, 2);
            match decode_entries_at(b, pos + 3, n, depth - 1) {
                Some((ps, p2)) => Some((MpValue::Dict(ps), p2)),
                None => None,
            }
        } else {
            None
        }
    } else if h == 0xdf {
        if blen - pos >= 5 && depth > 0 {
            let n = read_be(b, pos + 1, 4);
            match decode_entries_at(b, pos + 5, n, depth - 1) {
                Some((ps, p2)) => Some((MpValue::Dict(ps), p2)),
                None => None,
            }
        } else {
            None
        }
    } else {
        Some((MpValue::Int((h as i64) - 0x100), pos + 1))
    }
}

/// The signed reading of an extension type byte.
pub fn byte_to_i8(x: u8) -> (r: i8)
    ensures
        r == i8_of_byte(x),
{
    if x < 0x80 {
        x as i8
    } else {
        ((x as i16) - 0x100) as i8
    }
}

/// Decodes a fixed-size extension value whose header stands at `pos`.
fn decode_fixext(b: &Vec<u8>, pos: usize, len: usize) -> (r: Option<(MpValue, usize)>)
    requires
        pos < b@.len(),
        len == 1 || len == 2 || len == 4 || len == 8 || len == 16,
    ensures
        match r {
            Some((v, p2)) => dec_ext(b@, pos + 2, i8_of_byte(b@[pos + 1]), len as nat) == Some(
                (v@, p2 as int),
            ) && pos + 2 <= b@.len(),
            None => pos + 2 > b@.len() || dec_ext(b@, pos + 2, i8_of_byte(b@[pos + 1]), len as nat)
                is None,
        },
{
    let blen = b.len();
    if blen - pos >= 2 {
        let t = byte_to_i8(b[pos + 1]);
        if len <= blen - (pos + 2) {
            Some((MpValue::Ext(t, copy_range(b, pos + 2, len)), pos + 2 + len))
        } else {
            None
        }
    } else {
        None
    }
}

/// Decodes `count` consecutive values, mirroring [`dec_list`].
pub fn decode_list_at(b: &Vec<u8>, pos: usize, count: u64, depth: usize) -> (r: Option<
    (Vec<MpValue>, usize),
>)
    ensures
        match r {
            Some((vs, p2)) => dec_list(b@, pos as int, count as nat, depth as nat) == Some(
                (view_list(vs@), p2 as int),
            ),
            None => dec_list(b@, pos as int, count as nat, depth as nat) is None,
        },
    decreases depth, count,
{
    if count == 0 {
        let vs: Vec<MpValue> = Vec::new();
        assert(view_list(vs@) =~= Seq::<SpecValue>::empty());
        Some((vs, pos))
    } else {
        match decode_at(b, pos, depth) {
            Some((v, p2)) => match decode_list_at(b, p2, count - 1, depth) {
                Some((mut vs, p3)) => {
                    let ghost tail = vs@;
                    vs.insert(0, v);
                    proof {
                        assert(vs@ =~= seq![v] + tail);
                        assert((seq![v] + tail).drop_first() =~= tail);
                        assert(view_list(vs@) =~= seq![v@] + view_list(tail));
                    }
                    Some((vs, p3))
                },
                None => None,
            },
            None => None,
        }
    }
}

/// Decodes `count` consecutive key/value pairs, mirroring [`dec_entries`].
pub fn decode_entries_at(b: &Vec<u8>, pos: usize, count: u64, depth: usize) -> (r: Option<
    (Vec<(MpValue, MpValue)>, usize),
>)
    ensures
        match r {
            Some((ps, p2)) => dec_entries(b@, pos as int, count as nat, depth as nat) == Some(
                (view_entries(ps@), p2 as int),
            ),
            None => dec_entries(b@, pos as int, count as nat, depth as nat) is None,
        },
    decreases depth, count,
{
    if count == 0 {
        let ps: Vec<(MpValue, MpValue)> = Vec::new();
        assert(view_entries(ps@) =~= Seq::<(SpecValue, SpecValue)>::empty());
        Some((ps, pos))
    } else {
        match decode_at(b, pos, depth) {
            Some((k, p2)) => match decode_at(b, p2, depth) {
                Some((v, p3)) => match decode_entries_at(b, p3, count - 1, depth) {
                    Some((mut ps, p4)) => {
                        let ghost tail = ps@;
                        ps.insert(0, (k, v));
                        proof {
                            assert(ps@ =~= seq![(k, v)] + tail);
                            assert((seq![(k, v)] + tail).drop_first() =~= tail);
                            assert(view_entries(ps@) =~= seq![(k@, v@)] + view_entries(tail));
                        }
                        Some((ps, p4))
                    },
                    None => None,
                },
                None => None,
            },
            None => None,
        }
    }
}

/// Decodes a whole buffer as exactly one value.
pub fn decode(b: &Vec<u8>) -> (r: Option<MpValue>)
    ensures
        match r {
            Some(v) => dec_val(b@, 0, b@.len()) == Some((v@, b@.len() as int)),
            None => dec_val(b@, 0, b@.len()) is None || (dec_val(b@, 0, b@.len()) matches Some(
                (_, p),
            ) && p != b@.len()),
        },
{
    match decode_at(b, 0, b.len()) {
        Some((v, p)) => {
            if p == b.len() {
                Some(v)
            } else {
                None
            }
        },
        None => None,
    }
}

} // verus!

verus! {

pub proof fn lemma_enc_len(v: SpecValue)
    ensures
        enc(v).len() >= height_of(v),
        enc(v).len() >= 1,
    decreases v,
{
    match v {
        SpecValue::UInt(n) => {
            if n >= 0x80 {
                lemma_be_bytes_len(n, 2);
                lemma_be_bytes_len(n, 4);
                lemma_be_bytes_len(n, 8);
            }
        },
        SpecValue::Int(i) => {
            lemma_be_bytes_len((i + 0x10000) as nat, 2);
            lemma_be_bytes_len((i + 0x1_0000_0000) as nat, 4);
            lemma_be_bytes_len((i + 0x1_0000_0000_0000_0000) as nat, 8);
        },
        SpecValue::Str(s) => {
            lemma_be_bytes_len(s.len(), 2);
            lemma_be_bytes_len(s.len(), 4);
        },
        SpecValue::Bin(s) => {
            lemma_be_bytes_len(s.len(), 2);
            lemma_be_bytes_len(s.len(), 4);
        },
        SpecValue::Ext(t, d) => {
            lemma_be_bytes_len(d.len(), 2);
            lemma_be_bytes_len(d.len(), 4);
        },
        SpecValue::Array(es) => {
            lemma_be_bytes_len(es.len(), 2);
            lemma_be_bytes_len(es.len(), 4);
            lemma_enc_len_list(es);
        },
        SpecValue::Dict(ps) => {
            lemma_be_bytes_len(ps.len(), 2);
            lemma_be_bytes_len(ps.len(), 4);
            lemma_enc_len_entries(ps);
        },
        _ => {},
    }
}

pub proof fn lemma_enc_len_list(s: Seq<SpecValue>)
    ensures
        enc_list(s).len() >= height_list(s),
    decreases s,
{
    if s.len() > 0 {
        lemma_enc_len(s[0]);
        lemma_enc_len_list(s.drop_first());
    }
}

pub proof fn lemma_enc_len_entries(s: Seq<(SpecValue, SpecValue)>)
    ensures
        enc_entries(s).len() >= height_entries(s),
    decreases s,
{
    if s.len() > 0 {
        lemma_enc_len(s[0].0);
        lemma_enc_len(s[0].1);
        lemma_enc_len_entries(s.drop_first());
    }
}

} // verus!

verus! {

/// A window of `b` agrees with the matching window of `total` wherever
/// `total` stands in `b` at `pos`.
proof fn lemma_extract(b: Seq<u8>, pos: int, total: Seq<u8>, off: int, len: int)
    requires
        0 <= pos,
        pos + total.len() <= b.len(),
        b.subrange(pos, pos + total.len() as int) == total,
        0 <= off,
        0 <= len,
        off + len <= total.len(),
    ensures
        b.subrange(pos + off, pos + off + len) == total.subrange(off, off + len),
{
    assert forall|k: int| 0 <= k < len implies b[pos + off + k] == #[trigger] total[off + k] by {
        assert(b.subrange(pos, pos + total.len() as int)[off + k] == b[pos + off + k]);
    }
    assert(b.subrange(pos + off, pos + off + len) =~= total.subrange(off, off + len));
}

/// One byte of `b` agrees with the matching byte of `total`.
proof fn lemma_extract_byte(b: Seq<u8>, pos: int, total: Seq<u8>, off: int)
    requires
        0 <= pos,
        pos + total.len() <= b.len(),
        b.subrange(pos, pos + total.len() as int) == total,
        0 <= off < total.len(),
    ensures
        b[pos + off] == total[off],
{
    assert(b.subrange(pos, pos + total.len() as int)[off] == b[pos + off]);
}

/// The extension tag survives its byte form.
proof fn lemma_ext_type_byte_roundtrip(t: i8)
    ensures
        i8_of_byte(ext_type_byte(t)) == t,
{
}

/// Decoding starts over again at the encoding of any well-formed value:
/// within any buffer that holds `enc(v)` at `pos`, decoding at `pos` with a
/// depth of at least `height_of(v)` yields exactly `v` and stops exactly
/// after the encoding.
#[verifier::rlimit(40)]
pub proof fn lemma_dec_enc(v: SpecValue, b: Seq<u8>, pos: int, depth: nat)
    requires
        wf(v),
        depth >= height_of(v),
        0 <= pos,
        pos + enc(v).len() <= b.len(),
        b.subrange(pos, pos + enc(v).len() as int) == enc(v),
    ensures
        dec_val(b, pos, depth) == Some((v, pos + enc(v).len() as int)),
    decreases depth, 0nat,
{
    let e = enc(v);
    lemma_enc_len(v);
    lemma_extract_byte(b, pos, e, 0);
    reveal_with_fuel(pow256, 9);
    match v {
        SpecValue::Nil => {},
        SpecValue::Bool(_) => {},
        SpecValue::UInt(n) => {
            if n < 0x80 {
            } else if n < 0x100 {
                lemma_extract_byte(b, pos, e, 1);
            } else if n < 0x10000 {
                lemma_be_bytes_len(n, 2);
                lemma_extract(b, pos, e, 1, 2);
                assert(e.subrange(1, 3) =~= be_bytes(n, 2));
                lemma_be_roundtrip(n, 2);
            } else if n < 0x1_0000_0000 {
                lemma_be_bytes_len(n, 4);
                lemma_extract(b, pos, e, 1, 4);
                assert(e.subrange(1, 5) =~= be_bytes(n, 4));
                lemma_be_roundtrip(n, 4);
            } else {
                lemma_be_bytes_len(n, 8);
                lemma_extract(b, pos, e, 1, 8);
                assert(e.subrange(1, 9) =~= be_bytes(n, 8));
                lemma_be_roundtrip(n, 8);
            }
        },
        SpecValue::Int(i) => {
            if i >= -32 {
            } else if i >= -0x80 {
                lemma_extract_byte(b, pos, e, 1);
            } else if i >= -0x8000 {
                let m = (i + 0x10000) as nat;
                lemma_be_bytes_len(m, 2);
                lemma_extract(b, pos, e, 1, 2);
                assert(e.subrange(1, 3) =~= be_bytes(m, 2));
                lemma_be_roundtrip(m, 2);
            } else if i >= -0x8000_0000 {
                let m = (i + 0x1_0000_0000) as nat;
                lemma_be_bytes_len(m, 4);
                lemma_extract(b, pos, e, 1, 4);
                assert(e.subrange(1, 5) =~= be_bytes(m, 4));
                lemma_be_roundtrip(m, 4);
            } else {
                let m = (i + 0x1_0000_0000_0000_0000) as nat;
                lemma_be_bytes_len(m, 8);
                lemma_extract(b, pos, e, 1, 8);
                assert(e.subrange(1, 9) =~= be_bytes(m, 8));
                lemma_be_roundtrip(m, 8);
            }
        },
        SpecValue::Str(s) => {
            let len = s.len();
            if len < 32 {
                lemma_extract(b, pos, e, 1, len as int);
                assert(e.subrange(1, 1 + len as int) =~= s);
            } else if len < 0x100 {
                lemma_extract_byte(b, pos, e, 1);
                lemma_extract(b, pos, e, 2, len as int);
                assert(e.subrange(2, 2 + len as int) =~= s);
            } else if len < 0x10000 {
                lemma_be_bytes_len(len, 2);
                lemma_extract(b, pos, e, 1, 2);
                assert(e.subrange(1, 3) =~= be_bytes(len, 2));
                lemma_be_roundtrip(len, 2);
                lemma_extract(b, pos, e, 3, len as int);
                assert(e.subrange(3, 3 + len as int) =~= s);
            } else {
                lemma_be_bytes_len(len, 4);
                lemma_extract(b, pos, e, 1, 4);
                assert(e.subrange(1, 5) =~= be_bytes(len, 4));
                lemma_be_roundtrip(len, 4);
                lemma_extract(b, pos, e, 5, len as int);
                assert(e.subrange(5, 5 + len as int) =~= s);
            }
        },
        SpecValue::Bin(s) => {
            let len = s.len();
            if len < 0x100 {
                lemma_extract_byte(b, pos, e, 1);
                lemma_extract(b, pos, e, 2, len as int);
                assert(e.subrange(2, 2 + len as int) =~= s);
            } else if len < 0x10000 {
                lemma_be_bytes_len(len, 2);
                lemma_extract(b, pos, e, 1, 2);
                assert(e.subrange(1, 3) =~= be_bytes(len, 2));
                lemma_be_roundtrip(len, 2);
                lemma_extract(b, pos, e, 3, len as int);
                assert(e.subrange(3, 3 + len as int) =~= s);
            } else {
                lemma_be_bytes_len(len, 4);
                lemma_extract(b, pos, e, 1, 4);
                assert(e.subrange(1, 5) =~= be_bytes(len, 4));
                lemma_be_roundtrip(len, 4);
                lemma_extract(b, pos, e, 5, len as int);
                assert(e.subrange(5, 5 + len as int) =~= s);
            }
        },
        SpecValue::Ext(t, d) => {
            let len = d.len();
            lemma_ext_type_byte_roundtrip(t);
            if len == 1 || len == 2 || len == 4 || len == 8 || len == 16 {
                lemma_extract_byte(b, pos, e, 1);
                lemma_extract(b, pos, e, 2, len as int);
                assert(e.subrange(2, 2 + len as int) =~= d);
            } else if len < 0x100 {
                lemma_extract_byte(b, pos, e, 1);
                lemma_extract_byte(b, pos, e, 2);
                lemma_extract(b, pos, e, 3, len as int);
                assert(e.subrange(3, 3 + len as int) =~= d);
            } else if len < 0x10000 {
                lemma_be_bytes_len(len, 2);
                lemma_extract(b, pos, e, 1, 2);
                assert(e.subrange(1, 3) =~= be_bytes(len, 2));
                lemma_be_roundtrip(len, 2);
                lemma_extract_byte(b, pos, e, 3);
                assert(e[3] == ext_type_byte(t));
                lemma_extract(b, pos, e, 4, len as int);
                assert(e.subrange(4, 4 + len as int) =~= d);
            } else {
                lemma_be_bytes_len(len, 4);
                lemma_extract(b, pos, e, 1, 4);
                assert(e.subrange(1, 5) =~= be_bytes(len, 4));
                lemma_be_roundtrip(len, 4);
                lemma_extract_byte(b, pos, e, 5);
                assert(e[5] == ext_type_byte(t));
                lemma_extract(b, pos, e, 6, len as int);
                assert(e.subrange(6, 6 + len as int) =~= d);
            }
        },
        SpecValue::Array(es) => {
            let n = es.len();
            let hdr = enc_arr_hdr(n);
            let body = enc_list(es);
            if n < 16 {
                lemma_extract(b, pos, e, 1, body.len() as int);
                assert(e.subrange(1, 1 + body.len() as int) =~= body);
                lemma_dec_enc_list(es, b, pos + 1, (depth - 1) as nat);
            } else if n < 0x10000 {
                lemma_be_bytes_len(n, 2);
                lemma_extract(b, pos, e, 1, 2);
                assert(e.subrange(1, 3) =~= be_bytes(n, 2));
                lemma_be_roundtrip(n, 2);
                lemma_extract(b, pos, e, 3, body.len() as int);
                assert(e.subrange(3, 3 + body.len() as int) =~= body);
                lemma_dec_enc_list(es, b, pos + 3, (depth - 1) as nat);
            } else {
                lemma_be_bytes_len(n, 4);
                lemma_extract(b, pos, e, 1, 4);
                assert(e.subrange(1, 5) =~= be_bytes(n, 4));
                lemma_be_roundtrip(n, 4);
                lemma_extract(b, pos, e, 5, body.len() as int);
                assert(e.subrange(5, 5 + body.len() as int) =~= body);
                lemma_dec_enc_list(es, b, pos + 5, (depth - 1) as nat);
            }
        },
        SpecValue::Dict(ps) => {
            let n = ps.len();
            let body = enc_entries(ps);
            if n < 16 {
                lemma_extract(b, pos, e, 1, body.len() as int);
                assert(e.subrange(1, 1 + body.len() as int) =~= body);
                lemma_dec_enc_entries(ps, b, pos + 1, (depth - 1) as nat);
            } else if n < 0x10000 {
                lemma_be_bytes_len(n, 2);
                lemma_extract(b, pos, e, 1, 2);
                assert(e.subrange(1, 3) =~= be_bytes(n, 2));
                lemma_be_roundtrip(n, 2);
                lemma_extract(b, pos, e, 3, body.len() as int);
                assert(e.subrange(3, 3 + body.len() as int) =~= body);
                lemma_dec_enc_entries(ps, b, pos + 3, (depth - 1) as nat);
            } else {
                lemma_be_bytes_len(n, 4);
                lemma_extract(b, pos, e, 1, 4);
                assert(e.subrange(1, 5) =~= be_bytes(n, 4));
                lemma_be_roundtrip(n, 4);
                lemma_extract(b, pos, e, 5, body.len() as int);
                assert(e.subrange(5, 5 + body.len() as int) =~= body);
                lemma_dec_enc_entries(ps, b, pos + 5, (depth - 1) as nat);
            }
        },
    }
}

pub proof fn lemma_dec_enc_list(s: Seq<SpecValue>, b: Seq<u8>, pos: int, depth: nat)
    requires
        wf_list(s),
        depth >= height_list(s),
        0 <= pos,
        pos + enc_list(s).len() <= b.len(),
        b.subrange(pos, pos + enc_list(s).len() as int) == enc_list(s),
    ensures
        dec_list(b, pos, s.len(), depth) == Some((s, pos + enc_list(s).len() as int)),
    decreases depth, s.len(),
{
    if s.len() == 0 {
        assert(s =~= Seq::<SpecValue>::empty());
    } else {
        let e0 = enc(s[0]);
        let rest = enc_list(s.drop_first());
        lemma_enc_len(s[0]);
        lemma_extract(b, pos, enc_list(s), 0, e0.len() as int);
        assert(enc_list(s).subrange(0, e0.len() as int) =~= e0);
        lemma_dec_enc(s[0], b, pos, depth);
        let p2 = pos + e0.len() as int;
        lemma_extract(b, pos, enc_list(s), e0.len() as int, rest.len() as int);
        assert(enc_list(s).subrange(e0.len() as int, enc_list(s).len() as int) =~= rest);
        lemma_dec_enc_list(s.drop_first(), b, p2, depth);
        assert(seq![s[0]] + s.drop_first() =~= s);
    }
}

pub proof fn lemma_dec_enc_entries(s: Seq<(SpecValue, SpecValue)>, b: Seq<u8>, pos: int, depth: nat)
    requires
        wf_entries(s),
        depth >= height_entries(s),
        0 <= pos,
        pos + enc_entries(s).len() <= b.len(),
        b.subrange(pos, pos + enc_entries(s).len() as int) == enc_entries(s),
    ensures
        dec_entries(b, pos, s.len(), depth) == Some((s, pos + enc_entries(s).len() as int)),
    decreases depth, s.len(),
{
    if s.len() == 0 {
        assert(s =~= Seq::<(SpecValue, SpecValue)>::empty());
    } else {
        let ek = enc(s[0].0);
        let ev = enc(s[0].1);
        let rest = enc_entries(s.drop_first());
        lemma_enc_len(s[0].0);
        lemma_enc_len(s[0].1);
        lemma_extract(b, pos, enc_entries(s), 0, ek.len() as int);
        assert(enc_entries(s).subrange(0, ek.len() as int) =~= ek);
        lemma_dec_enc(s[0].0, b, pos, depth);
        let p2 = pos + ek.len() as int;
        lemma_extract(b, pos, enc_entries(s), ek.len() as int, ev.len() as int);
        assert(enc_entries(s).subrange(ek.len() as int, ek.len() + ev.len() as int) =~= ev);
        lemma_dec_enc(s[0].1, b, p2, depth);
        let p3 = p2 + ev.len() as int;
        lemma_extract(b, pos, enc_entries(s), ek.len() + ev.len() as int, rest.len() as int);
        assert(enc_entries(s).subrange(
            ek.len() + ev.len() as int,
            enc_entries(s).len() as int,
        ) =~= rest);
        lemma_dec_enc_entries(s.drop_first(), b, p3, depth);
        assert(seq![s[0]] + s.drop_first() =~= s);
    }
}

/// Round trip: decoding the encoding of any well-formed value yields the
/// value back and consumes the whole encoding. This covers named-field
/// (map) payloads, positional (array) payloads, and values that embed a
/// callback-reference extension.
pub proof fn lemma_wire_roundtrip(v: SpecValue)
    requires
        wf(v),
    ensures
        dec_val(enc(v), 0, enc(v).len()) == Some((v, enc(v).len() as int)),
{
    lemma_enc_len(v);
    assert(enc(v).subrange(0, enc(v).len() as int) =~= enc(v));
    lemma_dec_enc(v, enc(v), 0, enc(v).len());
}

} // verus!

verus! {

/// Byte-string equality.
pub fn bytes_eq(a: &Vec<u8>, b: &Vec<u8>) -> (r: bool)
    ensures
        r == (a@ == b@),
{
    if a.len() != b.len() {
        return false;
    }
    let n = a.len();
    let mut i: usize = 0;
    while i < n
        invariant
            i <= n,
            n == a@.len(),
            n == b@.len(),
            forall|j: int| 0 <= j < i ==> a@[j] == b@[j],
        decreases n - i,
    {
        if a[i] != b[i] {
            return false;
        }
        i = i + 1;
    }
    proof {
        assert(a@ =~= b@);
    }
    true
}

impl MpValue {
    /// Structural equality of two wire values.
    #[verifier::loop_isolation(false)]
    pub fn eq_value(&self, other: &MpValue) -> (r: bool)
        ensures
            r == (self@ == other@),
        decreases *self,
    {
        match (self, other) {
            (MpValue::Nil, MpValue::Nil) => true,
            (MpValue::Bool(a), MpValue::Bool(b)) => a == b,
            (MpValue::UInt(a), MpValue::UInt(b)) => a == b,
            (MpValue::Int(a), MpValue::Int(b)) => a == b,
            (MpValue::Str(a), MpValue::Str(b)) => bytes_eq(a, b),
            (MpValue::Bin(a), MpValue::Bin(b)) => bytes_eq(a, b),
            (MpValue::Ext(t1, a), MpValue::Ext(t2, b)) => t1 == t2 && bytes_eq(a, b),
            (MpValue::Array(es1), MpValue::Array(es2)) => {
                proof {
                    lemma_view_list_index(es1@);
                    lemma_view_list_index(es2@);
                }
                if es1.len() != es2.len() {
                    return false;
                }
                let n = es1.len();
                let mut i: usize = 0;
                while i < n
                    invariant
                        i <= n,
                        forall|j: int| 0 <= j < i ==> view_list(es1@)[j] == view_list(es2@)[j],
                    decreases n - i,
                {
                    if !es1[i].eq_value(&es2[i]) {
                        proof {
                            assert(view_list(es1@)[i as int] != view_list(es2@)[i as int]);
                            assert(view_list(es1@) != view_list(es2@));
                        }
                        return false;
                    }
                    i = i + 1;
                }
                proof {
                    assert(view_list(es1@) =~= view_list(es2@));
                }
                true
            },
            (MpValue::Dict(ps1), MpValue::Dict(ps2)) => {
                proof {
                    lemma_view_entries_index(ps1@);
                    lemma_view_entries_index(ps2@);
                }
                if ps1.len() != ps2.len() {
                    return false;
                }
                let n = ps1.len();
                let mut i: usize = 0;
                while i < n
                    invariant
                        i <= n,
                        forall|j: int|
                            0 <= j < i ==> view_entries(ps1@)[j] == view_entries(ps2@)[j],
                    decreases n - i,
                {
                    if !ps1[i].0.eq_value(&ps2[i].0) {
                        proof {
                            assert(view_entries(ps1@)[i as int] != view_entries(ps2@)[i as int]);
                            assert(view_entries(ps1@) != view_entries(ps2@));
                        }
                        return false;
                    }
                    if !ps1[i].1.eq_value(&ps2[i].1) {
                        proof {
                            assert(view_entries(ps1@)[i as int] != view_entries(ps2@)[i as int]);
                            assert(view_entries(ps1@) != view_entries(ps2@));
                        }
                        return false;
                    }
                    i = i + 1;
                }
                proof {
                    assert(view_entries(ps1@) =~= view_entries(ps2@));
                }
                true
            },
            _ => {
                false
            },
        }
    }
}

} // verus!
