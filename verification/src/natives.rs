//! The native-definition catalogue: the parsed shape of a definition
//! statement, the type table with its parent chains, and the mapping from
//! definition types onto binding types. Names are byte strings, as read from
//! the definition files.
use vstd::prelude::*;
use vstd::string::StringSliceAdditionalSpecFns;

use crate::wire;

verus! {

/// A byte-string copy of a literal.
pub fn lit_bytes(s: &str) -> (r: Vec<u8>)
    ensures
        r@ == s.spec_bytes(),
{
    let b = s.as_bytes();
    let n = b.len();
    let mut r: Vec<u8> = Vec::new();
    let mut i: usize = 0;
    while i < n
        invariant
            i <= n,
            n == b@.len(),
            b@ == s.spec_bytes(),
            r@ == b@.take(i as int),
        decreases n - i,
    {
        r.push(b[i]);
        assert(r@ =~= b@.take(i + 1));
        i = i + 1;
    }
    assert(r@ =~= b@);
    r
}

/// The argument of one definition statement: a plain text literal, or a
/// table of named entries each carrying its own arguments.
pub enum Argument {
    Text(Vec<u8>),
    Table(Vec<(Vec<u8>, Vec<Argument>)>),
}

impl Argument {
    /// The textual form of the argument: the literal itself, or the word
    /// `table` for a table.
    pub fn to_string(&self) -> (r: Vec<u8>)
        ensures
            match self {
                Argument::Text(s) => r@ == s@,
                Argument::Table(_) => r@ == "table".spec_bytes(),
            },
    {
        match self {
            Argument::Text(s) => wire::copy_range(s, 0, s.len()),
            Argument::Table(_) => lit_bytes("table"),
        }
    }
}

/// One definition statement: a function name applied to an argument, with an
/// optional second argument.
pub struct FuncExec {
    pub name: Vec<u8>,
    pub argument: Argument,
    pub opt_arg: Option<Argument>,
}

/// One type of the definition catalogue: its name, the native type it
/// lowers to, and the type it extends, if any.
#[derive(Clone)]
pub struct CfxType {
    pub name: Vec<u8>,
    pub native_type: Vec<u8>,
    pub parent: Option<Vec<u8>>,
}

/// The binding type a catalogue type maps to: its rendered name, an optional
/// conversion expression, and whether a missing result may fall back to the
/// type's default value.
#[derive(Clone)]
pub struct RustType {
    pub name: Vec<u8>,
    pub convert: Option<Vec<u8>>,
    pub may_be_default: bool,
}

/// The type under `name`, if any: the first entry whose name matches.
pub open spec fn type_lookup(s: Seq<CfxType>, name: Seq<u8>) -> Option<CfxType>
    decreases s.len(),
{
    if s.len() == 0 {
        None
    } else if s[0].name@ == name {
        Some(s[0])
    } else {
        type_lookup(s.drop_first(), name)
    }
}

/// The catalogue's type table, keyed by type name.
pub struct TypeMap {
    entries: Vec<CfxType>,
}

proof fn lemma_type_found(s: Seq<CfxType>, name: Seq<u8>, i: int)
    requires
        0 <= i < s.len(),
        s[i].name@ == name,
        forall|k: int| 0 <= k < i ==> s[k].name@ != name,
    ensures
        type_lookup(s, name) == Some(s[i]),
    decreases i,
{
    if i > 0 {
        assert(s.drop_first()[i - 1] == s[i]);
        assert forall|k: int| 0 <= k < i - 1 implies s.drop_first()[k].name@ != name by {
            assert(s.drop_first()[k] == s[k + 1]);
        }
        lemma_type_found(s.drop_first(), name, i - 1);
    }
}

proof fn lemma_type_absent(s: Seq<CfxType>, name: Seq<u8>)
    requires
        forall|k: int| 0 <= k < s.len() ==> s[k].name@ != name,
    ensures
        type_lookup(s, name) is None,
    decreases s.len(),
{
    if s.len() > 0 {
        assert forall|k: int| 0 <= k < s.len() - 1 implies s.drop_first()[k].name@ != name by {
            assert(s.drop_first()[k] == s[k + 1]);
        }
        lemma_type_absent(s.drop_first(), name);
    }
}

impl TypeMap {
    /// The entries, in the model.
    pub closed spec fn entries_seq(&self) -> Seq<CfxType> {
        self.entries@
    }

    /// The type registered under `name`, if any.
    pub open spec fn type_of(&self, name: Seq<u8>) -> Option<CfxType> {
        type_lookup(self.entries_seq(), name)
    }

    /// An empty table.
    pub fn new() -> (r: TypeMap)
        ensures
            r.entries_seq() == Seq::<CfxType>::empty(),
    {
        TypeMap { entries: Vec::new() }
    }

    /// The number of entries.
    pub fn len(&self) -> (r: usize)
        ensures
            r == self.entries_seq().len(),
    {
        self.entries.len()
    }

    /// Appends a type; a later entry under an existing name stays shadowed
    /// by the earlier one.
    pub fn push(&mut self, ty: CfxType)
        ensures
            final(self).entries_seq() == old(self).entries_seq().push(ty),
    {
        self.entries.push(ty);
    }

    /// Looks the type under `name` up.
    pub fn get(&self, name: &Vec<u8>) -> (r: Option<&CfxType>)
        ensures
            match r {
                Some(t) => self.type_of(name@) == Some(*t),
                None => self.type_of(name@) is None,
            },
    {
        let n = self.entries.len();
        let mut i: usize = 0;
        while i < n
            invariant
                i <= n,
                n == self.entries@.len(),
                forall|k: int| 0 <= k < i ==> self.entries@[k].name@ != name@,
            decreases n - i,
        {
            if wire::bytes_eq(&self.entries[i].name, name) {
                proof {
                    lemma_type_found(self.entries@, name@, i as int);
                }
                return Some(&self.entries[i]);
            }
            i = i + 1;
        }
        proof {
            lemma_type_absent(self.entries@, name@);
        }
        None
    }
}

/// Whether `t` is, or transitively extends, the type called `name`,
/// following at most `fuel` parent links (a cyclic parent chain ends the
/// walk).
pub open spec fn spec_is_type(t: CfxType, types: Seq<CfxType>, name: Seq<u8>, fuel: nat) -> bool
    decreases fuel,
{
    if t.name@ == name {
        true
    } else if fuel == 0 {
        false
    } else {
        match t.parent {
            Some(p) => match type_lookup(types, p@) {
                Some(pt) => spec_is_type(pt, types, name, (fuel - 1) as nat),
                None => false,
            },
            None => false,
        }
    }
}

/// Whether a type's name is one of the primitive catalogue names.
pub open spec fn spec_is_primitive(t: CfxType) -> bool {
    ||| t.name@ == "Any".spec_bytes()
    ||| t.name@ == "uint".spec_bytes()
    ||| t.name@ == "int".spec_bytes()
    ||| t.name@ == "Hash".spec_bytes()
    ||| t.name@ == "charPtr".spec_bytes()
    ||| t.name@ == "float".spec_bytes()
    ||| t.name@ == "vector3".spec_bytes()
    ||| t.name@ == "BOOL".spec_bytes()
}

/// Whether a type's name carries the pointer suffix.
pub open spec fn spec_is_ptr(t: CfxType) -> bool {
    t.name@.len() >= 3 && t.name@.subrange(t.name@.len() - 3, t.name@.len() as int)
        == "Ptr".spec_bytes()
}

impl CfxType {
    /// Whether this type is, or transitively extends, the type called
    /// `name`. The walk follows at most as many parent links as the table
    /// has entries, so a cyclic chain ends in a negative answer instead of
    /// running forever.
    pub fn is_type(&self, types: &TypeMap, name: &Vec<u8>) -> (r: bool)
        requires
            types.entries_seq().len() < usize::MAX,
        ensures
            r == spec_is_type(*self, types.entries_seq(), name@, types.entries_seq().len() + 1),
    {
        let mut fuel: usize = types.len() + 1;
        let mut cur: &CfxType = self;
        loop
            invariant
                spec_is_type(*self, types.entries_seq(), name@, types.entries_seq().len() + 1)
                    == spec_is_type(*cur, types.entries_seq(), name@, fuel as nat),
            decreases fuel,
        {
            if wire::bytes_eq(&cur.name, name) {
                return true;
            }
            if fuel == 0 {
                return false;
            }
            let next: &CfxType = match &cur.parent {
                Some(p) => match types.get(p) {
                    Some(pt) => pt,
                    None => {
                        return false;
                    },
                },
                None => {
                    return false;
                },
            };
            cur = next;
            fuel = fuel - 1;
        }
    }

    /// Whether this type is one of the primitive catalogue types.
    pub fn is_primitive(&self) -> (r: bool)
        ensures
            r == spec_is_primitive(*self),
    {
        wire::bytes_eq(&self.name, &lit_bytes("Any")) || wire::bytes_eq(&self.name, &lit_bytes("uint"))
            || wire::bytes_eq(&self.name, &lit_bytes("int")) || wire::bytes_eq(
            &self.name,
            &lit_bytes("Hash"),
        ) || wire::bytes_eq(&self.name, &lit_bytes("charPtr")) || wire::bytes_eq(
            &self.name,
            &lit_bytes("float"),
        ) || wire::bytes_eq(&self.name, &lit_bytes("vector3")) || wire::bytes_eq(
            &self.name,
            &lit_bytes("BOOL"),
        )
    }

    /// Whether the type's name carries the pointer suffix.
    pub fn is_ptr(&self) -> (r: bool)
        ensures
            r == spec_is_ptr(*self),
    {
        if self.name.len() < 3 {
            return false;
        }
        let suffix = wire::copy_range(&self.name, self.name.len() - 3, 3);
        proof {
            reveal_strlit("Ptr");
        }
        wire::bytes_eq(&suffix, &lit_bytes("Ptr"))
    }

    /// Whether the type lowers to the floating-point native type.
    pub fn is_float(&self) -> (r: bool)
        ensures
            r == (self.native_type@ == "float".spec_bytes()),
    {
        wire::bytes_eq(&self.native_type, &lit_bytes("float"))
    }
}

} // verus!

verus! {

/// Which API surface a native belongs to.
#[derive(Debug, Clone, Copy, PartialEq, Eq, Structural)]
pub enum ApiSet {
    Server,
    Client,
    Shared,
}

impl ApiSet {
    /// The set a definition label denotes; anything unrecognized is the
    /// server set.
    pub fn from_label(text: &Vec<u8>) -> (r: ApiSet)
        ensures
            r == (if text@ == "client".spec_bytes() {
                ApiSet::Client
            } else if text@ == "shared".spec_bytes() {
                ApiSet::Shared
            } else {
                ApiSet::Server
            }),
    {
        if wire::bytes_eq(text, &lit_bytes("client")) {
            ApiSet::Client
        } else if wire::bytes_eq(text, &lit_bytes("shared")) {
            ApiSet::Shared
        } else {
            ApiSet::Server
        }
    }

    /// The textual label of this set.
    pub fn to_string(&self) -> (r: Vec<u8>)
        ensures
            r@ == (match self {
                ApiSet::Client => "client".spec_bytes(),
                ApiSet::Server => "server".spec_bytes(),
                ApiSet::Shared => "shared".spec_bytes(),
            }),
    {
        match self {
            ApiSet::Client => lit_bytes("client"),
            ApiSet::Server => lit_bytes("server"),
            ApiSet::Shared => lit_bytes("shared"),
        }
    }
}

impl Default for ApiSet {
    /// The default surface is the server set.
    fn default() -> (r: ApiSet)
        ensures
            r == ApiSet::Server,
    {
        ApiSet::Server
    }
}

/// One native definition from the catalogue: its name, 64-bit identifier,
/// surface, optional namespace and game, named-and-typed arguments, return
/// type name, and documentation.
#[derive(Clone)]
pub struct CfxNative {
    pub name: Vec<u8>,
    pub hash: u64,
    pub apiset: ApiSet,
    pub namespace: Option<Vec<u8>>,
    pub game: Option<Vec<u8>>,
    /// Argument name and catalogue type name, in declaration order.
    pub arguments: Vec<(Vec<u8>, Vec<u8>)>,
    pub returns: Vec<u8>,
    pub doc: Option<Vec<u8>>,
}

/// One rendered binding argument.
#[derive(Clone)]
pub struct RustArgument {
    pub name: Vec<u8>,
    pub is_ptr: bool,
    pub ty: RustType,
}

/// How a rendered binding surfaces the invocation result.
#[derive(Debug, Clone, Copy, PartialEq, Eq, Structural)]
pub enum ReturnStyle {
    /// Unwraps the result, panicking on failure.
    Unwrap,
    /// Falls back to the type's default for primitives; strings stay
    /// optional; a missing return type ignores the result.
    UnwrapOrDefault,
    /// Surfaces the result as an optional value.
    Optional,
    /// Surfaces the result with the invocation error.
    Fallible,
}

/// The remote-procedure flavor of one specification entry.
#[derive(Debug, Clone, Copy, PartialEq, Eq, Structural)]
pub enum RpcType {
    Context,
    Entity,
    Object,
}

/// One remote-procedure specification entry: the native it refers to, its
/// flavor, and the name of the getter it pairs with, if any.
#[derive(Clone)]
pub struct Rpc {
    pub name: Vec<u8>,
    pub ty: RpcType,
    pub getter: Option<Vec<u8>>,
}

/// The rendered name of the binding type a catalogue type maps to.
pub open spec fn convert_name(nt: Seq<u8>, in_ret: bool) -> Seq<u8> {
    if nt == "string".spec_bytes() {
        if in_ret {
            "String".spec_bytes()
        } else {
            "impl cfx_core::types::AsCharPtr".spec_bytes()
        }
    } else if nt == "int".spec_bytes() {
        "i32".spec_bytes()
    } else if nt == "long".spec_bytes() {
        "i64".spec_bytes()
    } else if nt == "float".spec_bytes() {
        "f32".spec_bytes()
    } else if nt == "vector3".spec_bytes() {
        "cfx_core::types::Vector3".spec_bytes()
    } else if nt == "func".spec_bytes() {
        if in_ret {
            "cfx_core::ref_funcs::ExternRefFunction".spec_bytes()
        } else {
            "cfx_core::ref_funcs::RefFunction".spec_bytes()
        }
    } else if nt == "object".spec_bytes() {
        if in_ret {
            "cfx_core::types::Packed<Ret>".spec_bytes()
        } else {
            "impl serde::Serialize".spec_bytes()
        }
    } else if nt == "bool".spec_bytes() {
        "bool".spec_bytes()
    } else {
        "()".spec_bytes()
    }
}

/// The conversion expression the binding applies to such an argument.
pub open spec fn convert_expr(nt: Seq<u8>, in_ret: bool) -> Option<Seq<u8>> {
    if nt == "string".spec_bytes() {
        if in_ret {
            None
        } else {
            Some("as_char_ptr().into()".spec_bytes())
        }
    } else if nt == "int".spec_bytes() {
        None
    } else if nt == "long".spec_bytes() {
        None
    } else if nt == "float".spec_bytes() {
        None
    } else if nt == "vector3".spec_bytes() {
        None
    } else if nt == "func".spec_bytes() {
        None
    } else if nt == "object".spec_bytes() {
        if in_ret {
            None
        } else {
            Some("to_message_pack().as_slice().into()".spec_bytes())
        }
    } else {
        None
    }
}

/// Whether a missing result may fall back to the type's default value.
pub open spec fn convert_may_default(nt: Seq<u8>) -> bool {
    if nt == "string".spec_bytes() {
        false
    } else if nt == "int".spec_bytes() {
        true
    } else if nt == "long".spec_bytes() {
        true
    } else if nt == "float".spec_bytes() {
        true
    } else if nt == "vector3".spec_bytes() {
        true
    } else if nt == "func".spec_bytes() {
        false
    } else if nt == "object".spec_bytes() {
        false
    } else if nt == "bool".spec_bytes() {
        true
    } else {
        true
    }
}

/// Maps a catalogue type onto the binding type it renders as, in argument
/// or return position.
pub fn convert_type(ty: &CfxType, in_ret: bool) -> (r: RustType)
    ensures
        r.name@ == convert_name(ty.native_type@, in_ret),
        (match r.convert {
            Some(c) => convert_expr(ty.native_type@, in_ret) == Some(c@),
            None => convert_expr(ty.native_type@, in_ret) is None,
        }),
        r.may_be_default == convert_may_default(ty.native_type@),
{
    let nt = &ty.native_type;
    if wire::bytes_eq(nt, &lit_bytes("string")) {
        if in_ret {
            RustType { name: lit_bytes("String"), convert: None, may_be_default: false }
        } else {
            RustType {
                name: lit_bytes("impl cfx_core::types::AsCharPtr"),
                convert: Some(lit_bytes("as_char_ptr().into()")),
                may_be_default: false,
            }
        }
    } else if wire::bytes_eq(nt, &lit_bytes("int")) {
        RustType { name: lit_bytes("i32"), convert: None, may_be_default: true }
    } else if wire::bytes_eq(nt, &lit_bytes("long")) {
        RustType { name: lit_bytes("i64"), convert: None, may_be_default: true }
    } else if wire::bytes_eq(nt, &lit_bytes("float")) {
        RustType { name: lit_bytes("f32"), convert: None, may_be_default: true }
    } else if wire::bytes_eq(nt, &lit_bytes("vector3")) {
        RustType {
            name: lit_bytes("cfx_core::types::Vector3"),
            convert: None,
            may_be_default: true,
        }
    } else if wire::bytes_eq(nt, &lit_bytes("func")) {
        if in_ret {
            RustType {
                name: lit_bytes("cfx_core::ref_funcs::ExternRefFunction"),
                convert: None,
                may_be_default: false,
            }
        } else {
            RustType {
                name: lit_bytes("cfx_core::ref_funcs::RefFunction"),
                convert: None,
                may_be_default: false,
            }
        }
    } else if wire::bytes_eq(nt, &lit_bytes("object")) {
        if in_ret {
            RustType {
                name: lit_bytes("cfx_core::types::Packed<Ret>"),
                convert: None,
                may_be_default: false,
            }
        } else {
            RustType {
                name: lit_bytes("impl serde::Serialize"),
                convert: Some(lit_bytes("to_message_pack().as_slice().into()")),
                may_be_default: false,
            }
        }
    } else if wire::bytes_eq(nt, &lit_bytes("bool")) {
        RustType { name: lit_bytes("bool"), convert: None, may_be_default: true }
    } else {
        RustType { name: lit_bytes("()"), convert: None, may_be_default: true }
    }
}

/// The type a definition name resolves to: a name with the pointer suffix
/// (other than the plain string type) resolves, as a by-pointer use, to the
/// type named by its stem; any other name resolves directly.
pub open spec fn spec_find_type(types: Seq<CfxType>, name: Seq<u8>) -> Option<(bool, CfxType)> {
    if name != "charPtr".spec_bytes() && name.len() >= 3 && name.subrange(
        name.len() - 3,
        name.len() as int,
    ) == "Ptr".spec_bytes() {
        match type_lookup(types, name.take(name.len() - 3)) {
            Some(t) => Some((true, t)),
            None => None,
        }
    } else {
        match type_lookup(types, name) {
            Some(t) => Some((false, t)),
            None => None,
        }
    }
}

/// Resolves a definition name to its catalogue type, detecting the pointer
/// suffix.
pub fn find_type<'a>(map: &'a TypeMap, name: &Vec<u8>) -> (r: Option<(bool, &'a CfxType)>)
    ensures
        (match r {
            Some((p, t)) => spec_find_type(map.entries_seq(), name@) == Some((p, *t)),
            None => spec_find_type(map.entries_seq(), name@) is None,
        }),
{
    let is_char_ptr = wire::bytes_eq(name, &lit_bytes("charPtr"));
    let has_suffix = if name.len() >= 3 {
        let suffix = wire::copy_range(name, name.len() - 3, 3);
        wire::bytes_eq(&suffix, &lit_bytes("Ptr"))
    } else {
        false
    };
    if !is_char_ptr && has_suffix {
        let stem = wire::copy_range(name, 0, name.len() - 3);
        proof {
            assert(stem@ =~= name@.take(name@.len() - 3));
        }
        match map.get(&stem) {
            Some(t) => Some((true, t)),
            None => None,
        }
    } else {
        match map.get(name) {
            Some(t) => Some((false, t)),
            None => None,
        }
    }
}

/// The native under `name`, if any: the first entry whose name matches.
pub open spec fn native_lookup(s: Seq<CfxNative>, name: Seq<u8>) -> Option<CfxNative>
    decreases s.len(),
{
    if s.len() == 0 {
        None
    } else if s[0].name@ == name {
        Some(s[0])
    } else {
        native_lookup(s.drop_first(), name)
    }
}

proof fn lemma_native_found(s: Seq<CfxNative>, name: Seq<u8>, i: int)
    requires
        0 <= i < s.len(),
        s[i].name@ == name,
        forall|k: int| 0 <= k < i ==> s[k].name@ != name,
    ensures
        native_lookup(s, name) == Some(s[i]),
    decreases i,
{
    if i > 0 {
        assert(s.drop_first()[i - 1] == s[i]);
        assert forall|k: int| 0 <= k < i - 1 implies s.drop_first()[k].name@ != name by {
            assert(s.drop_first()[k] == s[k + 1]);
        }
        lemma_native_found(s.drop_first(), name, i - 1);
    }
}

proof fn lemma_native_absent(s: Seq<CfxNative>, name: Seq<u8>)
    requires
        forall|k: int| 0 <= k < s.len() ==> s[k].name@ != name,
    ensures
        native_lookup(s, name) is None,
    decreases s.len(),
{
    if s.len() > 0 {
        assert forall|k: int| 0 <= k < s.len() - 1 implies s.drop_first()[k].name@ != name by {
            assert(s.drop_first()[k] == s[k + 1]);
        }
        lemma_native_absent(s.drop_first(), name);
    }
}

/// The catalogue's natives, grouped by API surface.
pub struct NativeSets {
    pub server: Vec<CfxNative>,
    pub client: Vec<CfxNative>,
    pub shared: Vec<CfxNative>,
}

/// The natives of one surface.
pub open spec fn set_of(sets: NativeSets, set: ApiSet) -> Seq<CfxNative> {
    match set {
        ApiSet::Server => sets.server@,
        ApiSet::Client => sets.client@,
        ApiSet::Shared => sets.shared@,
    }
}

/// The first native called `name` in the given surface, if any.
pub fn find_native<'a>(name: &Vec<u8>, set: ApiSet, natives: &'a NativeSets) -> (r: Option<
    &'a CfxNative,
>)
    ensures
        (match r {
            Some(n) => native_lookup(set_of(*natives, set), name@) == Some(*n),
            None => native_lookup(set_of(*natives, set), name@) is None,
        }),
{
    let list: &Vec<CfxNative> = match set {
        ApiSet::Server => &natives.server,
        ApiSet::Client => &natives.client,
        ApiSet::Shared => &natives.shared,
    };
    let n = list.len();
    let mut i: usize = 0;
    while i < n
        invariant
            i <= n,
            n == list@.len(),
            list@ == set_of(*natives, set),
            forall|k: int| 0 <= k < i ==> list@[k].name@ != name@,
        decreases n - i,
    {
        if wire::bytes_eq(&list[i].name, name) {
            proof {
                lemma_native_found(list@, name@, i as int);
            }
            return Some(&list[i]);
        }
        i = i + 1;
    }
    proof {
        lemma_native_absent(list@, name@);
    }
    None
}

/// The first client native called `name`, if any.
pub fn find_client_native<'a>(name: &Vec<u8>, natives: &'a NativeSets) -> (r: Option<&'a CfxNative>)
    ensures
        (match r {
            Some(n) => native_lookup(natives.client@, name@) == Some(*n),
            None => native_lookup(natives.client@, name@) is None,
        }),
{
    find_native(name, ApiSet::Client, natives)
}

/// The first server native called `name`, if any.
pub fn find_server_native<'a>(name: &Vec<u8>, natives: &'a NativeSets) -> (r: Option<&'a CfxNative>)
    ensures
        (match r {
            Some(n) => native_lookup(natives.server@, name@) == Some(*n),
            None => native_lookup(natives.server@, name@) is None,
        }),
{
    find_native(name, ApiSet::Server, natives)
}

/// Appends a native to the server surface.
pub fn append_native_to_set(native: CfxNative, natives: &mut NativeSets)
    ensures
        final(natives).server@ == old(natives).server@.push(native),
        final(natives).client@ == old(natives).client@,
        final(natives).shared@ == old(natives).shared@,
{
    natives.server.push(native);
}

} // verus!

verus! {

/// The Jenkins one-at-a-time hash of a byte string taken ASCII-lowercase:
/// the identifier a catalogue name hashes to. A function of the bytes alone.
pub uninterp spec fn joaat_lower_of(s: Seq<u8>) -> u32;

/// Relies on joaat::hash_ascii_lowercase: hashes the bytes, lowercasing
/// alphabetical ones, and depends on the bytes alone.
#[verifier::external_body]
fn joaat_lower(bytes: &Vec<u8>) -> (r: u32)
    ensures
        r == joaat_lower_of(bytes@),
{
    joaat::hash_ascii_lowercase(bytes)
}

/// A structural copy of an optional byte string.
fn opt_bytes_clone(o: &Option<Vec<u8>>) -> (r: Option<Vec<u8>>)
    ensures
        match (r, o) {
            (Some(a), Some(b)) => a@ == b@,
            (None, None) => true,
            _ => false,
        },
{
    match o {
        Some(b) => Some(wire::copy_range(b, 0, b.len())),
        None => None,
    }
}

/// The context argument type of a setter native, walking its arguments in
/// order: the first argument that is (or extends) an entity binds the getter
/// to an entity, a player to a player; any other non-primitive type binds it
/// to a plain handle (`int`), or to nothing (`void`) when it is a pointer.
/// Arguments whose type the table does not know are skipped.
pub open spec fn ctx_arg_ty(args: Seq<(Vec<u8>, Vec<u8>)>, types: Seq<CfxType>) -> Option<Seq<u8>>
    decreases args.len(),
{
    if args.len() == 0 {
        None
    } else {
        match type_lookup(types, args[0].1@) {
            Some(t) => {
                if spec_is_type(t, types, "Entity".spec_bytes(), types.len() + 1) {
                    Some("Entity".spec_bytes())
                } else if spec_is_type(t, types, "Player".spec_bytes(), types.len() + 1) {
                    Some("Player".spec_bytes())
                } else if !spec_is_primitive(t) {
                    if spec_is_ptr(t) {
                        Some("void".spec_bytes())
                    } else {
                        Some("int".spec_bytes())
                    }
                } else {
                    ctx_arg_ty(args.drop_first(), types)
                }
            },
            None => ctx_arg_ty(args.drop_first(), types),
        }
    }
}

/// Whether the argument at `idx` resolves to the floating-point native type.
pub open spec fn float_arg_at(args: Seq<(Vec<u8>, Vec<u8>)>, types: Seq<CfxType>, idx: int) -> bool {
    0 <= idx < args.len() && match type_lookup(types, args[idx].1@) {
        Some(t) => t.native_type@ == "float".spec_bytes(),
        None => false,
    }
}

/// The return type name of the getter paired with a setter: the type of the
/// setter's second argument, or a vector when the setter takes three
/// floating-point components.
pub open spec fn getter_return_ty(native: CfxNative, types: Seq<CfxType>) -> Seq<u8> {
    if native.arguments@.len() >= 4 && float_arg_at(native.arguments@, types, 1) && float_arg_at(
        native.arguments@,
        types,
        2,
    ) && float_arg_at(native.arguments@, types, 3) {
        "Vector3".spec_bytes()
    } else {
        match type_lookup(types, native.arguments@[1].1@) {
            Some(t) => t.name@,
            None => Seq::empty(),
        }
    }
}

/// The context argument type of a setter native, as [`ctx_arg_ty`] walks
/// its arguments; nothing when no argument can serve as the context.
pub fn context_arg_type(native: &CfxNative, types: &TypeMap) -> (r: Option<Vec<u8>>)
    requires
        types.entries_seq().len() < usize::MAX,
    ensures
        match r {
            Some(t) => ctx_arg_ty(native.arguments@, types.entries_seq()) == Some(t@),
            None => ctx_arg_ty(native.arguments@, types.entries_seq()) is None,
        },
{
    let n = native.arguments.len();
    let mut i: usize = 0;
    let mut found: Option<Vec<u8>> = None;
    proof {
        assert(native.arguments@.skip(0) =~= native.arguments@);
    }
    while i < n
        invariant_except_break
            i <= n,
            n == native.arguments@.len(),
            types.entries_seq().len() < usize::MAX,
            found is None,
            ctx_arg_ty(native.arguments@, types.entries_seq()) == ctx_arg_ty(
                native.arguments@.skip(i as int),
                types.entries_seq(),
            ),
        ensures
            match found {
                Some(t) => ctx_arg_ty(native.arguments@, types.entries_seq()) == Some(t@),
                None => ctx_arg_ty(native.arguments@, types.entries_seq()) is None,
            },
        decreases n - i,
    {
        proof {
            assert(native.arguments@.skip(i as int)[0] == native.arguments@[i as int]);
            assert(native.arguments@.skip(i as int).drop_first() =~= native.arguments@.skip(
                i + 1,
            ));
        }
        let ty = match types.get(&native.arguments[i].1) {
            Some(t) => t,
            None => {
                i = i + 1;
                continue ;
            },
        };
        if ty.is_type(types, &lit_bytes("Entity")) {
            found = Some(lit_bytes("Entity"));
            break ;
        } else if ty.is_type(types, &lit_bytes("Player")) {
            found = Some(lit_bytes("Player"));
            break ;
        } else if !ty.is_primitive() {
            if ty.is_ptr() {
                found = Some(lit_bytes("void"));
            } else {
                found = Some(lit_bytes("int"));
            }
            break ;
        }
        i = i + 1;
    }
    found
}

/// Derives the getter native paired with a context-procedure setter and
/// appends it to the server surface: named after the paired getter, hashed
/// from that name, taking the setter's context as its one argument and
/// returning what the setter sets. Nothing happens without a paired getter
/// name, or when a server native of that name already exists.
pub fn make_server_getter(rpc: &Rpc, native: &CfxNative, natives: &mut NativeSets, types: &TypeMap)
    requires
        types.entries_seq().len() < usize::MAX,
        (match rpc.getter {
            Some(g) => native_lookup(old(natives).server@, g@) is None ==> ctx_arg_ty(
                native.arguments@,
                types.entries_seq(),
            ) is Some && native.arguments@.len() >= 2 && type_lookup(
                types.entries_seq(),
                native.arguments@[1].1@,
            ) is Some,
            None => true,
        }),
    ensures
        final(natives).client@ == old(natives).client@,
        final(natives).shared@ == old(natives).shared@,
        (match rpc.getter {
            Some(g) => if native_lookup(old(natives).server@, g@) is Some {
                final(natives).server@ == old(natives).server@
            } else {
                final(natives).server@.len() == old(natives).server@.len() + 1
                    && final(natives).server@.take(old(natives).server@.len() as int) == old(
                    natives,
                ).server@ && ({
                    let x = final(natives).server@.last();
                    &&& x.name@ == g@
                    &&& x.hash == joaat_lower_of(g@) as u64
                    &&& x.apiset == ApiSet::Server
                    &&& (x.namespace matches Some(ns) && ns@ == "CFX".spec_bytes())
                    &&& x.arguments@.len() == 1
                    &&& x.arguments@[0].0@ == "this".spec_bytes()
                    &&& x.arguments@[0].1@ == ctx_arg_ty(
                        native.arguments@,
                        types.entries_seq(),
                    ).unwrap()
                    &&& x.returns@ == getter_return_ty(*native, types.entries_seq())
                    &&& (match (x.game, native.game) {
                        (Some(a), Some(b)) => a@ == b@,
                        (None, None) => true,
                        _ => false,
                    })
                    &&& (match (x.doc, native.doc) {
                        (Some(a), Some(b)) => a@ == b@,
                        (None, None) => true,
                        _ => false,
                    })
                })
            },
            None => final(natives).server@ == old(natives).server@,
        }),
{
    let getter = match &rpc.getter {
        Some(g) => g,
        None => {
            return ;
        },
    };
    if find_server_native(getter, natives).is_some() {
        return ;
    }
    let found = context_arg_type(native, types);
    let arg_ty = match found {
        Some(t) => t,
        None => {
            proof {
                assert(false);
            }
            return ;
        },
    };
    let mut ret_ty: Vec<u8> = match types.get(&native.arguments[1].1) {
        Some(t) => wire::copy_range(&t.name, 0, t.name.len()),
        None => Vec::new(),
    };
    let take_vector = native.arguments.len() >= 4 && float_arg_exec(native, types, 1)
        && float_arg_exec(native, types, 2) && float_arg_exec(native, types, 3);
    if take_vector {
        ret_ty = lit_bytes("Vector3");
    }
    let mut arguments: Vec<(Vec<u8>, Vec<u8>)> = Vec::new();
    arguments.push((lit_bytes("this"), arg_ty));
    let getter_native = CfxNative {
        hash: joaat_lower(getter) as u64,
        name: wire::copy_range(getter, 0, getter.len()),
        apiset: ApiSet::Server,
        arguments,
        game: opt_bytes_clone(&native.game),
        namespace: Some(lit_bytes("CFX")),
        returns: ret_ty,
        doc: opt_bytes_clone(&native.doc),
    };
    append_native_to_set(getter_native, natives);
    proof {
        assert(final(natives).server@.take(old(natives).server@.len() as int) =~= old(
            natives,
        ).server@);
    }
}

/// Whether the argument at `idx` resolves to the floating-point native type.
fn float_arg_exec(native: &CfxNative, types: &TypeMap, idx: usize) -> (r: bool)
    requires
        idx < native.arguments@.len(),
    ensures
        r == float_arg_at(native.arguments@, types.entries_seq(), idx as int),
{
    match types.get(&native.arguments[idx].1) {
        Some(t) => t.is_float(),
        None => false,
    }
}

} // verus!
