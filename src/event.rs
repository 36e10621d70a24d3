use vstd::prelude::*;

verus! {

/// The concrete type of a payload.
#[derive(PartialEq, Eq, Structural, Clone, Copy, Debug)]
pub enum Kind {
    Bool,
    Char,
    U8,
    U16,
    U32,
    U64,
    Usize,
    I8,
    I16,
    I32,
    I64,
    Isize,
    Str,
}

/// A payload value together with the type it was stored as.
#[derive(Debug)]
pub enum Value {
    Bool(bool),
    Char(char),
    U8(u8),
    U16(u16),
    U32(u32),
    U64(u64),
    Usize(usize),
    I8(i8),
    I16(i16),
    I32(i32),
    I64(i64),
    Isize(isize),
    Str(String),
}

impl Value {
    /// The type of the value held.
    pub open spec fn kind(self) -> Kind {
        match self {
            Value::Bool(_) => Kind::Bool,
            Value::Char(_) => Kind::Char,
            Value::U8(_) => Kind::U8,
            Value::U16(_) => Kind::U16,
            Value::U32(_) => Kind::U32,
            Value::U64(_) => Kind::U64,
            Value::Usize(_) => Kind::Usize,
            Value::I8(_) => Kind::I8,
            Value::I16(_) => Kind::I16,
            Value::I32(_) => Kind::I32,
            Value::I64(_) => Kind::I64,
            Value::Isize(_) => Kind::Isize,
            Value::Str(_) => Kind::Str,
        }
    }
}

/// Reads through an optional reference.
pub open spec fn opt_deref<T>(o: Option<&T>) -> Option<T> {
    match o {
        Some(x) => Some(*x),
        None => None,
    }
}

/// A type that an [`Event`] can carry.
///
/// Each implementing type stores itself as exactly one variant of [`Value`],
/// named by `kind`, and is read back only from that variant.
///
/// The payload types are the closed set that [`Value`] has a variant for:
/// `bool`, `char`, the integer types and `String`, each implemented here with
/// a kind of its own. An implementation for another type could only reuse one
/// of those kinds, and `get_data` of the type owning that kind would then read
/// it too; carry other data by converting it to one of these types.
pub trait Payload: Sized {
    /// The variant of [`Value`] this type is stored as.
    spec fn kind() -> Kind;

    /// The value stored for `self`.
    spec fn embed(self) -> Value;

    /// The payload of this type held by `v`, if `v` holds one.
    spec fn extract(v: Value) -> Option<Self>;

    /// Storing a payload gives a value of this type's kind, from which it reads back.
    proof fn lemma_embed(x: Self)
        ensures
            x.embed().kind() == Self::kind(),
            Self::extract(x.embed()) == Some(x),
    ;

    /// A value reads as this type exactly when it is of this type's kind, and
    /// what is read stores back as the same value.
    proof fn lemma_extract(v: Value)
        ensures
            Self::extract(v) is Some <==> v.kind() == Self::kind(),
            Self::extract(v) is Some ==> Self::extract(v)->0.embed() == v,
    ;

    fn into_value(self) -> (v: Value)
        ensures
            v == self.embed(),
    ;

    fn from_value(v: &Value) -> (r: Option<&Self>)
        ensures
            opt_deref(r) == Self::extract(*v),
    ;
}

impl Payload for bool {
    open spec fn kind() -> Kind {
        Kind::Bool
    }

    open spec fn embed(self) -> Value {
        Value::Bool(self)
    }

    open spec fn extract(v: Value) -> Option<bool> {
        match v {
            Value::Bool(x) => Some(x),
            _ => None,
        }
    }

    proof fn lemma_embed(x: bool) {
    }

    proof fn lemma_extract(v: Value) {
    }

    fn into_value(self) -> (v: Value) {
        Value::Bool(self)
    }

    fn from_value(v: &Value) -> (r: Option<&bool>) {
        match v {
            Value::Bool(x) => Some(x),
            _ => None,
        }
    }
}

impl Payload for char {
    open spec fn kind() -> Kind {
        Kind::Char
    }

    open spec fn embed(self) -> Value {
        Value::Char(self)
    }

    open spec fn extract(v: Value) -> Option<char> {
        match v {
            Value::Char(x) => Some(x),
            _ => None,
        }
    }

    proof fn lemma_embed(x: char) {
    }

    proof fn lemma_extract(v: Value) {
    }

    fn into_value(self) -> (v: Value) {
        Value::Char(self)
    }

    fn from_value(v: &Value) -> (r: Option<&char>) {
        match v {
            Value::Char(x) => Some(x),
            _ => None,
        }
    }
}

impl Payload for u8 {
    open spec fn kind() -> Kind {
        Kind::U8
    }

    open spec fn embed(self) -> Value {
        Value::U8(self)
    }

    open spec fn extract(v: Value) -> Option<u8> {
        match v {
            Value::U8(x) => Some(x),
            _ => None,
        }
    }

    proof fn lemma_embed(x: u8) {
    }

    proof fn lemma_extract(v: Value) {
    }

    fn into_value(self) -> (v: Value) {
        Value::U8(self)
    }

    fn from_value(v: &Value) -> (r: Option<&u8>) {
        match v {
            Value::U8(x) => Some(x),
            _ => None,
        }
    }
}

impl Payload for u16 {
    open spec fn kind() -> Kind {
        Kind::U16
    }

    open spec fn embed(self) -> Value {
        Value::U16(self)
    }

    open spec fn extract(v: Value) -> Option<u16> {
        match v {
            Value::U16(x) => Some(x),
            _ => None,
        }
    }

    proof fn lemma_embed(x: u16) {
    }

    proof fn lemma_extract(v: Value) {
    }

    fn into_value(self) -> (v: Value) {
        Value::U16(self)
    }

    fn from_value(v: &Value) -> (r: Option<&u16>) {
        match v {
            Value::U16(x) => Some(x),
            _ => None,
        }
    }
}

impl Payload for u32 {
    open spec fn kind() -> Kind {
        Kind::U32
    }

    open spec fn embed(self) -> Value {
        Value::U32(self)
    }

    open spec fn extract(v: Value) -> Option<u32> {
        match v {
            Value::U32(x) => Some(x),
            _ => None,
        }
    }

    proof fn lemma_embed(x: u32) {
    }

    proof fn lemma_extract(v: Value) {
    }

    fn into_value(self) -> (v: Value) {
        Value::U32(self)
    }

    fn from_value(v: &Value) -> (r: Option<&u32>) {
        match v {
            Value::U32(x) => Some(x),
            _ => None,
        }
    }
}

impl Payload for u64 {
    open spec fn kind() -> Kind {
        Kind::U64
    }

    open spec fn embed(self) -> Value {
        Value::U64(self)
    }

    open spec fn extract(v: Value) -> Option<u64> {
        match v {
            Value::U64(x) => Some(x),
            _ => None,
        }
    }

    proof fn lemma_embed(x: u64) {
    }

    proof fn lemma_extract(v: Value) {
    }

    fn into_value(self) -> (v: Value) {
        Value::U64(self)
    }

    fn from_value(v: &Value) -> (r: Option<&u64>) {
        match v {
            Value::U64(x) => Some(x),
            _ => None,
        }
    }
}

impl Payload for usize {
    open spec fn kind() -> Kind {
        Kind::Usize
    }

    open spec fn embed(self) -> Value {
        Value::Usize(self)
    }

    open spec fn extract(v: Value) -> Option<usize> {
        match v {
            Value::Usize(x) => Some(x),
            _ => None,
        }
    }

    proof fn lemma_embed(x: usize) {
    }

    proof fn lemma_extract(v: Value) {
    }

    fn into_value(self) -> (v: Value) {
        Value::Usize(self)
    }

    fn from_value(v: &Value) -> (r: Option<&usize>) {
        match v {
            Value::Usize(x) => Some(x),
            _ => None,
        }
    }
}

impl Payload for i8 {
    open spec fn kind() -> Kind {
        Kind::I8
    }

    open spec fn embed(self) -> Value {
        Value::I8(self)
    }

    open spec fn extract(v: Value) -> Option<i8> {
        match v {
            Value::I8(x) => Some(x),
            _ => None,
        }
    }

    proof fn lemma_embed(x: i8) {
    }

    proof fn lemma_extract(v: Value) {
    }

    fn into_value(self) -> (v: Value) {
        Value::I8(self)
    }

    fn from_value(v: &Value) -> (r: Option<&i8>) {
        match v {
            Value::I8(x) => Some(x),
            _ => None,
        }
    }
}

impl Payload for i16 {
    open spec fn kind() -> Kind {
        Kind::I16
    }

    open spec fn embed(self) -> Value {
        Value::I16(self)
    }

    open spec fn extract(v: Value) -> Option<i16> {
        match v {
            Value::I16(x) => Some(x),
            _ => None,
        }
    }

    proof fn lemma_embed(x: i16) {
    }

    proof fn lemma_extract(v: Value) {
    }

    fn into_value(self) -> (v: Value) {
        Value::I16(self)
    }

    fn from_value(v: &Value) -> (r: Option<&i16>) {
        match v {
            Value::I16(x) => Some(x),
            _ => None,
        }
    }
}

impl Payload for i32 {
    open spec fn kind() -> Kind {
        Kind::I32
    }

    open spec fn embed(self) -> Value {
        Value::I32(self)
    }

    open spec fn extract(v: Value) -> Option<i32> {
        match v {
            Value::I32(x) => Some(x),
            _ => None,
        }
    }

    proof fn lemma_embed(x: i32) {
    }

    proof fn lemma_extract(v: Value) {
    }

    fn into_value(self) -> (v: Value) {
        Value::I32(self)
    }

    fn from_value(v: &Value) -> (r: Option<&i32>) {
        match v {
            Value::I32(x) => Some(x),
            _ => None,
        }
    }
}

impl Payload for i64 {
    open spec fn kind() -> Kind {
        Kind::I64
    }

    open spec fn embed(self) -> Value {
        Value::I64(self)
    }

    open spec fn extract(v: Value) -> Option<i64> {
        match v {
            Value::I64(x) => Some(x),
            _ => None,
        }
    }

    proof fn lemma_embed(x: i64) {
    }

    proof fn lemma_extract(v: Value) {
    }

    fn into_value(self) -> (v: Value) {
        Value::I64(self)
    }

    fn from_value(v: &Value) -> (r: Option<&i64>) {
        match v {
            Value::I64(x) => Some(x),
            _ => None,
        }
    }
}

impl Payload for isize {
    open spec fn kind() -> Kind {
        Kind::Isize
    }

    open spec fn embed(self) -> Value {
        Value::Isize(self)
    }

    open spec fn extract(v: Value) -> Option<isize> {
        match v {
            Value::Isize(x) => Some(x),
            _ => None,
        }
    }

    proof fn lemma_embed(x: isize) {
    }

    proof fn lemma_extract(v: Value) {
    }

    fn into_value(self) -> (v: Value) {
        Value::Isize(self)
    }

    fn from_value(v: &Value) -> (r: Option<&isize>) {
        match v {
            Value::Isize(x) => Some(x),
            _ => None,
        }
    }
}

impl Payload for String {
    open spec fn kind() -> Kind {
        Kind::Str
    }

    open spec fn embed(self) -> Value {
        Value::Str(self)
    }

    open spec fn extract(v: Value) -> Option<String> {
        match v {
            Value::Str(x) => Some(x),
            _ => None,
        }
    }

    proof fn lemma_embed(x: String) {
    }

    proof fn lemma_extract(v: Value) {
    }

    fn into_value(self) -> (v: Value) {
        Value::Str(self)
    }

    fn from_value(v: &Value) -> (r: Option<&String>) {
        match v {
            Value::Str(x) => Some(x),
            _ => None,
        }
    }
}

/// A single payload routed through a topic.
///
/// The payload's type is fixed when it is stored and may be replaced wholesale,
/// with a value of another type, by [`Event::set_data`].
#[derive(Debug)]
pub struct Event {
    data: Value,
}

impl View for Event {
    type V = Value;

    closed spec fn view(&self) -> Value {
        self.data
    }
}

impl Event {
    /// Creates an event holding `data`.
    pub fn new<T: Payload>(data: T) -> (e: Event)
        ensures
            e@ == data.embed(),
    {
        Event { data: data.into_value() }
    }

    /// The payload, if it is of type `T`; `None` if it is of another type.
    pub fn get_data<T: Payload>(&self) -> (r: Option<&T>)
        ensures
            opt_deref(r) == T::extract(self@),
    {
        T::from_value(&self.data)
    }

    /// Replaces the payload with `data`, whose type may differ from the old one.
    pub fn set_data<T: Payload>(&mut self, data: T)
        ensures
            final(self)@ == data.embed(),
    {
        self.data = data.into_value();
    }
}

/// An event made from `x` reads back `x` as its own type, and nothing as a
/// type of another kind.
pub proof fn lemma_get_after_new<T: Payload, U: Payload>(x: T)
    ensures
        T::extract(x.embed()) == Some(x),
        T::kind() != U::kind() ==> U::extract(x.embed()) is None,
        T::kind() == U::kind() ==> U::extract(x.embed()) is Some
            && U::extract(x.embed())->0.embed() == x.embed(),
{
    T::lemma_embed(x);
    U::lemma_extract(x.embed());
}

/// After `set_data` with `y`, the event reads back `y` as `y`'s type and no
/// longer reads as the old payload's type, where the two kinds differ.
pub proof fn lemma_get_after_set<T: Payload, U: Payload>(x: T, y: U)
    ensures
        U::extract(y.embed()) == Some(y),
        T::kind() != U::kind() ==> T::extract(y.embed()) is None,
{
    U::lemma_embed(y);
    T::lemma_extract(y.embed());
}

} // verus!
