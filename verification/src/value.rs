use vstd::prelude::*;
use crate::error::{KvError, KvErrorV};

verus! {

/// Mathematical model of the payload of a `Value`.
#[verifier::ext_equal]
pub enum VariantV {
    Str(Seq<char>),
    Bin(Seq<u8>),
    Int(i64),
    Float(u64),
    Bool(bool),
}

/// Mathematical model of a `Value`: at most one variant is present,
/// and absence (`val` is `None`) is a distinct "no value" state.
#[verifier::ext_equal]
pub struct ValueV {
    pub val: Option<VariantV>,
}

/// Mathematical model of a `Kvpair`.
#[verifier::ext_equal]
pub struct KvpairV {
    pub key: Seq<char>,
    pub val: Option<ValueV>,
}

/// The payload a `Value` can carry; exactly one variant is set at a time.
///
/// A floating-point payload travels as the 64 raw bits of its IEEE 754
/// representation (`Float`), so the core never computes on floats; callers
/// convert with `f64::to_bits` / `f64::from_bits` at the boundary.
#[derive(Debug, PartialOrd)]
pub enum ValueVariant {
    Str(String),
    Bin(Vec<u8>),
    Int(i64),
    Float(u64),
    Bool(bool),
}

impl View for ValueVariant {
    type V = VariantV;

    open spec fn view(&self) -> VariantV {
        match self {
            ValueVariant::Str(s) => VariantV::Str(s@),
            ValueVariant::Bin(b) => VariantV::Bin(b@),
            ValueVariant::Int(i) => VariantV::Int(*i),
            ValueVariant::Float(f) => VariantV::Float(*f),
            ValueVariant::Bool(b) => VariantV::Bool(*b),
        }
    }
}

/// A stored value: a tagged union over a UTF-8 string, opaque binary,
/// a 64-bit signed integer, the raw bits of a 64-bit float, and a boolean.
/// `value: None` is the distinct "no value" state.
#[derive(Debug, PartialOrd)]
pub struct Value {
    pub value: Option<ValueVariant>,
}

impl View for Value {
    type V = ValueV;

    open spec fn view(&self) -> ValueV {
        ValueV {
            val: match self.value {
                Some(v) => Some(v@),
                None => None,
            },
        }
    }
}

/// A key together with an optional value, as returned by table scans.
#[derive(Debug, PartialOrd)]
pub struct Kvpair {
    pub key: String,
    pub value: Option<Value>,
}

impl View for Kvpair {
    type V = KvpairV;

    open spec fn view(&self) -> KvpairV {
        KvpairV {
            key: self.key@,
            val: match self.value {
                Some(v) => Some(v@),
                None => None,
            },
        }
    }
}

impl Clone for ValueVariant {
    fn clone(&self) -> (r: Self)
        ensures
            r@ == self@,
    {
        match self {
            ValueVariant::Str(s) => ValueVariant::Str(s.clone()),
            ValueVariant::Bin(b) => {
                let c = b.clone();
                assert(c@ =~= b@);
                ValueVariant::Bin(c)
            },
            ValueVariant::Int(i) => ValueVariant::Int(*i),
            ValueVariant::Float(f) => ValueVariant::Float(*f),
            ValueVariant::Bool(b) => ValueVariant::Bool(*b),
        }
    }
}

impl Clone for Value {
    fn clone(&self) -> (r: Self)
        ensures
            r@ == self@,
    {
        Value {
            value: match &self.value {
                Some(v) => Some(v.clone()),
                None => None,
            },
        }
    }
}

impl Clone for Kvpair {
    fn clone(&self) -> (r: Self)
        ensures
            r@ == self@,
    {
        Kvpair {
            key: self.key.clone(),
            value: match &self.value {
                Some(v) => Some(v.clone()),
                None => None,
            },
        }
    }
}

impl PartialEq for ValueVariant {
    fn eq(&self, other: &Self) -> (r: bool) {
        match (self, other) {
            (ValueVariant::Str(a), ValueVariant::Str(b)) => {
                let r = a.eq(b);
                proof {
                    assert(r == (self@ == other@));
                }
                r
            },
            (ValueVariant::Bin(a), ValueVariant::Bin(b)) => {
                let r = a == b;
                proof {
                    if r {
                        assert(a@ =~= b@);
                    } else {
                        if a@ == b@ {
                            assert(a.len() == b.len());
                            assert(forall|i: int| 0 <= i < a.len() ==> a[i] == b[i]);
                            assert(false);
                        }
                    }
                    assert(r == (self@ == other@));
                }
                r
            },
            (ValueVariant::Int(a), ValueVariant::Int(b)) => {
                let r = *a == *b;
                proof {
                    assert(r == (self@ == other@));
                }
                r
            },
            (ValueVariant::Float(a), ValueVariant::Float(b)) => {
                let r = *a == *b;
                proof {
                    assert(r == (self@ == other@));
                }
                r
            },
            (ValueVariant::Bool(a), ValueVariant::Bool(b)) => {
                let r = *a == *b;
                proof {
                    assert(r == (self@ == other@));
                }
                r
            },
            _ => {
                proof {
                    assert(self@ != other@);
                }
                false
            },
        }
    }
}

impl vstd::std_specs::cmp::PartialEqSpecImpl for ValueVariant {
    open spec fn obeys_eq_spec() -> bool {
        true
    }

    open spec fn eq_spec(&self, other: &Self) -> bool {
        self@ == other@
    }
}

impl PartialEq for Value {
    fn eq(&self, other: &Self) -> (r: bool) {
        match (&self.value, &other.value) {
            (Some(a), Some(b)) => a == b,
            (None, None) => true,
            _ => false,
        }
    }
}

impl vstd::std_specs::cmp::PartialEqSpecImpl for Value {
    open spec fn obeys_eq_spec() -> bool {
        true
    }

    open spec fn eq_spec(&self, other: &Self) -> bool {
        self@ == other@
    }
}

impl PartialEq for Kvpair {
    fn eq(&self, other: &Self) -> (r: bool) {
        let keys_eq = self.key.eq(&other.key);
        let vals_eq = match (&self.value, &other.value) {
            (Some(a), Some(b)) => a == b,
            (None, None) => true,
            _ => false,
        };
        keys_eq && vals_eq
    }
}

impl vstd::std_specs::cmp::PartialEqSpecImpl for Kvpair {
    open spec fn obeys_eq_spec() -> bool {
        true
    }

    open spec fn eq_spec(&self, other: &Self) -> bool {
        self@ == other@
    }
}

impl Default for Value {
    /// The default `Value` is the "no value" state.
    fn default() -> (r: Self)
        ensures
            r@ == (ValueV { val: None }),
    {
        Value { value: None }
    }
}

impl From<&str> for Value {
    fn from(s: &str) -> (r: Self)
        ensures
            r@ == (ValueV { val: Some(VariantV::Str(s@)) }),
    {
        Value { value: Some(ValueVariant::Str(s.to_owned())) }
    }
}

impl vstd::std_specs::convert::FromSpecImpl<&str> for Value {
    open spec fn obeys_from_spec() -> bool {
        false
    }

    open spec fn from_spec(s: &str) -> Self {
        Value { value: None }
    }
}

impl From<String> for Value {
    fn from(s: String) -> (r: Self)
        ensures
            r@ == (ValueV { val: Some(VariantV::Str(s@)) }),
    {
        Value { value: Some(ValueVariant::Str(s)) }
    }
}

impl vstd::std_specs::convert::FromSpecImpl<String> for Value {
    open spec fn obeys_from_spec() -> bool {
        true
    }

    open spec fn from_spec(s: String) -> Self {
        Value { value: Some(ValueVariant::Str(s)) }
    }
}

impl From<i64> for Value {
    fn from(v: i64) -> (r: Self)
        ensures
            r@ == (ValueV { val: Some(VariantV::Int(v)) }),
    {
        Value { value: Some(ValueVariant::Int(v)) }
    }
}

impl vstd::std_specs::convert::FromSpecImpl<i64> for Value {
    open spec fn obeys_from_spec() -> bool {
        true
    }

    open spec fn from_spec(v: i64) -> Self {
        Value { value: Some(ValueVariant::Int(v)) }
    }
}

impl From<bool> for Value {
    fn from(b: bool) -> (r: Self)
        ensures
            r@ == (ValueV { val: Some(VariantV::Bool(b)) }),
    {
        Value { value: Some(ValueVariant::Bool(b)) }
    }
}

impl vstd::std_specs::convert::FromSpecImpl<bool> for Value {
    open spec fn obeys_from_spec() -> bool {
        true
    }

    open spec fn from_spec(b: bool) -> Self {
        Value { value: Some(ValueVariant::Bool(b)) }
    }
}

impl From<Vec<u8>> for Value {
    fn from(b: Vec<u8>) -> (r: Self)
        ensures
            r@ == (ValueV { val: Some(VariantV::Bin(b@)) }),
    {
        Value { value: Some(ValueVariant::Bin(b)) }
    }
}

impl vstd::std_specs::convert::FromSpecImpl<Vec<u8>> for Value {
    open spec fn obeys_from_spec() -> bool {
        true
    }

    open spec fn from_spec(b: Vec<u8>) -> Self {
        Value { value: Some(ValueVariant::Bin(b)) }
    }
}

impl Value {
    /// The integer payload, or a `ConvertError` when another variant (or none)
    /// is set.
    pub fn as_i64(&self) -> (r: Result<i64, KvError>)
        ensures
            match r {
                Ok(i) => self@.val == Some(VariantV::Int(i)),
                Err(e) => (forall|i: i64| self@.val != Some(VariantV::Int(i)))
                    && (e@ matches KvErrorV::ConvertError(_, t) && t == "Integer"@),
            },
    {
        match &self.value {
            Some(ValueVariant::Int(i)) => Ok(*i),
            _ => Err(KvError::ConvertError(self.format(), String::from_str("Integer"))),
        }
    }

    /// The boolean payload, or a `ConvertError` when another variant (or none)
    /// is set.
    pub fn as_bool(&self) -> (r: Result<bool, KvError>)
        ensures
            match r {
                Ok(b) => self@.val == Some(VariantV::Bool(b)),
                Err(e) => (forall|b: bool| self@.val != Some(VariantV::Bool(b)))
                    && (e@ matches KvErrorV::ConvertError(_, t) && t == "Boolean"@),
            },
    {
        match &self.value {
            Some(ValueVariant::Bool(b)) => Ok(*b),
            _ => Err(KvError::ConvertError(self.format(), String::from_str("Boolean"))),
        }
    }

    /// The binary payload, or a `ConvertError` when another variant (or none)
    /// is set.
    pub fn as_binary(&self) -> (r: Result<Vec<u8>, KvError>)
        ensures
            match r {
                Ok(b) => self@.val == Some(VariantV::Bin(b@)),
                Err(e) => (forall|b: Seq<u8>| self@.val != Some(VariantV::Bin(b)))
                    && (e@ matches KvErrorV::ConvertError(_, t) && t == "Binary"@),
            },
    {
        match &self.value {
            Some(ValueVariant::Bin(b)) => {
                let c = b.clone();
                assert(c@ =~= b@);
                Ok(c)
            },
            _ => Err(KvError::ConvertError(self.format(), String::from_str("Binary"))),
        }
    }

    /// The raw bits of the floating-point payload, or a `ConvertError` when
    /// another variant (or none) is set.
    pub fn as_float_bits(&self) -> (r: Result<u64, KvError>)
        ensures
            match r {
                Ok(f) => self@.val == Some(VariantV::Float(f)),
                Err(e) => (forall|f: u64| self@.val != Some(VariantV::Float(f)))
                    && (e@ matches KvErrorV::ConvertError(_, t) && t == "Float"@),
            },
    {
        match &self.value {
            Some(ValueVariant::Float(f)) => Ok(*f),
            _ => Err(KvError::ConvertError(self.format(), String::from_str("Float"))),
        }
    }

    /// A debug rendering of the value.
    /// Relies on the standard `format!` machinery over the derived `Debug`
    /// implementation; the text depends on the value alone.
    #[verifier::external_body]
    pub fn format(&self) -> (r: String)
        ensures
            r@ == value_debug(self@),
    {
        format!("{:?}", self)
    }
}

/// The debug rendering of a value, as produced by the standard formatting
/// machinery; a function of the value alone.
pub uninterp spec fn value_debug(v: ValueV) -> Seq<char>;

impl Kvpair {
    /// Builds a pair carrying the given key and value.
    pub fn new(key: &str, value: Value) -> (r: Self)
        ensures
            r@ == (KvpairV { key: key@, val: Some(value@) }),
    {
        Kvpair { key: key.to_owned(), value: Some(value) }
    }
}

} // verus!
