//! Configuration values, the errors of loading and lookup, and the strict
//! conversions from a value to its payload.
use vstd::prelude::*;
use vstd::std_specs::convert::FromSpecImpl;
use vstd::string::*;
use crate::text::texts;

verus! {

/// The failure of the operating system or the reader that stopped a load.
/// Nothing is known of its contents here: it is carried to the caller.
#[verifier::external_type_specification]
#[verifier::external_body]
pub struct ExIoError(std::io::Error);

/// The five kinds of configuration value.
#[derive(Clone, Copy, Debug, PartialEq, Eq, Structural)]
pub enum Kind {
    String,
    Integer,
    Bool,
    StringArray,
    IntegerArray,
}

/// A configuration value as mathematics: its kind and its payload.
pub enum Datum {
    String(Seq<char>),
    Integer(i32),
    Bool(bool),
    StringArray(Seq<Seq<char>>),
    IntegerArray(Seq<i32>),
}

impl Datum {
    /// The kind of the value.
    pub open spec fn kind(self) -> Kind {
        match self {
            Datum::String(_) => Kind::String,
            Datum::Integer(_) => Kind::Integer,
            Datum::Bool(_) => Kind::Bool,
            Datum::StringArray(_) => Kind::StringArray,
            Datum::IntegerArray(_) => Kind::IntegerArray,
        }
    }
}

/// A typed configuration value.
#[derive(Debug, PartialEq)]
pub enum ConfigValue {
    String(String),
    Integer(i32),
    Bool(bool),
    StringArray(Vec<String>),
    IntegerArray(Vec<i32>),
}

impl View for ConfigValue {
    type V = Datum;

    open spec fn view(&self) -> Datum {
        match self {
            ConfigValue::String(s) => Datum::String(s@),
            ConfigValue::Integer(i) => Datum::Integer(*i),
            ConfigValue::Bool(b) => Datum::Bool(*b),
            ConfigValue::StringArray(v) => Datum::StringArray(texts(v@)),
            ConfigValue::IntegerArray(v) => Datum::IntegerArray(v@),
        }
    }
}

/// Copies a list of texts.
pub fn copy_texts(v: &Vec<String>) -> (r: Vec<String>)
    ensures
        texts(r@) == texts(v@),
{
    let mut out: Vec<String> = Vec::new();
    let mut i: usize = 0;
    while i < v.len()
        invariant
            i <= v.len(),
            out@.len() == i,
            forall|j: int| 0 <= j < i ==> out@[j]@ == v@[j]@,
        decreases v.len() - i,
    {
        out.push(v[i].clone());
        i += 1;
    }
    assert(texts(out@) =~= texts(v@));
    out
}

/// Copies a list of integers.
pub fn copy_integers(v: &Vec<i32>) -> (r: Vec<i32>)
    ensures
        r@ == v@,
{
    let mut out: Vec<i32> = Vec::new();
    let mut i: usize = 0;
    while i < v.len()
        invariant
            i <= v.len(),
            out@.len() == i,
            forall|j: int| 0 <= j < i ==> out@[j] == v@[j],
        decreases v.len() - i,
    {
        out.push(v[i]);
        i += 1;
    }
    assert(out@ =~= v@);
    out
}

impl Clone for ConfigValue {
    fn clone(&self) -> (r: ConfigValue)
        ensures
            r@ == self@,
    {
        match self {
            ConfigValue::String(s) => ConfigValue::String(s.clone()),
            ConfigValue::Integer(i) => ConfigValue::Integer(*i),
            ConfigValue::Bool(b) => ConfigValue::Bool(*b),
            ConfigValue::StringArray(v) => ConfigValue::StringArray(copy_texts(v)),
            ConfigValue::IntegerArray(v) => ConfigValue::IntegerArray(copy_integers(v)),
        }
    }
}

/// An error as mathematics: its class and, where it has one, its reason.
pub enum Failure {
    /// The text could not be read.
    Io,
    /// A literal did not have the syntax of its declared or stored kind.
    Parse(Seq<char>),
    /// An unknown type token, a value of another kind than the one asked
    /// for, or an override for a key that the store does not hold.
    Type(Seq<char>),
    /// The store does not hold the key and nothing overrides it.
    KeyNotFound,
}

/// An error of loading, lookup or conversion.
#[derive(Debug)]
pub enum ConfigError {
    IOError(std::io::Error),
    ParseError(String),
    TypeError(String),
    KeyNotFound,
}

impl View for ConfigError {
    type V = Failure;

    open spec fn view(&self) -> Failure {
        match self {
            ConfigError::IOError(_) => Failure::Io,
            ConfigError::ParseError(m) => Failure::Parse(m@),
            ConfigError::TypeError(m) => Failure::Type(m@),
            ConfigError::KeyNotFound => Failure::KeyNotFound,
        }
    }
}

impl From<std::io::Error> for ConfigError {
    fn from(err: std::io::Error) -> (r: ConfigError) {
        ConfigError::IOError(err)
    }
}

impl FromSpecImpl<std::io::Error> for ConfigError {
    open spec fn obeys_from_spec() -> bool {
        true
    }

    open spec fn from_spec(err: std::io::Error) -> ConfigError {
        ConfigError::IOError(err)
    }
}

impl ConfigError {
    /// A parse error with the given reason.
    pub fn parse(reason: &str) -> (e: ConfigError)
        ensures
            e@ == Failure::Parse(reason@),
    {
        ConfigError::ParseError(reason.to_owned())
    }

    /// A type error with the given reason.
    pub fn mismatch(reason: &str) -> (e: ConfigError)
        ensures
            e@ == Failure::Type(reason@),
    {
        ConfigError::TypeError(reason.to_owned())
    }
}

/// Strict conversions from a value to the payload of one kind. A value of
/// another kind is never coerced: the conversion fails with a type error
/// that names the kind asked for.
pub trait TypeConverter {
    /// The value that is converted.
    spec fn datum(&self) -> Datum;

    /// The text of a `String` value.
    fn to_string(&self) -> (r: Result<String, ConfigError>)
        ensures
            match self.datum() {
                Datum::String(s) => r matches Ok(t) && t@ == s,
                _ => r matches Err(e) && e@ == Failure::Type("Expected a String"@),
            },
    ;

    /// The boolean of a `Bool` value.
    fn to_bool(&self) -> (r: Result<bool, ConfigError>)
        ensures
            match self.datum() {
                Datum::Bool(b) => r matches Ok(t) && t == b,
                _ => r matches Err(e) && e@ == Failure::Type("Expected a Bool"@),
            },
    ;

    /// The integer of an `Integer` value.
    fn to_int(&self) -> (r: Result<i32, ConfigError>)
        ensures
            match self.datum() {
                Datum::Integer(i) => r matches Ok(t) && t == i,
                _ => r matches Err(e) && e@ == Failure::Type("Expected an Integer"@),
            },
    ;

    /// The texts of a `StringArray` value, in order.
    fn to_string_array(&self) -> (r: Result<Vec<String>, ConfigError>)
        ensures
            match self.datum() {
                Datum::StringArray(a) => r matches Ok(t) && texts(t@) == a,
                _ => r matches Err(e) && e@ == Failure::Type("Expected a String Array"@),
            },
    ;

    /// The integers of an `IntegerArray` value, in order.
    fn to_int_array(&self) -> (r: Result<Vec<i32>, ConfigError>)
        ensures
            match self.datum() {
                Datum::IntegerArray(a) => r matches Ok(t) && t@ == a,
                _ => r matches Err(e) && e@ == Failure::Type("Expected an Integer Array"@),
            },
    ;
}

impl TypeConverter for ConfigValue {
    open spec fn datum(&self) -> Datum {
        self@
    }

    fn to_string(&self) -> (r: Result<String, ConfigError>) {
        match self {
            ConfigValue::String(s) => Ok(s.clone()),
            _ => Err(ConfigError::mismatch("Expected a String")),
        }
    }

    fn to_bool(&self) -> (r: Result<bool, ConfigError>) {
        match self {
            ConfigValue::Bool(b) => Ok(*b),
            _ => Err(ConfigError::mismatch("Expected a Bool")),
        }
    }

    fn to_int(&self) -> (r: Result<i32, ConfigError>) {
        match self {
            ConfigValue::Integer(i) => Ok(*i),
            _ => Err(ConfigError::mismatch("Expected an Integer")),
        }
    }

    fn to_string_array(&self) -> (r: Result<Vec<String>, ConfigError>) {
        match self {
            ConfigValue::StringArray(a) => Ok(copy_texts(a)),
            _ => Err(ConfigError::mismatch("Expected a String Array")),
        }
    }

    fn to_int_array(&self) -> (r: Result<Vec<i32>, ConfigError>) {
        match self {
            ConfigValue::IntegerArray(a) => Ok(copy_integers(a)),
            _ => Err(ConfigError::mismatch("Expected an Integer Array")),
        }
    }
}

} // verus!
