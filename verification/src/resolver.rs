//! Resolution of a key against the store and the environment: the name of
//! the variable that overrides a key, and the coercion of its text to the
//! kind of the stored value.
use vstd::prelude::*;
use vstd::string::*;
use crate::parser::{collect_integers, collect_texts, integers_of, items};
use crate::text::{join, parse_bool, parse_flag, parse_i32, parse_int, pieces, split, split_on};
use crate::value::{ConfigError, ConfigValue, Datum, Failure, Kind};

verus! {

/// The upper-case equivalent of a text under Unicode's case mapping.
pub uninterp spec fn uppercase(s: Seq<char>) -> Seq<char>;

/// Calls `str::to_uppercase`: the result is the upper-case equivalent of
/// `s`, a function of `s` alone, which `uppercase` names.
#[verifier::external_body]
fn to_upper(s: &str) -> (r: String)
    ensures
        r@ == uppercase(s@),
{
    s.to_uppercase()
}

/// `s` with every dot replaced by an underscore.
pub open spec fn underscored(s: Seq<char>) -> Seq<char> {
    join(split(s, '.'), '_')
}

/// The name of the environment variable that overrides `key`: the key in
/// upper case, with an underscore for every dot.
pub open spec fn override_name(key: Seq<char>) -> Seq<char> {
    underscored(uppercase(key))
}

/// Replaces every dot of `s` by an underscore.
pub fn replace_dots(s: &str) -> (r: String)
    ensures
        r@ == underscored(s@),
{
    let parts = split_on(s, '.');
    let mut out = String::new();
    let mut i: usize = 0;
    while i < parts.len()
        invariant
            i <= parts.len(),
            out@ == join(pieces(parts@).subrange(0, i as int), '_'),
        decreases parts.len() - i,
    {
        let ghost done = pieces(parts@).subrange(0, i as int);
        let ghost next = pieces(parts@).subrange(0, i + 1);
        proof {
            reveal_strlit("_");
            assert(next.drop_last() =~= done);
            assert(next.last() == parts@[i as int]@);
        }
        if i > 0 {
            out.append("_");
            assert(out@ =~= join(done, '_').push('_'));
        } else {
            assert(out@ + parts@[0]@ =~= parts@[0]@);
        }
        out.append(parts[i]);
        i += 1;
    }
    assert(pieces(parts@).subrange(0, i as int) =~= pieces(parts@));
    out
}

/// The name of the environment variable that overrides `key`.
pub fn env_key(key: &str) -> (r: String)
    ensures
        r@ == override_name(key@),
{
    let upper = to_upper(key);
    replace_dots(upper.as_str())
}

/// The value of kind `kind` that the environment text `raw` stands for, or
/// the parse error of that kind. The text is taken as it is: nothing is
/// trimmed, and no brackets are expected round a list.
pub open spec fn coerce(kind: Kind, raw: Seq<char>) -> Result<Datum, Failure> {
    match kind {
        Kind::String => Ok(Datum::String(raw)),
        Kind::Integer => match parse_i32(raw) {
            Some(i) => Ok(Datum::Integer(i)),
            None => Err(Failure::Parse("Invalid integer from env"@)),
        },
        Kind::Bool => match parse_flag(raw) {
            Some(b) => Ok(Datum::Bool(b)),
            None => Err(Failure::Parse("Invalid bool from env"@)),
        },
        Kind::StringArray => Ok(Datum::StringArray(items(raw, false))),
        Kind::IntegerArray => match integers_of(items(raw, false)) {
            Some(a) => Ok(Datum::IntegerArray(a)),
            None => Err(Failure::Parse("Invalid integer array from env"@)),
        },
    }
}

/// The answer to a lookup of `key`, given the store and what the environment
/// holds under the key's override name.
pub open spec fn resolve(
    store: Map<Seq<char>, Datum>,
    key: Seq<char>,
    env: Option<Seq<char>>,
) -> Result<Datum, Failure> {
    match env {
        Some(raw) => if store.contains_key(key) {
            coerce(store[key].kind(), raw)
        } else {
            Err(Failure::Type("Unsupported type"@))
        },
        None => if store.contains_key(key) {
            Ok(store[key])
        } else {
            Err(Failure::KeyNotFound)
        },
    }
}

/// Coerces the environment text `raw` to the kind of `stored`.
pub fn override_value(stored: &ConfigValue, raw: String) -> (r: Result<ConfigValue, ConfigError>)
    ensures
        match coerce(stored@.kind(), raw@) {
            Ok(d) => r matches Ok(v) && v@ == d,
            Err(f) => r matches Err(e) && e@ == f,
        },
{
    match stored {
        ConfigValue::String(_) => Ok(ConfigValue::String(raw)),
        ConfigValue::Integer(_) => match parse_int(raw.as_str()) {
            Some(i) => Ok(ConfigValue::Integer(i)),
            None => Err(ConfigError::parse("Invalid integer from env")),
        },
        ConfigValue::Bool(_) => match parse_bool(raw.as_str()) {
            Some(b) => Ok(ConfigValue::Bool(b)),
            None => Err(ConfigError::parse("Invalid bool from env")),
        },
        ConfigValue::StringArray(_) => {
            let parts = split_on(raw.as_str(), ',');
            Ok(ConfigValue::StringArray(collect_texts(&parts, false)))
        },
        ConfigValue::IntegerArray(_) => {
            let parts = split_on(raw.as_str(), ',');
            match collect_integers(&collect_texts(&parts, false)) {
                Some(a) => Ok(ConfigValue::IntegerArray(a)),
                None => Err(ConfigError::parse("Invalid integer array from env")),
            }
        },
    }
}

} // verus!
