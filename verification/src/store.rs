//! The store of typed values by fully-qualified key, the loader that builds
//! it line by line, and the lookup that the environment can override.
use vstd::prelude::*;
use vstd::hash_map::StringHashMap;
use vstd::string::*;
use crate::parser::{full_key, initial, load, scan_line, step, typed, LoadState, Scanned};
use crate::resolver::{override_value, resolve};
use crate::text::texts;
use crate::value::{ConfigError, ConfigValue, Datum, Failure};

verus! {

/// The store as mathematics: each key with the value it holds.
pub open spec fn store_view(m: Map<Seq<char>, ConfigValue>) -> Map<Seq<char>, Datum> {
    Map::new(|k: Seq<char>| m.contains_key(k), |k: Seq<char>| m[k]@)
}

/// The view of what the environment answered.
pub open spec fn answer_view(answer: Option<String>) -> Option<Seq<char>> {
    match answer {
        Some(s) => Some(s@),
        None => None,
    }
}

/// A loaded configuration: typed values by fully-qualified dotted key.
pub struct TIDE {
    pub data: StringHashMap<ConfigValue>,
}

impl View for TIDE {
    type V = Map<Seq<char>, Datum>;

    open spec fn view(&self) -> Map<Seq<char>, Datum> {
        store_view(self.data@)
    }
}

/// A load in progress: the store built so far and the sections that are
/// open, outermost first.
pub struct Loader {
    pub data: StringHashMap<ConfigValue>,
    pub context: Vec<String>,
}

impl View for Loader {
    type V = LoadState;

    open spec fn view(&self) -> LoadState {
        LoadState { context: texts(self.context@), store: store_view(self.data@) }
    }
}

/// An error met within the first `n` lines is the error of the whole load.
pub proof fn lemma_error_stops_load(lines: Seq<Seq<char>>, n: int)
    requires
        0 <= n <= lines.len(),
        load(lines.subrange(0, n)) is Err,
    ensures
        load(lines) == load(lines.subrange(0, n)),
    decreases lines.len(),
{
    if n == lines.len() {
        assert(lines.subrange(0, n) =~= lines);
    } else {
        assert(lines.drop_last().subrange(0, n) =~= lines.subrange(0, n));
        lemma_error_stops_load(lines.drop_last(), n);
    }
}

impl Loader {
    /// A load that has seen no line yet.
    pub fn new() -> (r: Loader)
        ensures
            r@ == initial(),
    {
        let r = Loader { data: StringHashMap::new(), context: Vec::new() };
        assert(r@.context =~= initial().context);
        assert(r@.store =~= initial().store);
        r
    }

    /// Takes in one more line. On an error the load is left as it was.
    pub fn feed(&mut self, raw: &str) -> (r: Result<(), ConfigError>)
        ensures
            match step(old(self)@, raw@) {
                Ok(s) => r is Ok && final(self)@ == s,
                Err(f) => r matches Err(e) && e@ == f && final(self)@ == old(self)@,
            },
    {
        match scan_line(raw) {
            Scanned::Blank => Ok(()),
            Scanned::Skipped => Ok(()),
            Scanned::Open(name) => {
                self.context.push(name.to_owned());
                assert(self@.context =~= old(self)@.context.push(name@));
                Ok(())
            },
            Scanned::Close => {
                if self.context.len() > 0 {
                    self.context.pop();
                    assert(self@.context =~= old(self)@.context.drop_last());
                }
                Ok(())
            },
            Scanned::Declaration { name, token, value } => {
                match typed(token, value) {
                    Ok(v) => {
                        let key = full_key(&self.context, name);
                        let ghost d = v@;
                        self.data.insert(key, v);
                        assert(self@.store =~= old(self)@.store.insert(key@, d));
                        Ok(())
                    },
                    Err(e) => Err(e),
                }
            },
        }
    }

    /// Ends the load and hands out the store.
    pub fn finish(self) -> (r: TIDE)
        ensures
            r@ == self@.store,
    {
        TIDE { data: self.data }
    }
}

impl TIDE {
    /// Loads a configuration from the lines of its text. The load is all or
    /// nothing: the first error ends it, and no store is returned.
    pub fn new(lines: &Vec<String>) -> (r: Result<TIDE, ConfigError>)
        ensures
            match load(texts(lines@)) {
                Ok(s) => r matches Ok(t) && t@ == s.store,
                Err(f) => r matches Err(e) && e@ == f,
            },
    {
        let mut loader = Loader::new();
        let mut i: usize = 0;
        assert(texts(lines@).subrange(0, 0) =~= Seq::<Seq<char>>::empty());
        while i < lines.len()
            invariant
                i <= lines.len(),
                load(texts(lines@).subrange(0, i as int)) == Ok::<LoadState, Failure>(loader@),
            decreases lines.len() - i,
        {
            proof {
                let ghost next = texts(lines@).subrange(0, i + 1);
                assert(next.drop_last() =~= texts(lines@).subrange(0, i as int));
                assert(next.last() == lines@[i as int]@);
            }
            match loader.feed(lines[i].as_str()) {
                Ok(()) => {},
                Err(e) => {
                    proof {
                        lemma_error_stops_load(texts(lines@), i + 1);
                    }
                    return Err(e);
                },
            }
            i += 1;
        }
        assert(texts(lines@).subrange(0, i as int) =~= texts(lines@));
        Ok(loader.finish())
    }

    /// The stored value of `key`, whatever the environment holds.
    pub fn get(&self, key: &str) -> (r: Option<&ConfigValue>)
        ensures
            match r {
                Some(v) => self@.contains_key(key@) && v@ == self@[key@],
                None => !self@.contains_key(key@),
            },
    {
        self.data.get(key)
    }

    /// Looks up `key`. `env_val` is what the environment holds under the
    /// key's override name. Where it holds a text, the answer is that text
    /// coerced to the kind of the stored value; where it holds none, the
    /// stored value itself. The store is never changed.
    pub fn get_config_value(&self, key: &str, env_val: Option<String>) -> (r: Result<
        ConfigValue,
        ConfigError,
    >)
        ensures
            match resolve(self@, key@, answer_view(env_val)) {
                Ok(d) => r matches Ok(v) && v@ == d,
                Err(f) => r matches Err(e) && e@ == f,
            },
    {
        match env_val {
            Some(raw) => match self.data.get(key) {
                Some(stored) => override_value(stored, raw),
                None => Err(ConfigError::mismatch("Unsupported type")),
            },
            None => match self.data.get(key) {
                Some(stored) => Ok(stored.clone()),
                None => Err(ConfigError::KeyNotFound),
            },
        }
    }
}

} // verus!
