//! The line scanner and loader: which kind of line a text is, what value a
//! declaration writes, and how a sequence of lines builds the store.
use vstd::prelude::*;
use vstd::string::*;
use crate::text::{
    join, join_dotted, lead, leading, lemma_lead, parse_bool, parse_flag, parse_i32, parse_int,
    pieces, split, split_on, strip, strip_class, texts, trim, trim_space, same_text, CharClass,
};
use crate::value::{ConfigError, ConfigValue, Datum, Failure};

verus! {

/// What one line of configuration text says.
pub enum Line {
    /// Nothing: the line is empty or a comment.
    Blank,
    /// A section of the given name opens.
    Open(Seq<char>),
    /// The innermost open section closes.
    Close,
    /// Nothing: the line lacks the `=` or the `:` of a declaration.
    Skipped,
    /// `name: token = value`.
    Declaration { name: Seq<char>, token: Seq<char>, value: Seq<char> },
}

/// Whether a trimmed line ends in the marker that opens a section: a space
/// and an opening brace.
pub open spec fn opens_section(line: Seq<char>) -> bool {
    line.len() >= 2 && line[line.len() - 2] == ' ' && line[line.len() - 1] == '{'
}

/// The meaning of one raw line.
pub open spec fn classify(raw: Seq<char>) -> Line {
    let line = trim(raw);
    let eq = lead(line, CharClass::Except('=')) as int;
    let left = trim(line.subrange(0, eq));
    let colon = lead(left, CharClass::Except(':')) as int;
    if line.len() == 0 || line[0] == '#' {
        Line::Blank
    } else if opens_section(line) {
        Line::Open(trim(line.subrange(0, line.len() - 2)))
    } else if line == seq!['}'] {
        Line::Close
    } else if eq >= line.len() || colon >= left.len() {
        Line::Skipped
    } else {
        Line::Declaration {
            name: trim(left.subrange(0, colon)),
            token: trim(left.subrange(colon + 1, left.len() as int)),
            value: trim(line.subrange(eq + 1, line.len() as int)),
        }
    }
}

/// The parts of `s` between commas, each trimmed where `trimmed` is set.
pub open spec fn items(s: Seq<char>, trimmed: bool) -> Seq<Seq<char>> {
    split(s, ',').map_values(
        |e: Seq<char>|
            if trimmed {
                trim(e)
            } else {
                e
            },
    )
}

/// The elements of an array literal: the text without the opening brackets
/// at its ends, then without the closing brackets at its ends, split at
/// commas, each element trimmed.
pub open spec fn array_items(value: Seq<char>) -> Seq<Seq<char>> {
    items(strip(strip(value, CharClass::Only('[')), CharClass::Only(']')), true)
}

/// The integers that the elements write, if every one of them writes one.
pub open spec fn integers_of(elements: Seq<Seq<char>>) -> Option<Seq<i32>> {
    if forall|i: int| 0 <= i < elements.len() ==> parse_i32(#[trigger] elements[i]) is Some {
        Some(elements.map_values(|e: Seq<char>| parse_i32(e).unwrap()))
    } else {
        None
    }
}

/// The value that a declaration of type `token` with literal `value` writes,
/// or the error that stops the load.
pub open spec fn typed_value(token: Seq<char>, value: Seq<char>) -> Result<Datum, Failure> {
    if token == "string"@ {
        Ok(Datum::String(value))
    } else if token == "integer"@ {
        match parse_i32(value) {
            Some(i) => Ok(Datum::Integer(i)),
            None => Err(Failure::Parse("Invalid integer"@)),
        }
    } else if token == "bool"@ {
        match parse_flag(value) {
            Some(b) => Ok(Datum::Bool(b)),
            None => Err(Failure::Parse("Invalid bool"@)),
        }
    } else if token == "array[string]"@ {
        Ok(Datum::StringArray(array_items(value)))
    } else if token == "array[integer]"@ {
        match integers_of(array_items(value)) {
            Some(a) => Ok(Datum::IntegerArray(a)),
            None => Err(Failure::Parse("Invalid integer array"@)),
        }
    } else {
        Err(Failure::Type("Unknown type"@))
    }
}

/// The fully-qualified key of the leaf `name` under the open sections: the
/// section names and the leaf joined by dots.
pub open spec fn qualified_key(context: Seq<Seq<char>>, name: Seq<char>) -> Seq<char> {
    let prefix = join(context, '.');
    if prefix.len() == 0 {
        name
    } else {
        prefix.push('.') + name
    }
}

/// The state of a load: the open sections, outermost first, and the store
/// built so far.
pub struct LoadState {
    pub context: Seq<Seq<char>>,
    pub store: Map<Seq<char>, Datum>,
}

/// The state before the first line.
pub open spec fn initial() -> LoadState {
    LoadState { context: Seq::empty(), store: Map::empty() }
}

/// The state after one more line, or the error that stops the load.
pub open spec fn step(state: LoadState, raw: Seq<char>) -> Result<LoadState, Failure> {
    match classify(raw) {
        Line::Blank => Ok(state),
        Line::Skipped => Ok(state),
        Line::Open(name) => Ok(
            LoadState { context: state.context.push(name), store: state.store },
        ),
        Line::Close => Ok(
            LoadState {
                context: if state.context.len() > 0 {
                    state.context.drop_last()
                } else {
                    state.context
                },
                store: state.store,
            },
        ),
        Line::Declaration { name, token, value } => match typed_value(token, value) {
            Ok(d) => Ok(
                LoadState {
                    context: state.context,
                    store: state.store.insert(qualified_key(state.context, name), d),
                },
            ),
            Err(f) => Err(f),
        },
    }
}

/// The state after all the lines, in order, or the first error.
pub open spec fn load(lines: Seq<Seq<char>>) -> Result<LoadState, Failure>
    decreases lines.len(),
{
    if lines.len() == 0 {
        Ok(initial())
    } else {
        match load(lines.drop_last()) {
            Ok(s) => step(s, lines.last()),
            Err(f) => Err(f),
        }
    }
}

/// One scanned line, borrowing its parts from the raw text.
#[derive(Clone, Copy, Debug)]
pub enum Scanned<'a> {
    Blank,
    Open(&'a str),
    Close,
    Skipped,
    Declaration { name: &'a str, token: &'a str, value: &'a str },
}

impl<'a> View for Scanned<'a> {
    type V = Line;

    open spec fn view(&self) -> Line {
        match self {
            Scanned::Blank => Line::Blank,
            Scanned::Open(n) => Line::Open(n@),
            Scanned::Close => Line::Close,
            Scanned::Skipped => Line::Skipped,
            Scanned::Declaration { name, token, value } => Line::Declaration {
                name: name@,
                token: token@,
                value: value@,
            },
        }
    }
}

/// Scans one raw line.
pub fn scan_line<'a>(raw: &'a str) -> (r: Scanned<'a>)
    ensures
        r@ == classify(raw@),
{
    let line = trim_space(raw);
    let len = line.unicode_len();
    if len == 0 {
        return Scanned::Blank;
    }
    if line.get_char(0) == '#' {
        return Scanned::Blank;
    }
    if len >= 2 && line.get_char(len - 2) == ' ' && line.get_char(len - 1) == '{' {
        return Scanned::Open(trim_space(line.substring_char(0, len - 2)));
    }
    if len == 1 && line.get_char(0) == '}' {
        assert(line@ =~= seq!['}']);
        return Scanned::Close;
    }
    assert(line@ != seq!['}']) by {
        if line@ == seq!['}'] {
            assert(seq!['}'].len() == 1);
            assert(seq!['}'][0] == '}');
        }
    }
    let eq = leading(line, CharClass::Except('='));
    proof {
        lemma_lead(line@, CharClass::Except('='));
    }
    if eq >= len {
        return Scanned::Skipped;
    }
    let left = trim_space(line.substring_char(0, eq));
    let width = left.unicode_len();
    let colon = leading(left, CharClass::Except(':'));
    proof {
        lemma_lead(left@, CharClass::Except(':'));
    }
    if colon >= width {
        return Scanned::Skipped;
    }
    Scanned::Declaration {
        name: trim_space(left.substring_char(0, colon)),
        token: trim_space(left.substring_char(colon + 1, width)),
        value: trim_space(line.substring_char(eq + 1, len)),
    }
}

/// Owns the parts, each trimmed where `trimmed` is set.
pub fn collect_texts(parts: &Vec<&str>, trimmed: bool) -> (r: Vec<String>)
    ensures
        texts(r@) == pieces(parts@).map_values(
            |e: Seq<char>|
                if trimmed {
                    trim(e)
                } else {
                    e
                },
        ),
{
    let mut out: Vec<String> = Vec::new();
    let mut i: usize = 0;
    while i < parts.len()
        invariant
            i <= parts.len(),
            out@.len() == i,
            forall|j: int|
                0 <= j < i ==> out@[j]@ == if trimmed {
                    trim(parts@[j]@)
                } else {
                    parts@[j]@
                },
        decreases parts.len() - i,
    {
        let part: &str = parts[i];
        if trimmed {
            out.push(trim_space(part).to_owned());
        } else {
            out.push(part.to_owned());
        }
        i += 1;
    }
    assert(texts(out@) =~= pieces(parts@).map_values(
        |e: Seq<char>|
            if trimmed {
                trim(e)
            } else {
                e
            },
    ));
    out
}

/// Reads every element as an integer; `None` if one of them writes none.
pub fn collect_integers(elements: &Vec<String>) -> (r: Option<Vec<i32>>)
    ensures
        match integers_of(texts(elements@)) {
            Some(a) => r matches Some(v) && v@ == a,
            None => r is None,
        },
{
    let mut out: Vec<i32> = Vec::new();
    let mut i: usize = 0;
    while i < elements.len()
        invariant
            i <= elements.len(),
            out@.len() == i,
            forall|j: int| 0 <= j < i ==> parse_i32(elements@[j]@) == Some(out@[j]),
        decreases elements.len() - i,
    {
        match parse_int(elements[i].as_str()) {
            Some(n) => out.push(n),
            None => {
                assert(texts(elements@)[i as int] == elements@[i as int]@);
                return None;
            },
        }
        i += 1;
    }
    proof {
        let ghost e = texts(elements@);
        assert forall|j: int| 0 <= j < e.len() implies parse_i32(#[trigger] e[j]) is Some by {
            assert(e[j] == elements@[j]@);
            assert(parse_i32(elements@[j]@) == Some(out@[j]));
        }
        assert forall|j: int| 0 <= j < e.len() implies out@[j] == parse_i32(e[j]).unwrap() by {
            assert(e[j] == elements@[j]@);
            assert(parse_i32(elements@[j]@) == Some(out@[j]));
        }
        assert(out@ =~= e.map_values(|t: Seq<char>| parse_i32(t).unwrap()));
    }
    Some(out)
}

/// The elements of an array literal, as `array_items` defines them.
pub fn array_elements(value: &str) -> (r: Vec<String>)
    ensures
        texts(r@) == array_items(value@),
{
    let inner = strip_class(strip_class(value, CharClass::Only('[')), CharClass::Only(']'));
    let parts = split_on(inner, ',');
    collect_texts(&parts, true)
}

/// Builds the value that a declaration of type `token` with literal `value`
/// writes.
pub fn typed(token: &str, value: &str) -> (r: Result<ConfigValue, ConfigError>)
    ensures
        match typed_value(token@, value@) {
            Ok(d) => r matches Ok(v) && v@ == d,
            Err(f) => r matches Err(e) && e@ == f,
        },
{
    if same_text(token, "string") {
        Ok(ConfigValue::String(value.to_owned()))
    } else if same_text(token, "integer") {
        match parse_int(value) {
            Some(i) => Ok(ConfigValue::Integer(i)),
            None => Err(ConfigError::parse("Invalid integer")),
        }
    } else if same_text(token, "bool") {
        match parse_bool(value) {
            Some(b) => Ok(ConfigValue::Bool(b)),
            None => Err(ConfigError::parse("Invalid bool")),
        }
    } else if same_text(token, "array[string]") {
        Ok(ConfigValue::StringArray(array_elements(value)))
    } else if same_text(token, "array[integer]") {
        match collect_integers(&array_elements(value)) {
            Some(a) => Ok(ConfigValue::IntegerArray(a)),
            None => Err(ConfigError::parse("Invalid integer array")),
        }
    } else {
        Err(ConfigError::mismatch("Unknown type"))
    }
}

/// Builds the fully-qualified key of the leaf `name` under the open sections.
pub fn full_key(context: &Vec<String>, name: &str) -> (r: String)
    ensures
        r@ == qualified_key(texts(context@), name@),
{
    let mut key = join_dotted(context);
    if key.as_str().unicode_len() == 0 {
        assert(key@ + name@ =~= name@);
    } else {
        proof {
            reveal_strlit(".");
        }
        let ghost prefix = key@;
        key.append(".");
        assert(key@ =~= prefix.push('.'));
    }
    key.append(name);
    key
}

} // verus!
