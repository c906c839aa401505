//! Laws of loading and lookup, stated over the models of the parser and the
//! resolver and proved from their definitions.
use vstd::prelude::*;
use crate::parser::{classify, load, qualified_key, step, typed_value, Line, LoadState};
use crate::resolver::resolve;
use crate::text::{parse_i32, trim};
use crate::value::{Datum, Failure, Kind};

verus! {

/// Whether a raw line is empty or a comment once trimmed.
pub open spec fn is_blank(raw: Seq<char>) -> bool {
    trim(raw).len() == 0 || trim(raw)[0] == '#'
}

/// The key and the value that the line `raw` declares under the open
/// sections `context`, if it is a declaration of a known type with a valid
/// literal.
pub open spec fn declared(context: Seq<Seq<char>>, raw: Seq<char>) -> Option<
    (Seq<char>, Datum),
> {
    match classify(raw) {
        Line::Declaration { name, token, value } => match typed_value(token, value) {
            Ok(d) => Some((qualified_key(context, name), d)),
            Err(_) => None,
        },
        _ => None,
    }
}

/// The sections that are open after the lines, where their load succeeds.
pub open spec fn sections_after(lines: Seq<Seq<char>>) -> Seq<Seq<char>> {
    match load(lines) {
        Ok(s) => s.context,
        Err(_) => Seq::empty(),
    }
}

/// The store that the lines build, where their load succeeds.
pub open spec fn store_after(lines: Seq<Seq<char>>) -> Map<Seq<char>, Datum> {
    match load(lines) {
        Ok(s) => s.store,
        Err(_) => Map::empty(),
    }
}

/// A blank or comment line adds no entry to the store and leaves the open
/// sections as they are.
pub proof fn law_blank_line_keeps_state(state: LoadState, raw: Seq<char>)
    requires
        is_blank(raw),
    ensures
        step(state, raw) == Ok::<LoadState, Failure>(state),
{
}

/// A blank or comment line, wherever it stands among the lines, changes
/// nothing of what the load gives: neither the store, nor the open
/// sections, nor the error.
pub proof fn law_blank_lines_are_ignored(
    before: Seq<Seq<char>>,
    raw: Seq<char>,
    after: Seq<Seq<char>>,
)
    requires
        is_blank(raw),
    ensures
        load(before.push(raw) + after) == load(before + after),
    decreases after.len(),
{
    if after.len() == 0 {
        assert(before.push(raw) + after =~= before.push(raw));
        assert(before + after =~= before);
        assert(before.push(raw).drop_last() =~= before);
    } else {
        let rest = after.drop_last();
        law_blank_lines_are_ignored(before, raw, rest);
        assert((before.push(raw) + after).drop_last() =~= before.push(raw) + rest);
        assert((before + after).drop_last() =~= before + rest);
    }
}

/// A declaration overwrites: after it the store holds its value under its
/// key, whatever the store held there before.
pub proof fn law_declaration_overwrites(state: LoadState, raw: Seq<char>, key: Seq<char>, d: Datum)
    requires
        declared(state.context, raw) == Some((key, d)),
    ensures
        step(state, raw) == Ok::<LoadState, Failure>(
            LoadState { context: state.context, store: state.store.insert(key, d) },
        ),
{
}

/// Of the declarations of one fully-qualified key, the last in file order is
/// retained: if line `j` declares `key` with value `d` and no later line
/// declares `key`, a load that succeeds holds `d` under `key`.
pub proof fn law_later_declaration_wins(
    lines: Seq<Seq<char>>,
    j: int,
    key: Seq<char>,
    d: Datum,
)
    requires
        0 <= j < lines.len(),
        load(lines) is Ok,
        declared(sections_after(lines.subrange(0, j)), lines[j]) == Some((key, d)),
        forall|m: int|
            j < m < lines.len() ==> !(declared(
                sections_after(lines.subrange(0, m)),
                #[trigger] lines[m],
            ) matches Some(p) && p.0 == key),
    ensures
        store_after(lines).contains_key(key),
        store_after(lines)[key] == d,
    decreases lines.len(),
{
    let prefix = lines.drop_last();
    let last = lines.len() - 1;
    assert(lines.subrange(0, last) =~= prefix);
    if j < last {
        assert(prefix.subrange(0, j) =~= lines.subrange(0, j));
        assert forall|m: int| j < m < prefix.len() implies !(declared(
            sections_after(prefix.subrange(0, m)),
            #[trigger] prefix[m],
        ) matches Some(p) && p.0 == key) by {
            assert(prefix.subrange(0, m) =~= lines.subrange(0, m));
            assert(prefix[m] == lines[m]);
        }
        law_later_declaration_wins(prefix, j, key, d);
        assert(!(declared(sections_after(lines.subrange(0, last)), lines[last]) matches Some(
            p,
        ) && p.0 == key));
    }
}

/// An override changes the representation, never the kind: whatever the
/// environment holds, an answer has the kind of the stored value.
pub proof fn law_override_keeps_kind(store: Map<Seq<char>, Datum>, key: Seq<char>, raw: Seq<char>)
    ensures
        resolve(store, key, Some(raw)) matches Ok(d) ==> store.contains_key(key) && d.kind()
            == store[key].kind(),
{
}

/// An override of an integer by a text that writes no integer fails with a
/// parse error.
pub proof fn law_bad_integer_override_fails(
    store: Map<Seq<char>, Datum>,
    key: Seq<char>,
    raw: Seq<char>,
)
    requires
        store.contains_key(key),
        store[key].kind() == Kind::Integer,
        parse_i32(raw) is None,
    ensures
        resolve(store, key, Some(raw)) == Err::<Datum, Failure>(
            Failure::Parse("Invalid integer from env"@),
        ),
{
}

/// Without an override, a lookup returns exactly the stored value.
pub proof fn law_absent_override_returns_stored(store: Map<Seq<char>, Datum>, key: Seq<char>)
    requires
        store.contains_key(key),
    ensures
        resolve(store, key, None) == Ok::<Datum, Failure>(store[key]),
{
}

} // verus!
