//! The literal that writes a value, and the proofs that reading the literal
//! gives the value back.
use vstd::prelude::*;
use crate::parser::{
    array_items, classify, integers_of, items, opens_section, qualified_key, step, typed_value,
    Line, LoadState,
};
use crate::text::{
    all_digits, digit_of, digits_value, is_digit, is_space, join, lead, lemma_lead, lemma_lead_is,
    lemma_tail_is, parse_flag, parse_i32, split, strip, trim, CharClass,
};
use crate::value::{Datum, Failure, Kind};

verus! {

/// The character that writes the digit `d`.
pub open spec fn digit_char(d: nat) -> char {
    (0x30 + d) as char
}

/// The decimal digits of `n`, without leading zeros.
pub open spec fn decimal(n: nat) -> Seq<char>
    decreases n,
{
    if n < 10 {
        seq![digit_char(n)]
    } else {
        decimal(n / 10).push(digit_char(n % 10))
    }
}

/// The literal of an integer: a minus sign where it is negative, then the
/// decimal digits of its magnitude.
pub open spec fn integer_literal(i: i32) -> Seq<char> {
    if i < 0 {
        seq!['-'] + decimal((-(i as int)) as nat)
    } else {
        decimal(i as nat)
    }
}

/// The literal of a boolean.
pub open spec fn bool_literal(b: bool) -> Seq<char> {
    if b {
        "true"@
    } else {
        "false"@
    }
}

/// The literal of a list: the literals of its elements with a comma between
/// neighbours, in square brackets.
pub open spec fn list_literal(elements: Seq<Seq<char>>) -> Seq<char> {
    seq!['['] + join(elements, ',') + seq![']']
}

/// The literal that writes `d`.
pub open spec fn literal_of(d: Datum) -> Seq<char> {
    match d {
        Datum::String(s) => s,
        Datum::Integer(i) => integer_literal(i),
        Datum::Bool(b) => bool_literal(b),
        Datum::StringArray(a) => list_literal(a),
        Datum::IntegerArray(a) => list_literal(a.map_values(|i: i32| integer_literal(i))),
    }
}

/// The type token that declares a value of kind `kind`.
pub open spec fn token_of(kind: Kind) -> Seq<char> {
    match kind {
        Kind::String => "string"@,
        Kind::Integer => "integer"@,
        Kind::Bool => "bool"@,
        Kind::StringArray => "array[string]"@,
        Kind::IntegerArray => "array[integer]"@,
    }
}

/// Whether a text can stand as an element of a list literal: it holds no
/// comma, and neither begins nor ends with white space.
pub open spec fn is_element(e: Seq<char>) -> bool {
    &&& forall|i: int| 0 <= i < e.len() ==> #[trigger] e[i] != ','
    &&& e.len() > 0 ==> !is_space(e[0]) && !is_space(e.last())
}

/// Whether `d` has a literal that reads back as `d`. A list has at least one
/// element. Each element of a list of texts can stand in a literal; the
/// first does not begin with a square bracket, and the last does not end
/// with a closing one.
pub open spec fn is_writable(d: Datum) -> bool {
    match d {
        Datum::StringArray(a) => {
            &&& a.len() > 0
            &&& forall|i: int| 0 <= i < a.len() ==> is_element(#[trigger] a[i])
            &&& a[0].len() > 0 ==> a[0][0] != '[' && a[0][0] != ']'
            &&& a.last().len() > 0 ==> a.last().last() != ']'
        },
        Datum::IntegerArray(a) => a.len() > 0,
        _ => true,
    }
}

/// The digits of `n` write `n`.
pub proof fn lemma_decimal(n: nat)
    ensures
        decimal(n).len() > 0,
        all_digits(decimal(n)),
        digits_value(decimal(n)) == n,
    decreases n,
{
    let s = decimal(n);
    if n < 10 {
        assert(s.drop_last() =~= Seq::<char>::empty());
        assert(digits_value(s.drop_last()) == 0);
        assert(digit_of(s.last()) == n);
    } else {
        lemma_decimal(n / 10);
        assert(s.drop_last() =~= decimal(n / 10));
        assert(digit_of(s.last()) == n % 10);
        assert(digits_value(s) == digits_value(decimal(n / 10)) * 10 + n % 10);
        assert forall|i: int| 0 <= i < s.len() implies is_digit(#[trigger] s[i]) by {
            if i < s.len() - 1 {
                assert(s[i] == decimal(n / 10)[i]);
            }
        }
    }
}

/// Reading the literal of an integer gives the integer.
pub proof fn law_integer_round_trip(i: i32)
    ensures
        parse_i32(integer_literal(i)) == Some(i),
{
    let s = integer_literal(i);
    if i < 0 {
        let m = (-(i as int)) as nat;
        lemma_decimal(m);
        assert(s[0] == '-');
        assert(s.subrange(1, s.len() as int) =~= decimal(m));
    } else {
        lemma_decimal(i as nat);
        assert(is_digit(s[0]));
    }
}

/// Reading the literal of a boolean gives the boolean.
pub proof fn law_bool_round_trip(b: bool)
    ensures
        parse_flag(bool_literal(b)) == Some(b),
{
    reveal_strlit("true");
    reveal_strlit("false");
    assert("true"@.len() == 4);
    assert("false"@.len() == 5);
}

/// A text without the separator is its own single part.
pub proof fn lemma_split_single(y: Seq<char>, sep: char)
    requires
        forall|i: int| 0 <= i < y.len() ==> #[trigger] y[i] != sep,
    ensures
        split(y, sep) == seq![y],
{
    lemma_lead_is(y, CharClass::Except(sep), y.len());
}

/// A separator and a text without separators, put behind `x`, add that text
/// as one more part to the parts of `x`.
pub proof fn lemma_split_push(x: Seq<char>, y: Seq<char>, sep: char)
    requires
        forall|i: int| 0 <= i < y.len() ==> #[trigger] y[i] != sep,
    ensures
        split(x.push(sep) + y, sep) == split(x, sep).push(y),
    decreases x.len(),
{
    let k = CharClass::Except(sep);
    let whole = x.push(sep) + y;
    let p = lead(x, k);
    lemma_lead(x, k);
    assert forall|i: int| 0 <= i < p implies k.has(#[trigger] whole[i]) by {
        assert(whole[i] == x[i]);
    }
    assert(whole[p as int] == sep);
    lemma_lead_is(whole, k, p);
    assert(whole.subrange(0, p as int) =~= x.subrange(0, p as int));
    if p < x.len() {
        let rest = x.subrange(p as int + 1, x.len() as int);
        assert(whole.subrange(p as int + 1, whole.len() as int) =~= rest.push(sep) + y);
        lemma_split_push(rest, y, sep);
        assert(split(whole, sep) =~= split(x, sep).push(y));
    } else {
        assert(x.subrange(0, p as int) =~= x);
        assert(whole.subrange(p as int + 1, whole.len() as int) =~= y);
        lemma_split_single(y, sep);
        assert(split(whole, sep) =~= split(x, sep).push(y));
    }
}

/// Splitting what was joined gives the parts back, where there is at least
/// one part and no part holds the separator.
pub proof fn lemma_split_join(a: Seq<Seq<char>>, sep: char)
    requires
        a.len() > 0,
        forall|i: int, j: int| 0 <= i < a.len() && 0 <= j < a[i].len() ==> #[trigger] a[i][j] != sep,
    ensures
        split(join(a, sep), sep) == a,
    decreases a.len(),
{
    if a.len() == 1 {
        lemma_split_single(a[0], sep);
        assert(seq![a[0]] =~= a);
    } else {
        let front = a.drop_last();
        assert forall|i: int, j: int| 0 <= i < front.len() && 0 <= j < front[i].len() implies #[trigger] front[i][j] != sep by {
            assert(front[i] == a[i]);
        }
        lemma_split_join(front, sep);
        lemma_split_push(join(front, sep), a.last(), sep);
        assert(front.push(a.last()) =~= a);
    }
}

/// Stripping a class changes nothing of a text that neither begins nor ends
/// with a character of the class.
pub proof fn lemma_strip_clean(s: Seq<char>, k: CharClass)
    requires
        s.len() > 0 ==> !k.has(s[0]) && !k.has(s.last()),
    ensures
        strip(s, k) == s,
{
    if s.len() > 0 {
        lemma_lead_is(s, k, 0);
        lemma_tail_is(s, k, 0);
        assert(s.subrange(0, s.len() as int) =~= s);
    }
}

/// What a joined text begins and ends with: the separator, or what its first
/// part begins with and its last part ends with.
pub proof fn lemma_join_ends(a: Seq<Seq<char>>, sep: char)
    requires
        a.len() > 0,
        join(a, sep).len() > 0,
    ensures
        join(a, sep)[0] == sep || (a[0].len() > 0 && join(a, sep)[0] == a[0][0]),
        join(a, sep).last() == sep || (a.last().len() > 0 && join(a, sep).last()
            == a.last().last()),
    decreases a.len(),
{
    if a.len() >= 2 {
        let front = a.drop_last();
        let inner = join(front, sep);
        let head = inner.push(sep);
        let b = head + a.last();
        assert(front[0] == a[0]);
        assert(b[0] == head[0]);
        if inner.len() > 0 {
            lemma_join_ends(front, sep);
            assert(head[0] == inner[0]);
        }
        if a.last().len() > 0 {
            assert(b.last() == a.last().last());
        } else {
            assert(b =~= head);
        }
    }
}

/// The brackets round a text are what an array literal loses when it is
/// read, where the text does not begin with a square bracket nor end with a
/// closing one.
pub proof fn lemma_unbracket(body: Seq<char>)
    requires
        body.len() > 0 ==> body[0] != '[' && body[0] != ']' && body.last() != ']',
    ensures
        strip(strip(seq!['['] + body + seq![']'], CharClass::Only('[')), CharClass::Only(']'))
            == body,
{
    let open = CharClass::Only('[');
    let close = CharClass::Only(']');
    let whole = seq!['['] + body + seq![']'];
    let inner = body + seq![']'];
    assert(whole[0] == '[');
    assert(whole.last() == ']');
    if body.len() > 0 {
        assert(whole[1] == body[0]);
    }
    lemma_lead_is(whole, open, 1);
    lemma_tail_is(whole, open, 0);
    assert(whole.subrange(1, whole.len() as int) =~= inner);
    assert(strip(whole, open) == inner);
    if body.len() == 0 {
        lemma_lead_is(inner, close, 1);
        assert(strip(inner, close) =~= body);
    } else {
        assert(inner[0] == body[0]);
        assert(inner[inner.len() - 2] == body.last());
        lemma_lead_is(inner, close, 0);
        lemma_tail_is(inner, close, 1);
        assert(inner.subrange(0, inner.len() - 1) =~= body);
    }
}

/// Reading the literal of a list of texts gives the texts, where the list
/// is writable.
pub proof fn law_text_list_round_trip(a: Seq<Seq<char>>)
    requires
        is_writable(Datum::StringArray(a)),
    ensures
        array_items(list_literal(a)) == a,
{
    let body = join(a, ',');
    if body.len() > 0 {
        lemma_join_ends(a, ',');
    }
    lemma_unbracket(body);
    assert forall|i: int, j: int| 0 <= i < a.len() && 0 <= j < a[i].len() implies #[trigger] a[i][j]
        != ',' by {
        assert(is_element(a[i]));
    }
    lemma_split_join(a, ',');
    assert forall|i: int| 0 <= i < a.len() implies trim(#[trigger] a[i]) == a[i] by {
        assert(is_element(a[i]));
        lemma_strip_clean(a[i], CharClass::Space);
    }
    assert(items(body, true) =~= a);
}

/// The literal of an integer can stand as an element of a list literal.
pub proof fn lemma_integer_literal_is_element(i: i32)
    ensures
        is_element(integer_literal(i)),
        integer_literal(i).len() > 0,
        forall|j: int|
            0 <= j < integer_literal(i).len() ==> integer_literal(i)[j] == '-' || is_digit(
                #[trigger] integer_literal(i)[j],
            ),
{
    let s = integer_literal(i);
    if i < 0 {
        let m = (-(i as int)) as nat;
        lemma_decimal(m);
        assert forall|j: int| 0 <= j < s.len() implies s[j] == '-' || is_digit(#[trigger] s[j]) by {
            if j > 0 {
                assert(s[j] == decimal(m)[j - 1]);
            }
        }
    } else {
        lemma_decimal(i as nat);
    }
    assert(s[0] == '-' || is_digit(s[0]));
    assert(s.last() == '-' || is_digit(s.last()));
}

/// Reading the literal of a list of integers gives the integers, where
/// there is at least one.
pub proof fn law_integer_list_round_trip(a: Seq<i32>)
    requires
        a.len() > 0,
    ensures
        integers_of(array_items(list_literal(a.map_values(|i: i32| integer_literal(i))))) == Some(
            a,
        ),
{
    let written = a.map_values(|i: i32| integer_literal(i));
    assert forall|i: int| 0 <= i < written.len() implies is_element(#[trigger] written[i]) by {
        lemma_integer_literal_is_element(a[i]);
    }
    lemma_integer_literal_is_element(a[0]);
    lemma_integer_literal_is_element(a[a.len() - 1]);
    assert(written[0] == integer_literal(a[0]));
    assert(written.last() == integer_literal(a[a.len() - 1]));
    law_text_list_round_trip(written);
    assert forall|i: int| 0 <= i < written.len() implies parse_i32(#[trigger] written[i]) == Some(
        a[i],
    ) by {
        law_integer_round_trip(a[i]);
    }
    assert(written.map_values(|e: Seq<char>| parse_i32(e).unwrap()) =~= a);
}

/// Round trip: a declaration whose type token is that of the kind of `d`
/// and whose literal is that of `d` declares `d`.
pub proof fn law_value_round_trip(d: Datum)
    requires
        is_writable(d),
    ensures
        typed_value(token_of(d.kind()), literal_of(d)) == Ok::<Datum, Failure>(d),
{
    reveal_strlit("string");
    reveal_strlit("integer");
    reveal_strlit("bool");
    reveal_strlit("array[string]");
    reveal_strlit("array[integer]");
    assert("string"@.len() == 6);
    assert("integer"@.len() == 7);
    assert("bool"@.len() == 4);
    assert("array[string]"@.len() == 13);
    assert("array[integer]"@.len() == 14);
    match d {
        Datum::String(s) => {},
        Datum::Integer(i) => {
            law_integer_round_trip(i);
        },
        Datum::Bool(b) => {
            law_bool_round_trip(b);
        },
        Datum::StringArray(a) => {
            law_text_list_round_trip(a);
        },
        Datum::IntegerArray(a) => {
            law_integer_list_round_trip(a);
        },
    }
}

/// Whether a text can stand as the name of a declaration: it is not empty,
/// holds neither `=` nor `:`, does not begin like a comment, and neither
/// begins nor ends with white space.
pub open spec fn is_name(name: Seq<char>) -> bool {
    &&& name.len() > 0
    &&& name[0] != '#'
    &&& !is_space(name[0])
    &&& !is_space(name.last())
    &&& forall|i: int| 0 <= i < name.len() ==> #[trigger] name[i] != '=' && name[i] != ':'
}

/// Whether a text can stand as the type token of a declaration: it is not
/// empty, holds neither `=` nor `:`, and neither begins nor ends with white
/// space.
pub open spec fn is_token(token: Seq<char>) -> bool {
    &&& token.len() > 0
    &&& !is_space(token[0])
    &&& !is_space(token.last())
    &&& forall|i: int| 0 <= i < token.len() ==> #[trigger] token[i] != '=' && token[i] != ':'
}

/// Whether a literal can end a declaration line and be read back: it neither
/// begins nor ends with white space, and the line that it ends does not end
/// in the marker that opens a section.
pub open spec fn is_line_value(lit: Seq<char>) -> bool {
    &&& lit.len() > 0 ==> !is_space(lit[0]) && !is_space(lit.last())
    &&& lit.len() == 1 ==> lit[0] != '{'
    &&& lit.len() >= 2 ==> !(lit[lit.len() - 2] == ' ' && lit.last() == '{')
}

/// The line that declares `name` with type `token` and literal `lit`.
pub open spec fn declaration_line(name: Seq<char>, token: Seq<char>, lit: Seq<char>) -> Seq<
    char,
> {
    name + seq![':', ' '] + token + seq![' ', '=', ' '] + lit
}

/// Text behind one space, trimmed, is the text itself where the text
/// neither begins nor ends with white space.
pub proof fn lemma_trim_after_space(e: Seq<char>)
    requires
        e.len() > 0,
        !is_space(e[0]),
        !is_space(e.last()),
    ensures
        trim(seq![' '] + e) == e,
{
    let s = seq![' '] + e;
    assert(s[0] == ' ');
    assert(s[1] == e[0]);
    assert(s.last() == e.last());
    lemma_lead_is(s, CharClass::Space, 1);
    lemma_tail_is(s, CharClass::Space, 0);
    assert(s.subrange(1, s.len() as int) =~= e);
}

/// Text before one space, trimmed, is the text itself where the text
/// neither begins nor ends with white space.
pub proof fn lemma_trim_before_space(e: Seq<char>)
    requires
        e.len() > 0,
        !is_space(e[0]),
        !is_space(e.last()),
    ensures
        trim(e.push(' ')) == e,
{
    let s = e.push(' ');
    assert(s[0] == e[0]);
    assert(s[s.len() - 2] == e.last());
    lemma_lead_is(s, CharClass::Space, 0);
    lemma_tail_is(s, CharClass::Space, 1);
    assert(s.subrange(0, s.len() - 1) =~= e);
}

/// A declaration line is scanned as the declaration that it writes.
pub proof fn law_declaration_line_is_scanned(name: Seq<char>, token: Seq<char>, lit: Seq<char>)
    requires
        is_name(name),
        is_token(token),
        is_line_value(lit),
    ensures
        classify(declaration_line(name, token, lit)) == (Line::Declaration {
            name,
            token,
            value: lit,
        }),
{
    let left = name + seq![':', ' '] + token;
    let head = left + seq![' ', '='];
    let rest = if lit.len() == 0 {
        Seq::<char>::empty()
    } else {
        seq![' '] + lit
    };
    let line = declaration_line(name, token, lit);
    let t = head + rest;
    let e = head.len() - 1;
    assert(t[0] == name[0]);
    assert(t[e] == '=');
    if lit.len() == 0 {
        assert(line =~= t.push(' '));
        assert(t.last() == '=');
        lemma_trim_before_space(t);
    } else {
        assert(line =~= t);
        assert(t.last() == lit.last());
        lemma_strip_clean(t, CharClass::Space);
        if lit.len() >= 2 {
            assert(t[t.len() - 2] == lit[lit.len() - 2]);
        } else {
            assert(t.last() == lit[0]);
        }
    }
    assert(trim(line) == t);
    assert(!opens_section(t));
    assert(t != seq!['}']) by {
        assert(seq!['}'].len() == 1);
    }
    assert forall|i: int| 0 <= i < e implies CharClass::Except('=').has(#[trigger] t[i]) by {
        if i < name.len() {
            assert(t[i] == name[i]);
        } else if i < name.len() + 2 {
            assert(t[i] == ':' || t[i] == ' ');
        } else if i < left.len() {
            assert(t[i] == token[i - name.len() - 2]);
        } else {
            assert(t[i] == ' ');
        }
    }
    lemma_lead_is(t, CharClass::Except('='), e as nat);
    assert(t.subrange(0, e) =~= left.push(' '));
    assert(left[0] == name[0]);
    assert(left.last() == token.last());
    lemma_trim_before_space(left);
    assert forall|i: int| 0 <= i < name.len() implies CharClass::Except(':').has(
        #[trigger] left[i],
    ) by {
        assert(left[i] == name[i]);
    }
    assert(left[name.len() as int] == ':');
    lemma_lead_is(left, CharClass::Except(':'), name.len());
    assert(left.subrange(0, name.len() as int) =~= name);
    lemma_strip_clean(name, CharClass::Space);
    assert(left.subrange(name.len() as int + 1, left.len() as int) =~= seq![' '] + token);
    lemma_trim_after_space(token);
    assert(t.subrange(e + 1, t.len() as int) =~= rest);
    if lit.len() == 0 {
        assert(trim(rest) =~= lit);
    } else {
        lemma_trim_after_space(lit);
    }
}

/// Each of the five type tokens can stand as the type token of a
/// declaration.
pub proof fn lemma_tokens(kind: Kind)
    ensures
        is_token(token_of(kind)),
{
    reveal_strlit("string");
    reveal_strlit("integer");
    reveal_strlit("bool");
    reveal_strlit("array[string]");
    reveal_strlit("array[integer]");
    let t = token_of(kind);
    assert(t.len() <= 14);
    assert forall|i: int| 0 <= i < t.len() implies #[trigger] t[i] != '=' && t[i] != ':' by {
        assert(i == 0 || i == 1 || i == 2 || i == 3 || i == 4 || i == 5 || i == 6 || i == 7 || i
            == 8 || i == 9 || i == 10 || i == 11 || i == 12 || i == 13);
    }
}

/// The literal of a value can end a declaration line and be read back,
/// where the value is no text, or is a text that can.
pub proof fn lemma_literal_is_line_value(d: Datum)
    requires
        d matches Datum::String(s) ==> is_line_value(s),
    ensures
        is_line_value(literal_of(d)),
{
    let lit = literal_of(d);
    match d {
        Datum::String(s) => {},
        Datum::Integer(i) => {
            lemma_integer_literal_is_element(i);
            assert(lit.last() == '-' || is_digit(lit[lit.len() - 1]));
        },
        Datum::Bool(b) => {
            reveal_strlit("true");
            reveal_strlit("false");
            assert("true"@.len() == 4);
            assert("false"@.len() == 5);
        },
        Datum::StringArray(a) => {
            assert(lit[0] == '[');
            assert(lit.last() == ']');
        },
        Datum::IntegerArray(a) => {
            assert(lit[0] == '[');
            assert(lit.last() == ']');
        },
    }
}

/// Round trip of a whole line: the line that declares `name` with the type
/// token and the literal of `d` puts `d` into the store under the
/// fully-qualified key of `name`, and changes nothing else.
pub proof fn law_declaration_round_trip(state: LoadState, name: Seq<char>, d: Datum)
    requires
        is_name(name),
        is_writable(d),
        d matches Datum::String(s) ==> is_line_value(s),
    ensures
        step(state, declaration_line(name, token_of(d.kind()), literal_of(d))) == Ok::<
            LoadState,
            Failure,
        >(
            LoadState {
                context: state.context,
                store: state.store.insert(qualified_key(state.context, name), d),
            },
        ),
{
    lemma_tokens(d.kind());
    lemma_literal_is_line_value(d);
    law_declaration_line_is_scanned(name, token_of(d.kind()), literal_of(d));
    law_value_round_trip(d);
}

} // verus!
