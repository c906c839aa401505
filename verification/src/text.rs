//! Character-level primitives on text: classes of characters, trimming,
//! splitting, joining and the literal syntaxes of integers and booleans.
use vstd::prelude::*;
use vstd::string::*;

verus! {

/// Whether `c` carries the Unicode property White_Space.
pub open spec fn is_space(c: char) -> bool {
    let n = c as u32;
    (0x09 <= n <= 0x0D) || n == 0x20 || n == 0x85 || n == 0xA0 || n == 0x1680 || (0x2000 <= n
        <= 0x200A) || n == 0x2028 || n == 0x2029 || n == 0x202F || n == 0x205F || n == 0x3000
}

/// A set of characters that a scan can test membership of.
#[derive(Clone, Copy, Debug)]
pub enum CharClass {
    /// Every White_Space character.
    Space,
    /// The one given character.
    Only(char),
    /// Every character but the given one.
    Except(char),
}

impl CharClass {
    /// Membership of `c` in the class.
    pub open spec fn has(self, c: char) -> bool {
        match self {
            CharClass::Space => is_space(c),
            CharClass::Only(d) => c == d,
            CharClass::Except(d) => c != d,
        }
    }

    /// Tests membership of `c` in the class.
    pub fn contains(&self, c: char) -> (r: bool)
        ensures
            r == self.has(c),
    {
        match *self {
            CharClass::Space => {
                let n: u32 = c as u32;
                (0x09 <= n && n <= 0x0D) || n == 0x20 || n == 0x85 || n == 0xA0 || n == 0x1680
                    || (0x2000 <= n && n <= 0x200A) || n == 0x2028 || n == 0x2029 || n == 0x202F
                    || n == 0x205F || n == 0x3000
            },
            CharClass::Only(d) => c == d,
            CharClass::Except(d) => c != d,
        }
    }
}

/// The number of characters at the front of `s` that all belong to `k`.
pub open spec fn lead(s: Seq<char>, k: CharClass) -> nat
    decreases s.len(),
{
    if s.len() > 0 && k.has(s[0]) {
        1 + lead(s.subrange(1, s.len() as int), k)
    } else {
        0
    }
}

/// The number of characters at the back of `s` that all belong to `k`.
pub open spec fn tail(s: Seq<char>, k: CharClass) -> nat
    decreases s.len(),
{
    if s.len() > 0 && k.has(s.last()) {
        1 + tail(s.drop_last(), k)
    } else {
        0
    }
}

/// `lead` is the only length whose prefix lies in the class and which stops
/// at the end or at a character outside the class.
pub proof fn lemma_lead_is(s: Seq<char>, k: CharClass, n: nat)
    requires
        n <= s.len(),
        forall|i: int| 0 <= i < n ==> k.has(#[trigger] s[i]),
        n < s.len() ==> !k.has(s[n as int]),
    ensures
        lead(s, k) == n,
    decreases s.len(),
{
    if n > 0 {
        let t = s.subrange(1, s.len() as int);
        assert forall|i: int| 0 <= i < n - 1 implies k.has(#[trigger] t[i]) by {
            assert(t[i] == s[i + 1]);
        }
        lemma_lead_is(t, k, (n - 1) as nat);
    }
}

/// `tail` is the only length whose suffix lies in the class and which stops
/// at the start or at a character outside the class.
pub proof fn lemma_tail_is(s: Seq<char>, k: CharClass, n: nat)
    requires
        n <= s.len(),
        forall|i: int| s.len() - n <= i < s.len() ==> k.has(#[trigger] s[i]),
        n < s.len() ==> !k.has(s[s.len() - n - 1]),
    ensures
        tail(s, k) == n,
    decreases s.len(),
{
    if n > 0 {
        let t = s.drop_last();
        assert forall|i: int| t.len() - (n - 1) <= i < t.len() implies k.has(#[trigger] t[i]) by {
            assert(t[i] == s[i]);
        }
        lemma_tail_is(t, k, (n - 1) as nat);
    }
}

/// What `lead` counts: a prefix inside the class, ended by the end of the
/// text or by a character outside the class.
pub proof fn lemma_lead(s: Seq<char>, k: CharClass)
    ensures
        lead(s, k) <= s.len(),
        forall|i: int| 0 <= i < lead(s, k) ==> k.has(#[trigger] s[i]),
        lead(s, k) < s.len() ==> !k.has(s[lead(s, k) as int]),
    decreases s.len(),
{
    if s.len() > 0 && k.has(s[0]) {
        let t = s.subrange(1, s.len() as int);
        lemma_lead(t, k);
        assert forall|i: int| 0 <= i < lead(s, k) implies k.has(#[trigger] s[i]) by {
            if i > 0 {
                assert(s[i] == t[i - 1]);
            }
        }
    }
}

/// What `tail` counts: a suffix inside the class, begun by the start of the
/// text or by a character outside the class.
pub proof fn lemma_tail(s: Seq<char>, k: CharClass)
    ensures
        tail(s, k) <= s.len(),
        forall|i: int| s.len() - tail(s, k) <= i < s.len() ==> k.has(#[trigger] s[i]),
        tail(s, k) < s.len() ==> !k.has(s[s.len() - tail(s, k) - 1]),
    decreases s.len(),
{
    if s.len() > 0 && k.has(s.last()) {
        let t = s.drop_last();
        lemma_tail(t, k);
        assert forall|i: int| s.len() - tail(s, k) <= i < s.len() implies k.has(
            #[trigger] s[i],
        ) by {
            if i < s.len() - 1 {
                assert(s[i] == t[i]);
            }
        }
    }
}

/// `s` without the characters of `k` at either end.
pub open spec fn strip(s: Seq<char>, k: CharClass) -> Seq<char> {
    if lead(s, k) == s.len() {
        Seq::empty()
    } else {
        s.subrange(lead(s, k) as int, s.len() - tail(s, k))
    }
}

/// `s` without White_Space at either end.
pub open spec fn trim(s: Seq<char>) -> Seq<char> {
    strip(s, CharClass::Space)
}

/// Counts the characters at the front of `s` that belong to `k`.
pub fn leading(s: &str, k: CharClass) -> (n: usize)
    ensures
        n == lead(s@, k),
{
    let len = s.unicode_len();
    let mut i: usize = 0;
    while i < len && k.contains(s.get_char(i))
        invariant
            len == s@.len(),
            i <= len,
            forall|j: int| 0 <= j < i ==> k.has(#[trigger] s@[j]),
        decreases len - i,
    {
        i += 1;
    }
    proof {
        lemma_lead_is(s@, k, i as nat);
    }
    i
}

/// Counts the characters at the back of `s` that belong to `k`.
pub fn trailing(s: &str, k: CharClass) -> (n: usize)
    ensures
        n == tail(s@, k),
{
    let len = s.unicode_len();
    let mut i: usize = 0;
    while i < len && k.contains(s.get_char(len - i - 1))
        invariant
            len == s@.len(),
            i <= len,
            forall|j: int| len - i <= j < len ==> k.has(#[trigger] s@[j]),
        decreases len - i,
    {
        i += 1;
    }
    proof {
        lemma_tail_is(s@, k, i as nat);
    }
    i
}

/// Removes the characters of `k` from both ends of `s`.
pub fn strip_class<'a>(s: &'a str, k: CharClass) -> (r: &'a str)
    ensures
        r@ == strip(s@, k),
{
    let len = s.unicode_len();
    let a = leading(s, k);
    proof {
        lemma_lead(s@, k);
        lemma_tail(s@, k);
    }
    if a == len {
        let r = s.substring_char(0, 0);
        assert(r@ =~= Seq::<char>::empty());
        r
    } else {
        let b = trailing(s, k);
        s.substring_char(a, len - b)
    }
}

/// Removes White_Space from both ends of `s`.
pub fn trim_space<'a>(s: &'a str) -> (r: &'a str)
    ensures
        r@ == trim(s@),
{
    strip_class(s, CharClass::Space)
}

/// Compares two texts character by character.
pub fn same_text(a: &str, b: &str) -> (r: bool)
    ensures
        r == (a@ == b@),
{
    let len = a.unicode_len();
    if len != b.unicode_len() {
        return false;
    }
    let mut i: usize = 0;
    while i < len
        invariant
            len == a@.len(),
            len == b@.len(),
            i <= len,
            forall|j: int| 0 <= j < i ==> a@[j] == b@[j],
        decreases len - i,
    {
        if a.get_char(i) != b.get_char(i) {
            return false;
        }
        i += 1;
    }
    assert(a@ =~= b@);
    true
}

/// The views of a sequence of borrowed texts.
pub open spec fn pieces(v: Seq<&str>) -> Seq<Seq<char>> {
    Seq::new(v.len(), |i: int| v[i]@)
}

/// The views of a sequence of owned texts.
pub open spec fn texts(v: Seq<String>) -> Seq<Seq<char>> {
    Seq::new(v.len(), |i: int| v[i]@)
}

/// The parts of `s` between occurrences of `sep`, in order. A text without
/// `sep` is its own single part; `n` occurrences give `n + 1` parts.
pub open spec fn split(s: Seq<char>, sep: char) -> Seq<Seq<char>>
    decreases s.len(),
{
    let p = lead(s, CharClass::Except(sep)) as int;
    if 0 <= p < s.len() {
        seq![s.subrange(0, p)] + split(s.subrange(p + 1, s.len() as int), sep)
    } else {
        seq![s]
    }
}

/// Splits `s` at every occurrence of `sep`.
pub fn split_on<'a>(s: &'a str, sep: char) -> (r: Vec<&'a str>)
    ensures
        pieces(r@) == split(s@, sep),
{
    let k = CharClass::Except(sep);
    let mut out: Vec<&'a str> = Vec::new();
    let mut rest: &'a str = s;
    let mut n: usize = rest.unicode_len();
    let mut p: usize = leading(rest, k);
    proof {
        lemma_lead(rest@, k);
        assert(pieces(out@) + split(rest@, sep) =~= split(s@, sep));
    }
    while p < n
        invariant
            k == CharClass::Except(sep),
            n == rest@.len(),
            p == lead(rest@, k),
            p <= n,
            split(s@, sep) == pieces(out@) + split(rest@, sep),
        decreases n,
    {
        let ghost before = pieces(out@);
        let ghost whole = rest@;
        let head = rest.substring_char(0, p);
        out.push(head);
        rest = rest.substring_char(p + 1, n);
        n = rest.unicode_len();
        p = leading(rest, k);
        proof {
            lemma_lead(rest@, k);
            assert(pieces(out@) =~= before + seq![whole.subrange(0, head@.len() as int)]);
            assert(pieces(out@) + split(rest@, sep) =~= before + split(whole, sep));
        }
    }
    let ghost before = pieces(out@);
    out.push(rest);
    proof {
        assert(pieces(out@) =~= before + seq![rest@]);
    }
    out
}

/// The parts joined into one text, with `sep` between neighbours.
pub open spec fn join(parts: Seq<Seq<char>>, sep: char) -> Seq<char>
    decreases parts.len(),
{
    if parts.len() == 0 {
        Seq::empty()
    } else if parts.len() == 1 {
        parts[0]
    } else {
        join(parts.drop_last(), sep).push(sep) + parts.last()
    }
}

/// Joins the parts into one text, with a dot between neighbours.
pub fn join_dotted(parts: &Vec<String>) -> (r: String)
    ensures
        r@ == join(texts(parts@), '.'),
{
    let mut out = String::new();
    let mut i: usize = 0;
    while i < parts.len()
        invariant
            i <= parts.len(),
            out@ == join(texts(parts@).subrange(0, i as int), '.'),
        decreases parts.len() - i,
    {
        let ghost done = texts(parts@).subrange(0, i as int);
        let ghost next = texts(parts@).subrange(0, i + 1);
        proof {
            reveal_strlit(".");
            assert(next.drop_last() =~= done);
            assert(next.last() == parts@[i as int]@);
        }
        if i > 0 {
            out.append(".");
            assert(out@ =~= join(done, '.').push('.'));
        } else {
            assert(out@ + parts@[0]@ =~= parts@[0]@);
        }
        out.append(parts[i].as_str());
        i += 1;
    }
    assert(texts(parts@).subrange(0, i as int) =~= texts(parts@));
    out
}

/// Whether `c` is one of the ten decimal digits.
pub open spec fn is_digit(c: char) -> bool {
    0x30 <= c as u32 <= 0x39
}

/// The number that a decimal digit stands for.
pub open spec fn digit_of(c: char) -> nat {
    if is_digit(c) {
        (c as u32 - 0x30) as nat
    } else {
        0
    }
}

/// The number that a text of decimal digits writes.
pub open spec fn digits_value(s: Seq<char>) -> nat
    decreases s.len(),
{
    if s.len() == 0 {
        0
    } else {
        digits_value(s.drop_last()) * 10 + digit_of(s.last())
    }
}

/// Whether every character of `s` is a decimal digit.
pub open spec fn all_digits(s: Seq<char>) -> bool {
    forall|i: int| 0 <= i < s.len() ==> is_digit(#[trigger] s[i])
}

/// The 32-bit signed integer that `s` writes in decimal: an optional sign,
/// `+` or `-`, then at least one digit and nothing else. `None` where `s`
/// has another shape or the number does not fit.
pub open spec fn parse_i32(s: Seq<char>) -> Option<i32> {
    let signed = s.len() > 0 && (s[0] == '-' || s[0] == '+');
    let body = if signed {
        s.subrange(1, s.len() as int)
    } else {
        s
    };
    let magnitude = digits_value(body) as int;
    let value = if s.len() > 0 && s[0] == '-' {
        -magnitude
    } else {
        magnitude
    };
    if body.len() == 0 || !all_digits(body) || value < i32::MIN || value > i32::MAX {
        None
    } else {
        Some(value as i32)
    }
}

/// A text of digits writes at least what any of its prefixes writes.
pub proof fn lemma_digits_monotone(s: Seq<char>, n: int)
    requires
        0 <= n <= s.len(),
    ensures
        digits_value(s.subrange(0, n)) <= digits_value(s),
    decreases s.len(),
{
    if n == s.len() {
        assert(s.subrange(0, n) =~= s);
    } else {
        lemma_digits_monotone(s.drop_last(), n);
        assert(s.drop_last().subrange(0, n) =~= s.subrange(0, n));
    }
}

/// Reads `s` as a 32-bit signed integer in decimal.
pub fn parse_int(s: &str) -> (r: Option<i32>)
    ensures
        r == parse_i32(s@),
{
    let len = s.unicode_len();
    if len == 0 {
        return None;
    }
    let first = s.get_char(0);
    let negative = first == '-';
    let start: usize = if first == '-' || first == '+' {
        1
    } else {
        0
    };
    let ghost body = s@.subrange(start as int, len as int);
    assert(body =~= if start == 1 {
        s@.subrange(1, len as int)
    } else {
        s@
    });
    if start == len {
        return None;
    }
    let mut acc: i64 = 0;
    let mut i: usize = start;
    assert(body.subrange(0, 0) =~= Seq::<char>::empty());
    while i < len
        invariant
            start <= i <= len,
            len == s@.len(),
            body == s@.subrange(start as int, len as int),
            body == if s@[0] == '-' || s@[0] == '+' {
                s@.subrange(1, len as int)
            } else {
                s@
            },
            forall|j: int| 0 <= j < i - start ==> is_digit(#[trigger] body[j]),
            acc == digits_value(body.subrange(0, i - start)),
            0 <= acc <= 0x8000_0000,
        decreases len - i,
    {
        let c = s.get_char(i);
        let n: u32 = c as u32;
        if n < 0x30 || n > 0x39 {
            assert(!is_digit(body[i - start]));
            return None;
        }
        let d: i64 = (n - 0x30) as i64;
        acc = acc * 10 + d;
        proof {
            assert(body.subrange(0, i + 1 - start).drop_last() =~= body.subrange(0, i - start));
            assert(body.subrange(0, i + 1 - start).last() == c);
        }
        if acc > 0x8000_0000 {
            proof {
                lemma_digits_monotone(body, i + 1 - start);
            }
            return None;
        }
        i += 1;
    }
    assert(body.subrange(0, len - start) =~= body);
    if negative {
        let v: i64 = -acc;
        Some(v as i32)
    } else if acc > 0x7fff_ffff {
        None
    } else {
        Some(acc as i32)
    }
}

/// The boolean that `s` writes: `true` or `false`, and nothing else.
pub open spec fn parse_flag(s: Seq<char>) -> Option<bool> {
    if s == "true"@ {
        Some(true)
    } else if s == "false"@ {
        Some(false)
    } else {
        None
    }
}

/// Reads `s` as a boolean literal.
pub fn parse_bool(s: &str) -> (r: Option<bool>)
    ensures
        r == parse_flag(s@),
{
    if same_text(s, "true") {
        Some(true)
    } else if same_text(s, "false") {
        Some(false)
    } else {
        None
    }
}

} // verus!
