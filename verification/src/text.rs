//! Character-level helpers on strings, each stated over the `Seq<char>`
//! view of the string it reads or builds.
use vstd::prelude::*;

verus! {

broadcast use vstd::string::group_string_axioms;

/// The characters of `s`, in order.
pub fn chars_of(s: &str) -> (res: Vec<char>)
    ensures
        res@ == s@,
{
    let mut out: Vec<char> = Vec::new();
    for c in it: s.chars()
        invariant
            out@ == it.seq().take(it.index() as int),
    {
        out.push(c);
    }
    out
}

/// Appends one character to a string with `String::push`; the contract
/// claims that the string's characters are the old ones followed by `c`.
#[verifier::external_body]
pub(crate) fn push_char(s: &mut String, c: char)
    ensures
        final(s)@ == old(s)@.push(c),
{
    s.push(c);
}

/// The string made of the characters of `cs[from..to]`.
pub fn string_from_range(cs: &Vec<char>, from: usize, to: usize) -> (res: String)
    requires
        from <= to <= cs@.len(),
    ensures
        res@ == cs@.subrange(from as int, to as int),
{
    let mut out = String::new();
    let mut i = from;
    while i < to
        invariant
            from <= i <= to <= cs@.len(),
            out@ == cs@.subrange(from as int, i as int),
        decreases to - i,
    {
        push_char(&mut out, cs[i]);
        assert(cs@.subrange(from as int, i + 1) == cs@.subrange(from as int, i as int).push(cs@[i as int]));
        i += 1;
    }
    out
}

/// The string made of the characters of `cs`.
pub fn string_from_chars(cs: &Vec<char>) -> (res: String)
    ensures
        res@ == cs@,
{
    let r = string_from_range(cs, 0, cs.len());
    assert(cs@.subrange(0, cs@.len() as int) == cs@);
    r
}

/// The first `n` characters of a sequence (all of it when it is shorter).
pub open spec fn prefix_of(s: Seq<char>, n: int) -> Seq<char> {
    if s.len() <= n {
        s
    } else {
        s.take(n)
    }
}

/// The first `n` characters of `s`.
pub fn take_chars(s: &str, n: usize) -> (res: String)
    ensures
        res@ == prefix_of(s@, n as int),
{
    let cs = chars_of(s);
    let end = if cs.len() <= n { cs.len() } else { n };
    let r = string_from_range(&cs, 0, end);
    assert(cs@.subrange(0, cs@.len() as int) == cs@);
    r
}

// ---------------------------------------------------------------------------
// Character classes
// ---------------------------------------------------------------------------

/// Characters with the Unicode `White_Space` property (what `char::is_whitespace`
/// tests for).
pub open spec fn is_ws(c: char) -> bool {
    let u = c as u32;
    (0x9 <= u <= 0xd) || u == 0x20 || u == 0x85 || u == 0xa0 || u == 0x1680 || (0x2000 <= u <= 0x200a)
        || u == 0x2028 || u == 0x2029 || u == 0x202f || u == 0x205f || u == 0x3000
}

pub fn is_whitespace(c: char) -> (res: bool)
    ensures
        res == is_ws(c),
{
    let u = c as u32;
    (0x9 <= u && u <= 0xd) || u == 0x20 || u == 0x85 || u == 0xa0 || u == 0x1680 || (0x2000 <= u && u
        <= 0x200a) || u == 0x2028 || u == 0x2029 || u == 0x202f || u == 0x205f || u == 0x3000
}

/// The classes of characters that split or trim text.
#[derive(Clone, Copy, PartialEq, Eq, Structural)]
pub enum CharClass {
    Whitespace,
    Nul,
    Comma,
    Paren,
    Slash,
    Newline,
}

pub open spec fn in_class(k: CharClass, c: char) -> bool {
    match k {
        CharClass::Whitespace => is_ws(c),
        CharClass::Nul => c == '\0',
        CharClass::Comma => c == ',',
        CharClass::Paren => c == '(' || c == ')',
        CharClass::Slash => c == '/',
        CharClass::Newline => c == '\n',
    }
}

pub fn is_in_class(k: CharClass, c: char) -> (res: bool)
    ensures
        res == in_class(k, c),
{
    match k {
        CharClass::Whitespace => is_whitespace(c),
        CharClass::Nul => c == '\0',
        CharClass::Comma => c == ',',
        CharClass::Paren => c == '(' || c == ')',
        CharClass::Slash => c == '/',
        CharClass::Newline => c == '\n',
    }
}

// ---------------------------------------------------------------------------
// Splitting and trimming
// ---------------------------------------------------------------------------

/// The pieces of `s` between the characters of class `k` (as `str::split`
/// yields them: one more piece than there are separators).
pub open spec fn split_when(s: Seq<char>, k: CharClass) -> Seq<Seq<char>>
    decreases s.len(),
{
    if s.len() == 0 {
        seq![seq![]]
    } else {
        let r = split_when(s.drop_last(), k);
        if in_class(k, s.last()) {
            r.push(seq![])
        } else {
            r.update(r.len() - 1, r.last().push(s.last()))
        }
    }
}

/// Drops leading characters of class `k`.
pub open spec fn trim_start_when(s: Seq<char>, k: CharClass) -> Seq<char>
    decreases s.len(),
{
    if s.len() > 0 && in_class(k, s[0]) {
        trim_start_when(s.drop_first(), k)
    } else {
        s
    }
}

/// Drops trailing characters of class `k`.
pub open spec fn trim_end_when(s: Seq<char>, k: CharClass) -> Seq<char>
    decreases s.len(),
{
    if s.len() > 0 && in_class(k, s.last()) {
        trim_end_when(s.drop_last(), k)
    } else {
        s
    }
}

/// Drops leading and trailing characters of class `k`.
pub open spec fn trim_when(s: Seq<char>, k: CharClass) -> Seq<char> {
    trim_end_when(trim_start_when(s, k), k)
}

/// `str::trim`: drops leading and trailing whitespace.
pub open spec fn trim(s: Seq<char>) -> Seq<char> {
    trim_when(s, CharClass::Whitespace)
}

/// The pieces of `cs[from..to]` between characters of class `k`, as ranges of `cs`.
pub fn split_ranges(cs: &Vec<char>, from: usize, to: usize, k: CharClass) -> (res: Vec<(usize, usize)>)
    requires
        from <= to <= cs@.len(),
    ensures
        res@.map_values(|r: (usize, usize)| cs@.subrange(r.0 as int, r.1 as int)) == split_when(
            cs@.subrange(from as int, to as int),
            k,
        ),
        forall|j: int| 0 <= j < res@.len() ==> from <= (#[trigger] res@[j]).0 <= res@[j].1 <= to,
{
    let mut out: Vec<(usize, usize)> = Vec::new();
    let mut start = from;
    let mut i = from;
    assert(cs@.subrange(from as int, from as int) =~= Seq::<char>::empty());
    while i < to
        invariant
            from <= start <= i <= to <= cs@.len(),
            out@.map_values(|r: (usize, usize)| cs@.subrange(r.0 as int, r.1 as int)).push(
                cs@.subrange(start as int, i as int),
            ) == split_when(cs@.subrange(from as int, i as int), k),
            forall|j: int| 0 <= j < out@.len() ==> from <= (#[trigger] out@[j]).0 <= out@[j].1 <= to,
        decreases to - i,
    {
        let ghost prev = out@.map_values(|r: (usize, usize)| cs@.subrange(r.0 as int, r.1 as int));
        let ghost sub = cs@.subrange(from as int, i + 1);
        assert(sub.drop_last() =~= cs@.subrange(from as int, i as int));
        assert(sub.last() == cs@[i as int]);
        if is_in_class(k, cs[i]) {
            out.push((start, i));
            assert(out@.map_values(|r: (usize, usize)| cs@.subrange(r.0 as int, r.1 as int)) =~= prev.push(
                cs@.subrange(start as int, i as int),
            ));
            start = i + 1;
            assert(cs@.subrange(start as int, start as int) =~= Seq::<char>::empty());
        } else {
            assert(cs@.subrange(start as int, i + 1) =~= cs@.subrange(start as int, i as int).push(cs@[i as int]));
            assert(prev.push(cs@.subrange(start as int, i + 1)) =~= prev.push(cs@.subrange(start as int, i as int)).update(
                prev.len() as int,
                cs@.subrange(start as int, i as int).push(cs@[i as int]),
            ));
        }
        i += 1;
    }
    out.push((start, to));
    out
}

/// Narrows the range `cs[from..to]` to drop leading and trailing characters of class `k`.
pub fn trim_range(cs: &Vec<char>, from: usize, to: usize, k: CharClass) -> (res: (usize, usize))
    requires
        from <= to <= cs@.len(),
    ensures
        from <= res.0 <= res.1 <= to,
        cs@.subrange(res.0 as int, res.1 as int) == trim_when(cs@.subrange(from as int, to as int), k),
{
    let mut a = from;
    while a < to && is_in_class(k, cs[a])
        invariant
            from <= a <= to <= cs@.len(),
            trim_start_when(cs@.subrange(from as int, to as int), k) == trim_start_when(
                cs@.subrange(a as int, to as int),
                k,
            ),
        decreases to - a,
    {
        assert(cs@.subrange(a as int, to as int).drop_first() =~= cs@.subrange(a + 1, to as int));
        a += 1;
    }
    let mut b = to;
    while b > a && is_in_class(k, cs[b - 1])
        invariant
            from <= a <= b <= to <= cs@.len(),
            trim_end_when(cs@.subrange(a as int, to as int), k) == trim_end_when(
                cs@.subrange(a as int, b as int),
                k,
            ),
        decreases b - a,
    {
        assert(cs@.subrange(a as int, b as int).drop_last() =~= cs@.subrange(a as int, b - 1));
        b -= 1;
    }
    (a, b)
}

// ---------------------------------------------------------------------------
// Prefixes
// ---------------------------------------------------------------------------

pub open spec fn has_prefix(s: Seq<char>, pat: Seq<char>) -> bool {
    s.len() >= pat.len() && s.take(pat.len() as int) == pat
}

/// Whether `cs[from..to]` starts with `pat`.
pub fn range_has_prefix(cs: &Vec<char>, from: usize, to: usize, pat: &Vec<char>) -> (res: bool)
    requires
        from <= to <= cs@.len(),
    ensures
        res == has_prefix(cs@.subrange(from as int, to as int), pat@),
{
    if to - from < pat.len() {
        return false;
    }
    let mut j: usize = 0;
    while j < pat.len()
        invariant
            from + pat@.len() <= to <= cs@.len(),
            j <= pat@.len(),
            forall|m: int| 0 <= m < j ==> cs@[from + m] == pat@[m],
        decreases pat@.len() - j,
    {
        if cs[from + j] != pat[j] {
            assert(cs@.subrange(from as int, to as int).take(pat@.len() as int)[j as int] != pat@[j as int]);
            return false;
        }
        j += 1;
    }
    assert(cs@.subrange(from as int, to as int).take(pat@.len() as int) =~= pat@);
    true
}

// ---------------------------------------------------------------------------
// Integers
// ---------------------------------------------------------------------------

pub open spec fn is_digit(c: char) -> bool {
    0x30 <= (c as u32) <= 0x39
}

pub open spec fn all_digits(s: Seq<char>) -> bool {
    forall|i: int| 0 <= i < s.len() ==> is_digit(#[trigger] s[i])
}

/// The number written by a string of decimal digits.
pub open spec fn digits_value(s: Seq<char>) -> int
    decreases s.len(),
{
    if s.len() == 0 {
        0
    } else {
        digits_value(s.drop_last()) * 10 + ((s.last() as u32) - 0x30)
    }
}

/// `str::parse::<i64>`: an optional `+` or `-`, then one or more ASCII digits,
/// whose value fits in an `i64`.
pub open spec fn parse_i64(s: Seq<char>) -> Option<i64> {
    let neg = s.len() > 0 && s[0] == '-';
    let ds = if s.len() > 0 && (s[0] == '-' || s[0] == '+') {
        s.drop_first()
    } else {
        s
    };
    if ds.len() == 0 || !all_digits(ds) {
        None
    } else {
        let v = if neg {
            -digits_value(ds)
        } else {
            digits_value(ds)
        };
        if i64::MIN <= v <= i64::MAX {
            Some(v as i64)
        } else {
            None
        }
    }
}

proof fn lemma_digits_monotone(s: Seq<char>, k: int)
    requires
        all_digits(s),
        0 <= k <= s.len(),
    ensures
        digits_value(s.take(k)) <= digits_value(s),
        digits_value(s) >= 0,
    decreases s.len(),
{
    if s.len() > 0 {
        assert(all_digits(s.drop_last()));
        if k < s.len() {
            lemma_digits_monotone(s.drop_last(), k);
            assert(s.drop_last().take(k) =~= s.take(k));
        } else {
            lemma_digits_monotone(s.drop_last(), 0);
            assert(s.take(k) =~= s);
        }
    } else {
        assert(s.take(k) =~= s);
    }
}

/// Parses `cs[from..to]` as an `i64` (see `parse_i64`).
pub fn parse_i64_range(cs: &Vec<char>, from: usize, to: usize) -> (res: Option<i64>)
    requires
        from <= to <= cs@.len(),
    ensures
        res == parse_i64(cs@.subrange(from as int, to as int)),
{
    let ghost s = cs@.subrange(from as int, to as int);
    let mut a = from;
    let mut neg = false;
    if a < to && (cs[a] == '-' || cs[a] == '+') {
        neg = cs[a] == '-';
        a += 1;
    }
    assert(neg == (s.len() > 0 && s[0] == '-'));
    let ghost ds = cs@.subrange(a as int, to as int);
    assert(ds == if s.len() > 0 && (s[0] == '-' || s[0] == '+') { s.drop_first() } else { s });
    if a == to {
        return None;
    }
    let limit: i128 = 9223372036854775808;
    let mut acc: i128 = 0;
    let mut i = a;
    assert(ds.take(0) =~= Seq::<char>::empty());
    while i < to
        invariant
            a <= i <= to <= cs@.len(),
            ds == cs@.subrange(a as int, to as int),
            s == cs@.subrange(from as int, to as int),
            ds == if s.len() > 0 && (s[0] == '-' || s[0] == '+') { s.drop_first() } else { s },
            neg == (s.len() > 0 && s[0] == '-'),
            ds.len() > 0,
            all_digits(ds.take(i - a)),
            acc == digits_value(ds.take(i - a)),
            0 <= acc <= limit,
            limit == 9223372036854775808,
        decreases to - i,
    {
        let c = cs[i];
        let u = c as u32;
        assert(ds.take(i - a + 1).drop_last() =~= ds.take(i - a));
        assert(ds.take(i - a + 1).last() == c);
        if !(0x30 <= u && u <= 0x39) {
            assert(!is_digit(ds[i - a]));
            return None;
        }
        acc = acc * 10 + (u - 0x30) as i128;
        assert(all_digits(ds.take(i - a + 1)));
        if acc > limit {
            proof {
                if all_digits(ds) {
                    lemma_digits_monotone(ds, i - a + 1);
                }
            }
            return None;
        }
        i += 1;
    }
    assert(ds.take(i - a) =~= ds);
    let v: i128 = if neg { -acc } else { acc };
    if v > 9223372036854775807 {
        return None;
    }
    Some(v as i64)
}

// ---------------------------------------------------------------------------
// Searching, case, numbers
// ---------------------------------------------------------------------------

/// `needle` occurs in `hay` (as `str::contains` finds it).
pub open spec fn contains_seq(hay: Seq<char>, needle: Seq<char>) -> bool {
    exists|i: int| 0 <= i && i + needle.len() <= hay.len() && #[trigger] hay.subrange(i, i + needle.len()) == needle
}

/// Whether `needle` occurs in `hay`.
pub fn contains_chars(hay: &Vec<char>, needle: &Vec<char>) -> (res: bool)
    ensures
        res == contains_seq(hay@, needle@),
{
    if needle.len() > hay.len() {
        return false;
    }
    let last = hay.len() - needle.len();
    let mut i: usize = 0;
    loop
        invariant
            i <= last,
            last + needle@.len() == hay@.len(),
            forall|j: int| 0 <= j < i ==> #[trigger] hay@.subrange(j, j + needle@.len()) != needle@,
        ensures
            forall|j: int| 0 <= j <= last ==> #[trigger] hay@.subrange(j, j + needle@.len()) != needle@,
        decreases last - i,
    {
        assert(hay@.subrange(i as int, hay@.len() as int).take(needle@.len() as int) =~= hay@.subrange(
            i as int,
            i + needle@.len(),
        ));
        if range_has_prefix(hay, i, hay.len(), needle) {
            return true;
        }
        if i == last {
            break;
        }
        i += 1;
    }
    false
}

/// What `str::to_lowercase` returns for a string: its characters mapped by
/// Unicode's lowercase mapping (one character may map to several).
pub uninterp spec fn lowercase(s: Seq<char>) -> Seq<char>;

/// Lowercases a string with `str::to_lowercase`. The contract claims that
/// the result is `lowercase` of the argument's characters, a mapping fixed by
/// the Unicode tables of the standard library, and that, in a string without
/// a capital sigma (the one character whose lowercase depends on the letters
/// around it), each character is lowercased on its own, so the lowercase of
/// each prefix begins the result. Nothing is claimed of strings that hold a
/// capital sigma beyond the first clause.
#[verifier::external_body]
pub fn to_lower(s: &str) -> (res: String)
    ensures
        res@ == lowercase(s@),
        !s@.contains('\u{3a3}') ==> forall|i: int|
            0 <= i <= s@.len() ==> (#[trigger] lowercase(s@.take(i))).is_prefix_of(res@),
{
    s.to_lowercase()
}

/// The decimal digits of `n`, as `usize::to_string` writes them.
pub open spec fn decimal(n: nat) -> Seq<char>
    decreases n,
{
    if n < 10 {
        seq![((n + 0x30) as u32) as char]
    } else {
        decimal(n / 10).push((((n % 10) + 0x30) as u32) as char)
    }
}

pub fn usize_to_decimal(n: usize) -> (res: String)
    ensures
        res@ == decimal(n as nat),
    decreases n,
{
    if n < 10 {
        let mut s = String::new();
        push_char(&mut s, digit_char(n));
        s
    } else {
        let mut s = usize_to_decimal(n / 10);
        push_char(&mut s, digit_char(n % 10));
        s
    }
}

fn digit_char(d: usize) -> (c: char)
    requires
        d < 10,
    ensures
        c == ((d + 0x30) as u32) as char,
{
    if d == 0 { '0' }
    else if d == 1 { '1' }
    else if d == 2 { '2' }
    else if d == 3 { '3' }
    else if d == 4 { '4' }
    else if d == 5 { '5' }
    else if d == 6 { '6' }
    else if d == 7 { '7' }
    else if d == 8 { '8' }
    else { '9' }
}

/// Whether two strings hold the same characters.
pub fn str_eq(a: &str, b: &str) -> (res: bool)
    ensures
        res == (a@ == b@),
{
    let x = chars_of(a);
    let y = chars_of(b);
    if x.len() != y.len() {
        return false;
    }
    let mut i: usize = 0;
    while i < x.len()
        invariant
            x@ == a@,
            y@ == b@,
            x@.len() == y@.len(),
            i <= x@.len(),
            forall|j: int| 0 <= j < i ==> x@[j] == y@[j],
        decreases x@.len() - i,
    {
        if x[i] != y[i] {
            return false;
        }
        i += 1;
    }
    assert(x@ =~= y@);
    true
}

/// Whether an optional string is present and equal to `b`.
pub fn opt_str_eq(a: &Option<String>, b: &str) -> (res: bool)
    ensures
        res == (a is Some && a->0@ == b@),
{
    match a {
        Some(s) => str_eq(s.as_str(), b),
        None => false,
    }
}

/// The view of an optional string.
pub open spec fn opt_view(o: Option<String>) -> Option<Seq<char>> {
    match o {
        Some(s) => Some(s@),
        None => None,
    }
}

/// Whether two optional strings are equal.
pub fn opt_eq(a: &Option<String>, b: &Option<String>) -> (res: bool)
    ensures
        res == (opt_view(*a) == opt_view(*b)),
{
    match (a, b) {
        (Some(x), Some(y)) => str_eq(x.as_str(), y.as_str()),
        (None, None) => true,
        _ => false,
    }
}

} // verus!
