//! Character-level helpers shared by the parsers and formatters of the crate.
use vstd::prelude::*;

verus! {

broadcast use vstd::slice::group_slice_axioms;

/// Whether a character is an ASCII decimal digit.
pub open spec fn is_digit(c: char) -> bool {
    '0' <= c && c <= '9'
}

/// Unicode general category `Nd` (decimal numbers): the characters that the
/// `\d` class of a Unicode regular expression matches.
pub open spec fn is_decimal_number(c: char) -> bool {
    ||| ('\u{30}' <= c && c <= '\u{39}')
    ||| ('\u{660}' <= c && c <= '\u{669}')
    ||| ('\u{6f0}' <= c && c <= '\u{6f9}')
    ||| ('\u{7c0}' <= c && c <= '\u{7c9}')
    ||| ('\u{966}' <= c && c <= '\u{96f}')
    ||| ('\u{9e6}' <= c && c <= '\u{9ef}')
    ||| ('\u{a66}' <= c && c <= '\u{a6f}')
    ||| ('\u{ae6}' <= c && c <= '\u{aef}')
    ||| ('\u{b66}' <= c && c <= '\u{b6f}')
    ||| ('\u{be6}' <= c && c <= '\u{bef}')
    ||| ('\u{c66}' <= c && c <= '\u{c6f}')
    ||| ('\u{ce6}' <= c && c <= '\u{cef}')
    ||| ('\u{d66}' <= c && c <= '\u{d6f}')
    ||| ('\u{de6}' <= c && c <= '\u{def}')
    ||| ('\u{e50}' <= c && c <= '\u{e59}')
    ||| ('\u{ed0}' <= c && c <= '\u{ed9}')
    ||| ('\u{f20}' <= c && c <= '\u{f29}')
    ||| ('\u{1040}' <= c && c <= '\u{1049}')
    ||| ('\u{1090}' <= c && c <= '\u{1099}')
    ||| ('\u{17e0}' <= c && c <= '\u{17e9}')
    ||| ('\u{1810}' <= c && c <= '\u{1819}')
    ||| ('\u{1946}' <= c && c <= '\u{194f}')
    ||| ('\u{19d0}' <= c && c <= '\u{19d9}')
    ||| ('\u{1a80}' <= c && c <= '\u{1a89}')
    ||| ('\u{1a90}' <= c && c <= '\u{1a99}')
    ||| ('\u{1b50}' <= c && c <= '\u{1b59}')
    ||| ('\u{1bb0}' <= c && c <= '\u{1bb9}')
    ||| ('\u{1c40}' <= c && c <= '\u{1c49}')
    ||| ('\u{1c50}' <= c && c <= '\u{1c59}')
    ||| ('\u{a620}' <= c && c <= '\u{a629}')
    ||| ('\u{a8d0}' <= c && c <= '\u{a8d9}')
    ||| ('\u{a900}' <= c && c <= '\u{a909}')
    ||| ('\u{a9d0}' <= c && c <= '\u{a9d9}')
    ||| ('\u{a9f0}' <= c && c <= '\u{a9f9}')
    ||| ('\u{aa50}' <= c && c <= '\u{aa59}')
    ||| ('\u{abf0}' <= c && c <= '\u{abf9}')
    ||| ('\u{ff10}' <= c && c <= '\u{ff19}')
    ||| ('\u{104a0}' <= c && c <= '\u{104a9}')
    ||| ('\u{10d30}' <= c && c <= '\u{10d39}')
    ||| ('\u{10d40}' <= c && c <= '\u{10d49}')
    ||| ('\u{11066}' <= c && c <= '\u{1106f}')
    ||| ('\u{110f0}' <= c && c <= '\u{110f9}')
    ||| ('\u{11136}' <= c && c <= '\u{1113f}')
    ||| ('\u{111d0}' <= c && c <= '\u{111d9}')
    ||| ('\u{112f0}' <= c && c <= '\u{112f9}')
    ||| ('\u{11450}' <= c && c <= '\u{11459}')
    ||| ('\u{114d0}' <= c && c <= '\u{114d9}')
    ||| ('\u{11650}' <= c && c <= '\u{11659}')
    ||| ('\u{116c0}' <= c && c <= '\u{116c9}')
    ||| ('\u{116d0}' <= c && c <= '\u{116e3}')
    ||| ('\u{11730}' <= c && c <= '\u{11739}')
    ||| ('\u{118e0}' <= c && c <= '\u{118e9}')
    ||| ('\u{11950}' <= c && c <= '\u{11959}')
    ||| ('\u{11bf0}' <= c && c <= '\u{11bf9}')
    ||| ('\u{11c50}' <= c && c <= '\u{11c59}')
    ||| ('\u{11d50}' <= c && c <= '\u{11d59}')
    ||| ('\u{11da0}' <= c && c <= '\u{11da9}')
    ||| ('\u{11f50}' <= c && c <= '\u{11f59}')
    ||| ('\u{16130}' <= c && c <= '\u{16139}')
    ||| ('\u{16a60}' <= c && c <= '\u{16a69}')
    ||| ('\u{16ac0}' <= c && c <= '\u{16ac9}')
    ||| ('\u{16b50}' <= c && c <= '\u{16b59}')
    ||| ('\u{16d70}' <= c && c <= '\u{16d79}')
    ||| ('\u{1ccf0}' <= c && c <= '\u{1ccf9}')
    ||| ('\u{1d7ce}' <= c && c <= '\u{1d7ff}')
    ||| ('\u{1e140}' <= c && c <= '\u{1e149}')
    ||| ('\u{1e2f0}' <= c && c <= '\u{1e2f9}')
    ||| ('\u{1e4f0}' <= c && c <= '\u{1e4f9}')
    ||| ('\u{1e5f1}' <= c && c <= '\u{1e5fa}')
    ||| ('\u{1e950}' <= c && c <= '\u{1e959}')
    ||| ('\u{1fbf0}' <= c && c <= '\u{1fbf9}')
}

pub fn char_is_decimal_number(c: char) -> (r: bool)
    ensures
        r == is_decimal_number(c),
{
    ('\u{30}' <= c && c <= '\u{39}') ||
        ('\u{660}' <= c && c <= '\u{669}') ||
        ('\u{6f0}' <= c && c <= '\u{6f9}') ||
        ('\u{7c0}' <= c && c <= '\u{7c9}') ||
        ('\u{966}' <= c && c <= '\u{96f}') ||
        ('\u{9e6}' <= c && c <= '\u{9ef}') ||
        ('\u{a66}' <= c && c <= '\u{a6f}') ||
        ('\u{ae6}' <= c && c <= '\u{aef}') ||
        ('\u{b66}' <= c && c <= '\u{b6f}') ||
        ('\u{be6}' <= c && c <= '\u{bef}') ||
        ('\u{c66}' <= c && c <= '\u{c6f}') ||
        ('\u{ce6}' <= c && c <= '\u{cef}') ||
        ('\u{d66}' <= c && c <= '\u{d6f}') ||
        ('\u{de6}' <= c && c <= '\u{def}') ||
        ('\u{e50}' <= c && c <= '\u{e59}') ||
        ('\u{ed0}' <= c && c <= '\u{ed9}') ||
        ('\u{f20}' <= c && c <= '\u{f29}') ||
        ('\u{1040}' <= c && c <= '\u{1049}') ||
        ('\u{1090}' <= c && c <= '\u{1099}') ||
        ('\u{17e0}' <= c && c <= '\u{17e9}') ||
        ('\u{1810}' <= c && c <= '\u{1819}') ||
        ('\u{1946}' <= c && c <= '\u{194f}') ||
        ('\u{19d0}' <= c && c <= '\u{19d9}') ||
        ('\u{1a80}' <= c && c <= '\u{1a89}') ||
        ('\u{1a90}' <= c && c <= '\u{1a99}') ||
        ('\u{1b50}' <= c && c <= '\u{1b59}') ||
        ('\u{1bb0}' <= c && c <= '\u{1bb9}') ||
        ('\u{1c40}' <= c && c <= '\u{1c49}') ||
        ('\u{1c50}' <= c && c <= '\u{1c59}') ||
        ('\u{a620}' <= c && c <= '\u{a629}') ||
        ('\u{a8d0}' <= c && c <= '\u{a8d9}') ||
        ('\u{a900}' <= c && c <= '\u{a909}') ||
        ('\u{a9d0}' <= c && c <= '\u{a9d9}') ||
        ('\u{a9f0}' <= c && c <= '\u{a9f9}') ||
        ('\u{aa50}' <= c && c <= '\u{aa59}') ||
        ('\u{abf0}' <= c && c <= '\u{abf9}') ||
        ('\u{ff10}' <= c && c <= '\u{ff19}') ||
        ('\u{104a0}' <= c && c <= '\u{104a9}') ||
        ('\u{10d30}' <= c && c <= '\u{10d39}') ||
        ('\u{10d40}' <= c && c <= '\u{10d49}') ||
        ('\u{11066}' <= c && c <= '\u{1106f}') ||
        ('\u{110f0}' <= c && c <= '\u{110f9}') ||
        ('\u{11136}' <= c && c <= '\u{1113f}') ||
        ('\u{111d0}' <= c && c <= '\u{111d9}') ||
        ('\u{112f0}' <= c && c <= '\u{112f9}') ||
        ('\u{11450}' <= c && c <= '\u{11459}') ||
        ('\u{114d0}' <= c && c <= '\u{114d9}') ||
        ('\u{11650}' <= c && c <= '\u{11659}') ||
        ('\u{116c0}' <= c && c <= '\u{116c9}') ||
        ('\u{116d0}' <= c && c <= '\u{116e3}') ||
        ('\u{11730}' <= c && c <= '\u{11739}') ||
        ('\u{118e0}' <= c && c <= '\u{118e9}') ||
        ('\u{11950}' <= c && c <= '\u{11959}') ||
        ('\u{11bf0}' <= c && c <= '\u{11bf9}') ||
        ('\u{11c50}' <= c && c <= '\u{11c59}') ||
        ('\u{11d50}' <= c && c <= '\u{11d59}') ||
        ('\u{11da0}' <= c && c <= '\u{11da9}') ||
        ('\u{11f50}' <= c && c <= '\u{11f59}') ||
        ('\u{16130}' <= c && c <= '\u{16139}') ||
        ('\u{16a60}' <= c && c <= '\u{16a69}') ||
        ('\u{16ac0}' <= c && c <= '\u{16ac9}') ||
        ('\u{16b50}' <= c && c <= '\u{16b59}') ||
        ('\u{16d70}' <= c && c <= '\u{16d79}') ||
        ('\u{1ccf0}' <= c && c <= '\u{1ccf9}') ||
        ('\u{1d7ce}' <= c && c <= '\u{1d7ff}') ||
        ('\u{1e140}' <= c && c <= '\u{1e149}') ||
        ('\u{1e2f0}' <= c && c <= '\u{1e2f9}') ||
        ('\u{1e4f0}' <= c && c <= '\u{1e4f9}') ||
        ('\u{1e5f1}' <= c && c <= '\u{1e5fa}') ||
        ('\u{1e950}' <= c && c <= '\u{1e959}') ||
        ('\u{1fbf0}' <= c && c <= '\u{1fbf9}')
}

/// Whether every character of a sequence is an ASCII decimal digit.
pub open spec fn all_digits(s: Seq<char>) -> bool {
    forall|i: int| 0 <= i < s.len() ==> is_digit(#[trigger] s[i])
}

/// Unicode `White_Space` characters: what `char::is_whitespace`, `str::trim`
/// and the `\s` class of a Unicode regular expression treat as white space.
pub open spec fn is_space(c: char) -> bool {
    ||| ('\u{9}' <= c && c <= '\u{d}')
    ||| c == ' '
    ||| c == '\u{85}'
    ||| c == '\u{a0}'
    ||| c == '\u{1680}'
    ||| ('\u{2000}' <= c && c <= '\u{200a}')
    ||| c == '\u{2028}'
    ||| c == '\u{2029}'
    ||| c == '\u{202f}'
    ||| c == '\u{205f}'
    ||| c == '\u{3000}'
}

pub fn char_is_space(c: char) -> (r: bool)
    ensures
        r == is_space(c),
{
    ('\u{9}' <= c && c <= '\u{d}') || c == ' ' || c == '\u{85}' || c == '\u{a0}'
        || c == '\u{1680}' || ('\u{2000}' <= c && c <= '\u{200a}') || c == '\u{2028}'
        || c == '\u{2029}' || c == '\u{202f}' || c == '\u{205f}' || c == '\u{3000}'
}

pub fn char_is_digit(c: char) -> (r: bool)
    ensures
        r == is_digit(c),
{
    '0' <= c && c <= '9'
}

/// Whether `n` occurs in `h` starting at position `i`.
pub open spec fn occurs_at(h: Seq<char>, n: Seq<char>, i: int) -> bool {
    0 <= i && i + n.len() <= h.len() && h.subrange(i, i + n.len()) == n
}

/// Whether `n` occurs somewhere in `h`.
pub open spec fn contains_seq(h: Seq<char>, n: Seq<char>) -> bool {
    exists|i: int| occurs_at(h, n, i)
}

/// Whether `h` begins with `n`.
pub open spec fn starts_with(h: Seq<char>, n: Seq<char>) -> bool {
    occurs_at(h, n, 0)
}

/// The characters of a string, as a vector.
pub fn chars_of(s: &str) -> (v: Vec<char>)
    ensures
        v@ == s@,
{
    let mut v: Vec<char> = Vec::new();
    for c in it: s.chars()
        invariant
            v@ == it.seq().take(it.index() as int),
            it.seq() == s@,
    {
        v.push(c);
    }
    v
}

/// Appends one character to a string (`String::push`).
#[verifier::external_body]
pub(crate) fn push_char(s: &mut String, c: char)
    ensures
        final(s)@ == old(s)@.push(c),
{
    s.push(c);
}

/// A string holding exactly the given characters.
pub fn string_of(v: &[char]) -> (s: String)
    ensures
        s@ == v@,
{
    let mut s = String::new();
    let mut i: usize = 0;
    while i < v.len()
        invariant
            i <= v@.len(),
            s@ == v@.take(i as int),
        decreases v@.len() - i,
    {
        push_char(&mut s, v[i]);
        proof {
            assert(v@.take(i + 1) == v@.take(i as int).push(v@[i as int]));
        }
        i = i + 1;
    }
    proof {
        assert(v@.take(v@.len() as int) == v@);
    }
    s
}

/// Appends the characters of `src` to `dst`.
pub fn extend_chars(dst: &mut Vec<char>, src: &[char])
    ensures
        final(dst)@ == old(dst)@ + src@,
{
    let mut i: usize = 0;
    while i < src.len()
        invariant
            i <= src@.len(),
            dst@ == old(dst)@ + src@.take(i as int),
        decreases src@.len() - i,
    {
        dst.push(src[i]);
        proof {
            assert(src@.take(i + 1) == src@.take(i as int).push(src@[i as int]));
        }
        i = i + 1;
    }
    proof {
        assert(src@.take(src@.len() as int) == src@);
    }
}

pub fn same_chars(a: &[char], b: &[char]) -> (r: bool)
    ensures
        r == (a@ == b@),
{
    if a.len() != b.len() {
        return false;
    }
    let mut i: usize = 0;
    while i < a.len()
        invariant
            a@.len() == b@.len(),
            i <= a@.len(),
            forall|j: int| 0 <= j < i ==> a@[j] == b@[j],
        decreases a@.len() - i,
    {
        if a[i] != b[i] {
            return false;
        }
        i = i + 1;
    }
    assert(a@ =~= b@);
    true
}

/// Whether the characters of `s` spell the literal `lit`.
pub fn eq_literal(s: &[char], lit: &str) -> (r: bool)
    ensures
        r == (s@ == lit@),
{
    let l = chars_of(lit);
    same_chars(s, l.as_slice())
}

/// Whether `n` occurs in `h` at position `i`.
pub fn matches_at(h: &[char], n: &[char], i: usize) -> (r: bool)
    ensures
        r == occurs_at(h@, n@, i as int),
{
    if i > h.len() || n.len() > h.len() - i {
        return false;
    }
    let mut k: usize = 0;
    while k < n.len()
        invariant
            i + n@.len() <= h@.len(),
            i + n.len() <= h.len(),
            k <= n@.len(),
            forall|j: int| 0 <= j < k ==> h@[i + j] == n@[j],
        decreases n@.len() - k,
    {
        if h[i + k] != n[k] {
            proof {
                assert(h@.subrange(i as int, i + n@.len())[k as int] != n@[k as int]);
            }
            return false;
        }
        k = k + 1;
    }
    proof {
        assert(h@.subrange(i as int, i + n@.len()) =~= n@);
    }
    true
}

/// Index of the first occurrence of `n` in `h` at or after `from`.
pub open spec fn find_seq(h: Seq<char>, n: Seq<char>, from: int) -> Option<int>
    decreases h.len() + 1 - from,
{
    if from < 0 || from > h.len() {
        None
    } else if occurs_at(h, n, from) {
        Some(from)
    } else {
        find_seq(h, n, from + 1)
    }
}

/// Position of the first occurrence of `n` in `h` at or after `from`.
pub fn find_from(h: &[char], n: &[char], from: usize) -> (r: Option<usize>)
    ensures
        match r {
            Some(i) => find_seq(h@, n@, from as int) == Some(i as int),
            None => find_seq(h@, n@, from as int) is None,
        },
        match r {
            Some(i) => from <= i && occurs_at(h@, n@, i as int) && forall|j: int|
                from <= j < i ==> !occurs_at(h@, n@, j),
            None => forall|j: int| from <= j ==> !occurs_at(h@, n@, j),
        },
{
    let mut i: usize = from;
    if from > h.len() {
        return None;
    }
    while i <= h.len()
        invariant
            from <= i,
            i <= h@.len(),
            find_seq(h@, n@, from as int) == find_seq(h@, n@, i as int),
            forall|j: int| from <= j < i ==> !occurs_at(h@, n@, j),
        decreases h@.len() + 1 - i,
    {
        if matches_at(h, n, i) {
            return Some(i);
        }
        if i == h.len() {
            assert(find_seq(h@, n@, i + 1) is None);
            return None;
        }
        i = i + 1;
    }
    None
}

/// Whether `n` occurs anywhere in `h`.
pub fn contains_chars(h: &[char], n: &[char]) -> (r: bool)
    ensures
        r == contains_seq(h@, n@),
{
    match find_from(h, n, 0) {
        Some(_) => true,
        None => {
            assert forall|i: int| !occurs_at(h@, n@, i) by {
                if 0 <= i {
                } else {
                }
            }
            false
        },
    }
}

/// Whether the literal `lit` occurs anywhere in `h`.
pub fn contains_lit(h: &[char], lit: &str) -> (r: bool)
    ensures
        r == contains_seq(h@, lit@),
{
    let n = chars_of(lit);
    contains_chars(h, n.as_slice())
}

/// A copy of a string with the same characters.
pub fn copy_string(s: &String) -> (r: String)
    ensures
        r == *s,
{
    s.clone()
}

/// A copy of an optional string with the same characters.
pub fn copy_opt_string(s: &Option<String>) -> (r: Option<String>)
    ensures
        r == *s,
{
    match s {
        Some(x) => Some(x.clone()),
        None => None,
    }
}

/// Decimal spelling of a natural number, without leading zeros.
pub open spec fn decimal(n: nat) -> Seq<char>
    decreases n,
{
    if n < 10 {
        seq![digit_char((n % 10) as nat)]
    } else {
        decimal(n / 10).push(digit_char((n % 10) as nat))
    }
}

/// The ASCII digit for a value below ten.
pub open spec fn digit_char(d: nat) -> char {
    if d == 0 { '0' }
    else if d == 1 { '1' }
    else if d == 2 { '2' }
    else if d == 3 { '3' }
    else if d == 4 { '4' }
    else if d == 5 { '5' }
    else if d == 6 { '6' }
    else if d == 7 { '7' }
    else if d == 8 { '8' }
    else { '9' }
}

fn digit_of(d: u64) -> (c: char)
    requires
        d < 10,
    ensures
        c == digit_char(d as nat),
{
    if d == 0 { '0' }
    else if d == 1 { '1' }
    else if d == 2 { '2' }
    else if d == 3 { '3' }
    else if d == 4 { '4' }
    else if d == 5 { '5' }
    else if d == 6 { '6' }
    else if d == 7 { '7' }
    else if d == 8 { '8' }
    else { '9' }
}

/// Appends the decimal spelling of `n` to `out`.
pub fn push_decimal(out: &mut Vec<char>, n: u64)
    ensures
        final(out)@ == old(out)@ + decimal(n as nat),
    decreases n,
{
    if n < 10 {
        out.push(digit_of(n));
        assert(decimal(n as nat) == seq![digit_char(n as nat)]);
    } else {
        push_decimal(out, n / 10);
        out.push(digit_of(n % 10));
    }
}

/// Appends a literal's characters to `out`.
pub fn push_str(out: &mut Vec<char>, s: &str)
    ensures
        final(out)@ == old(out)@ + s@,
{
    let v = chars_of(s);
    extend_chars(out, v.as_slice());
}

/// The decimal spelling of `n` as a string.
pub fn decimal_string(n: u64) -> (s: String)
    ensures
        s@ == decimal(n as nat),
{
    let mut v: Vec<char> = Vec::new();
    push_decimal(&mut v, n);
    assert(v@ == decimal(n as nat));
    string_of(v.as_slice())
}

/// Length of the run of white space of `s` from `i`.
pub open spec fn space_run(s: Seq<char>, i: int) -> nat
    decreases s.len() - i,
{
    if 0 <= i < s.len() && is_space(s[i]) { 1 + space_run(s, i + 1) } else { 0 }
}

/// Length of the run of white space of `s` that ends right before `e`.
pub open spec fn space_run_back(s: Seq<char>, e: int) -> nat
    decreases e,
{
    if 0 < e <= s.len() && is_space(s[e - 1]) { 1 + space_run_back(s, e - 1) } else { 0 }
}

/// `str::trim`: the text without leading and trailing white space.
pub open spec fn trim(s: Seq<char>) -> Seq<char> {
    let lead = space_run(s, 0);
    if lead >= s.len() {
        Seq::empty()
    } else {
        s.subrange(lead as int, s.len() - space_run_back(s, s.len() as int))
    }
}

pub fn space_run_exec(s: &[char], i: usize) -> (r: usize)
    requires
        i <= s@.len(),
    ensures
        r == space_run(s@, i as int),
        i + r <= s@.len(),
{
    let mut k: usize = i;
    while k < s.len() && char_is_space(s[k])
        invariant
            i <= k <= s@.len(),
            space_run(s@, i as int) == (k - i) + space_run(s@, k as int),
        decreases s@.len() - k,
    {
        k = k + 1;
    }
    k - i
}

pub fn space_run_back_exec(s: &[char], e: usize) -> (r: usize)
    requires
        e <= s@.len(),
    ensures
        r == space_run_back(s@, e as int),
        r <= e,
{
    let mut k: usize = e;
    while k > 0 && char_is_space(s[k - 1])
        invariant
            k <= e,
            e <= s@.len(),
            space_run_back(s@, e as int) == (e - k) + space_run_back(s@, k as int),
        decreases k,
    {
        k = k - 1;
    }
    e - k
}

pub fn copy_range(s: &[char], from: usize, to: usize) -> (r: Vec<char>)
    requires
        from <= to <= s@.len(),
    ensures
        r@ == s@.subrange(from as int, to as int),
{
    let mut out: Vec<char> = Vec::new();
    let mut k: usize = from;
    while k < to
        invariant
            from <= k <= to,
            to <= s.len(),
            out@ == s@.subrange(from as int, k as int),
        decreases to - k,
    {
        out.push(s[k]);
        proof {
            assert(s@.subrange(from as int, k + 1) == s@.subrange(from as int, k as int).push(s@[k as int]));
        }
        k = k + 1;
    }
    out
}

/// `str::trim` on a character vector.
pub fn trim_chars(s: &[char]) -> (r: Vec<char>)
    ensures
        r@ == trim(s@),
{
    let lead = space_run_exec(s, 0);
    if lead >= s.len() {
        return Vec::new();
    }
    let trail = space_run_back_exec(s, s.len());
    proof {
        lemma_back_run_stops(s@, lead as int);
    }
    copy_range(s, lead, s.len() - trail)
}

proof fn lemma_back_run_stops(s: Seq<char>, lead: int)
    requires
        lead == space_run(s, 0),
        lead < s.len(),
    ensures
        lead <= s.len() - space_run_back(s, s.len() as int),
{
    lemma_run_stops_at(s, 0);
    lemma_back_run_bound(s, s.len() as int, lead);
}

pub proof fn lemma_run_stops_at(s: Seq<char>, i: int)
    requires
        0 <= i,
        i + space_run(s, i) < s.len(),
    ensures
        !is_space(s[i + space_run(s, i)]),
    decreases s.len() - i,
{
    if i < s.len() && is_space(s[i]) {
        lemma_run_stops_at(s, i + 1);
    }
}

proof fn lemma_back_run_bound(s: Seq<char>, e: int, p: int)
    requires
        0 <= p < e <= s.len(),
        !is_space(s[p]),
    ensures
        space_run_back(s, e) <= e - p - 1,
    decreases e,
{
    if is_space(s[e - 1]) {
        lemma_back_run_bound(s, e - 1, p);
    }
}


/// Length of the run of characters other than `c` in `s` from `i`.
pub open spec fn run_without(s: Seq<char>, i: int, c: char) -> nat
    decreases s.len() - i,
{
    if 0 <= i < s.len() && s[i] != c { 1 + run_without(s, i + 1, c) } else { 0 }
}

/// Length of the run of characters other than `c` from `i`.
pub fn run_without_exec(s: &[char], i: usize, c: char) -> (r: usize)
    requires
        i <= s@.len(),
    ensures
        r == run_without(s@, i as int, c),
        i + r <= s@.len(),
{
    let mut k: usize = i;
    while k < s.len() && s[k] != c
        invariant
            i <= k <= s@.len(),
            run_without(s@, i as int, c) == (k - i) + run_without(s@, k as int, c),
        decreases s@.len() - k,
    {
        k = k + 1;
    }
    k - i
}

pub proof fn lemma_run_without_shift(s: Seq<char>, start: int, i: int, c: char)
    requires
        0 <= start <= s.len(),
        0 <= i,
    ensures
        run_without(s.skip(start), i, c) == run_without(s, start + i, c),
    decreases s.len() - start - i,
{
    if start + i < s.len() && s[start + i] != c {
        lemma_run_without_shift(s, start, i + 1, c);
    }
}

pub proof fn lemma_space_run_bound(s: Seq<char>, i: int)
    requires
        0 <= i <= s.len(),
    ensures
        i + space_run(s, i) <= s.len(),
    decreases s.len() - i,
{
    if i < s.len() && is_space(s[i]) {
        lemma_space_run_bound(s, i + 1);
    }
}

pub proof fn lemma_space_run_shift(s: Seq<char>, start: int, i: int)
    requires
        0 <= start <= s.len(),
        0 <= i,
    ensures
        space_run(s.skip(start), i) == space_run(s, start + i),
    decreases s.len() - start - i,
{
    if start + i < s.len() && is_space(s[start + i]) {
        lemma_space_run_shift(s, start, i + 1);
    }
}

proof fn lemma_space_run_exact(s: Seq<char>, i: int, m: int)
    requires
        0 <= i,
        0 <= m,
        i + m <= s.len(),
        forall|k: int| i <= k < i + m ==> is_space(#[trigger] s[k]),
        i + m < s.len() ==> !is_space(s[i + m]),
    ensures
        space_run(s, i) == m,
    decreases m,
{
    if m > 0 {
        lemma_space_run_exact(s, i + 1, m - 1);
    }
}

proof fn lemma_space_run_back_exact(s: Seq<char>, e: int, m: int)
    requires
        0 <= m <= e <= s.len(),
        forall|k: int| e - m <= k < e ==> is_space(#[trigger] s[k]),
        e - m > 0 ==> !is_space(s[e - m - 1]),
    ensures
        space_run_back(s, e) == m,
    decreases m,
{
    if m > 0 {
        lemma_space_run_back_exact(s, e - 1, m - 1);
    }
}

/// White space around a text whose first and last characters are not white
/// space is what `trim` removes.
pub proof fn lemma_trim_padded(lead: Seq<char>, core: Seq<char>, trail: Seq<char>)
    requires
        core.len() > 0,
        !is_space(core[0]),
        !is_space(core.last()),
        forall|k: int| 0 <= k < lead.len() ==> is_space(#[trigger] lead[k]),
        forall|k: int| 0 <= k < trail.len() ==> is_space(#[trigger] trail[k]),
    ensures
        trim(lead + core + trail) == core,
{
    let s = lead + core + trail;
    let a = lead.len() as int;
    let b = a + core.len();
    assert forall|k: int| 0 <= k < a implies is_space(#[trigger] s[k]) by {
        assert(s[k] == lead[k]);
    }
    assert(s[a] == core[0]);
    lemma_space_run_exact(s, 0, a);
    assert forall|k: int| b <= k < s.len() implies is_space(#[trigger] s[k]) by {
        assert(s[k] == trail[k - b]);
    }
    assert(s[b - 1] == core.last());
    lemma_space_run_back_exact(s, s.len() as int, s.len() - b);
    assert(s.subrange(a, b) =~= core);
}

proof fn lemma_sorted_rest_set(s: Seq<Seq<char>>, x: Seq<char>)
    requires
        strictly_sorted(s),
        s.len() > 0,
    ensures
        s.drop_first().to_set().contains(x) == (s.to_set().contains(x) && x != s[0]),
{
    if s.drop_first().to_set().contains(x) {
        let k = choose|k: int| 0 <= k < s.drop_first().len() && s.drop_first()[k] == x;
        assert(s[k + 1] == x);
        assert(s.contains(x));
        assert(lex_lt(s[0], s[k + 1]));
        lemma_lex_irreflexive(x);
    }
    if s.to_set().contains(x) && x != s[0] {
        assert(s.contains(x));
        let k = choose|k: int| 0 <= k < s.len() && s[k] == x;
        assert(k != 0);
        assert(s.drop_first()[k - 1] == x);
        assert(s.drop_first().contains(x));
    }
}

/// Two strictly sorted sequences of texts with the same elements are equal.
pub proof fn lemma_sorted_unique(s: Seq<Seq<char>>, t: Seq<Seq<char>>)
    requires
        strictly_sorted(s),
        strictly_sorted(t),
        s.to_set() == t.to_set(),
    ensures
        s == t,
    decreases s.len(),
{
    if s.len() == 0 {
        if t.len() > 0 {
            assert(t.to_set().contains(t[0]));
            assert(!s.contains(t[0]));
        }
        assert(s =~= t);
    } else {
        assert(s.to_set().contains(s[0]));
        assert(t.contains(s[0]));
        let j = choose|j: int| 0 <= j < t.len() && t[j] == s[0];
        assert(t.to_set().contains(t[0]));
        assert(s.contains(t[0]));
        let i = choose|i: int| 0 <= i < s.len() && s[i] == t[0];
        if j > 0 {
            assert(lex_lt(t[0], t[j]));
            if i > 0 {
                assert(lex_lt(s[0], s[i]));
                lemma_lex_asymmetric(t[0], t[j]);
            } else {
                lemma_lex_irreflexive(t[0]);
            }
        }
        assert(t[0] == s[0]);
        let s1 = s.drop_first();
        let t1 = t.drop_first();
        assert forall|x: Seq<char>| s1.to_set().contains(x) == t1.to_set().contains(x) by {
            lemma_sorted_rest_set(s, x);
            lemma_sorted_rest_set(t, x);
        }
        assert(s1.to_set() =~= t1.to_set());
        assert(strictly_sorted(s1)) by {
            assert forall|a: int, b: int| 0 <= a < b < s1.len() implies lex_lt(#[trigger] s1[a], #[trigger] s1[b]) by {
                assert(s1[a] == s[a + 1] && s1[b] == s[b + 1]);
            }
        }
        assert(strictly_sorted(t1)) by {
            assert forall|a: int, b: int| 0 <= a < b < t1.len() implies lex_lt(#[trigger] t1[a], #[trigger] t1[b]) by {
                assert(t1[a] == t[a + 1] && t1[b] == t[b + 1]);
            }
        }
        lemma_sorted_unique(s1, t1);
        assert(s =~= seq![s[0]] + s1);
        assert(t =~= seq![t[0]] + t1);
    }
}

/// Whether every character of a text is ASCII.
pub open spec fn is_ascii_text(s: Seq<char>) -> bool {
    forall|i: int| 0 <= i < s.len() ==> (s[i] as u32) < 128
}

/// The ASCII lower-case form of a character: `A`-`Z` become `a`-`z`.
pub open spec fn ascii_lower(c: char) -> char {
    if 'A' <= c && c <= 'Z' {
        ((c as u32) + 32) as char
    } else {
        c
    }
}

/// Lower-case form of a text that is not all ASCII, as `str::to_lowercase`
/// computes it.
pub uninterp spec fn unicode_lowercase(s: Seq<char>) -> Seq<char>;

/// Lower-case form of a text as `str::to_lowercase` computes it: for an
/// ASCII text, each upper-case letter made lower-case.
pub open spec fn lowercase(s: Seq<char>) -> Seq<char> {
    if is_ascii_text(s) {
        s.map_values(|c: char| ascii_lower(c))
    } else {
        unicode_lowercase(s)
    }
}

/// `str::to_lowercase`: the Unicode lower-case mapping of every character.
/// On ASCII text it lowers `A`-`Z` and keeps the rest, as its documentation
/// describes; for other text the result is named `unicode_lowercase`, and
/// the Unicode tables behind it (with their context rules) are not restated
/// here.
#[verifier::external_body]
pub(crate) fn to_lowercase(s: &str) -> (r: String)
    ensures
        is_ascii_text(s@) ==> r@ == s@.map_values(|c: char| ascii_lower(c)),
        !is_ascii_text(s@) ==> r@ == unicode_lowercase(s@),
        r@ == lowercase(s@),
{
    s.to_lowercase()
}

} // verus!

verus! {

/// The texts of a list of strings.
pub open spec fn string_views(v: Seq<String>) -> Seq<Seq<char>> {
    v.map_values(|s: String| s@)
}

/// The texts of a list of strings, as a set.
pub open spec fn id_set(v: Seq<String>) -> Set<Seq<char>> {
    string_views(v).to_set()
}

/// Lexicographic order of character sequences by code point, which is the
/// order in which `String`'s `Ord` compares their UTF-8 encodings.
pub open spec fn lex_lt(a: Seq<char>, b: Seq<char>) -> bool
    decreases a.len(),
{
    if a.len() == 0 {
        b.len() > 0
    } else if b.len() == 0 {
        false
    } else if a[0] < b[0] {
        true
    } else if a[0] > b[0] {
        false
    } else {
        lex_lt(a.drop_first(), b.drop_first())
    }
}

/// Every element is strictly below every later one.
pub open spec fn strictly_sorted(s: Seq<Seq<char>>) -> bool {
    forall|i: int, j: int| 0 <= i < j < s.len() ==> lex_lt(#[trigger] s[i], #[trigger] s[j])
}

pub proof fn lemma_lex_irreflexive(a: Seq<char>)
    ensures
        !lex_lt(a, a),
    decreases a.len(),
{
    if a.len() > 0 {
        lemma_lex_irreflexive(a.drop_first());
    }
}

pub proof fn lemma_lex_transitive(a: Seq<char>, b: Seq<char>, c: Seq<char>)
    requires
        lex_lt(a, b),
        lex_lt(b, c),
    ensures
        lex_lt(a, c),
    decreases a.len(),
{
    if a.len() > 0 && b.len() > 0 && c.len() > 0 {
        if a[0] == b[0] && b[0] == c[0] {
            lemma_lex_transitive(a.drop_first(), b.drop_first(), c.drop_first());
        }
    }
}

pub proof fn lemma_lex_total(a: Seq<char>, b: Seq<char>)
    requires
        a != b,
    ensures
        lex_lt(a, b) || lex_lt(b, a),
    decreases a.len(),
{
    if a.len() > 0 && b.len() > 0 {
        if a[0] == b[0] {
            if a.drop_first() == b.drop_first() {
                assert(a =~= seq![a[0]] + a.drop_first());
                assert(b =~= seq![b[0]] + b.drop_first());
            }
            lemma_lex_total(a.drop_first(), b.drop_first());
        }
    } else if a.len() == 0 && b.len() == 0 {
        assert(a =~= b);
    }
}

pub proof fn lemma_lex_asymmetric(a: Seq<char>, b: Seq<char>)
    requires
        lex_lt(a, b),
    ensures
        !lex_lt(b, a),
{
    if lex_lt(b, a) {
        lemma_lex_transitive(a, b, a);
        lemma_lex_irreflexive(a);
    }
}

/// Whether `a` comes strictly before `b` in code-point order.
pub fn chars_lt(a: &[char], b: &[char]) -> (r: bool)
    ensures
        r == lex_lt(a@, b@),
{
    let mut k: usize = 0;
    proof {
        assert(a@.skip(0) =~= a@);
        assert(b@.skip(0) =~= b@);
    }
    while k < a.len() && k < b.len() && a[k] == b[k]
        invariant
            k <= a@.len(),
            k <= b@.len(),
            lex_lt(a@, b@) == lex_lt(a@.skip(k as int), b@.skip(k as int)),
        decreases a@.len() - k,
    {
        proof {
            assert(a@.skip(k + 1) =~= a@.skip(k as int).drop_first());
            assert(b@.skip(k + 1) =~= b@.skip(k as int).drop_first());
        }
        k = k + 1;
    }
    proof {
        let sa = a@.skip(k as int);
        let sb = b@.skip(k as int);
        if k < a@.len() {
            assert(sa[0] == a@[k as int]);
        }
        if k < b@.len() {
            assert(sb[0] == b@[k as int]);
        }
    }
    if k == a.len() {
        k < b.len()
    } else if k == b.len() {
        false
    } else {
        a[k] < b[k]
    }
}

/// Inserts `x` into a strictly sorted vector unless it is already there.
pub fn insert_sorted_unique(v: &mut Vec<Vec<char>>, x: Vec<char>)
    requires
        strictly_sorted(old(v)@.map_values(|e: Vec<char>| e@)),
    ensures
        strictly_sorted(final(v)@.map_values(|e: Vec<char>| e@)),
        final(v)@.map_values(|e: Vec<char>| e@).to_set()
            == old(v)@.map_values(|e: Vec<char>| e@).to_set().insert(x@),
{
    let ghost vs = v@.map_values(|e: Vec<char>| e@);
    let mut p: usize = 0;
    while p < v.len() && chars_lt(v[p].as_slice(), x.as_slice())
        invariant
            p <= v@.len(),
            vs == v@.map_values(|e: Vec<char>| e@),
            strictly_sorted(vs),
            forall|k: int| 0 <= k < p ==> lex_lt(#[trigger] vs[k], x@),
        decreases v@.len() - p,
    {
        p = p + 1;
    }
    if p < v.len() && !chars_lt(x.as_slice(), v[p].as_slice()) {
        proof {
            if vs[p as int] != x@ {
                lemma_lex_total(vs[p as int], x@);
            }
            assert(vs[p as int] == x@);
            assert(vs.to_set().contains(x@));
            assert(vs.to_set().insert(x@) =~= vs.to_set());
        }
        return;
    }
    v.insert(p, x);
    proof {
        let nv = v@.map_values(|e: Vec<char>| e@);
        assert(nv =~= vs.insert(p as int, x@));
        assert forall|i: int, j: int| 0 <= i < j < nv.len() implies lex_lt(#[trigger] nv[i], #[trigger] nv[j]) by {
            if j < p {
            } else if j == p {
                assert(nv[i] == vs[i]);
            } else if i < p {
                assert(nv[j] == vs[j - 1]);
                assert(lex_lt(x@, vs[p as int]));
                if j - 1 > p {
                    lemma_lex_transitive(x@, vs[p as int], vs[j - 1]);
                }
                lemma_lex_transitive(vs[i], x@, vs[j - 1]);
            } else if i == p {
                assert(lex_lt(x@, vs[p as int]));
                if j - 1 > p {
                    lemma_lex_transitive(x@, vs[p as int], vs[j - 1]);
                }
            } else {
                assert(nv[i] == vs[i - 1]);
                assert(nv[j] == vs[j - 1]);
            }
        }
        vs.insert_ensures(p as int, x@);
        assert forall|e: Seq<char>| nv.to_set().contains(e) <==> vs.to_set().insert(x@).contains(e) by {
            if nv.to_set().contains(e) {
                let k = choose|k: int| 0 <= k < nv.len() && nv[k] == e;
                if k < p {
                    assert(vs[k] == e);
                } else if k > p {
                    assert(vs[k - 1] == e);
                }
            }
            if vs.to_set().contains(e) {
                let k = choose|k: int| 0 <= k < vs.len() && vs[k] == e;
                if k < p {
                    assert(nv[k] == e);
                } else {
                    assert(nv[k + 1] == e);
                }
            }
            if e == x@ {
                assert(nv[p as int] == e);
            }
        }
        assert(nv.to_set() =~= vs.to_set().insert(x@));
    }
}

} // verus!
