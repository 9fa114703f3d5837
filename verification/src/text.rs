//! Conversions between strings and character vectors, and character classes
//! shared by the text-processing parts of the library.
use vstd::prelude::*;
use vstd::string::{StrSliceExecFns, StringExecFns};

verus! {

/// The characters of `s`, in order.
///
/// Trusted: wraps `Iterator::collect` over `str::chars`; claims the vector
/// holds exactly the characters of the string.
#[verifier::external_body]
pub(crate) fn chars_of(s: &str) -> (v: Vec<char>)
    ensures
        v@ == s@,
{
    s.chars().collect()
}

/// A string made of the given characters, in order.
///
/// Trusted: wraps `Iterator::collect` into a `String`; claims the string holds
/// exactly the given characters.
#[verifier::external_body]
pub(crate) fn string_from_chars(v: &[char]) -> (s: String)
    ensures
        s@ == v@,
{
    v.iter().collect()
}

/// Unicode `White_Space` property, as `char::is_whitespace` uses it.
pub open spec fn is_unicode_whitespace(c: char) -> bool {
    let u = c as u32;
    ||| 0x09 <= u <= 0x0d
    ||| u == 0x20
    ||| u == 0x85
    ||| u == 0xa0
    ||| u == 0x1680
    ||| 0x2000 <= u <= 0x200a
    ||| u == 0x2028
    ||| u == 0x2029
    ||| u == 0x202f
    ||| u == 0x205f
    ||| u == 0x3000
}

/// Whether `c` is Unicode white space.
pub fn is_whitespace(c: char) -> (r: bool)
    ensures
        r == is_unicode_whitespace(c),
{
    let u = c as u32;
    (0x09 <= u && u <= 0x0d) || u == 0x20 || u == 0x85 || u == 0xa0 || u == 0x1680 || (0x2000
        <= u && u <= 0x200a) || u == 0x2028 || u == 0x2029 || u == 0x202f || u == 0x205f || u
        == 0x3000
}

/// `p` is a prefix of `s`.
pub open spec fn seq_starts_with<T>(s: Seq<T>, p: Seq<T>) -> bool {
    p.len() <= s.len() && s.subrange(0, p.len() as int) == p
}

/// Whether the characters of `s` from `start` on begin with `p`.
pub fn chars_start_with(s: &[char], start: usize, p: &[char]) -> (r: bool)
    requires
        start <= s@.len(),
    ensures
        r == seq_starts_with(s@.subrange(start as int, s@.len() as int), p@),
{
    let n = s.len();
    if p.len() > n - start {
        return false;
    }
    let mut i: usize = 0;
    while i < p.len()
        invariant
            n == s@.len(),
            i <= p@.len(),
            start + p@.len() <= s@.len(),
            forall|j: int| 0 <= j < i ==> s@[start + j] == p@[j],
        decreases p@.len() - i,
    {
        assert(start + i < s@.len());
        if s[start + i] != p[i] {
            proof {
                let t = s@.subrange(start as int, s@.len() as int);
                assert(t.subrange(0, p@.len() as int)[i as int] != p@[i as int]);
            }
            return false;
        }
        i = i + 1;
    }
    proof {
        let t = s@.subrange(start as int, s@.len() as int);
        assert(t.subrange(0, p@.len() as int) =~= p@);
    }
    true
}

/// The characters of `v` from `from` up to `to`.
pub fn copy_range(v: &[char], from: usize, to: usize) -> (r: Vec<char>)
    requires
        from <= to <= v@.len(),
    ensures
        r@ == v@.subrange(from as int, to as int),
{
    let mut r: Vec<char> = Vec::new();
    let mut i = from;
    while i < to
        invariant
            from <= i <= to <= v@.len(),
            r@ == v@.subrange(from as int, i as int),
        decreases to - i,
    {
        r.push(v[i]);
        i = i + 1;
        assert(r@ =~= v@.subrange(from as int, i as int));
    }
    r
}

/// `p` occurs in `s` at some position.
pub open spec fn seq_contains_seq<T>(s: Seq<T>, p: Seq<T>) -> bool {
    exists|i: int| 0 <= i && i + p.len() <= s.len() && #[trigger] s.subrange(i, i + p.len()) == p
}

/// `p` is a suffix of `s`.
pub open spec fn seq_ends_with<T>(s: Seq<T>, p: Seq<T>) -> bool {
    p.len() <= s.len() && s.subrange(s.len() - p.len(), s.len() as int) == p
}

/// Whether two strings hold the same characters.
pub(crate) fn str_eq(a: &str, b: &str) -> (r: bool)
    ensures
        r == (a@ == b@),
{
    let x = chars_of(a);
    let y = chars_of(b);
    if x.len() != y.len() {
        return false;
    }
    let r = chars_start_with(x.as_slice(), 0, y.as_slice());
    proof {
        assert(x@.subrange(0, x@.len() as int) =~= x@);
        if r {
            assert(x@.subrange(0, y@.len() as int) =~= x@);
        }
    }
    r
}

/// Whether `s` begins with `p`.
pub(crate) fn str_starts_with(s: &str, p: &str) -> (r: bool)
    ensures
        r == seq_starts_with(s@, p@),
{
    let x = chars_of(s);
    let y = chars_of(p);
    let r = chars_start_with(x.as_slice(), 0, y.as_slice());
    assert(x@.subrange(0, x@.len() as int) =~= x@);
    r
}

/// Whether `s` ends with `p`.
pub(crate) fn str_ends_with(s: &str, p: &str) -> (r: bool)
    ensures
        r == seq_ends_with(s@, p@),
{
    let x = chars_of(s);
    let y = chars_of(p);
    if y.len() > x.len() {
        return false;
    }
    let start = x.len() - y.len();
    let r = chars_start_with(x.as_slice(), start, y.as_slice());
    proof {
        let t = x@.subrange(start as int, x@.len() as int);
        assert(t.subrange(0, y@.len() as int) =~= x@.subrange(start as int, x@.len() as int));
    }
    r
}

/// Whether `p` occurs in `s`.
pub(crate) fn str_contains(s: &str, p: &str) -> (r: bool)
    ensures
        r == seq_contains_seq(s@, p@),
{
    let x = chars_of(s);
    let y = chars_of(p);
    if y.len() > x.len() {
        proof {
            assert forall|i: int| 0 <= i && i + y@.len() <= x@.len() implies #[trigger] x@.subrange(i, i + y@.len()) != y@ by {}
        }
        return false;
    }
    let last = x.len() - y.len();
    let mut i: usize = 0;
    loop
        invariant
            x@ == s@,
            y@ == p@,
            y@.len() <= x@.len(),
            last == x@.len() - y@.len(),
            i <= last,
            forall|j: int| 0 <= j < i ==> #[trigger] x@.subrange(j, j + y@.len()) != y@,
        decreases last - i,
    {
        let found = chars_start_with(x.as_slice(), i, y.as_slice());
        proof {
            let t = x@.subrange(i as int, x@.len() as int);
            assert(t.subrange(0, y@.len() as int) =~= x@.subrange(i as int, i + y@.len()));
        }
        if found {
            return true;
        }
        if i == last {
            return false;
        }
        i = i + 1;
    }
}

/// `s` without the prefix `p`, if `s` begins with it.
///
/// Trusted: wraps `str::strip_prefix` with a string pattern.
#[verifier::external_body]
pub(crate) fn str_strip_prefix<'a>(s: &'a str, p: &str) -> (r: Option<&'a str>)
    ensures
        r is Some <==> seq_starts_with(s@, p@),
        r matches Some(rest) ==> rest@ == s@.subrange(p@.len() as int, s@.len() as int),
{
    s.strip_prefix(p)
}

/// The UTF-8 encoding of `s`.
pub open spec fn utf8_encode(s: Seq<char>) -> Seq<u8> {
    vstd::utf8::encode_utf8(s)
}

proof fn lemma_utf8_encode_len(s: Seq<char>)
    ensures
        utf8_encode(s).len() <= 4 * s.len(),
    decreases s.len(),
{
    if s.len() > 0 {
        lemma_utf8_encode_len(s.drop_first());
        assert(vstd::utf8::encode_scalar(s[0] as u32).len() <= 4);
    }
}

/// The UTF-8 bytes of `s`: at most four per character.
pub(crate) fn utf8_bytes(s: &str) -> (r: Vec<u8>)
    ensures
        r@ == utf8_encode(s@),
        r@.len() <= 4 * s@.len(),
{
    let r = s.as_bytes_vec();
    proof {
        lemma_utf8_encode_len(s@);
    }
    r
}

/// The characters of `a` followed by those of `b`.
pub(crate) fn concat(a: &str, b: &str) -> (r: String)
    ensures
        r@ == a@ + b@,
{
    let mut r = String::from_str(a);
    r.append(b);
    r
}

/// Whether the decision `f` answered `b` for the string `p`.
pub open spec fn answered<E: Fn(&str) -> bool>(f: E, p: Seq<char>, b: bool) -> bool {
    exists|s: &str| s@ == p && #[trigger] f.ensures((s,), b)
}

} // verus!
