//! `NSRegularExpression`: the guest's ranges, counted in UTF-16 code units,
//! turned into ranges of the host string, and the searches made on them.
use vstd::prelude::*;
use crate::text::{chars_of, string_from_chars};
use regex::Regex;

verus! {

/// A range of UTF-16 code units, as `NSRange` holds it.
#[derive(Clone, Copy, Debug, PartialEq, Eq, Structural)]
pub struct NSRange {
    pub location: u32,
    pub length: u32,
}

/// The number of UTF-8 bytes that encode `c`.
pub open spec fn utf8_char_len(c: char) -> nat {
    if (c as u32) < 0x80 {
        1
    } else if (c as u32) < 0x800 {
        2
    } else if (c as u32) < 0x10000 {
        3
    } else {
        4
    }
}

/// The number of UTF-16 code units that encode `c`.
pub open spec fn utf16_char_len(c: char) -> nat {
    if (c as u32) < 0x10000 {
        1
    } else {
        2
    }
}

/// The UTF-8 length of the first `i` characters of `cs`.
pub open spec fn utf8_prefix_len(cs: Seq<char>, i: int) -> nat
    decreases i,
{
    if i <= 0 {
        0
    } else {
        utf8_prefix_len(cs, i - 1) + utf8_char_len(cs[i - 1])
    }
}

/// The UTF-16 length of the first `i` characters of `cs`.
pub open spec fn utf16_prefix_len(cs: Seq<char>, i: int) -> nat
    decreases i,
{
    if i <= 0 {
        0
    } else {
        utf16_prefix_len(cs, i - 1) + utf16_char_len(cs[i - 1])
    }
}

/// Whether `u` UTF-16 units are exactly the first `i` characters of `cs`.
pub open spec fn is_utf16_boundary(cs: Seq<char>, i: int, u: int) -> bool {
    0 <= i <= cs.len() && utf16_prefix_len(cs, i) == u
}

/// The number of characters that make up the first `u` UTF-16 units of
/// `cs`, if `u` falls between two characters (or at the end).
pub open spec fn utf16_boundary(cs: Seq<char>, u: int) -> Option<int> {
    if exists|i: int| #[trigger] is_utf16_boundary(cs, i, u) {
        Some(choose|i: int| #[trigger] is_utf16_boundary(cs, i, u))
    } else {
        None
    }
}

/// The characters (first and past-the-last index) that the UTF-16 range
/// `location`, `length` covers in `cs`: none if the sum overflows `usize`,
/// if an end falls inside a character or past the end, or if the range
/// ends before it starts.
pub open spec fn utf16_char_range(cs: Seq<char>, location: int, length: int) -> Option<(int, int)> {
    if location + length > usize::MAX {
        None
    } else {
        match (utf16_boundary(cs, location), utf16_boundary(cs, location + length)) {
            (Some(i), Some(j)) => if i <= j {
                Some((i, j))
            } else {
                None
            },
            _ => None,
        }
    }
}

/// Prefixes of more characters are longer, in UTF-16 and in UTF-8.
pub proof fn lemma_prefix_len_strictly_increasing(cs: Seq<char>, i: int, j: int)
    requires
        0 <= i < j <= cs.len(),
    ensures
        utf16_prefix_len(cs, i) < utf16_prefix_len(cs, j),
        utf8_prefix_len(cs, i) < utf8_prefix_len(cs, j),
    decreases j - i,
{
    if i + 1 < j {
        lemma_prefix_len_strictly_increasing(cs, i, j - 1);
    }
}

proof fn lemma_boundary_unique(cs: Seq<char>, i: int, u: int)
    requires
        is_utf16_boundary(cs, i, u),
    ensures
        utf16_boundary(cs, u) == Some(i),
{
    let c = choose|k: int| #[trigger] is_utf16_boundary(cs, k, u);
    assert(is_utf16_boundary(cs, c, u));
    if c < i {
        lemma_prefix_len_strictly_increasing(cs, c, i);
    } else if i < c {
        lemma_prefix_len_strictly_increasing(cs, i, c);
    }
}

fn utf16_len_of(c: char) -> (r: u64)
    ensures
        r == utf16_char_len(c),
{
    if (c as u32) < 0x10000 {
        1
    } else {
        2
    }
}

fn utf8_len_of(c: char) -> (r: usize)
    ensures
        r == utf8_char_len(c),
{
    let v = c as u32;
    if v < 0x80 {
        1
    } else if v < 0x800 {
        2
    } else if v < 0x10000 {
        3
    } else {
        4
    }
}

/// The character boundaries at `start` and `end` UTF-16 units of `cs`.
fn utf16_boundaries(cs: &Vec<char>, start: u64, end: u64) -> (r: (Option<usize>, Option<usize>))
    requires
        start <= 0x2_0000_0000,
        end <= 0x2_0000_0000,
    ensures
        r.0 matches Some(i) ==> utf16_boundary(cs@, start as int) == Some(i as int),
        r.0 is None ==> utf16_boundary(cs@, start as int) is None,
        r.1 matches Some(j) ==> utf16_boundary(cs@, end as int) == Some(j as int),
        r.1 is None ==> utf16_boundary(cs@, end as int) is None,
{
    let n = cs.len();
    let limit: u64 = if start < end { end } else { start };
    let mut units: u64 = 0;
    let mut start_index: Option<usize> = None;
    let mut end_index: Option<usize> = None;
    let mut k: usize = 0;
    while k < n && units <= limit
        invariant
            n == cs@.len(),
            k <= n,
            limit <= 0x2_0000_0000,
            start <= limit,
            end <= limit,
            units == utf16_prefix_len(cs@, k as int),
            start_index matches Some(i) ==> i < k && is_utf16_boundary(cs@, i as int, start as int),
            start_index is None ==> forall|i: int| 0 <= i < k ==> !#[trigger] is_utf16_boundary(cs@, i, start as int),
            end_index matches Some(i) ==> i < k && is_utf16_boundary(cs@, i as int, end as int),
            end_index is None ==> forall|i: int| 0 <= i < k ==> !#[trigger] is_utf16_boundary(cs@, i, end as int),
        decreases n - k,
    {
        if units == start && start_index.is_none() {
            start_index = Some(k);
        }
        if units == end && end_index.is_none() {
            end_index = Some(k);
        }
        units = units + utf16_len_of(cs[k]);
        k = k + 1;
    }
    if units == start && start_index.is_none() {
        start_index = Some(k);
    }
    if units == end && end_index.is_none() {
        end_index = Some(k);
    }
    proof {
        match start_index {
            Some(i) => lemma_boundary_unique(cs@, i as int, start as int),
            None => {
                assert forall|i: int| !#[trigger] is_utf16_boundary(cs@, i, start as int) by {
                    if 0 <= i <= n && i > k {
                        lemma_prefix_len_strictly_increasing(cs@, k as int, i);
                    }
                }
            },
        }
        match end_index {
            Some(i) => lemma_boundary_unique(cs@, i as int, end as int),
            None => {
                assert forall|i: int| !#[trigger] is_utf16_boundary(cs@, i, end as int) by {
                    if 0 <= i <= n && i > k {
                        lemma_prefix_len_strictly_increasing(cs@, k as int, i);
                    }
                }
            },
        }
    }
    (start_index, end_index)
}

/// The characters of `cs` that the UTF-16 range covers (see
/// [utf16_char_range]).
fn utf16_range_to_char_range(cs: &Vec<char>, range: NSRange) -> (r: Option<(usize, usize)>)
    ensures
        r matches Some((i, j)) ==> utf16_char_range(cs@, range.location as int, range.length as int) == Some((i as int, j as int)),
        r is None ==> utf16_char_range(cs@, range.location as int, range.length as int) is None,
{
    let location = range.location as usize;
    if location.checked_add(range.length as usize).is_none() {
        return None;
    }
    let start = range.location as u64;
    let end = start + range.length as u64;
    let (s, e) = utf16_boundaries(cs, start, end);
    match (s, e) {
        (Some(i), Some(j)) => if i <= j {
            Some((i, j))
        } else {
            None
        },
        _ => None,
    }
}

/// The UTF-8 length of the first `i` characters of `cs`.
fn utf8_offset(cs: &Vec<char>, i: usize) -> (r: usize)
    requires
        i <= cs@.len(),
        utf8_prefix_len(cs@, cs@.len() as int) <= usize::MAX,
    ensures
        r == utf8_prefix_len(cs@, i as int),
{
    let mut total: usize = 0;
    let mut k: usize = 0;
    while k < i
        invariant
            i <= cs@.len(),
            utf8_prefix_len(cs@, cs@.len() as int) <= usize::MAX,
            k <= i,
            total == utf8_prefix_len(cs@, k as int),
        decreases i - k,
    {
        proof {
            if k + 1 < cs@.len() {
                lemma_prefix_len_strictly_increasing(cs@, k + 1, cs@.len() as int);
            }
        }
        total = total + utf8_len_of(cs[k]);
        k = k + 1;
    }
    total
}

/// The byte range of `s` that the UTF-16 range covers: the UTF-8 lengths
/// of the characters before its start and before its end; `None` where
/// [utf16_char_range] has none.
pub fn utf16_range_to_utf8_byte_range(s: &str, range: NSRange) -> (r: Option<(usize, usize)>)
    requires
        utf8_prefix_len(s@, s@.len() as int) <= usize::MAX,
    ensures
        r == match utf16_char_range(s@, range.location as int, range.length as int) {
            Some((i, j)) => Some((utf8_prefix_len(s@, i) as usize, utf8_prefix_len(s@, j) as usize)),
            None => None::<(usize, usize)>,
        },
{
    let cs = chars_of(s);
    match utf16_range_to_char_range(&cs, range) {
        Some((i, j)) => Some((utf8_offset(&cs, i), utf8_offset(&cs, j))),
        None => None,
    }
}

/// The part of `s` that the UTF-16 range covers; `None` where
/// [utf16_char_range] has none.
pub fn utf16_substring(s: &str, range: NSRange) -> (r: Option<String>)
    ensures
        r matches Some(t) ==> (utf16_char_range(s@, range.location as int, range.length as int) matches Some((i, j))
            && t@ == s@.subrange(i, j)),
        r is None ==> utf16_char_range(s@, range.location as int, range.length as int) is None,
{
    let cs = chars_of(s);
    match utf16_range_to_char_range(&cs, range) {
        Some((i, j)) => {
            let mut part: Vec<char> = Vec::new();
            let mut k: usize = i;
            while k < j
                invariant
                    i <= k <= j,
                    j <= cs@.len(),
                    part@ == cs@.subrange(i as int, k as int),
                decreases j - k,
            {
                part.push(cs[k]);
                proof {
                    assert(part@ =~= cs@.subrange(i as int, k + 1));
                }
                k = k + 1;
            }
            Some(string_from_chars(part.as_slice()))
        },
        None => None,
    }
}


#[verifier::external_type_specification]
#[verifier::external_body]
pub struct ExRegex(regex::Regex);

/// Whether the `regex` crate compiles `pattern`.
pub uninterp spec fn regex_compiles(pattern: Seq<char>) -> bool;

/// How many successive non-overlapping matches of `pattern` the `regex`
/// crate finds in `haystack`.
pub uninterp spec fn regex_match_count(pattern: Seq<char>, haystack: Seq<char>) -> usize;

/// Whether the `regex` crate finds a match of `pattern` in `haystack`.
pub uninterp spec fn regex_finds(pattern: Seq<char>, haystack: Seq<char>) -> bool;

/// A compiled regular expression and the pattern it was compiled from.
pub struct CompiledRegex {
    regex: Regex,
    pattern: Ghost<Seq<char>>,
}

impl CompiledRegex {
    pub closed spec fn pattern(&self) -> Seq<char> {
        self.pattern@
    }
}

/// Trusted: wraps `regex::Regex::new`. Claims it succeeds exactly where the
/// name [regex_compiles] says, and that the result keeps the pattern it was
/// compiled from. Why a pattern is refused (syntax, size limit) is left
/// unsaid.
#[verifier::external_body]
fn compile_regex(pattern: &str) -> (r: Option<CompiledRegex>)
    ensures
        r is Some <==> regex_compiles(pattern@),
        r matches Some(c) ==> c.pattern() == pattern@,
{
    match Regex::new(pattern) {
        Ok(regex) => Some(CompiledRegex { regex, pattern: Ghost(pattern@) }),
        Err(_) => None,
    }
}

/// Trusted: wraps `regex::Regex::find_iter` and counts what it yields.
/// Claims the count is the name [regex_match_count] of the pattern and the
/// haystack.
#[verifier::external_body]
fn count_matches(re: &CompiledRegex, haystack: &str) -> (r: usize)
    ensures
        r == regex_match_count(re.pattern(), haystack@),
{
    re.regex.find_iter(haystack).count()
}

/// Trusted: wraps `regex::Regex::find`. Claims whether it finds a match is
/// the name [regex_finds] of the pattern and the haystack.
#[verifier::external_body]
fn find_match(re: &CompiledRegex, haystack: &str) -> (r: bool)
    ensures
        r == regex_finds(re.pattern(), haystack@),
{
    re.regex.find(haystack).is_some()
}

/// The host side of an `NSRegularExpression`: its compiled pattern, once
/// initialized.
pub struct NSRegularExpressionHostObject {
    regex: Option<CompiledRegex>,
}

impl NSRegularExpressionHostObject {
    /// The pattern it was initialized with, if any.
    pub closed spec fn pattern(&self) -> Option<Seq<char>> {
        match self.regex {
            Some(c) => Some(c.pattern()),
            None => None,
        }
    }

    /// `allocWithZone:`: no pattern yet.
    #[allow(non_snake_case)]
    pub fn allocWithZone() -> (r: Self)
        ensures
            r.pattern() is None,
    {
        NSRegularExpressionHostObject { regex: None }
    }

    /// `initWithPattern:options:error:`: compile `pattern`. False for a nil
    /// pattern or one the `regex` crate refuses (the object is then released
    /// and nil returned), and nothing changes.
    #[allow(non_snake_case)]
    pub fn initWithPattern(&mut self, pattern: Option<&str>) -> (r: bool)
        ensures
            r == (pattern matches Some(p) && regex_compiles(p@)),
            r ==> final(self).pattern() == Some(pattern->0@),
            !r ==> final(self).pattern() == old(self).pattern(),
    {
        match pattern {
            None => false,
            Some(p) => match compile_regex(p) {
                Some(re) => {
                    self.regex = Some(re);
                    true
                },
                None => false,
            },
        }
    }

    /// `regularExpressionWithPattern:options:error:`: a new object for
    /// `pattern`, or nil (`None`) where [Self::initWithPattern] fails.
    #[allow(non_snake_case)]
    pub fn regularExpressionWithPattern(pattern: Option<&str>) -> (r: Option<Self>)
        ensures
            r is Some <==> (pattern matches Some(p) && regex_compiles(p@)),
            r matches Some(o) ==> o.pattern() == Some(pattern->0@),
    {
        let mut new = Self::allocWithZone();
        if new.initWithPattern(pattern) {
            Some(new)
        } else {
            None
        }
    }

    /// `numberOfMatchesInString:options:range:`: the matches in the part of
    /// `string` that `range` covers; 0 for nil, a range that does not fit
    /// (see [utf16_char_range]) or no pattern.
    #[allow(non_snake_case)]
    pub fn numberOfMatchesInString(&self, string: Option<&str>, range: NSRange) -> (r: u32)
        ensures
            r == match (string, self.pattern()) {
                (Some(s), Some(p)) => match utf16_char_range(s@, range.location as int, range.length as int) {
                    Some((i, j)) => regex_match_count(p, s@.subrange(i, j)) as u32,
                    None => 0u32,
                },
                _ => 0u32,
            },
    {
        let s = match string {
            None => {
                return 0;
            },
            Some(s) => s,
        };
        let target = match utf16_substring(s, range) {
            None => {
                return 0;
            },
            Some(t) => t,
        };
        match &self.regex {
            Some(re) => count_matches(re, target.as_str()) as u32,
            None => 0,
        }
    }

    /// `firstMatchInString:options:range:`: whether there is a match in the
    /// part of `string` that `range` covers (a result object is then made);
    /// false for nil, a range that does not fit or no pattern.
    #[allow(non_snake_case)]
    pub fn firstMatchInString(&self, string: Option<&str>, range: NSRange) -> (r: bool)
        ensures
            r == match (string, self.pattern()) {
                (Some(s), Some(p)) => match utf16_char_range(s@, range.location as int, range.length as int) {
                    Some((i, j)) => regex_finds(p, s@.subrange(i, j)),
                    None => false,
                },
                _ => false,
            },
    {
        let s = match string {
            None => {
                return false;
            },
            Some(s) => s,
        };
        let target = match utf16_substring(s, range) {
            None => {
                return false;
            },
            Some(t) => t,
        };
        match &self.regex {
            Some(re) => find_match(re, target.as_str()),
            None => false,
        }
    }
}

/// `-[NSTextCheckingResult range]`: always the empty range at 0.
pub fn text_checking_result_range() -> (r: NSRange)
    ensures
        r == (NSRange { location: 0, length: 0 }),
{
    NSRange { location: 0, length: 0 }
}

/// `-[NSTextCheckingResult rangeAtIndex:]`: always the empty range at 0,
/// whatever the capture group.
pub fn text_checking_result_range_at_index(_index: u32) -> (r: NSRange)
    ensures
        r == (NSRange { location: 0, length: 0 }),
{
    NSRange { location: 0, length: 0 }
}

} // verus!

verus! {

/// The UTF-8 length of a character is the length of its UTF-8 encoding.
pub proof fn lemma_utf8_char_len_is_encoding(c: char)
    ensures
        utf8_char_len(c) == vstd::utf8::encode_scalar(c as u32).len(),
{
    vstd::utf8::char_is_scalar(c);
}

proof fn lemma_encode_utf8_push(s: Seq<char>, c: char)
    ensures
        vstd::utf8::encode_utf8(s.push(c)) == vstd::utf8::encode_utf8(s) + vstd::utf8::encode_scalar(c as u32),
    decreases s.len(),
{
    if s.len() == 0 {
        assert(s.push(c).drop_first() =~= Seq::<char>::empty());
        assert(vstd::utf8::encode_utf8(Seq::<char>::empty()) =~= Seq::<u8>::empty());
        assert(vstd::utf8::encode_utf8(s) =~= Seq::<u8>::empty());
        assert(vstd::utf8::encode_utf8(s.push(c)) =~= vstd::utf8::encode_scalar(c as u32) + Seq::<u8>::empty());
    } else {
        assert(s.push(c).drop_first() =~= s.drop_first().push(c));
        lemma_encode_utf8_push(s.drop_first(), c);
        assert(vstd::utf8::encode_utf8(s.push(c)) =~= vstd::utf8::encode_scalar(s[0] as u32) + vstd::utf8::encode_utf8(s.drop_first().push(c)));
        assert(vstd::utf8::encode_utf8(s) == vstd::utf8::encode_scalar(s[0] as u32) + vstd::utf8::encode_utf8(s.drop_first()));
    }
}

/// The UTF-8 length of the first `i` characters is the number of bytes in
/// their UTF-8 encoding; for the whole string, its length in bytes.
pub proof fn lemma_utf8_prefix_len_is_encoding(cs: Seq<char>, i: int)
    requires
        0 <= i <= cs.len(),
    ensures
        utf8_prefix_len(cs, i) == vstd::utf8::encode_utf8(cs.take(i)).len(),
        i == cs.len() ==> utf8_prefix_len(cs, i) == vstd::utf8::encode_utf8(cs).len(),
    decreases i,
{
    if i == 0 {
        assert(cs.take(0) =~= Seq::<char>::empty());
    } else {
        lemma_utf8_prefix_len_is_encoding(cs, i - 1);
        assert(cs.take(i) =~= cs.take(i - 1).push(cs[i - 1]));
        lemma_encode_utf8_push(cs.take(i - 1), cs[i - 1]);
        lemma_utf8_char_len_is_encoding(cs[i - 1]);
    }
    if i == cs.len() {
        assert(cs.take(i) =~= cs);
    }
}

} // verus!
