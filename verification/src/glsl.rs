//! Translation of GLSL ES shader sources into desktop GLSL.
//!
//! The translation is deliberately small: a `#version` directive is placed at
//! the top (the shader's own, before its body, is dropped), top-level `precision`
//! declarations are dropped, and inline precision qualifiers (`lowp`,
//! `mediump`, `highp`) are stripped from every other line. Identifiers that
//! merely contain a qualifier as a substring are kept.
use vstd::prelude::*;
use crate::text::{
    chars_of, chars_start_with, copy_range, is_unicode_whitespace, is_whitespace, seq_starts_with,
    string_from_chars,
};

verus! {

// ---------------------------------------------------------------------------
// Stripping of precision qualifiers from a line
// ---------------------------------------------------------------------------

pub open spec fn is_ascii_alpha(c: char) -> bool {
    ('A' <= c <= 'Z') || ('a' <= c <= 'z')
}

/// A character that can stand in a GLSL identifier.
pub open spec fn is_ident_char(c: char) -> bool {
    is_ascii_alpha(c) || ('0' <= c <= '9') || c == '_'
}

/// The qualifier `q` occurs in `s` at `i` as a whole word (no identifier
/// character follows it).
pub open spec fn qualifier_at(s: Seq<char>, i: int, q: Seq<char>) -> bool {
    &&& i + q.len() <= s.len()
    &&& s.subrange(i, i + q.len()) == q
    &&& (i + q.len() == s.len() || !is_ident_char(s[i + q.len()]))
}

/// Length of the first qualifier (in the order `lowp`, `mediump`, `highp`)
/// found at `i`, or 0.
pub open spec fn qualifier_len_at(s: Seq<char>, i: int) -> int {
    if qualifier_at(s, i, lowp_chars()) {
        4
    } else if qualifier_at(s, i, mediump_chars()) {
        7
    } else if qualifier_at(s, i, highp_chars()) {
        5
    } else {
        0
    }
}

/// Index of the first character at or after `j` that is neither a space nor
/// a tab.
pub open spec fn skip_blanks(s: Seq<char>, j: int) -> int
    decreases s.len() - j,
{
    if j >= s.len() || (s[j] != ' ' && s[j] != '\t') {
        j
    } else {
        skip_blanks(s, j + 1)
    }
}

/// A word starts at `i`: a letter or `_` not preceded by an identifier
/// character.
pub open spec fn word_start_at(s: Seq<char>, i: int) -> bool {
    (is_ascii_alpha(s[i]) || s[i] == '_') && (i == 0 || !is_ident_char(s[i - 1]))
}

/// The line from `i` on with its qualifiers stripped, after the output `out`
/// produced so far. Every other character is kept as it is; a qualifier
/// that stands as a whole word is removed with the blanks after it, and one
/// space takes their place when the output does not already end in a space
/// and the line goes on.
pub open spec fn strip_from(s: Seq<char>, i: int, out: Seq<char>) -> Seq<char>
    decreases s.len() - i,
    when 0 <= i
{
    if i >= s.len() {
        out
    } else if word_start_at(s, i) && qualifier_len_at(s, i) > 0 {
        let j = skip_blanks(s, i + qualifier_len_at(s, i));
        let pre_space = out.len() > 0 && out.last() == ' ';
        let out2 = if !pre_space && j < s.len() {
            out.push(' ')
        } else {
            out
        };
        proof {
            lemma_skip_blanks_bounds(s, i + qualifier_len_at(s, i));
        }
        strip_from(s, j, out2)
    } else {
        strip_from(s, i + 1, out.push(s[i]))
    }
}

/// The line `s` with its precision qualifiers stripped.
pub open spec fn strip_spec(s: Seq<char>) -> Seq<char> {
    strip_from(s, 0, Seq::empty())
}

/// Skipping blanks moves forward and stays within the line.
pub proof fn lemma_skip_blanks_bounds(s: Seq<char>, j: int)
    ensures
        skip_blanks(s, j) >= j,
        j <= s.len() ==> skip_blanks(s, j) <= s.len(),
    decreases s.len() - j,
{
    if j >= s.len() || (s[j] != ' ' && s[j] != '\t') {
    } else {
        lemma_skip_blanks_bounds(s, j + 1);
    }
}

fn ident_char(c: char) -> (r: bool)
    ensures
        r == is_ident_char(c),
{
    (c >= 'A' && c <= 'Z') || (c >= 'a' && c <= 'z') || (c >= '0' && c <= '9') || c == '_'
}

/// Whether the qualifier `q` occurs in `s` at `i` as a whole word.
fn qualifier_matches(s: &[char], i: usize, q: &[char]) -> (r: bool)
    requires
        i <= s@.len(),
    ensures
        r == qualifier_at(s@, i as int, q@),
{
    let n = s.len();
    if q.len() > n - i {
        return false;
    }
    let mut k: usize = 0;
    while k < q.len()
        invariant
            n == s@.len(),
            k <= q@.len(),
            i + q@.len() <= s@.len(),
            forall|j: int| 0 <= j < k ==> s@[i + j] == q@[j],
        decreases q@.len() - k,
    {
        assert(i + k < s@.len());
        if s[i + k] != q[k] {
            assert(s@.subrange(i as int, i + q@.len())[k as int] != q@[k as int]);
            return false;
        }
        k = k + 1;
    }
    assert(s@.subrange(i as int, i + q@.len()) =~= q@);
    i + q.len() == s.len() || !ident_char(s[i + q.len()])
}

/// Strip occurrences of `lowp`, `mediump` and `highp` from a line, while
/// keeping identifiers that merely contain those substrings.
pub fn strip_precision_qualifiers(line: &str) -> (r: String)
    ensures
        r@ == strip_spec(line@),
{
    let cs = chars_of(line);
    let lowp: [char; 4] = ['l', 'o', 'w', 'p'];
    let mediump: [char; 7] = ['m', 'e', 'd', 'i', 'u', 'm', 'p'];
    let highp: [char; 5] = ['h', 'i', 'g', 'h', 'p'];
    assert(lowp@ =~= lowp_chars());
    assert(mediump@ =~= mediump_chars());
    assert(highp@ =~= highp_chars());
    let mut out: Vec<char> = Vec::new();
    let mut i: usize = 0;
    while i < cs.len()
        invariant
            i <= cs@.len(),
            cs@ == line@,
            lowp@ == lowp_chars(),
            mediump@ == mediump_chars(),
            highp@ == highp_chars(),
            strip_spec(cs@) == strip_from(cs@, i as int, out@),
        decreases cs@.len() - i,
    {
        let c = cs[i];
        let is_word_start = (c >= 'A' && c <= 'Z') || (c >= 'a' && c <= 'z') || c == '_';
        let word_start = is_word_start && (i == 0 || !ident_char(cs[i - 1]));
        let mut qlen: usize = 0;
        if word_start {
            if qualifier_matches(cs.as_slice(), i, &lowp) {
                qlen = 4;
            } else if qualifier_matches(cs.as_slice(), i, &mediump) {
                qlen = 7;
            } else if qualifier_matches(cs.as_slice(), i, &highp) {
                qlen = 5;
            }
        }
        assert(word_start == word_start_at(cs@, i as int));
        assert(word_start ==> qlen == qualifier_len_at(cs@, i as int));
        if qlen > 0 {
            let pre_was_space = out.len() > 0 && out[out.len() - 1] == ' ';
            let mut j = i + qlen;
            proof {
                lemma_skip_blanks_bounds(cs@, j as int);
            }
            while j < cs.len() && (cs[j] == ' ' || cs[j] == '\t')
                invariant
                    i < j <= cs@.len(),
                    skip_blanks(cs@, j as int) == skip_blanks(cs@, i + qlen),
                decreases cs@.len() - j,
            {
                j = j + 1;
            }
            if !pre_was_space && j < cs.len() {
                out.push(' ');
            }
            i = j;
        } else {
            out.push(c);
            i = i + 1;
        }
    }
    string_from_chars(out.as_slice())
}

/// A qualifier stands as a whole word at `p` in `o`.
pub open spec fn qualifier_word_at(o: Seq<char>, p: int) -> bool {
    0 <= p < o.len() && word_start_at(o, p) && qualifier_len_at(o, p) > 0
}

/// The number of identifier characters at the end of `o`.
pub open spec fn trail_len(o: Seq<char>) -> int
    decreases o.len(),
{
    if o.len() == 0 || !is_ident_char(o.last()) {
        0
    } else {
        1 + trail_len(o.drop_last())
    }
}

proof fn lemma_trail_len(o: Seq<char>)
    ensures
        0 <= trail_len(o) <= o.len(),
        forall|k: int| o.len() - trail_len(o) <= k < o.len() ==> is_ident_char(#[trigger] o[k]),
        trail_len(o) < o.len() ==> !is_ident_char(o[o.len() - trail_len(o) - 1]),
    decreases o.len(),
{
    if o.len() > 0 && is_ident_char(o.last()) {
        lemma_trail_len(o.drop_last());
        assert forall|k: int| o.len() - trail_len(o) <= k < o.len() implies is_ident_char(#[trigger] o[k]) by {
            if k < o.len() - 1 {
                assert(o[k] == o.drop_last()[k]);
            }
        }
        if trail_len(o) < o.len() {
            assert(o[o.len() - trail_len(o) - 1] == o.drop_last()[o.drop_last().len() - trail_len(o.drop_last()) - 1]);
        }
    }
}

proof fn lemma_qualifiers_ident()
    ensures
        forall|k: int| 0 <= k < lowp_chars().len() ==> is_ident_char(#[trigger] lowp_chars()[k]),
        forall|k: int| 0 <= k < mediump_chars().len() ==> is_ident_char(#[trigger] mediump_chars()[k]),
        forall|k: int| 0 <= k < highp_chars().len() ==> is_ident_char(#[trigger] highp_chars()[k]),
        lowp_chars().len() == 4 && mediump_chars().len() == 7 && highp_chars().len() == 5,
{
}

/// If `q` (made of identifier characters) stands as a whole word at `p` in
/// `o`, and `o` has no identifier character at `m` with `p <= m`, the word
/// ends at or before `m`.
proof fn lemma_qualifier_before(o: Seq<char>, p: int, q: Seq<char>, m: int)
    requires
        qualifier_at(o, p, q),
        forall|k: int| 0 <= k < q.len() ==> is_ident_char(#[trigger] q[k]),
        0 <= p <= m < o.len(),
        !is_ident_char(o[m]),
    ensures
        p + q.len() <= m,
{
    if p + q.len() > m {
        let sub = o.subrange(p, p + q.len());
        assert(sub[m - p] == o[p + (m - p)]);
        assert(q[m - p] == o[m]);
    }
}

/// The state of the qualifier stripper from which no qualifier survives:
/// the identifier characters at the end of the output are those before `i`
/// in the line; the word they start is no qualifier in the line; and no
/// qualifier stands as a whole word earlier in the output.
pub open spec fn strip_clean(s: Seq<char>, i: int, out: Seq<char>) -> bool {
    let t = trail_len(out);
    let n = out.len() as int;
    &&& 0 <= i <= s.len()
    &&& t <= i
    &&& out.subrange(n - t, n) == s.subrange(i - t, i)
    &&& t > 0 ==> (i - t == 0 || !is_ident_char(s[i - t - 1]))
    &&& t == 0 ==> (i == 0 || !is_ident_char(s[i - 1]) || i == s.len() || !is_ident_char(s[i]))
    &&& forall|p: int| 0 <= p < n - t ==> !#[trigger] qualifier_word_at(out, p)
    &&& t > 0 && word_start_at(out, n - t) ==> qualifier_len_at(s, i - t) == 0
}

/// The `k`th of the last `t` characters of the output is the `k`th of the
/// `t` characters before `i` in the line.
proof fn lemma_clean_char(s: Seq<char>, i: int, out: Seq<char>, k: int)
    requires
        strip_clean(s, i, out),
        0 <= k < trail_len(out),
    ensures
        out[out.len() - trail_len(out) + k] == s[i - trail_len(out) + k],
{
    lemma_trail_len(out);
    let t = trail_len(out);
    let n = out.len() as int;
    assert(out.subrange(n - t, n)[k] == s.subrange(i - t, i)[k]);
}

/// At the end of the line, no qualifier stands as a whole word in the output.
proof fn lemma_clean_end(s: Seq<char>, i: int, out: Seq<char>)
    requires
        strip_clean(s, i, out),
        i >= s.len(),
    ensures
        forall|p: int| !#[trigger] qualifier_word_at(out, p),
{
    lemma_trail_len(out);
    lemma_qualifiers_ident();
    let t = trail_len(out);
    let n = out.len() as int;
    assert forall|p: int| !#[trigger] qualifier_word_at(out, p) by {
        if qualifier_word_at(out, p) && p >= n - t {
            if p > n - t {
                assert(is_ident_char(out[p - 1]));
            } else {
                lemma_clean_char(s, i, out, 0);
                assert forall|q: Seq<char>| (q == lowp_chars() || q == mediump_chars() || q == highp_chars())
                    && #[trigger] qualifier_at(out, p, q) implies qualifier_at(s, i - t, q) by {
                    if p + q.len() < n {
                        assert(is_ident_char(out[p + q.len()]));
                    }
                    assert(p + q.len() == n);
                    assert(s.subrange(i - t, i - t + q.len()) =~= out.subrange(p, p + q.len())) by {
                        assert forall|k: int| 0 <= k < q.len() implies #[trigger] s.subrange(i - t, i - t + q.len())[k]
                            == out.subrange(p, p + q.len())[k] by {
                            lemma_clean_char(s, i, out, k);
                        }
                    }
                }
                assert(word_start_at(s, i - t));
            }
        }
    }
}

/// Removing a qualifier keeps the stripper clean.
proof fn lemma_clean_remove(s: Seq<char>, i: int, out: Seq<char>)
    requires
        strip_clean(s, i, out),
        i < s.len(),
        word_start_at(s, i),
        qualifier_len_at(s, i) > 0,
    ensures
        ({
            let j = skip_blanks(s, i + qualifier_len_at(s, i));
            let pre_space = out.len() > 0 && out.last() == ' ';
            let out2 = if !pre_space && j < s.len() { out.push(' ') } else { out };
            strip_clean(s, j, out2)
        }),
{
    lemma_trail_len(out);
    let t = trail_len(out);
    let n = out.len() as int;
    let e = i + qualifier_len_at(s, i);
    let j = skip_blanks(s, e);
    lemma_skip_blanks_bounds(s, e);
    let pre_space = out.len() > 0 && out.last() == ' ';
    let out2 = if !pre_space && j < s.len() { out.push(' ') } else { out };
    assert(t == 0) by {
        if t > 0 {
            lemma_clean_char(s, i, out, t - 1);
        }
    }
    lemma_trail_len(out2);
    assert(trail_len(out2) == 0) by {
        if out2 != out {
            assert(out2.last() == ' ');
        }
    }
    assert(j == 0 || !is_ident_char(s[j - 1]) || j == s.len() || !is_ident_char(s[j])) by {
        if j > e {
            lemma_skip_blanks_at(s, e);
        } else {
            lemma_qualifier_end(s, i);
        }
    }
    assert forall|p: int| 0 <= p < out2.len() implies !#[trigger] qualifier_word_at(out2, p) by {
        if p < n {
            lemma_qualifier_kept(out, out2, p, n - 1);
        } else {
            assert(out2[p] == ' ');
        }
    }
    assert(out2.subrange(out2.len() as int, out2.len() as int) =~= s.subrange(j, j));
}

/// A qualifier found at `i` is followed by the end of the line or by a
/// character that is no identifier character.
proof fn lemma_qualifier_end(s: Seq<char>, i: int)
    requires
        qualifier_len_at(s, i) > 0,
    ensures
        i + qualifier_len_at(s, i) <= s.len(),
        i + qualifier_len_at(s, i) == s.len() || !is_ident_char(s[i + qualifier_len_at(s, i)]),
{
    lemma_qualifiers_ident();
}

/// Keeping a character keeps the stripper clean.
proof fn lemma_clean_keep(s: Seq<char>, i: int, out: Seq<char>)
    requires
        strip_clean(s, i, out),
        i < s.len(),
        !(word_start_at(s, i) && qualifier_len_at(s, i) > 0),
    ensures
        strip_clean(s, i + 1, out.push(s[i])),
{
    lemma_trail_len(out);
    lemma_qualifiers_ident();
    let t = trail_len(out);
    let n = out.len() as int;
    let c = s[i];
    let out2 = out.push(c);
    assert(out2.drop_last() =~= out);
    lemma_trail_len(out2);
    if is_ident_char(c) {
        assert(trail_len(out2) == t + 1);
        assert(out2.subrange(n + 1 - (t + 1), n + 1) =~= s.subrange(i + 1 - (t + 1), i + 1)) by {
            assert forall|k: int| 0 <= k < t + 1 implies #[trigger] out2.subrange(n + 1 - (t + 1), n + 1)[k]
                == s.subrange(i + 1 - (t + 1), i + 1)[k] by {
                if k < t {
                    lemma_clean_char(s, i, out, k);
                }
            }
        }
        if t == 0 {
            assert(i == 0 || !is_ident_char(s[i - 1]));
        }
        assert forall|p: int| 0 <= p < out2.len() - (t + 1) implies !#[trigger] qualifier_word_at(out2, p) by {
            lemma_qualifier_kept(out, out2, p, n - t - 1);
        }
        if word_start_at(out2, n - t) {
            if t == 0 {
                assert(word_start_at(s, i));
            } else {
                assert(out2[n - t] == out[n - t]);
                if n - t > 0 {
                    assert(out2[n - t - 1] == out[n - t - 1]);
                }
            }
        }
    } else {
        assert(trail_len(out2) == 0);
        assert forall|p: int| 0 <= p < out2.len() implies !#[trigger] qualifier_word_at(out2, p) by {
            if p < n - t {
                lemma_qualifier_kept(out, out2, p, n - t - 1);
            } else if p < n {
                if p > n - t {
                    assert(out2[p - 1] == out[p - 1]);
                } else if qualifier_word_at(out2, p) {
                    lemma_clean_char(s, i, out, 0);
                    assert(word_start_at(out, n - t)) by {
                        assert(out2[p] == out[p]);
                        if p > 0 {
                            assert(out2[p - 1] == out[p - 1]);
                        }
                    }
                    assert forall|q: Seq<char>| (q == lowp_chars() || q == mediump_chars() || q == highp_chars())
                        && #[trigger] qualifier_at(out2, p, q) implies qualifier_at(s, i - t, q) by {
                        lemma_qualifier_before(out2, p, q, n);
                        if p + q.len() < n {
                            assert(out2[p + q.len()] == out[p + q.len()]);
                            assert(is_ident_char(out[p + q.len()]));
                        }
                        assert(s.subrange(i - t, i - t + q.len()) =~= out2.subrange(p, p + q.len())) by {
                            assert forall|k: int| 0 <= k < q.len() implies #[trigger] s.subrange(i - t, i - t + q.len())[k]
                                == out2.subrange(p, p + q.len())[k] by {
                                lemma_clean_char(s, i, out, k);
                            }
                        }
                    }
                    assert(word_start_at(s, i - t));
                }
            } else {
                assert(!word_start_at(out2, p));
            }
        }
        assert(out2.subrange(n + 1, n + 1) =~= s.subrange(i + 1, i + 1));
    }
}

proof fn lemma_strip_clean(s: Seq<char>, i: int, out: Seq<char>)
    requires
        strip_clean(s, i, out),
    ensures
        forall|p: int| !#[trigger] qualifier_word_at(strip_from(s, i, out), p),
    decreases s.len() - i,
{
    if i >= s.len() {
        lemma_clean_end(s, i, out);
        assert(strip_from(s, i, out) == out);
    } else if word_start_at(s, i) && qualifier_len_at(s, i) > 0 {
        let j = skip_blanks(s, i + qualifier_len_at(s, i));
        lemma_skip_blanks_bounds(s, i + qualifier_len_at(s, i));
        let pre_space = out.len() > 0 && out.last() == ' ';
        let out2 = if !pre_space && j < s.len() { out.push(' ') } else { out };
        lemma_clean_remove(s, i, out);
        lemma_strip_clean(s, j, out2);
        assert(strip_from(s, i, out) == strip_from(s, j, out2));
    } else {
        lemma_clean_keep(s, i, out);
        lemma_strip_clean(s, i + 1, out.push(s[i]));
        assert(strip_from(s, i, out) == strip_from(s, i + 1, out.push(s[i])));
    }
}

/// Blanks were skipped: the character before the one reached is a blank.
proof fn lemma_skip_blanks_at(s: Seq<char>, j: int)
    requires
        0 <= j,
    ensures
        skip_blanks(s, j) > j ==> (s[skip_blanks(s, j) - 1] == ' ' || s[skip_blanks(s, j) - 1] == '\t'),
        skip_blanks(s, j) < s.len() ==> s[skip_blanks(s, j)] != ' ' && s[skip_blanks(s, j)] != '\t',
    decreases s.len() - j,
{
    if j >= s.len() || (s[j] != ' ' && s[j] != '\t') {
    } else {
        lemma_skip_blanks_at(s, j + 1);
    }
}

/// Appending to the output leaves a word that ends before a character that
/// is no identifier character (at `m`) as it was.
proof fn lemma_qualifier_kept(out: Seq<char>, out2: Seq<char>, p: int, m: int)
    requires
        0 <= p <= m < out.len(),
        !is_ident_char(out[m]),
        out2.len() >= out.len(),
        forall|k: int| 0 <= k < out.len() ==> #[trigger] out2[k] == out[k],
        !qualifier_word_at(out, p),
    ensures
        !qualifier_word_at(out2, p),
{
    lemma_qualifiers_ident();
    if qualifier_word_at(out2, p) {
        assert(out2[m] == out[m]);
        assert(word_start_at(out, p)) by {
            assert(out2[p] == out[p]);
            if p > 0 {
                assert(out2[p - 1] == out[p - 1]);
            }
        }
        assert forall|q: Seq<char>| (q == lowp_chars() || q == mediump_chars() || q == highp_chars())
            && #[trigger] qualifier_at(out2, p, q) implies qualifier_at(out, p, q) by {
            lemma_qualifier_before(out2, p, q, m);
            assert(out.subrange(p, p + q.len()) =~= out2.subrange(p, p + q.len()));
            assert(out2[p + q.len()] == out[p + q.len()]);
        }
    }
}

/// No precision qualifier is left standing as a whole word in a stripped
/// line.
pub proof fn lemma_no_qualifier_survives(line: Seq<char>)
    ensures
        forall|p: int| !#[trigger] qualifier_word_at(strip_spec(line), p),
{
    let e = Seq::<char>::empty();
    assert(e.subrange(0, 0) =~= line.subrange(0, 0));
    lemma_strip_clean(line, 0, e);
}

// ---------------------------------------------------------------------------
// Line-level translation
// ---------------------------------------------------------------------------

/// Index of the first `'\n'` at or after `i`, or the length of `s`.
pub open spec fn next_newline(s: Seq<char>, i: int) -> int
    decreases s.len() - i,
{
    if i >= s.len() || s[i] == '\n' {
        i
    } else {
        next_newline(s, i + 1)
    }
}

/// The next newline is at or after the start, within the text, and is a
/// newline when it is not the end.
pub proof fn lemma_next_newline_bounds(s: Seq<char>, i: int)
    ensures
        next_newline(s, i) >= i,
        i <= s.len() ==> next_newline(s, i) <= s.len(),
        i <= next_newline(s, i) < s.len() ==> s[next_newline(s, i)] == '\n',
    decreases s.len() - i,
{
    if i >= s.len() || s[i] == '\n' {
    } else {
        lemma_next_newline_bounds(s, i + 1);
    }
}

/// The line that starts at `p` and ends before `k` (a `'\n'` or the end),
/// without the `'\r'` of a `"\r\n"` ending.
pub open spec fn line_between(s: Seq<char>, p: int, k: int) -> Seq<char> {
    if k < s.len() && k > p && s[k - 1] == '\r' {
        s.subrange(p, k - 1)
    } else {
        s.subrange(p, k)
    }
}

/// Index of the first character of `t` at or after `i` that is not white space.
pub open spec fn skip_whitespace(t: Seq<char>, i: int) -> int
    decreases t.len() - i,
{
    if i >= t.len() || !is_unicode_whitespace(t[i]) {
        i
    } else {
        skip_whitespace(t, i + 1)
    }
}

/// `t` without its leading white space.
pub open spec fn trim_start(t: Seq<char>) -> Seq<char> {
    t.subrange(skip_whitespace(t, 0), t.len() as int)
}

pub open spec fn version_chars() -> Seq<char> {
    seq!['#', 'v', 'e', 'r', 's', 'i', 'o', 'n']
}

pub open spec fn comment_chars() -> Seq<char> {
    seq!['/', '/']
}

pub open spec fn precision_chars() -> Seq<char> {
    seq!['p', 'r', 'e', 'c', 'i', 's', 'i', 'o', 'n']
}

pub open spec fn lowp_chars() -> Seq<char> {
    seq!['l', 'o', 'w', 'p']
}

pub open spec fn mediump_chars() -> Seq<char> {
    seq!['m', 'e', 'd', 'i', 'u', 'm', 'p']
}

pub open spec fn highp_chars() -> Seq<char> {
    seq!['h', 'i', 'g', 'h', 'p']
}

/// A standalone `precision <qualifier> ...` declaration (given the line
/// without its leading white space).
pub open spec fn is_precision_declaration(trimmed: Seq<char>) -> bool {
    seq_starts_with(trimmed, precision_chars()) && {
        let rest = trim_start(trimmed.subrange(9, trimmed.len() as int));
        seq_starts_with(rest, lowp_chars()) || seq_starts_with(rest, mediump_chars())
            || seq_starts_with(rest, highp_chars())
    }
}

/// Output for one line, and whether the shader's body has begun after it.
/// Before the body, a `#version` line is dropped (the directive stands at
/// the top of the output in its place); the body begins at the first line
/// that is neither blank nor a `//` comment. Precision declarations are
/// dropped; every other line is kept with its qualifiers stripped.
pub open spec fn translate_line(line: Seq<char>, in_body: bool) -> (Seq<char>, bool) {
    let trimmed = trim_start(line);
    if !in_body && seq_starts_with(trimmed, version_chars()) {
        (Seq::empty(), true)
    } else {
        let body = in_body || (trimmed.len() > 0 && !seq_starts_with(trimmed, comment_chars()));
        if is_precision_declaration(trimmed) {
            (Seq::empty(), body)
        } else {
            (strip_spec(line).push('\n'), body)
        }
    }
}

/// Output for the lines from position `p` on.
pub open spec fn translate_from(s: Seq<char>, p: int, in_body: bool) -> (Seq<char>, bool)
    decreases s.len() + 1 - p,
    when 0 <= p <= s.len() + 1
{
    if p >= s.len() {
        (Seq::empty(), in_body)
    } else {
        let k = next_newline(s, p);
        proof {
            lemma_next_newline_bounds(s, p);
        }
        let r = translate_line(line_between(s, p, k), in_body);
        let rest = translate_from(s, k + 1, r.1);
        (r.0 + rest.0, rest.1)
    }
}

/// The translation of the shader `source` with the given directive: the
/// directive at the top, then the translated lines.
pub open spec fn translate_spec(source: Seq<char>, directive: Seq<char>) -> Seq<char> {
    directive + translate_from(source, 0, false).0
}

pub open spec fn directive_120() -> Seq<char> {
    seq!['#', 'v', 'e', 'r', 's', 'i', 'o', 'n', ' ', '1', '2', '0', '\n']
}

pub open spec fn directive_330() -> Seq<char> {
    seq!['#', 'v', 'e', 'r', 's', 'i', 'o', 'n', ' ', '3', '3', '0', ' ', 'c', 'o', 'r', 'e', '\n']
}

/// Translate a GLSL ES 1.00 shader source to GLSL 1.20.
pub fn translate_glsl_es_to_120(source: &str) -> (r: String)
    ensures
        r@ == translate_spec(source@, directive_120()),
{
    proof {
        reveal_strlit("#version 120\n");
    }
    let d = "#version 120\n";
    assert(d@ =~= directive_120());
    translate_glsl_es_with_version(source, d)
}

/// Translate a GLSL ES 3.00 shader source to desktop GLSL 3.30 Core.
pub fn translate_glsl_es_300_to_330(source: &str) -> (r: String)
    ensures
        r@ == translate_spec(source@, directive_330()),
{
    proof {
        reveal_strlit("#version 330 core\n");
    }
    let d = "#version 330 core\n";
    assert(d@ =~= directive_330());
    translate_glsl_es_with_version(source, d)
}

/// Whether the line, without its first `start` characters, is a standalone
/// precision declaration.
fn is_precision_line(line: &[char], start: usize) -> (r: bool)
    requires
        start <= line@.len(),
    ensures
        r == is_precision_declaration(line@.subrange(start as int, line@.len() as int)),
{
    let ghost trimmed = line@.subrange(start as int, line@.len() as int);
    let precision: [char; 9] = ['p', 'r', 'e', 'c', 'i', 's', 'i', 'o', 'n'];
    assert(precision@ =~= precision_chars());
    if !chars_start_with(line, start, &precision) {
        return false;
    }
    let n = line.len();
    assert(start + 9 <= n);
    let rest_start = start + 9;
    let ghost rest = trimmed.subrange(9, trimmed.len() as int);
    assert(rest =~= line@.subrange(rest_start as int, line@.len() as int));
    let s = first_non_whitespace_from(line, rest_start);
    proof {
        lemma_skip_whitespace_shift(line@, rest_start as int, 0);
    }
    assert(trim_start(rest) =~= line@.subrange(s as int, line@.len() as int));
    let lowp: [char; 4] = ['l', 'o', 'w', 'p'];
    let mediump: [char; 7] = ['m', 'e', 'd', 'i', 'u', 'm', 'p'];
    let highp: [char; 5] = ['h', 'i', 'g', 'h', 'p'];
    assert(lowp@ =~= lowp_chars());
    assert(mediump@ =~= mediump_chars());
    assert(highp@ =~= highp_chars());
    chars_start_with(line, s, &lowp) || chars_start_with(line, s, &mediump) || chars_start_with(
        line,
        s,
        &highp,
    )
}

/// Skipping white space in a suffix is skipping it in the whole sequence.
proof fn lemma_skip_whitespace_shift(t: Seq<char>, start: int, i: int)
    requires
        0 <= start <= t.len(),
        0 <= i,
    ensures
        skip_whitespace(t.subrange(start, t.len() as int), i) + start == skip_whitespace(
            t,
            start + i,
        ),
    decreases t.len() - start - i,
{
    let u = t.subrange(start, t.len() as int);
    if i >= u.len() || !is_unicode_whitespace(u[i]) {
    } else {
        lemma_skip_whitespace_shift(t, start, i + 1);
    }
}

/// Index of the first character at or after `i` that is not white space.
fn first_non_whitespace_from(t: &[char], i: usize) -> (r: usize)
    requires
        i <= t@.len(),
    ensures
        r == skip_whitespace(t@, i as int),
        i <= r <= t@.len(),
    decreases t@.len() - i,
{
    if i >= t.len() || !is_whitespace(t[i]) {
        i
    } else {
        first_non_whitespace_from(t, i + 1)
    }
}

fn translate_glsl_es_with_version(source: &str, version_directive: &str) -> (r: String)
    ensures
        r@ == translate_spec(source@, version_directive@),
{
    let src = chars_of(source);
    let dir = chars_of(version_directive);
    let version: [char; 8] = ['#', 'v', 'e', 'r', 's', 'i', 'o', 'n'];
    let comment: [char; 2] = ['/', '/'];
    assert(version@ =~= version_chars());
    assert(comment@ =~= comment_chars());
    let ghost s = src@;
    let ghost d = dir@;
    let mut out: Vec<char> = dir.clone();
    let mut in_body = false;
    let mut p: usize = 0;
    while p < src.len()
        invariant
            s == src@,
            d == dir@,
            p <= s.len(),
            version@ == version_chars(),
            comment@ == comment_chars(),
            d + translate_from(s, 0, false).0 == out@ + translate_from(s, p as int, in_body).0,
        decreases s.len() - p,
    {
        // Find the end of the line.
        let mut k = p;
        while k < src.len() && src[k] != '\n'
            invariant
                p <= k <= s.len(),
                s == src@,
                next_newline(s, k as int) == next_newline(s, p as int),
            decreases s.len() - k,
        {
            k = k + 1;
        }
        proof {
            lemma_next_newline_bounds(s, p as int);
        }
        let line_end = if k < src.len() && k > p && src[k - 1] == '\r' {
            k - 1
        } else {
            k
        };
        let line = copy_range(src.as_slice(), p, line_end);
        assert(line@ =~= line_between(s, p as int, k as int));
        let t = first_non_whitespace_from(line.as_slice(), 0);
        let ghost trimmed = line@.subrange(t as int, line@.len() as int);
        assert(trimmed =~= trim_start(line@));
        let ghost before = out@;
        let ghost p_old = p;
        let ghost in_body_old = in_body;
        let ghost r = translate_line(line@, in_body);
        if !in_body && chars_start_with(line.as_slice(), t, &version) {
            in_body = true;
        } else {
            if !in_body && t < line.len() && !chars_start_with(line.as_slice(), t, &comment) {
                in_body = true;
            }
            if !is_precision_line(line.as_slice(), t) {
                let line_string = string_from_chars(line.as_slice());
                let stripped = strip_precision_qualifiers(line_string.as_str());
                let stripped_chars = chars_of(stripped.as_str());
                out.extend_from_slice(stripped_chars.as_slice());
                out.push('\n');
            }
        }
        assert(out@ =~= before + r.0);
        assert(in_body == r.1);
        if k >= src.len() {
            p = src.len();
        } else {
            p = k + 1;
        }
        proof {
            let rest = translate_from(s, (k + 1) as int, r.1);
            assert(translate_from(s, p_old as int, in_body_old) == (r.0 + rest.0, rest.1));
            if k >= s.len() {
                assert(rest == (Seq::<char>::empty(), r.1));
            }
            assert(translate_from(s, p as int, in_body) == rest);
            assert(out@ + rest.0 =~= before + (r.0 + rest.0));
        }
    }
    proof {
        assert(translate_from(s, p as int, in_body).0 =~= Seq::<char>::empty());
        assert(out@ =~= d + translate_from(s, 0, false).0);
    }
    string_from_chars(out.as_slice())
}

/// The version directive comes first in the translation of every shader.
pub proof fn lemma_directive_first(source: Seq<char>, directive: Seq<char>)
    ensures
        seq_starts_with(translate_spec(source, directive), directive),
{
    assert(translate_spec(source, directive).subrange(0, directive.len() as int) =~= directive);
}

} // verus!

verus! {

/// All of `w` is white space.
pub open spec fn all_whitespace(w: Seq<char>) -> bool {
    forall|i: int| 0 <= i < w.len() ==> is_unicode_whitespace(#[trigger] w[i])
}

proof fn lemma_skip_whitespace_to(t: Seq<char>, i: int, j: int)
    requires
        0 <= i <= j < t.len(),
        forall|k: int| i <= k < j ==> is_unicode_whitespace(#[trigger] t[k]),
        !is_unicode_whitespace(t[j]),
    ensures
        skip_whitespace(t, i) == j,
    decreases j - i,
{
    if i < j {
        lemma_skip_whitespace_to(t, i + 1, j);
    }
}

/// White space followed by something that does not start with white space
/// trims to that something.
proof fn lemma_trim_start_ws(w: Seq<char>, t: Seq<char>)
    requires
        all_whitespace(w),
        t.len() > 0,
        !is_unicode_whitespace(t[0]),
    ensures
        trim_start(w + t) == t,
{
    let u = w + t;
    assert forall|k: int| 0 <= k < w.len() implies is_unicode_whitespace(#[trigger] u[k]) by {
        assert(u[k] == w[k]);
    }
    assert(u[w.len() as int] == t[0]);
    lemma_skip_whitespace_to(u, 0, w.len() as int);
    assert(u.subrange(w.len() as int, u.len() as int) =~= t);
}

/// A precision declaration never reaches the translation: a line that is,
/// after white space, `precision`, white space and `lowp`, `mediump` or
/// `highp` (followed by anything) adds nothing to the output, and the
/// shader's body has begun after it.
pub proof fn lemma_precision_line_dropped(
    s: Seq<char>,
    p: int,
    in_body: bool,
    w1: Seq<char>,
    w2: Seq<char>,
    q: Seq<char>,
    rest: Seq<char>,
)
    requires
        0 <= p < s.len(),
        all_whitespace(w1),
        all_whitespace(w2),
        q == lowp_chars() || q == mediump_chars() || q == highp_chars(),
        line_between(s, p, next_newline(s, p)) == w1 + "precision"@ + w2 + q + rest,
    ensures
        translate_from(s, p, in_body) == translate_from(s, next_newline(s, p) + 1, true),
{
    reveal_strlit("precision");
    let pc = "precision"@;
    assert(pc =~= precision_chars());
    let k = next_newline(s, p);
    lemma_next_newline_bounds(s, p);
    let line = line_between(s, p, k);
    let tail = pc + w2 + q + rest;
    assert(line =~= w1 + tail);
    assert(tail[0] == 'p');
    lemma_trim_start_ws(w1, tail);
    let trimmed = trim_start(line);
    assert(trimmed == tail);
    assert(seq_starts_with(trimmed, precision_chars())) by {
        assert(trimmed.subrange(0, 9) =~= precision_chars());
    }
    assert(!seq_starts_with(trimmed, version_chars())) by {
        assert(trimmed[0] != version_chars()[0]);
        if seq_starts_with(trimmed, version_chars()) {
            assert(trimmed.subrange(0, 8)[0] == version_chars()[0]);
        }
    }
    assert(!seq_starts_with(trimmed, comment_chars())) by {
        if seq_starts_with(trimmed, comment_chars()) {
            assert(trimmed.subrange(0, 2)[0] == comment_chars()[0]);
        }
    }
    let after = trimmed.subrange(9, trimmed.len() as int);
    assert(after =~= w2 + (q + rest));
    assert((q + rest)[0] == q[0]);
    lemma_trim_start_ws(w2, q + rest);
    assert(seq_starts_with(trim_start(after), q)) by {
        assert((q + rest).subrange(0, q.len() as int) =~= q);
    }
    assert(is_precision_declaration(trimmed));
    let r = translate_line(line, in_body);
    assert(r == (Seq::<char>::empty(), true));
    let rest_out = translate_from(s, k + 1, true);
    assert(translate_from(s, p, in_body) == (r.0 + rest_out.0, rest_out.1));
    assert(r.0 + rest_out.0 =~= rest_out.0);
}

} // verus!
