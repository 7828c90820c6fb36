//! Character-sequence primitives shared by the parsers.
//!
//! Source text is handled as a sequence of `char`s; byte offsets (as used
//! by spans) are obtained from the UTF-8 width of each character.

use vstd::prelude::*;
use vstd::std_specs::iter::IteratorSpec;

verus! {

broadcast use vstd::string::group_string_axioms;

// ---------------------------------------------------------------------------
// Whitespace
// ---------------------------------------------------------------------------

/// Unicode `White_Space` property, as tested by `char::is_whitespace`.
pub open spec fn is_space(c: char) -> bool {
    let u = c as u32;
    ||| 9 <= u <= 13
    ||| u == 32
    ||| u == 0x85
    ||| u == 0xA0
    ||| u == 0x1680
    ||| 0x2000 <= u <= 0x200A
    ||| u == 0x2028
    ||| u == 0x2029
    ||| u == 0x202F
    ||| u == 0x205F
    ||| u == 0x3000
}

/// Whitespace as understood by tag parsing: space, newline, tab, carriage return.
pub open spec fn is_tag_space(c: char) -> bool {
    c == ' ' || c == '\n' || c == '\t' || c == '\r'
}

/// ASCII whitespace, as tested by `char::is_ascii_whitespace`.
pub open spec fn is_ascii_space(c: char) -> bool {
    c == ' ' || c == '\t' || c == '\n' || c == '\x0C' || c == '\r'
}

pub fn is_space_char(c: char) -> (r: bool)
    ensures
        r == is_space(c),
{
    let u = c as u32;
    (9 <= u && u <= 13) || u == 32 || u == 0x85 || u == 0xA0 || u == 0x1680 || (0x2000 <= u && u
        <= 0x200A) || u == 0x2028 || u == 0x2029 || u == 0x202F || u == 0x205F || u == 0x3000
}

pub fn is_tag_space_char(c: char) -> (r: bool)
    ensures
        r == is_tag_space(c),
{
    c == ' ' || c == '\n' || c == '\t' || c == '\r'
}

pub fn is_ascii_space_char(c: char) -> (r: bool)
    ensures
        r == is_ascii_space(c),
{
    c == ' ' || c == '\t' || c == '\n' || c == '\x0C' || c == '\r'
}

// ---------------------------------------------------------------------------
// Trimming
// ---------------------------------------------------------------------------

/// Index of the first non-whitespace character at or after `i` (or `s.len()`).
pub open spec fn skip_space(s: Seq<char>, i: int) -> int
    decreases s.len() - i,
{
    if 0 <= i < s.len() && is_space(s[i]) {
        skip_space(s, i + 1)
    } else {
        i
    }
}

/// One past the last non-whitespace character before `j` (or `0`).
pub open spec fn skip_space_back(s: Seq<char>, j: int) -> int
    decreases j,
{
    if 0 < j <= s.len() && is_space(s[j - 1]) {
        skip_space_back(s, j - 1)
    } else {
        j
    }
}

/// Number of leading whitespace characters.
pub open spec fn lead_len(s: Seq<char>) -> int {
    skip_space(s, 0)
}

/// `str::trim_start`.
pub open spec fn trim_start(s: Seq<char>) -> Seq<char> {
    s.subrange(lead_len(s), s.len() as int)
}

/// `str::trim`.
pub open spec fn trim(s: Seq<char>) -> Seq<char> {
    let a = skip_space(s, 0);
    let b = skip_space_back(s, s.len() as int);
    if a >= b {
        Seq::empty()
    } else {
        s.subrange(a, b)
    }
}

pub proof fn lemma_skip_space_bounds(s: Seq<char>, i: int)
    requires
        0 <= i <= s.len(),
    ensures
        i <= skip_space(s, i) <= s.len(),
        forall|k: int| i <= k < skip_space(s, i) ==> is_space(#[trigger] s[k]),
        skip_space(s, i) < s.len() ==> !is_space(s[skip_space(s, i)]),
    decreases s.len() - i,
{
    if i < s.len() && is_space(s[i]) {
        lemma_skip_space_bounds(s, i + 1);
    }
}

pub proof fn lemma_skip_space_back_bounds(s: Seq<char>, j: int)
    requires
        0 <= j <= s.len(),
    ensures
        0 <= skip_space_back(s, j) <= j,
        forall|k: int| skip_space_back(s, j) <= k < j ==> is_space(#[trigger] s[k]),
        skip_space_back(s, j) > 0 ==> !is_space(s[skip_space_back(s, j) - 1]),
    decreases j,
{
    if 0 < j && is_space(s[j - 1]) {
        lemma_skip_space_back_bounds(s, j - 1);
    }
}

/// Index of the first non-whitespace character of `s[from..to]`.
pub fn skip_space_exec(s: &[char], from: usize) -> (r: usize)
    requires
        from <= s@.len(),
    ensures
        r as int == skip_space(s@, from as int),
{
    let mut i = from;
    while i < s.len() && is_space_char(s[i])
        invariant
            from <= i <= s@.len(),
            skip_space(s@, i as int) == skip_space(s@, from as int),
        decreases s@.len() - i,
    {
        i = i + 1;
    }
    i
}

/// One past the last non-whitespace character of `s[..to]`.
pub fn skip_space_back_exec(s: &[char], to: usize) -> (r: usize)
    requires
        to <= s@.len(),
    ensures
        r as int == skip_space_back(s@, to as int),
{
    let mut j = to;
    while j > 0 && is_space_char(s[j - 1])
        invariant
            j <= to <= s@.len(),
            skip_space_back(s@, j as int) == skip_space_back(s@, to as int),
        decreases j,
    {
        j = j - 1;
    }
    j
}

// ---------------------------------------------------------------------------
// Searching
// ---------------------------------------------------------------------------

/// `p` occurs in `s` at index `i`.
pub open spec fn matches_at(s: Seq<char>, p: Seq<char>, i: int) -> bool {
    0 <= i && i + p.len() <= s.len() && s.subrange(i, i + p.len()) == p
}

/// `s` starts with `p`.
pub open spec fn starts_with(s: Seq<char>, p: Seq<char>) -> bool {
    matches_at(s, p, 0)
}

/// First index `k >= i` at which `p` occurs in `s`.
pub open spec fn find_from(s: Seq<char>, p: Seq<char>, i: int) -> Option<int>
    decreases s.len() + 1 - i,
{
    if i < 0 || i + p.len() > s.len() {
        None
    } else if matches_at(s, p, i) {
        Some(i)
    } else {
        find_from(s, p, i + 1)
    }
}

/// `str::find` on character sequences.
pub open spec fn find(s: Seq<char>, p: Seq<char>) -> Option<int> {
    find_from(s, p, 0)
}

/// First index `k >= i` holding character `c`.
pub open spec fn find_char_from(s: Seq<char>, c: char, i: int) -> Option<int>
    decreases s.len() - i,
{
    if i < 0 || i >= s.len() {
        None
    } else if s[i] == c {
        Some(i)
    } else {
        find_char_from(s, c, i + 1)
    }
}

pub proof fn lemma_find_from_props(s: Seq<char>, p: Seq<char>, i: int)
    requires
        0 <= i,
    ensures
        find_from(s, p, i) matches Some(k) ==> i <= k && matches_at(s, p, k) && forall|m: int|
            i <= m < k ==> !matches_at(s, p, m),
        find_from(s, p, i) is None ==> forall|m: int| i <= m ==> !matches_at(s, p, m),
    decreases s.len() + 1 - i,
{
    if i + p.len() > s.len() {
    } else if matches_at(s, p, i) {
    } else {
        lemma_find_from_props(s, p, i + 1);
    }
}

pub proof fn lemma_find_char_props(s: Seq<char>, c: char, i: int)
    requires
        0 <= i,
    ensures
        find_char_from(s, c, i) matches Some(k) ==> i <= k < s.len() && s[k] == c && forall|
            m: int,
        | i <= m < k ==> s[m] != c,
        find_char_from(s, c, i) is None ==> forall|m: int| i <= m < s.len() ==> s[m] != c,
    decreases s.len() - i,
{
    if i < s.len() && s[i] != c {
        lemma_find_char_props(s, c, i + 1);
    }
}

/// Does `p` occur in `s` at index `i`?
pub fn matches_at_exec(s: &[char], p: &[char], i: usize) -> (r: bool)
    ensures
        r == matches_at(s@, p@, i as int),
{
    let n = s.len();
    if i > n || p.len() > n - i {
        return false;
    }
    let mut k: usize = 0;
    while k < p.len()
        invariant
            n == s@.len(),
            i + p@.len() <= s@.len(),
            k <= p@.len(),
            forall|m: int| 0 <= m < k ==> s@[i + m] == p@[m],
        decreases p@.len() - k,
    {
        if s[i + k] != p[k] {
            assert(s@.subrange(i as int, i + p@.len())[k as int] != p@[k as int]);
            return false;
        }
        k = k + 1;
    }
    assert(s@.subrange(i as int, i + p@.len()) =~= p@);
    true
}

/// First index `k >= from` at which `p` occurs in `s`.
pub fn find_exec(s: &[char], p: &[char], from: usize) -> (r: Option<usize>)
    ensures
        match r {
            Some(k) => find_from(s@, p@, from as int) == Some(k as int),
            None => find_from(s@, p@, from as int) is None,
        },
{
    let mut i = from;
    loop
        invariant
            from <= i,
            find_from(s@, p@, i as int) == find_from(s@, p@, from as int),
        decreases s@.len() + 1 - i,
    {
        if i > s.len() || p.len() > s.len() - i {
            return None;
        }
        if matches_at_exec(s, p, i) {
            return Some(i);
        }
        assert(p@.len() > 0) by {
            if p@.len() == 0 {
                assert(s@.subrange(i as int, i as int) =~= p@);
            }
        }
        i = i + 1;
    }
}

/// First index `k >= from` holding `c`.
pub fn find_char_exec(s: &[char], c: char, from: usize) -> (r: Option<usize>)
    ensures
        match r {
            Some(k) => find_char_from(s@, c, from as int) == Some(k as int),
            None => find_char_from(s@, c, from as int) is None,
        },
{
    let mut i = from;
    while i < s.len()
        invariant
            from <= i,
            find_char_from(s@, c, i as int) == find_char_from(s@, c, from as int),
        decreases s@.len() - i,
    {
        if s[i] == c {
            return Some(i);
        }
        i = i + 1;
    }
    None
}

// ---------------------------------------------------------------------------
// UTF-8 widths
// ---------------------------------------------------------------------------

/// Number of bytes in the UTF-8 encoding of `c` (`char::len_utf8`).
pub open spec fn char_width(c: char) -> nat {
    let u = c as u32;
    if u < 0x80 {
        1
    } else if u < 0x800 {
        2
    } else if u < 0x10000 {
        3
    } else {
        4
    }
}

/// Number of bytes in the UTF-8 encoding of `s` (`str::len`).
pub open spec fn utf8_len(s: Seq<char>) -> nat
    decreases s.len(),
{
    if s.len() == 0 {
        0
    } else {
        utf8_len(s.drop_last()) + char_width(s.last())
    }
}

pub fn char_width_exec(c: char) -> (r: usize)
    ensures
        r == char_width(c),
{
    let u = c as u32;
    if u < 0x80 {
        1
    } else if u < 0x800 {
        2
    } else if u < 0x10000 {
        3
    } else {
        4
    }
}


/// Byte offset of character index `i` of `s`, shifted by `base`.
pub open spec fn bpos(s: Seq<char>, base: int, i: int) -> int {
    base + utf8_len(s.take(i))
}

pub proof fn lemma_utf8_len_step(s: Seq<char>, i: int)
    requires
        0 <= i < s.len(),
    ensures
        utf8_len(s.take(i + 1)) == utf8_len(s.take(i)) + char_width(s[i]),
{
    assert(s.take(i + 1).drop_last() =~= s.take(i));
}

pub proof fn lemma_utf8_len_mono(s: Seq<char>, i: int, j: int)
    requires
        0 <= i <= j <= s.len(),
    ensures
        utf8_len(s.take(i)) <= utf8_len(s.take(j)),
        utf8_len(s.take(i)) + (j - i) <= utf8_len(s.take(j)),
    decreases j - i,
{
    if i < j {
        lemma_utf8_len_step(s, j - 1);
        lemma_utf8_len_mono(s, i, j - 1);
    }
}

pub proof fn lemma_utf8_len_full(s: Seq<char>)
    ensures
        utf8_len(s.take(s.len() as int)) == utf8_len(s),
{
    assert(s.take(s.len() as int) =~= s);
}

/// Characters below `0x80` are encoded as one byte.
pub proof fn lemma_utf8_len_ascii_step(s: Seq<char>, i: int)
    requires
        0 <= i < s.len(),
        (s[i] as u32) < 0x80,
    ensures
        utf8_len(s.take(i + 1)) == utf8_len(s.take(i)) + 1,
{
    lemma_utf8_len_step(s, i);
}

pub proof fn lemma_encode_utf8_concat(a: Seq<char>, b: Seq<char>)
    ensures
        vstd::utf8::encode_utf8(a + b).len() == vstd::utf8::encode_utf8(a).len()
            + vstd::utf8::encode_utf8(b).len(),
    decreases a.len(),
{
    if a.len() > 0 {
        assert((a + b).drop_first() =~= a.drop_first() + b);
        lemma_encode_utf8_concat(a.drop_first(), b);
    } else {
        assert(a + b =~= b);
    }
}

/// `utf8_len` is the length of the UTF-8 encoding that `str` uses.
pub proof fn lemma_utf8_len_is_encoding_len(s: Seq<char>)
    ensures
        utf8_len(s) == vstd::utf8::encode_utf8(s).len(),
    decreases s.len(),
{
    if s.len() > 0 {
        let c = s.last();
        lemma_utf8_len_is_encoding_len(s.drop_last());
        assert(s.drop_last() + seq![c] =~= s);
        lemma_encode_utf8_concat(s.drop_last(), seq![c]);
        vstd::utf8::char_is_scalar(c);
        assert(seq![c].drop_first() =~= Seq::<char>::empty());
        assert(vstd::utf8::encode_utf8(seq![c]) == vstd::utf8::encode_scalar(c as u32)
            + vstd::utf8::encode_utf8(Seq::<char>::empty()));
    }
}

/// The byte length of a string slice, as a bound usable by the parsers.
pub fn str_byte_len(s: &str) -> (n: usize)
    ensures
        n == utf8_len(s@),
{
    let b = s.as_bytes();
    proof {
        lemma_utf8_len_is_encoding_len(s@);
    }
    b.len()
}

/// The table of byte offsets of every character index of `s`:
/// entry `i` is `base + utf8_len(s[..i])`.
pub fn byte_offsets(s: &[char], base: usize) -> (v: Vec<usize>)
    requires
        base + utf8_len(s@) <= usize::MAX,
    ensures
        v@.len() == s@.len() + 1,
        forall|i: int| 0 <= i <= s@.len() ==> v@[i] == bpos(s@, base as int, i),
{
    let mut v: Vec<usize> = Vec::new();
    v.push(base);
    let mut acc: usize = base;
    let mut i: usize = 0;
    proof {
        assert(s@.take(0) =~= Seq::<char>::empty());
    }
    while i < s.len()
        invariant
            i <= s@.len(),
            base + utf8_len(s@) <= usize::MAX,
            v@.len() == i + 1,
            acc == bpos(s@, base as int, i as int),
            forall|k: int| 0 <= k <= i ==> v@[k] == bpos(s@, base as int, k),
        decreases s@.len() - i,
    {
        proof {
            lemma_utf8_len_step(s@, i as int);
            lemma_utf8_len_mono(s@, i + 1, s@.len() as int);
            lemma_utf8_len_full(s@);
        }
        acc = acc + char_width_exec(s[i]);
        v.push(acc);
        i = i + 1;
    }
    v
}

/// Byte offsets are monotone in the character index.
pub proof fn lemma_bpos_mono(s: Seq<char>, base: int, i: int, j: int)
    requires
        0 <= i <= j <= s.len(),
    ensures
        bpos(s, base, i) <= bpos(s, base, j) <= base + utf8_len(s),
        bpos(s, base, i) + (j - i) <= bpos(s, base, j),
{
    lemma_utf8_len_mono(s, i, j);
    lemma_utf8_len_mono(s, j, s.len() as int);
    lemma_utf8_len_full(s);
}

/// The characters `s[a..b]` as a `String`.
pub fn substring(s: &[char], a: usize, b: usize) -> (r: String)
    requires
        a <= b <= s@.len(),
    ensures
        r@ == s@.subrange(a as int, b as int),
{
    string_from(vstd::slice::slice_subrange(s, a, b))
}

/// `trim(s[a..b])` as a `String`.
pub fn trimmed(s: &[char], a: usize, b: usize) -> (r: String)
    requires
        a <= b <= s@.len(),
    ensures
        r@ == trim(s@.subrange(a as int, b as int)),
{
    let sub = vstd::slice::slice_subrange(s, a, b);
    let i = skip_space_exec(sub, 0);
    let j = skip_space_back_exec(sub, sub.len());
    if i >= j {
        String::new()
    } else {
        proof {
            lemma_skip_space_bounds(sub@, 0);
            lemma_skip_space_back_bounds(sub@, sub@.len() as int);
        }
        substring(sub, i, j)
    }
}

// ---------------------------------------------------------------------------
// Conversions between `str`/`String` and character sequences
// ---------------------------------------------------------------------------

/// The characters of `s`, in order.
pub fn chars_of(s: &str) -> (v: Vec<char>)
    ensures
        v@ == s@,
{
    let mut it = s.chars();
    let mut v: Vec<char> = Vec::new();
    loop
        invariant
            it.obeys_prophetic_iter_laws(),
            v@ + it.remaining() == s@,
            it.decrease() is Some,
        decreases it.decrease()->0,
    {
        match it.next() {
            Some(c) => {
                v.push(c);
            },
            None => {
                return v;
            },
        }
    }
}

/// Builds a `String` holding exactly the characters of `cs`
/// (`String::from_iter` over the characters).
#[verifier::external_body]
pub(crate) fn string_from(cs: &[char]) -> (s: String)
    ensures
        s@ == cs@,
{
    String::from_iter(cs.iter())
}

} // verus!

verus! {

/// Whether `c` has the Unicode `Uppercase` property (`char::is_uppercase`).
pub uninterp spec fn is_upper(c: char) -> bool;

/// `char::is_uppercase`: the Unicode `Uppercase` property. Among ASCII
/// characters exactly `'A'..='Z'` have it; the rest of the table is named,
/// not stated.
#[verifier::external_body]
pub(crate) fn char_is_uppercase(c: char) -> (r: bool)
    ensures
        r == is_upper(c),
        (c as u32) < 0x80 ==> (r <==> ('A' <= c && c <= 'Z')),
{
    c.is_uppercase()
}

} // verus!

verus! {

/// Equality of character sequences.
pub fn chars_eq(a: &[char], b: &[char]) -> (r: bool)
    ensures
        r == (a@ == b@),
{
    if a.len() != b.len() {
        return false;
    }
    let mut i: usize = 0;
    while i < a.len()
        invariant
            a@.len() == b@.len(),
            i <= a@.len(),
            forall|k: int| 0 <= k < i ==> a@[k] == b@[k],
        decreases a@.len() - i,
    {
        if a[i] != b[i] {
            return false;
        }
        i = i + 1;
    }
    assert(a@ =~= b@);
    true
}

/// The concatenation `a + b`.
pub fn concat_chars(a: &[char], b: &[char]) -> (r: Vec<char>)
    ensures
        r@ == a@ + b@,
{
    let mut r: Vec<char> = Vec::new();
    let mut i: usize = 0;
    while i < a.len()
        invariant
            i <= a@.len(),
            r@ == a@.take(i as int),
        decreases a@.len() - i,
    {
        r.push(a[i]);
        i = i + 1;
        assert(r@ =~= a@.take(i as int));
    }
    let mut j: usize = 0;
    while j < b.len()
        invariant
            j <= b@.len(),
            i == a@.len(),
            r@ == a@ + b@.take(j as int),
        decreases b@.len() - j,
    {
        r.push(b[j]);
        j = j + 1;
        assert(r@ =~= a@ + b@.take(j as int));
    }
    assert(a@.take(a@.len() as int) =~= a@);
    assert(b@.take(b@.len() as int) =~= b@);
    r
}

/// `a + b + c` as a `String`.
pub fn concat3(a: &[char], b: &[char], c: &[char]) -> (r: String)
    ensures
        r@ == a@ + b@ + c@,
{
    let ab = concat_chars(a, b);
    let abc = concat_chars(ab.as_slice(), c);
    string_from(abc.as_slice())
}

/// `find_char_from` returns the least matching index.
pub proof fn lemma_find_char_least(s: Seq<char>, c: char, i: int, k: int)
    requires
        0 <= i <= k < s.len(),
        s[k] == c,
        forall|m: int| i <= m < k ==> s[m] != c,
    ensures
        find_char_from(s, c, i) == Some(k),
    decreases k - i,
{
    if i < k {
        lemma_find_char_least(s, c, i + 1, k);
    }
}

pub proof fn lemma_find_char_none(s: Seq<char>, c: char, i: int)
    requires
        0 <= i <= s.len(),
        forall|m: int| i <= m < s.len() ==> s[m] != c,
    ensures
        find_char_from(s, c, i) is None,
    decreases s.len() - i,
{
    if i < s.len() {
        lemma_find_char_none(s, c, i + 1);
    }
}

} // verus!

verus! {

pub open spec fn strings_view(v: Seq<String>) -> Seq<Seq<char>> {
    v.map_values(|x: String| x@)
}

pub proof fn lemma_strings_view_push(v: Seq<String>, x: String)
    ensures
        strings_view(v.push(x)) == strings_view(v).push(x@),
{
    assert(strings_view(v.push(x)) =~= strings_view(v).push(x@));
}

} // verus!

verus! {

pub proof fn lemma_utf8_len_concat(a: Seq<char>, b: Seq<char>)
    ensures
        utf8_len(a + b) == utf8_len(a) + utf8_len(b),
    decreases b.len(),
{
    if b.len() == 0 {
        assert(a + b =~= a);
    } else {
        assert((a + b).drop_last() =~= a + b.drop_last());
        lemma_utf8_len_concat(a, b.drop_last());
    }
}

/// Byte length of `s[i..j]` in terms of the byte offsets of `i` and `j`.
pub proof fn lemma_utf8_len_subrange(s: Seq<char>, i: int, j: int)
    requires
        0 <= i <= j <= s.len(),
    ensures
        utf8_len(s.take(i)) + utf8_len(s.subrange(i, j)) == utf8_len(s.take(j)),
{
    assert(s.take(j) =~= s.take(i) + s.subrange(i, j));
    lemma_utf8_len_concat(s.take(i), s.subrange(i, j));
}

/// The byte offsets of `s[i..j]` with base `bpos(s, base, i)` agree with those of `s`.
pub proof fn lemma_bpos_subrange(s: Seq<char>, base: int, i: int, j: int, k: int)
    requires
        0 <= i <= j <= s.len(),
        0 <= k <= j - i,
    ensures
        bpos(s.subrange(i, j), bpos(s, base, i), k) == bpos(s, base, i + k),
{
    lemma_utf8_len_subrange(s, i, i + k);
    assert(s.subrange(i, j).take(k) =~= s.subrange(i, i + k));
}

} // verus!
