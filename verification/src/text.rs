//! Character-level text primitives: case folding, searching, trimming,
//! splitting and the conversions between `&str`, `String` and `Vec<char>`.
use vstd::prelude::*;

verus! {

// ---------------------------------------------------------------------------
// Unicode character classes.
// ---------------------------------------------------------------------------

/// Whether `c` has the Unicode `White_Space` property, which is what `char::is_whitespace`
/// answers: the controls U+0009 to U+000D, space, U+0085, U+00A0, U+1680, U+2000 to U+200A,
/// U+2028, U+2029, U+202F, U+205F and U+3000.
pub closed spec fn unicode_whitespace(c: char) -> bool {
    let u = c as u32;
    (0x09 <= u && u <= 0x0D) || u == 0x20 || u == 0x85 || u == 0xA0 || u == 0x1680 || (0x2000
        <= u && u <= 0x200A) || u == 0x2028 || u == 0x2029 || u == 0x202F || u == 0x205F || u
        == 0x3000
}

/// Whether `c` is alphabetic or numeric in Unicode (what `char::is_alphanumeric` answers).
pub uninterp spec fn unicode_alphanumeric(c: char) -> bool;

/// The Unicode lowercase mapping of a whole string (what `str::to_lowercase` returns).
pub uninterp spec fn unicode_lowercase(s: Seq<char>) -> Seq<char>;

/// The Unicode uppercase mapping of a whole string (what `str::to_uppercase` returns).
pub uninterp spec fn unicode_uppercase(s: Seq<char>) -> Seq<char>;

/// A space is whitespace.
pub proof fn lemma_space_is_whitespace()
    ensures
        unicode_whitespace(' '),
{
}

pub open spec fn is_ascii_digit(c: char) -> bool {
    '0' <= c && c <= '9'
}

pub open spec fn is_ascii_alpha(c: char) -> bool {
    ('a' <= c && c <= 'z') || ('A' <= c && c <= 'Z')
}

pub open spec fn is_ascii_alnum(c: char) -> bool {
    is_ascii_digit(c) || is_ascii_alpha(c)
}

/// Whether `c` is whitespace in Unicode (`char::is_whitespace`); on ASCII characters it holds
/// exactly for space and the controls U+0009 to U+000D.
pub fn char_is_whitespace(c: char) -> (b: bool)
    ensures
        b == unicode_whitespace(c),
        (c as u32) < 128 ==> (b <==> (c == ' ' || (9 <= (c as u32) && (c as u32) <= 13))),
{
    let u = c as u32;
    (0x09 <= u && u <= 0x0D) || u == 0x20 || u == 0x85 || u == 0xA0 || u == 0x1680 || (0x2000
        <= u && u <= 0x200A) || u == 0x2028 || u == 0x2029 || u == 0x202F || u == 0x205F || u
        == 0x3000
}

/// Calls `char::is_alphanumeric`. Claimed: the answer is `unicode_alphanumeric(c)`, and on
/// ASCII characters it holds exactly for the letters and digits.
#[verifier::external_body]
pub(crate) fn char_is_alphanumeric(c: char) -> (b: bool)
    ensures
        b == unicode_alphanumeric(c),
        (c as u32) < 128 ==> (b <==> is_ascii_alnum(c)),
{
    c.is_alphanumeric()
}

/// Calls `str::to_lowercase`. Claimed: the result is `unicode_lowercase` of the argument.
#[verifier::external_body]
pub(crate) fn str_to_lowercase(s: &str) -> (r: String)
    ensures
        r@ == unicode_lowercase(s@),
{
    s.to_lowercase()
}

/// Calls `str::to_uppercase`. Claimed: the result is `unicode_uppercase` of the argument.
#[verifier::external_body]
pub(crate) fn str_to_uppercase(s: &str) -> (r: String)
    ensures
        r@ == unicode_uppercase(s@),
{
    s.to_uppercase()
}

/// Calls `String::push`. Claimed: the character is appended at the end.
#[verifier::external_body]
pub(crate) fn push_char(s: &mut String, c: char)
    ensures
        final(s)@ == old(s)@.push(c),
{
    s.push(c)
}

// ---------------------------------------------------------------------------
// Conversions.
// ---------------------------------------------------------------------------

/// The characters of a string slice.
pub fn str_chars(s: &str) -> (v: Vec<char>)
    ensures
        v@ == s@,
{
    let mut v: Vec<char> = Vec::new();
    for c in it: s.chars()
        invariant
            v@ == it.seq().take(it.index() as int),
    {
        v.push(c);
    }
    v
}

/// A `String` holding the given characters.
pub fn chars_string(v: &[char]) -> (s: String)
    ensures
        s@ == v@,
{
    let mut s = String::new();
    let mut i: usize = 0;
    while i < v.len()
        invariant
            i <= v.len(),
            s@ == v@.take(i as int),
        decreases v.len() - i,
    {
        push_char(&mut s, v[i]);
        assert(v@.take(i as int).push(v@[i as int]) =~= v@.take(i + 1));
        i = i + 1;
    }
    assert(v@.take(v.len() as int) =~= v@);
    s
}

/// The characters from `a` (inclusive) to `b` (exclusive).
pub fn copy_range(s: &[char], a: usize, b: usize) -> (r: Vec<char>)
    requires
        a <= b <= s.len(),
    ensures
        r@ == s@.subrange(a as int, b as int),
{
    let mut r: Vec<char> = Vec::new();
    let mut i: usize = a;
    while i < b
        invariant
            a <= i <= b <= s.len(),
            r@ == s@.subrange(a as int, i as int),
        decreases b - i,
    {
        r.push(s[i]);
        assert(s@.subrange(a as int, i as int).push(s@[i as int]) =~= s@.subrange(
            a as int,
            i + 1,
        ));
        i = i + 1;
    }
    r
}

/// Appends all characters of `t` to `v`.
pub fn append_chars(v: &mut Vec<char>, t: &[char])
    ensures
        final(v)@ == old(v)@ + t@,
{
    let mut i: usize = 0;
    while i < t.len()
        invariant
            i <= t.len(),
            v@ == old(v)@ + t@.take(i as int),
        decreases t.len() - i,
    {
        v.push(t[i]);
        assert(old(v)@ + t@.take(i + 1) =~= (old(v)@ + t@.take(i as int)).push(t@[i as int]));
        i = i + 1;
    }
    assert(t@.take(t.len() as int) =~= t@);
}

/// Appends the characters of a string slice to `v`.
pub fn append_str(v: &mut Vec<char>, t: &str)
    ensures
        final(v)@ == old(v)@ + t@,
{
    let c = str_chars(t);
    append_chars(v, &c);
}

/// Whether two character sequences are equal.
pub fn chars_eq(a: &[char], b: &[char]) -> (r: bool)
    ensures
        r == (a@ == b@),
{
    if a.len() != b.len() {
        return false;
    }
    let mut i: usize = 0;
    while i < a.len()
        invariant
            i <= a.len() == b.len(),
            a@.take(i as int) == b@.take(i as int),
        decreases a.len() - i,
    {
        if a[i] != b[i] {
            assert(a@[i as int] != b@[i as int]);
            return false;
        }
        assert(a@.take(i + 1) =~= a@.take(i as int).push(a@[i as int]));
        assert(b@.take(i + 1) =~= b@.take(i as int).push(b@[i as int]));
        i = i + 1;
    }
    assert(a@ =~= a@.take(a.len() as int));
    assert(b@ =~= b@.take(b.len() as int));
    true
}

// ---------------------------------------------------------------------------
// ASCII case folding.
// ---------------------------------------------------------------------------

/// ASCII lowercase of one character; every other character is kept.
pub open spec fn lower_char(c: char) -> char {
    if 'A' <= c && c <= 'Z' {
        ((c as u32) + 32) as char
    } else {
        c
    }
}

/// ASCII lowercase of every character.
pub open spec fn lower_seq(s: Seq<char>) -> Seq<char> {
    Seq::new(s.len(), |i: int| lower_char(s[i]))
}

pub fn lower_char_exec(c: char) -> (r: char)
    ensures
        r == lower_char(c),
{
    if c >= 'A' && c <= 'Z' {
        let u: u8 = (c as u8) + 32;
        u as char
    } else {
        c
    }
}

/// ASCII lowercase of every character.
pub fn ascii_lower(s: &[char]) -> (r: Vec<char>)
    ensures
        r@ == lower_seq(s@),
{
    let mut r: Vec<char> = Vec::new();
    let mut i: usize = 0;
    while i < s.len()
        invariant
            i <= s.len(),
            r@ =~= lower_seq(s@.take(i as int)),
        decreases s.len() - i,
    {
        let c = lower_char_exec(s[i]);
        r.push(c);
        i = i + 1;
        assert(r@ =~= lower_seq(s@.take(i as int)));
    }
    assert(s@.take(s.len() as int) =~= s@);
    r
}

// ---------------------------------------------------------------------------
// Searching.
// ---------------------------------------------------------------------------

/// `p` occurs in `s` starting at index `i`.
pub open spec fn matches_at(s: Seq<char>, i: int, p: Seq<char>) -> bool {
    0 <= i && i + p.len() <= s.len() && s.subrange(i, i + p.len()) == p
}

/// `c` occurs nowhere in `s`.
pub open spec fn lacks(s: Seq<char>, c: char) -> bool {
    forall|k: int| 0 <= k < s.len() ==> s[k] != c
}

/// A sequence made of two that lack `c` lacks it too.
pub proof fn lemma_lacks_concat(a: Seq<char>, b: Seq<char>, c: char)
    requires
        lacks(a, c),
        lacks(b, c),
    ensures
        lacks(a + b, c),
{
    assert forall|k: int| 0 <= k < (a + b).len() implies (a + b)[k] != c by {
        if k >= a.len() {
            assert((a + b)[k] == b[k - a.len()]);
        }
    }
}

/// The first index at or after `from` where `p` occurs in `s`.
pub open spec fn find_from(s: Seq<char>, p: Seq<char>, from: int) -> Option<int>
    decreases s.len() + 1 - from,
{
    if from < 0 || from + p.len() > s.len() {
        None
    } else if matches_at(s, from, p) {
        Some(from)
    } else {
        find_from(s, p, from + 1)
    }
}

/// `p` occurs somewhere in `s`.
pub open spec fn contains_seq(s: Seq<char>, p: Seq<char>) -> bool {
    find_from(s, p, 0) is Some
}

pub proof fn lemma_find_from(s: Seq<char>, p: Seq<char>, from: int)
    requires
        0 <= from,
    ensures
        find_from(s, p, from) matches Some(i) ==> from <= i && matches_at(s, i, p) && forall|
            j: int,
        |
            from <= j < i ==> !matches_at(s, j, p),
        find_from(s, p, from) is None ==> forall|j: int| from <= j ==> !matches_at(s, j, p),
    decreases s.len() + 1 - from,
{
    if from + p.len() > s.len() {
    } else if matches_at(s, from, p) {
    } else {
        lemma_find_from(s, p, from + 1);
    }
}

/// Whether `p` occurs in `s` at index `i`.
pub fn matches_at_exec(s: &[char], i: usize, p: &[char]) -> (r: bool)
    ensures
        r == matches_at(s@, i as int, p@),
{
    if i > s.len() || p.len() > s.len() - i {
        return false;
    }
    let mut j: usize = 0;
    while j < p.len()
        invariant
            i + p.len() <= s.len(),
            j <= p.len(),
            s@.subrange(i as int, i + j) == p@.take(j as int),
        decreases p.len() - j,
    {
        if s[i + j] != p[j] {
            assert(s@.subrange(i as int, i + p.len())[j as int] != p@[j as int]);
            return false;
        }
        assert(s@.subrange(i as int, i + j + 1) =~= s@.subrange(i as int, i + j).push(
            s@[i + j],
        ));
        assert(p@.take(j + 1) =~= p@.take(j as int).push(p@[j as int]));
        j = j + 1;
    }
    assert(p@.take(p.len() as int) =~= p@);
    true
}

/// The first index at or after `from` where `p` occurs in `s`.
pub fn find_chars(s: &[char], p: &[char], from: usize) -> (r: Option<usize>)
    ensures
        r matches Some(i) ==> find_from(s@, p@, from as int) == Some(i as int),
        r is None ==> find_from(s@, p@, from as int) is None,
{
    if from > s.len() || p.len() > s.len() - from {
        return None;
    }
    let mut i: usize = from;
    while p.len() <= s.len() - i
        invariant
            from <= i,
            i <= s.len(),
            find_from(s@, p@, from as int) == find_from(s@, p@, i as int),
        decreases s.len() - i,
    {
        proof {
            if p.len() == 0 {
                assert(s@.subrange(i as int, i as int) =~= p@);
            }
        }
        if matches_at_exec(s, i, p) {
            return Some(i);
        }
        i = i + 1;
    }
    None
}

/// The first index at or after `from` where `c` occurs in `s`.
pub fn find_char(s: &[char], c: char, from: usize) -> (r: Option<usize>)
    ensures
        r matches Some(i) ==> find_from(s@, seq![c], from as int) == Some(i as int),
        r is None ==> find_from(s@, seq![c], from as int) is None,
{
    let p = vec![c];
    assert(p@ =~= seq![c]);
    find_chars(s, &p, from)
}

/// The first index at or after `from` where the literal `p` occurs in `s`.
pub fn find_str(s: &[char], p: &str, from: usize) -> (r: Option<usize>)
    ensures
        r matches Some(i) ==> find_from(s@, p@, from as int) == Some(i as int),
        r is None ==> find_from(s@, p@, from as int) is None,
{
    let pc = str_chars(p);
    find_chars(s, &pc, from)
}

/// Whether `s` begins with the literal `p`.
pub fn starts_with_str(s: &[char], p: &str) -> (r: bool)
    ensures
        r == matches_at(s@, 0, p@),
{
    let pc = str_chars(p);
    matches_at_exec(s, 0, &pc)
}

/// The last index where `c` occurs in `s`.
pub open spec fn last_index_of(s: Seq<char>, c: char) -> Option<int>
    decreases s.len(),
{
    if s.len() == 0 {
        None
    } else if s.last() == c {
        Some(s.len() - 1)
    } else {
        last_index_of(s.drop_last(), c)
    }
}

pub proof fn lemma_last_index_of(s: Seq<char>, c: char)
    ensures
        last_index_of(s, c) matches Some(i) ==> 0 <= i < s.len() && s[i] == c,
    decreases s.len(),
{
    if s.len() > 0 && s.last() != c {
        lemma_last_index_of(s.drop_last(), c);
    }
}

/// The last index where `c` occurs in `s`.
pub fn rfind_char(s: &[char], c: char) -> (r: Option<usize>)
    ensures
        r matches Some(i) ==> last_index_of(s@, c) == Some(i as int),
        r is None ==> last_index_of(s@, c) is None,
{
    let mut i: usize = s.len();
    assert(s@.take(i as int) =~= s@);
    while i > 0
        invariant
            i <= s.len(),
            last_index_of(s@, c) == last_index_of(s@.take(i as int), c),
        decreases i,
    {
        assert(s@.take(i as int).drop_last() =~= s@.take(i - 1));
        if s[i - 1] == c {
            return Some(i - 1);
        }
        i = i - 1;
    }
    None
}

// ---------------------------------------------------------------------------
// Trimming.
// ---------------------------------------------------------------------------

/// The number of leading characters of `s` that satisfy `f`.
pub open spec fn leading_count(s: Seq<char>, f: spec_fn(char) -> bool) -> nat
    decreases s.len(),
{
    if s.len() == 0 {
        0
    } else if f(s[0]) {
        1 + leading_count(s.drop_first(), f)
    } else {
        0
    }
}

/// The number of trailing characters of `s` that satisfy `f`.
pub open spec fn trailing_count(s: Seq<char>, f: spec_fn(char) -> bool) -> nat
    decreases s.len(),
{
    if s.len() == 0 {
        0
    } else if f(s.last()) {
        1 + trailing_count(s.drop_last(), f)
    } else {
        0
    }
}

pub proof fn lemma_leading_count(s: Seq<char>, f: spec_fn(char) -> bool)
    ensures
        leading_count(s, f) <= s.len(),
        forall|i: int| 0 <= i < leading_count(s, f) ==> f(#[trigger] s[i]),
        leading_count(s, f) < s.len() ==> !f(s[leading_count(s, f) as int]),
    decreases s.len(),
{
    if s.len() > 0 && f(s[0]) {
        lemma_leading_count(s.drop_first(), f);
        assert forall|i: int| 0 <= i < leading_count(s, f) implies f(#[trigger] s[i]) by {
            if i > 0 {
                assert(s[i] == s.drop_first()[i - 1]);
            }
        }
    }
}

pub proof fn lemma_trailing_count(s: Seq<char>, f: spec_fn(char) -> bool)
    ensures
        trailing_count(s, f) <= s.len(),
        forall|i: int| s.len() - trailing_count(s, f) <= i < s.len() ==> f(#[trigger] s[i]),
        trailing_count(s, f) < s.len() ==> !f(s[s.len() - 1 - trailing_count(s, f)]),
    decreases s.len(),
{
    if s.len() > 0 && f(s.last()) {
        lemma_trailing_count(s.drop_last(), f);
        assert forall|i: int| s.len() - trailing_count(s, f) <= i < s.len() implies f(
            #[trigger] s[i],
        ) by {
            if i < s.len() - 1 {
                assert(s[i] == s.drop_last()[i]);
            }
        }
    }
}

/// `leading_count` is the first index that fails `f`.
pub proof fn lemma_leading_count_at(s: Seq<char>, f: spec_fn(char) -> bool, k: int)
    requires
        0 <= k <= s.len(),
        forall|i: int| 0 <= i < k ==> f(#[trigger] s[i]),
        k < s.len() ==> !f(s[k]),
    ensures
        leading_count(s, f) == k,
    decreases k,
{
    if k > 0 {
        assert forall|i: int| 0 <= i < k - 1 implies f(#[trigger] s.drop_first()[i]) by {
            assert(s.drop_first()[i] == s[i + 1]);
        }
        if k - 1 < s.drop_first().len() {
            assert(s.drop_first()[k - 1] == s[k]);
        }
        lemma_leading_count_at(s.drop_first(), f, k - 1);
    }
}

/// `trailing_count` is the number of characters after the last one that fails `f`.
pub proof fn lemma_trailing_count_at(s: Seq<char>, f: spec_fn(char) -> bool, k: int)
    requires
        0 <= k <= s.len(),
        forall|i: int| s.len() - k <= i < s.len() ==> f(#[trigger] s[i]),
        k < s.len() ==> !f(s[s.len() - 1 - k]),
    ensures
        trailing_count(s, f) == k,
    decreases k,
{
    if k > 0 {
        let t = s.drop_last();
        assert forall|i: int| t.len() - (k - 1) <= i < t.len() implies f(#[trigger] t[i]) by {
            assert(t[i] == s[i]);
        }
        if k - 1 < t.len() {
            assert(t[t.len() - 1 - (k - 1)] == s[s.len() - 1 - k]);
        }
        lemma_trailing_count_at(t, f, k - 1);
    }
}

pub open spec fn ws_pred() -> spec_fn(char) -> bool {
    |c: char| unicode_whitespace(c)
}

/// `s` without its leading whitespace (`str::trim_start`).
pub open spec fn trim_start_seq(s: Seq<char>) -> Seq<char> {
    s.skip(leading_count(s, ws_pred()) as int)
}

/// `s` without its trailing whitespace (`str::trim_end`).
pub open spec fn trim_end_seq(s: Seq<char>) -> Seq<char> {
    s.take(s.len() - trailing_count(s, ws_pred()))
}

/// `s` without leading and trailing whitespace (`str::trim`).
pub open spec fn trim_seq(s: Seq<char>) -> Seq<char> {
    trim_end_seq(trim_start_seq(s))
}

/// The number of leading whitespace characters.
pub fn leading_ws(s: &[char]) -> (n: usize)
    ensures
        n == leading_count(s@, ws_pred()),
{
    let mut i: usize = 0;
    while i < s.len()
        invariant
            i <= s.len(),
            forall|j: int| 0 <= j < i ==> unicode_whitespace(#[trigger] s@[j]),
        ensures
            i <= s.len(),
            forall|j: int| 0 <= j < i ==> unicode_whitespace(#[trigger] s@[j]),
            i < s.len() ==> !unicode_whitespace(s@[i as int]),
        decreases s.len() - i,
    {
        if !char_is_whitespace(s[i]) {
            break;
        }
        i = i + 1;
    }
    proof {
        lemma_leading_count_at(s@, ws_pred(), i as int);
    }
    i
}

/// The number of trailing whitespace characters.
pub fn trailing_ws(s: &[char]) -> (n: usize)
    ensures
        n == trailing_count(s@, ws_pred()),
{
    let mut k: usize = 0;
    while k < s.len()
        invariant
            k <= s.len(),
            forall|j: int| s.len() - k <= j < s.len() ==> unicode_whitespace(#[trigger] s@[j]),
        ensures
            k <= s.len(),
            forall|j: int| s.len() - k <= j < s.len() ==> unicode_whitespace(#[trigger] s@[j]),
            k < s.len() ==> !unicode_whitespace(s@[s.len() - 1 - k]),
        decreases s.len() - k,
    {
        if !char_is_whitespace(s[s.len() - 1 - k]) {
            break;
        }
        k = k + 1;
    }
    proof {
        lemma_trailing_count_at(s@, ws_pred(), k as int);
    }
    k
}

/// `s` without its leading whitespace.
pub fn trim_start(s: &[char]) -> (r: Vec<char>)
    ensures
        r@ == trim_start_seq(s@),
{
    let n = leading_ws(s);
    proof {
        lemma_leading_count(s@, ws_pred());
    }
    copy_range(s, n, s.len())
}

/// `s` without leading and trailing whitespace.
pub fn trim(s: &[char]) -> (r: Vec<char>)
    ensures
        r@ == trim_seq(s@),
{
    let t = trim_start(s);
    let k = trailing_ws(&t);
    proof {
        lemma_trailing_count(t@, ws_pred());
    }
    copy_range(&t, 0, t.len() - k)
}

// ---------------------------------------------------------------------------
// Decimal numbers.
// ---------------------------------------------------------------------------

/// The ASCII digit of a value below 10.
pub open spec fn digit_char(d: nat) -> char {
    (0x30 + d) as char
}

/// The decimal representation of `n`, without leading zeros.
pub open spec fn decimal(n: nat) -> Seq<char>
    decreases n,
{
    if n < 10 {
        seq![digit_char(n)]
    } else {
        decimal(n / 10).push(digit_char(n % 10))
    }
}

/// The decimal representation of `n`.
pub fn decimal_exec(n: u64) -> (r: Vec<char>)
    ensures
        r@ == decimal(n as nat),
    decreases n,
{
    let d: u8 = (n % 10) as u8;
    let c = (0x30u8 + d) as char;
    if n < 10 {
        let r = vec![c];
        assert(r@ =~= seq![c]);
        r
    } else {
        let mut r = decimal_exec(n / 10);
        r.push(c);
        r
    }
}

} // verus!
