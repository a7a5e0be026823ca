//! URLs: query parameters, percent encoding and decoding, and resolving links
//! against the page they appear on.
use vstd::prelude::*;
use vstd::utf8::{decode_utf8, encode_utf8, valid_utf8};
use crate::text::{
    lacks, lemma_lacks_concat, append_chars, append_str, chars_eq, chars_string, copy_range, find_char, find_from,
    find_str, last_index_of, lemma_find_from, lemma_last_index_of, matches_at, rfind_char,
    starts_with_str, str_chars,
};
use crate::markup::{html_decode, html_decode_seq, join, join_exec, views};

verus! {

/// The site that relative links resolve against where the page gives no origin.
pub const BASE_URL: &'static str = "https://vvz.ruhr-uni-bochum.de";

/// The characters of [`BASE_URL`].
pub open spec fn base_url_seq() -> Seq<char> {
    "https://vvz.ruhr-uni-bochum.de"@
}

/// What `String::from_utf8_lossy` makes of a byte sequence (each invalid sequence
/// becomes U+FFFD).
pub uninterp spec fn utf8_lossy(b: Seq<u8>) -> Seq<char>;

/// The text that `String::from_utf8_lossy` reads from a byte sequence: valid UTF-8 is
/// decoded as it is; otherwise the text is `utf8_lossy` of the bytes.
pub open spec fn lossy_text(b: Seq<u8>) -> Seq<char> {
    if valid_utf8(b) {
        decode_utf8(b)
    } else {
        utf8_lossy(b)
    }
}

/// Calls `String::from_utf8_lossy`. Claimed, as its documentation says: on valid UTF-8 the
/// result is the decoded text, otherwise it is `utf8_lossy` of the bytes.
#[verifier::external_body]
pub(crate) fn utf8_lossy_string(b: &[u8]) -> (s: String)
    ensures
        valid_utf8(b@) ==> s@ == decode_utf8(b@),
        !valid_utf8(b@) ==> s@ == utf8_lossy(b@),
{
    String::from_utf8_lossy(b).into_owned()
}

/// The UTF-8 encoding of a sequence of characters.
pub fn utf8_bytes(v: &[char]) -> (b: Vec<u8>)
    ensures
        b@ == encode_utf8(v@),
{
    let s = chars_string(v);
    let bytes = s.as_str().as_bytes();
    let mut out: Vec<u8> = Vec::new();
    let mut i: usize = 0;
    while i < bytes.len()
        invariant
            i <= bytes.len(),
            bytes@ == encode_utf8(v@),
            out@ == bytes@.take(i as int),
        decreases bytes.len() - i,
    {
        out.push(bytes[i]);
        assert(bytes@.take(i + 1) =~= bytes@.take(i as int).push(bytes@[i as int]));
        i = i + 1;
    }
    assert(bytes@.take(bytes.len() as int) =~= bytes@);
    out
}

// ---------------------------------------------------------------------------
// Splitting.
// ---------------------------------------------------------------------------

/// The pieces of `s` between occurrences of `c` (`str::split`): always at least one.
pub open spec fn split_char_seq(s: Seq<char>, c: char) -> Seq<Seq<char>>
    decreases s.len(),
{
    match find_from(s, seq![c], 0) {
        None => seq![s],
        Some(i) => {
            proof {
                lemma_find_from(s, seq![c], 0);
            }
            seq![s.take(i)] + split_char_seq(s.skip(i + 1), c)
        },
    }
}

/// The pieces of `s` between occurrences of `c`.
pub fn split_char(s: &[char], c: char) -> (r: Vec<Vec<char>>)
    ensures
        views(r@) == split_char_seq(s@, c),
{
    let mut pieces: Vec<Vec<char>> = Vec::new();
    let mut rest = copy_range(s, 0, s.len());
    assert(rest@ =~= s@);
    assert(views(pieces@) =~= Seq::<Seq<char>>::empty());
    loop
        invariant_except_break
            views(pieces@) + split_char_seq(rest@, c) == split_char_seq(s@, c),
        ensures
            views(pieces@) == split_char_seq(s@, c),
        decreases rest.len(),
    {
        match find_char(&rest, c, 0) {
            None => {
                assert(views(pieces@.push(rest)) =~= views(pieces@).push(rest@));
                pieces.push(rest);
                break ;
            },
            Some(i) => {
                proof {
                    lemma_find_from(rest@, seq![c], 0);
                }
                let piece = copy_range(&rest, 0, i);
                let next = copy_range(&rest, i + 1, rest.len());
                assert(piece@ =~= rest@.take(i as int));
                assert(next@ =~= rest@.skip(i + 1));
                assert(views(pieces@.push(piece)) =~= views(pieces@).push(piece@));
                pieces.push(piece);
                assert(views(pieces@) + split_char_seq(next@, c) =~= split_char_seq(s@, c));
                rest = next;
            },
        }
    }
    pieces
}

// ---------------------------------------------------------------------------
// Percent decoding.
// ---------------------------------------------------------------------------

/// The value of an ASCII hexadecimal digit.
pub open spec fn hex_digit_val(b: u8) -> Option<u8> {
    if 0x30 <= b && b <= 0x39 {
        Some((b - 0x30) as u8)
    } else if 0x61 <= b && b <= 0x66 {
        Some((b - 0x61 + 10) as u8)
    } else if 0x41 <= b && b <= 0x46 {
        Some((b - 0x41 + 10) as u8)
    } else {
        None
    }
}

/// The byte that two characters after a `%` stand for, read as `u8::from_str_radix(.., 16)`
/// reads them: two hexadecimal digits, or `+` and one digit.
pub open spec fn hex_pair(b1: u8, b2: u8) -> Option<u8> {
    if b1 == 0x2B {
        hex_digit_val(b2)
    } else {
        match (hex_digit_val(b1), hex_digit_val(b2)) {
            (Some(h), Some(l)) => Some((h * 16 + l) as u8),
            _ => None,
        }
    }
}

/// The bytes from index `i` on, percent-decoded: `%` with two following bytes that
/// `hex_pair` reads becomes that byte, `+` becomes a space, any other byte stays.
pub open spec fn percent_scan(b: Seq<u8>, i: int) -> Seq<u8>
    decreases b.len() - i,
{
    if i < 0 || i >= b.len() {
        Seq::empty()
    } else if b[i] == 0x25 && i + 2 < b.len() && hex_pair(b[i + 1], b[i + 2]) is Some {
        seq![hex_pair(b[i + 1], b[i + 2])->0] + percent_scan(b, i + 3)
    } else {
        seq![if b[i] == 0x2B { 0x20u8 } else { b[i] }] + percent_scan(b, i + 1)
    }
}

/// The percent-decoded text of a value: its UTF-8 bytes decoded by `percent_scan`, read
/// back with invalid sequences replaced.
pub open spec fn percent_decode_seq(v: Seq<char>) -> Seq<char> {
    lossy_text(percent_scan(encode_utf8(v), 0))
}

fn hex_digit_exec(b: u8) -> (r: Option<u8>)
    ensures
        r == hex_digit_val(b),
{
    if b >= 0x30 && b <= 0x39 {
        Some(b - 0x30)
    } else if b >= 0x61 && b <= 0x66 {
        Some(b - 0x61 + 10)
    } else if b >= 0x41 && b <= 0x46 {
        Some(b - 0x41 + 10)
    } else {
        None
    }
}

fn hex_pair_exec(b1: u8, b2: u8) -> (r: Option<u8>)
    ensures
        r == hex_pair(b1, b2),
{
    if b1 == 0x2B {
        hex_digit_exec(b2)
    } else {
        match (hex_digit_exec(b1), hex_digit_exec(b2)) {
            (Some(h), Some(l)) => Some(h * 16 + l),
            _ => None,
        }
    }
}

/// Decodes `%XX` escapes and `+` in a URL component.
///
/// Where the two bytes after a `%` end inside a multi-byte character, they are taken as no
/// escape, since they are no hexadecimal digits.
pub fn percent_decode(v: &[char]) -> (r: Vec<char>)
    ensures
        r@ == percent_decode_seq(v@),
{
    let bytes = utf8_bytes(v);
    let mut out: Vec<u8> = Vec::new();
    let mut i: usize = 0;
    assert(out@ + percent_scan(bytes@, 0) =~= percent_scan(bytes@, 0));
    while i < bytes.len()
        invariant
            i <= bytes.len(),
            out@ + percent_scan(bytes@, i as int) == percent_scan(bytes@, 0),
        decreases bytes.len() - i,
    {
        if bytes[i] == 0x25 && bytes.len() - i > 2 {
            match hex_pair_exec(bytes[i + 1], bytes[i + 2]) {
                Some(h) => {
                    out.push(h);
                    i = i + 3;
                    assert(out@ + percent_scan(bytes@, i as int) =~= percent_scan(bytes@, 0));
                    continue ;
                },
                None => {},
            }
        }
        let b = if bytes[i] == 0x2B {
            0x20u8
        } else {
            bytes[i]
        };
        out.push(b);
        i = i + 1;
        assert(out@ + percent_scan(bytes@, i as int) =~= percent_scan(bytes@, 0));
    }
    assert(out@ =~= percent_scan(bytes@, 0));
    let s = utf8_lossy_string(&out);
    str_chars(s.as_str())
}

// ---------------------------------------------------------------------------
// Query parameters.
// ---------------------------------------------------------------------------

/// The query of a URL: after the first `?`, up to the first `#`.
pub open spec fn query_part(url: Seq<char>) -> Option<Seq<char>> {
    match find_from(url, seq!['?'], 0) {
        None => None,
        Some(q) => {
            let after = url.skip(q + 1);
            Some(
                match find_from(after, seq!['#'], 0) {
                    Some(h) => after.take(h),
                    None => after,
                },
            )
        },
    }
}

/// A `key=value` pair split at its first `=`; without one, the whole pair is the key.
pub open spec fn split_pair(pair: Seq<char>) -> (Seq<char>, Seq<char>) {
    match find_from(pair, seq!['='], 0) {
        Some(e) => (pair.take(e), pair.skip(e + 1)),
        None => (pair, Seq::empty()),
    }
}

/// The decoded value of the first pair whose entity-decoded key is `name`.
pub open spec fn param_in(pairs: Seq<Seq<char>>, name: Seq<char>) -> Option<Seq<char>>
    decreases pairs.len(),
{
    if pairs.len() == 0 {
        None
    } else {
        let (key, value) = split_pair(pairs[0]);
        if html_decode_seq(key) == name {
            Some(percent_decode_seq(html_decode_seq(value)))
        } else {
            param_in(pairs.drop_first(), name)
        }
    }
}

/// The value of query parameter `name` in `url`: entity-decoded, then percent-decoded.
pub open spec fn query_param_seq(url: Seq<char>, name: Seq<char>) -> Option<Seq<char>> {
    match query_part(url) {
        None => None,
        Some(q) => param_in(split_char_seq(q, '&'), name),
    }
}

/// A `key=value` pair split at its first `=`.
fn split_pair_exec(pair: &[char]) -> (r: (Vec<char>, Vec<char>))
    ensures
        (r.0@, r.1@) == split_pair(pair@),
{
    match find_char(pair, '=', 0) {
        Some(e) => {
            proof {
                lemma_find_from(pair@, seq!['='], 0);
            }
            assert(e + 1 <= pair@.len());
            assert(pair@.len() == pair.len());
            let k = copy_range(pair, 0, e);
            let v = copy_range(pair, e + 1, pair.len());
            assert(k@ =~= pair@.take(e as int));
            assert(v@ =~= pair@.skip(e + 1));
            (k, v)
        },
        None => (copy_range(pair, 0, pair.len()), Vec::new()),
    }
}

/// The value of query parameter `name` in `url`.
pub fn query_param(url: &[char], name: &[char]) -> (r: Option<Vec<char>>)
    ensures
        r matches Some(v) ==> query_param_seq(url@, name@) == Some(v@),
        r is None ==> query_param_seq(url@, name@) is None,
{
    let q = match find_char(url, '?', 0) {
        None => {
            return None;
        },
        Some(q) => q,
    };
    proof {
        lemma_find_from(url@, seq!['?'], 0);
        assert(q + 1 <= url.len());
    }
    let after = copy_range(url, q + 1, url.len());
    assert(after@ =~= url@.skip(q + 1));
    let query = match find_char(&after, '#', 0) {
        Some(h) => {
            proof {
                lemma_find_from(after@, seq!['#'], 0);
            }
            let t = copy_range(&after, 0, h);
            assert(t@ =~= after@.take(h as int));
            t
        },
        None => after,
    };
    assert(query_part(url@) == Some(query@));
    let pairs = split_char(&query, '&');
    let mut i: usize = 0;
    assert(views(pairs@).skip(0) =~= views(pairs@));
    while i < pairs.len()
        invariant
            i <= pairs.len(),
            query_param_seq(url@, name@) == param_in(views(pairs@).skip(i as int), name@),
        decreases pairs.len() - i,
    {
        let ghost rest = views(pairs@).skip(i as int);
        assert(rest[0] == pairs@[i as int]@);
        assert(rest.drop_first() =~= views(pairs@).skip(i + 1));
        let (key, value) = split_pair_exec(&pairs[i]);
        let dk = html_decode(&key);
        if chars_eq(&dk, name) {
            let dv = html_decode(&value);
            return Some(percent_decode(&dv));
        }
        i = i + 1;
    }
    None
}

// ---------------------------------------------------------------------------
// Percent encoding.
// ---------------------------------------------------------------------------

/// Bytes kept as they are: ASCII letters and digits and `-`, `_`, `.`, `~`.
pub open spec fn unreserved(b: u8) -> bool {
    (0x30 <= b && b <= 0x39) || (0x41 <= b && b <= 0x5A) || (0x61 <= b && b <= 0x7A) || b
        == 0x2D || b == 0x5F || b == 0x2E || b == 0x7E
}

/// The uppercase hexadecimal digit of a value below 16.
pub open spec fn hex_upper(n: u8) -> char {
    if n < 10 {
        (0x30 + n) as char
    } else {
        (0x41 + n - 10) as char
    }
}

/// One byte of a URL component, encoded: kept, `+` for a space, or `%` and two
/// uppercase hexadecimal digits.
pub open spec fn encode_byte(b: u8) -> Seq<char> {
    if unreserved(b) {
        seq![b as char]
    } else if b == 0x20 {
        seq!['+']
    } else {
        seq!['%', hex_upper(b / 16), hex_upper(b % 16)]
    }
}

/// Each byte encoded in turn.
pub open spec fn encode_bytes(b: Seq<u8>) -> Seq<char>
    decreases b.len(),
{
    if b.len() == 0 {
        Seq::empty()
    } else {
        encode_bytes(b.drop_last()) + encode_byte(b.last())
    }
}

/// The percent encoding of a text's UTF-8 bytes.
pub open spec fn url_encode_seq(v: Seq<char>) -> Seq<char> {
    encode_bytes(encode_utf8(v))
}

fn hex_upper_exec(n: u8) -> (c: char)
    requires
        n < 16,
    ensures
        c == hex_upper(n),
{
    if n < 10 {
        (0x30 + n) as char
    } else {
        (0x41 + n - 10) as char
    }
}

/// The percent encoding of a text's UTF-8 bytes.
pub fn url_encode_chars(v: &[char]) -> (r: Vec<char>)
    ensures
        r@ == url_encode_seq(v@),
{
    let bytes = utf8_bytes(v);
    let mut out: Vec<char> = Vec::new();
    let mut i: usize = 0;
    while i < bytes.len()
        invariant
            i <= bytes.len(),
            out@ == encode_bytes(bytes@.take(i as int)),
        decreases bytes.len() - i,
    {
        let b = bytes[i];
        assert(bytes@.take(i + 1).drop_last() =~= bytes@.take(i as int));
        if (b >= 0x30 && b <= 0x39) || (b >= 0x41 && b <= 0x5A) || (b >= 0x61 && b <= 0x7A) || b
            == 0x2D || b == 0x5F || b == 0x2E || b == 0x7E {
            out.push(b as char);
        } else if b == 0x20 {
            out.push('+');
        } else {
            out.push('%');
            out.push(hex_upper_exec(b / 16));
            out.push(hex_upper_exec(b % 16));
        }
        i = i + 1;
        assert(out@ =~= encode_bytes(bytes@.take(i as int)));
    }
    assert(bytes@.take(bytes.len() as int) =~= bytes@);
    out
}

/// The address of a course page for an event and a semester.
pub open spec fn event_url_seq(event_guid: Seq<char>, term_guid: Seq<char>, lang: Seq<char>) -> Seq<
    char,
> {
    base_url_seq() + "/campus/all/event.asp?objgguid=NEW&from=vvz&gguid="@ + url_encode_seq(
        event_guid,
    ) + "&mode=own&tguid="@ + url_encode_seq(term_guid) + "&lang="@ + url_encode_seq(lang)
}

/// The address of a course page for an event and a semester.
pub fn event_url_chars(event_guid: &[char], term_guid: &[char], lang: &[char]) -> (r: Vec<char>)
    ensures
        r@ == event_url_seq(event_guid@, term_guid@, lang@),
{
    let mut out = str_chars(BASE_URL);
    append_str(&mut out, "/campus/all/event.asp?objgguid=NEW&from=vvz&gguid=");
    let e = url_encode_chars(event_guid);
    append_chars(&mut out, &e);
    append_str(&mut out, "&mode=own&tguid=");
    let t = url_encode_chars(term_guid);
    append_chars(&mut out, &t);
    append_str(&mut out, "&lang=");
    let l = url_encode_chars(lang);
    append_chars(&mut out, &l);
    out
}

// ---------------------------------------------------------------------------
// Resolving links.
// ---------------------------------------------------------------------------

/// `scheme://host` of a URL: up to the first `://`, and the host up to the next `/`.
pub open spec fn origin_seq(url: Seq<char>) -> Option<Seq<char>> {
    match find_from(url, "://"@, 0) {
        None => None,
        Some(i) => {
            let rest = url.skip(i + 3);
            let host = match find_from(rest, seq!['/'], 0) {
                Some(j) => rest.take(j),
                None => rest,
            };
            Some(url.take(i) + "://"@ + host)
        },
    }
}

/// `scheme://host` of a URL.
pub fn origin(url: &[char]) -> (r: Option<Vec<char>>)
    ensures
        r matches Some(v) ==> origin_seq(url@) == Some(v@),
        r is None ==> origin_seq(url@) is None,
{
    proof {
        reveal_strlit("://");
    }
    let i = match find_str(url, "://", 0) {
        None => {
            return None;
        },
        Some(i) => i,
    };
    proof {
        lemma_find_from(url@, "://"@, 0);
        assert(matches_at(url@, i as int, "://"@));
        assert(i + 3 <= url.len());
    }
    let rest = copy_range(url, i + 3, url.len());
    assert(rest@ =~= url@.skip(i + 3));
    let host = match find_char(&rest, '/', 0) {
        Some(j) => {
            proof {
                lemma_find_from(rest@, seq!['/'], 0);
            }
            let h = copy_range(&rest, 0, j);
            assert(h@ =~= rest@.take(j as int));
            h
        },
        None => rest,
    };
    let mut out = copy_range(url, 0, i);
    assert(out@ =~= url@.take(i as int));
    append_str(&mut out, "://");
    append_chars(&mut out, &host);
    Some(out)
}

/// The path pieces with empty pieces and `.` dropped, and each `..` removing the piece
/// before it.
pub open spec fn normalize_parts(parts: Seq<Seq<char>>) -> Seq<Seq<char>>
    decreases parts.len(),
{
    if parts.len() == 0 {
        Seq::empty()
    } else {
        let prev = normalize_parts(parts.drop_last());
        let p = parts.last();
        if p.len() == 0 || p == seq!['.'] {
            prev
        } else if p == seq!['.', '.'] {
            if prev.len() > 0 {
                prev.drop_last()
            } else {
                prev
            }
        } else {
            prev.push(p)
        }
    }
}

/// An origin followed by a normalised path.
pub open spec fn normalize_url_path_seq(origin: Seq<char>, path: Seq<char>) -> Seq<char> {
    origin + seq!['/'] + join(normalize_parts(split_char_seq(path, '/')), seq!['/'])
}

/// An origin followed by a normalised path.
pub fn normalize_url_path(origin: &[char], path: &[char]) -> (r: Vec<char>)
    ensures
        r@ == normalize_url_path_seq(origin@, path@),
{
    let pieces = split_char(path, '/');
    let mut parts: Vec<Vec<char>> = Vec::new();
    let mut i: usize = 0;
    assert(views(pieces@).take(0) =~= Seq::<Seq<char>>::empty());
    while i < pieces.len()
        invariant
            i <= pieces.len(),
            views(parts@) == normalize_parts(views(pieces@).take(i as int)),
        decreases pieces.len() - i,
    {
        let ghost pre = views(pieces@).take(i as int);
        assert(views(pieces@).take(i + 1).drop_last() =~= pre);
        assert(views(pieces@).take(i + 1).last() == pieces@[i as int]@);
        let p = copy_range(&pieces[i], 0, pieces[i].len());
        assert(p@ =~= pieces@[i as int]@);
        let dot = vec!['.'];
        let dotdot = vec!['.', '.'];
        assert(dot@ =~= seq!['.']);
        assert(dotdot@ =~= seq!['.', '.']);
        if p.len() == 0 || chars_eq(&p, &dot) {
        } else if chars_eq(&p, &dotdot) {
            if parts.len() > 0 {
                parts.pop();
                assert(views(parts@) =~= normalize_parts(pre).drop_last());
            }
        } else {
            proof {
                lemma_views_push_local(parts@, p);
            }
            parts.push(p);
        }
        i = i + 1;
    }
    assert(views(pieces@).take(pieces.len() as int) =~= views(pieces@));
    let mut out = copy_range(origin, 0, origin.len());
    out.push('/');
    let slash = vec!['/'];
    assert(slash@ =~= seq!['/']);
    let joined = join_exec(&parts, &slash);
    append_chars(&mut out, &joined);
    assert(out@ =~= normalize_url_path_seq(origin@, path@));
    out
}

proof fn lemma_views_push_local(v: Seq<Vec<char>>, x: Vec<char>)
    ensures
        views(v.push(x)) == views(v).push(x@),
{
    assert(views(v.push(x)) =~= views(v).push(x@));
}

/// The absolute address of a link `href` found on the page at `base_url`: absolute links
/// stay, links starting with `/` go under the page's origin (or [`BASE_URL`] where the
/// page has none), others are taken relative to the page's directory and normalised.
pub open spec fn absolutize_seq(base_url: Seq<char>, href: Seq<char>) -> Seq<char> {
    let h = html_decode_seq(href);
    if matches_at(h, 0, "http://"@) || matches_at(h, 0, "https://"@) {
        h
    } else {
        let origin = match origin_seq(base_url) {
            Some(o) => o,
            None => base_url_seq(),
        };
        if matches_at(h, 0, seq!['/']) {
            origin + h
        } else {
            let base_path = match find_from(base_url, "://"@, 0) {
                Some(i) => base_url.skip(i + 3),
                None => base_url,
            };
            let path_start = match find_from(base_path, seq!['/'], 0) {
                Some(i) => i,
                None => base_path.len() as int,
            };
            let path = base_path.skip(path_start);
            let directory = match last_index_of(path, '/') {
                Some(i) => path.take(i),
                None => Seq::empty(),
            };
            normalize_url_path_seq(origin, directory + seq!['/'] + h)
        }
    }
}

/// The absolute address of a link found on the page at `base_url`.
pub fn absolutize(base_url: &[char], href: &[char]) -> (r: Vec<char>)
    ensures
        r@ == absolutize_seq(base_url@, href@),
{
    let h = html_decode(href);
    if starts_with_str(&h, "http://") || starts_with_str(&h, "https://") {
        return h;
    }
    let origin_v = match origin(base_url) {
        Some(o) => o,
        None => str_chars(BASE_URL),
    };
    if h.len() > 0 && h[0] == '/' {
        assert(matches_at(h@, 0, seq!['/'])) by {
            assert(h@.subrange(0, 1) =~= seq!['/']);
        }
        let mut out = origin_v;
        append_chars(&mut out, &h);
        return out;
    }
    assert(!matches_at(h@, 0, seq!['/'])) by {
        if h@.len() > 0 {
            assert(h@.subrange(0, 1)[0] == h@[0]);
        }
    }
    proof {
        reveal_strlit("://");
    }
    let base_path = match find_str(base_url, "://", 0) {
        Some(i) => {
            proof {
                lemma_find_from(base_url@, "://"@, 0);
                assert(matches_at(base_url@, i as int, "://"@));
                assert(i + 3 <= base_url.len());
            }
            let b = copy_range(base_url, i + 3, base_url.len());
            assert(b@ =~= base_url@.skip(i + 3));
            b
        },
        None => copy_range(base_url, 0, base_url.len()),
    };
    let path_start = match find_char(&base_path, '/', 0) {
        Some(i) => {
            proof {
                lemma_find_from(base_path@, seq!['/'], 0);
            }
            i
        },
        None => base_path.len(),
    };
    let path = copy_range(&base_path, path_start, base_path.len());
    assert(path@ =~= base_path@.skip(path_start as int));
    let mut joined = match rfind_char(&path, '/') {
        Some(i) => {
            proof {
                lemma_last_index_of(path@, '/');
            }
            let d = copy_range(&path, 0, i);
            assert(d@ =~= path@.take(i as int));
            d
        },
        None => Vec::new(),
    };
    joined.push('/');
    append_chars(&mut joined, &h);
    proof {
        let ghost base_path_s = match find_from(base_url@, "://"@, 0) {
            Some(i) => base_url@.skip(i + 3),
            None => base_url@,
        };
        assert(base_path@ == base_path_s);
        let ghost origin_s = match origin_seq(base_url@) {
            Some(o) => o,
            None => base_url_seq(),
        };
        assert(origin_v@ == origin_s);
        let ghost ps = match find_from(base_path@, seq!['/'], 0) {
            Some(i) => i,
            None => base_path@.len() as int,
        };
        assert(ps == path_start as int);
        let ghost dir = match last_index_of(path@, '/') {
            Some(i) => path@.take(i),
            None => Seq::empty(),
        };
        assert(joined@ =~= dir + seq!['/'] + h@);
    }
    normalize_url_path(&origin_v, &joined)
}


// ---------------------------------------------------------------------------
// Decoding what was encoded.
// ---------------------------------------------------------------------------

/// A character that percent encoding can produce: ASCII letters and digits, `-`, `_`,
/// `.`, `~`, `+` and `%`.
pub open spec fn url_safe(c: char) -> bool {
    ('0' <= c && c <= '9') || ('A' <= c && c <= 'Z') || ('a' <= c && c <= 'z') || c == '-' || c
        == '_' || c == '.' || c == '~' || c == '+' || c == '%'
}

/// The byte values of ASCII characters.
pub open spec fn ascii_codes(s: Seq<char>) -> Seq<u8> {
    s.map_values(|c: char| c as u8)
}

proof fn lemma_encode_bytes_concat(x: Seq<u8>, y: Seq<u8>)
    ensures
        encode_bytes(x + y) == encode_bytes(x) + encode_bytes(y),
    decreases y.len(),
{
    if y.len() == 0 {
        assert(x + y =~= x);
        assert(encode_bytes(x) + encode_bytes(y) =~= encode_bytes(x));
    } else {
        assert((x + y).drop_last() =~= x + y.drop_last());
        assert((x + y).last() == y.last());
        lemma_encode_bytes_concat(x, y.drop_last());
        assert(encode_bytes(x + y) =~= encode_bytes(x) + encode_bytes(y));
    }
}

proof fn lemma_hex_upper(n: u8)
    requires
        n < 16,
    ensures
        ('0' <= hex_upper(n) && hex_upper(n) <= '9') || ('A' <= hex_upper(n) && hex_upper(n)
            <= 'F'),
        hex_upper(n) as u8 != 0x2B,
        hex_digit_val(hex_upper(n) as u8) == Some(n),
{
    if n < 10 {
        assert((0x30 + n) as char as u8 == 0x30 + n);
    } else {
        assert((0x41 + n - 10) as char as u8 == 0x41 + n - 10);
    }
}

proof fn lemma_encode_byte_safe(b: u8)
    ensures
        forall|k: int| 0 <= k < encode_byte(b).len() ==> url_safe(#[trigger] encode_byte(b)[k]),
{
    if !unreserved(b) && b != 0x20 {
        lemma_hex_upper(b / 16);
        lemma_hex_upper(b % 16);
    }
}

proof fn lemma_encode_bytes_safe(b: Seq<u8>)
    ensures
        forall|k: int| 0 <= k < encode_bytes(b).len() ==> url_safe(#[trigger] encode_bytes(b)[k]),
    decreases b.len(),
{
    if b.len() > 0 {
        lemma_encode_bytes_safe(b.drop_last());
        lemma_encode_byte_safe(b.last());
        let x = encode_bytes(b.drop_last());
        let y = encode_byte(b.last());
        assert forall|k: int| 0 <= k < (x + y).len() implies url_safe(#[trigger] (x + y)[k]) by {
            if k >= x.len() {
                assert((x + y)[k] == y[k - x.len()]);
            }
        }
    }
}

proof fn lemma_safe_encode_utf8(s: Seq<char>)
    requires
        forall|k: int| 0 <= k < s.len() ==> url_safe(#[trigger] s[k]),
    ensures
        encode_utf8(s) == ascii_codes(s),
{
    assert(vstd::utf8::is_ascii_chars(s)) by {
        assert forall|k: int| 0 <= k < s.len() implies '\0' <= #[trigger] s[k] <= '\u{7f}' by {
            assert(url_safe(s[k]));
        }
    }
    vstd::utf8::is_ascii_chars_encode_utf8(s);
    assert(encode_utf8(s) =~= ascii_codes(s));
}

proof fn lemma_percent_scan_rest(s: Seq<u8>, i: int, t: Seq<u8>, j: int)
    requires
        0 <= i <= s.len(),
        0 <= j <= t.len(),
        s.skip(i) == t.skip(j),
    ensures
        percent_scan(s, i) == percent_scan(t, j),
    decreases s.len() - i,
{
    assert(s.len() - i == t.skip(j).len());
    if i < s.len() {
        assert(s[i] == s.skip(i)[0] && t[j] == t.skip(j)[0]);
        assert(s.skip(i + 1) =~= s.skip(i).skip(1) && t.skip(j + 1) =~= t.skip(j).skip(1));
        lemma_percent_scan_rest(s, i + 1, t, j + 1);
        if i + 2 < s.len() {
            assert(s[i + 1] == s.skip(i)[1] && t[j + 1] == t.skip(j)[1]);
            assert(s[i + 2] == s.skip(i)[2] && t[j + 2] == t.skip(j)[2]);
            assert(s.skip(i + 3) =~= s.skip(i).skip(3) && t.skip(j + 3) =~= t.skip(j).skip(3));
            lemma_percent_scan_rest(s, i + 3, t, j + 3);
        }
    }
}

proof fn lemma_percent_scan_encoded(b: Seq<u8>)
    ensures
        percent_scan(ascii_codes(encode_bytes(b)), 0) == b,
    decreases b.len(),
{
    let s = ascii_codes(encode_bytes(b));
    if b.len() == 0 {
        assert(s.len() == 0);
    } else {
        let x = b[0];
        let rest = b.drop_first();
        assert(b =~= seq![x] + rest);
        lemma_encode_bytes_concat(seq![x], rest);
        assert(seq![x].drop_last() =~= Seq::<u8>::empty());
        assert(seq![x].last() == x);
        assert(encode_bytes(Seq::<u8>::empty()) =~= Seq::<char>::empty());
        assert(encode_bytes(seq![x]) =~= encode_byte(x));
        let e = encode_byte(x);
        let r = encode_bytes(rest);
        assert(encode_bytes(b) == e + r);
        assert(s =~= ascii_codes(e) + ascii_codes(r));
        lemma_percent_scan_encoded(rest);
        assert(ascii_codes(r).skip(0) =~= ascii_codes(r));
        if unreserved(x) {
            assert((x as char) as u8 == x);
            assert(s[0] == x);
            assert(s.skip(1) =~= ascii_codes(r));
            lemma_percent_scan_rest(s, 1, ascii_codes(r), 0);
            assert(percent_scan(s, 0) =~= seq![x] + rest);
        } else if x == 0x20 {
            assert(s[0] == 0x2B);
            assert(s.skip(1) =~= ascii_codes(r));
            lemma_percent_scan_rest(s, 1, ascii_codes(r), 0);
            assert(percent_scan(s, 0) =~= seq![x] + rest);
        } else {
            lemma_hex_upper(x / 16);
            lemma_hex_upper(x % 16);
            assert(s[0] == 0x25);
            assert(s[1] == hex_upper(x / 16) as u8);
            assert(s[2] == hex_upper(x % 16) as u8);
            assert(hex_pair(s[1], s[2]) == Some(x)) by {
                assert(((x / 16) * 16 + x % 16) as u8 == x) by (bit_vector);
            }
            assert(e.len() == 3);
            assert(s.len() == 3 + r.len());
            assert(s.skip(3) =~= ascii_codes(r));
            lemma_percent_scan_rest(s, 3, ascii_codes(r), 0);
            assert(percent_scan(s, 0) =~= seq![x] + rest);
        }
    }
}

/// Percent decoding undoes percent encoding: decoding the encoding of a text gives back the
/// text's UTF-8 bytes, and so the text itself.
pub proof fn law_percent_decode_undoes_encode(v: Seq<char>)
    ensures
        percent_scan(encode_utf8(url_encode_seq(v)), 0) == encode_utf8(v),
        percent_decode_seq(url_encode_seq(v)) == v,
{
    lemma_encode_bytes_safe(encode_utf8(v));
    lemma_safe_encode_utf8(url_encode_seq(v));
    lemma_percent_scan_encoded(encode_utf8(v));
    vstd::utf8::encode_utf8_valid_utf8(v);
    vstd::utf8::encode_utf8_decode_utf8(v);
}


proof fn lemma_find_char_first(x: Seq<char>, c: char, y: Seq<char>)
    requires
        lacks(x, c),
    ensures
        find_from(x + seq![c] + y, seq![c], 0) == Some(x.len() as int),
{
    let s = x + seq![c] + y;
    lemma_find_from(s, seq![c], 0);
    assert(s.subrange(x.len() as int, (x.len() + 1) as int) =~= seq![c]);
    assert(matches_at(s, x.len() as int, seq![c]));
    match find_from(s, seq![c], 0) {
        Some(i) => {
            if i < x.len() {
                assert(s.subrange(i, i + 1)[0] == s[i]);
                assert(s[i] == x[i]);
            }
        },
        None => {},
    }
}

proof fn lemma_find_char_none(x: Seq<char>, c: char)
    requires
        lacks(x, c),
    ensures
        find_from(x, seq![c], 0) is None,
{
    lemma_find_from(x, seq![c], 0);
    if let Some(i) = find_from(x, seq![c], 0) {
        assert(x.subrange(i, i + 1)[0] == x[i]);
    }
}

proof fn lemma_split_first(x: Seq<char>, c: char, y: Seq<char>)
    requires
        lacks(x, c),
    ensures
        split_char_seq(x + seq![c] + y, c) == seq![x] + split_char_seq(y, c),
{
    let s = x + seq![c] + y;
    lemma_find_char_first(x, c, y);
    assert(s.take(x.len() as int) =~= x);
    assert(s.skip((x.len() + 1) as int) =~= y);
}

proof fn lemma_split_last(x: Seq<char>, c: char)
    requires
        lacks(x, c),
    ensures
        split_char_seq(x, c) == seq![x],
{
    lemma_find_char_none(x, c);
}

proof fn lemma_replace_all_absent(s: Seq<char>, p: Seq<char>, r: Seq<char>)
    requires
        p.len() > 0,
        lacks(s, p[0]),
    ensures
        crate::markup::replace_all(s, p, r) == s,
    decreases s.len(),
{
    if s.len() >= p.len() {
        assert(s.take(p.len() as int)[0] == s[0]);
        assert(lacks(s.skip(1), p[0]));
        lemma_replace_all_absent(s.skip(1), p, r);
        assert(seq![s[0]] + s.skip(1) =~= s);
    }
}

/// Entity decoding leaves a text without `&` as it is.
proof fn lemma_html_decode_plain(s: Seq<char>)
    requires
        lacks(s, '&'),
    ensures
        html_decode_seq(s) == s,
{
    reveal_strlit("&amp;");
    reveal_strlit("&lt;");
    reveal_strlit("&gt;");
    reveal_strlit("&quot;");
    reveal_strlit("&#39;");
    reveal_strlit("&apos;");
    reveal_strlit("&nbsp;");
    lemma_replace_all_absent(s, "&amp;"@, "&"@);
    lemma_replace_all_absent(s, "&lt;"@, "<"@);
    lemma_replace_all_absent(s, "&gt;"@, ">"@);
    lemma_replace_all_absent(s, "&quot;"@, "\""@);
    lemma_replace_all_absent(s, "&#39;"@, "'"@);
    lemma_replace_all_absent(s, "&apos;"@, "'"@);
    lemma_replace_all_absent(s, "&nbsp;"@, " "@);
}

proof fn lemma_encoded_lacks(v: Seq<char>, c: char)
    requires
        !url_safe(c),
    ensures
        lacks(url_encode_seq(v), c),
{
    lemma_encode_bytes_safe(encode_utf8(v));
}

/// A pair `key=value` whose key has no `=`: split at that `=`.
proof fn lemma_split_pair_at(key: Seq<char>, value: Seq<char>)
    requires
        lacks(key, '='),
    ensures
        split_pair(key + seq!['='] + value) == (key, value),
{
    let s = key + seq!['='] + value;
    lemma_find_char_first(key, '=', value);
    assert(s.take(key.len() as int) =~= key);
    assert(s.skip((key.len() + 1) as int) =~= value);
}

/// The query of a course page's address, given the encoded event, semester and language.
spec fn event_query(eg: Seq<char>, et: Seq<char>, el: Seq<char>) -> Seq<char> {
    "objgguid=NEW&from=vvz&gguid="@ + eg + "&mode=own&tguid="@ + et + "&lang="@ + el
}

/// The pairs of that query.
spec fn event_pairs(eg: Seq<char>, et: Seq<char>, el: Seq<char>) -> Seq<Seq<char>> {
    seq!["objgguid=NEW"@, "from=vvz"@, "gguid="@ + eg, "mode=own"@, "tguid="@ + et, "lang="@ + el]
}

proof fn lemma_event_url_query(g: Seq<char>, t: Seq<char>, l: Seq<char>)
    ensures
        query_part(event_url_seq(g, t, l)) == Some(
            event_query(url_encode_seq(g), url_encode_seq(t), url_encode_seq(l)),
        ),
{
    reveal_strlit("https://vvz.ruhr-uni-bochum.de");
    reveal_strlit("/campus/all/event.asp?objgguid=NEW&from=vvz&gguid=");
    reveal_strlit("/campus/all/event.asp");
    reveal_strlit("objgguid=NEW&from=vvz&gguid=");
    reveal_strlit("&mode=own&tguid=");
    reveal_strlit("&lang=");
    let eg = url_encode_seq(g);
    let et = url_encode_seq(t);
    let el = url_encode_seq(l);
    lemma_encoded_lacks(g, '#');
    lemma_encoded_lacks(t, '#');
    lemma_encoded_lacks(l, '#');
    let head = base_url_seq() + "/campus/all/event.asp"@;
    let after = event_query(eg, et, el);
    let u = event_url_seq(g, t, l);
    assert("/campus/all/event.asp?objgguid=NEW&from=vvz&gguid="@ =~= "/campus/all/event.asp"@
        + seq!['?'] + "objgguid=NEW&from=vvz&gguid="@);
    assert(u =~= head + seq!['?'] + after);
    assert(lacks(head, '?'));
    lemma_find_char_first(head, '?', after);
    assert(u.skip((head.len() + 1) as int) =~= after);
    let lit1 = "objgguid=NEW&from=vvz&gguid="@;
    let lit2 = "&mode=own&tguid="@;
    let lit3 = "&lang="@;
    assert(lacks(lit1, '#') && lacks(lit2, '#') && lacks(lit3, '#'));
    lemma_lacks_concat(lit1, eg, '#');
    lemma_lacks_concat(lit1 + eg, lit2, '#');
    lemma_lacks_concat(lit1 + eg + lit2, et, '#');
    lemma_lacks_concat(lit1 + eg + lit2 + et, lit3, '#');
    lemma_lacks_concat(lit1 + eg + lit2 + et + lit3, el, '#');
    lemma_find_char_none(after, '#');
}

proof fn lemma_event_query_pairs(eg: Seq<char>, et: Seq<char>, el: Seq<char>)
    requires
        lacks(eg, '&'),
        lacks(et, '&'),
        lacks(el, '&'),
    ensures
        split_char_seq(event_query(eg, et, el), '&') == event_pairs(eg, et, el),
{
    reveal_strlit("objgguid=NEW&from=vvz&gguid=");
    reveal_strlit("&mode=own&tguid=");
    reveal_strlit("&lang=");
    reveal_strlit("objgguid=NEW");
    reveal_strlit("from=vvz");
    reveal_strlit("gguid=");
    reveal_strlit("mode=own");
    reveal_strlit("tguid=");
    reveal_strlit("lang=");
    let p0 = "objgguid=NEW"@;
    let p1 = "from=vvz"@;
    let p2 = "gguid="@ + eg;
    let p3 = "mode=own"@;
    let p4 = "tguid="@ + et;
    let p5 = "lang="@ + el;
    assert(lacks("gguid="@, '&') && lacks("tguid="@, '&') && lacks("lang="@, '&'));
    assert(lacks(p0, '&') && lacks(p1, '&') && lacks(p3, '&'));
    lemma_lacks_concat("gguid="@, eg, '&');
    lemma_lacks_concat("tguid="@, et, '&');
    lemma_lacks_concat("lang="@, el, '&');
    let r5 = p5;
    let r4 = p4 + seq!['&'] + r5;
    let r3 = p3 + seq!['&'] + r4;
    let r2 = p2 + seq!['&'] + r3;
    let r1 = p1 + seq!['&'] + r2;
    let r0 = p0 + seq!['&'] + r1;
    assert(event_query(eg, et, el) =~= r0);
    lemma_split_last(p5, '&');
    lemma_split_first(p4, '&', r5);
    lemma_split_first(p3, '&', r4);
    lemma_split_first(p2, '&', r3);
    lemma_split_first(p1, '&', r2);
    lemma_split_first(p0, '&', r1);
    assert(split_char_seq(r0, '&') =~= event_pairs(eg, et, el));
}

proof fn lemma_event_pairs_params(eg: Seq<char>, et: Seq<char>, el: Seq<char>)
    requires
        lacks(eg, '&'),
        lacks(et, '&'),
        lacks(el, '&'),
    ensures
        param_in(event_pairs(eg, et, el), "gguid"@) == Some(percent_decode_seq(eg)),
        param_in(event_pairs(eg, et, el), "tguid"@) == Some(percent_decode_seq(et)),
        param_in(event_pairs(eg, et, el), "lang"@) == Some(percent_decode_seq(el)),
{
    reveal_strlit("objgguid=NEW");
    reveal_strlit("from=vvz");
    reveal_strlit("gguid=");
    reveal_strlit("mode=own");
    reveal_strlit("tguid=");
    reveal_strlit("lang=");
    reveal_strlit("objgguid");
    reveal_strlit("NEW");
    reveal_strlit("from");
    reveal_strlit("vvz");
    reveal_strlit("gguid");
    reveal_strlit("mode");
    reveal_strlit("own");
    reveal_strlit("tguid");
    reveal_strlit("lang");
    reveal_with_fuel(param_in, 7);
    let pairs = event_pairs(eg, et, el);
    lemma_split_pair_at("objgguid"@, "NEW"@);
    assert("objgguid"@ + seq!['='] + "NEW"@ =~= pairs[0]);
    lemma_split_pair_at("from"@, "vvz"@);
    assert("from"@ + seq!['='] + "vvz"@ =~= pairs[1]);
    lemma_split_pair_at("gguid"@, eg);
    assert("gguid"@ + seq!['='] + eg =~= pairs[2]);
    lemma_split_pair_at("mode"@, "own"@);
    assert("mode"@ + seq!['='] + "own"@ =~= pairs[3]);
    lemma_split_pair_at("tguid"@, et);
    assert("tguid"@ + seq!['='] + et =~= pairs[4]);
    lemma_split_pair_at("lang"@, el);
    assert("lang"@ + seq!['='] + el =~= pairs[5]);
    lemma_html_decode_plain("objgguid"@);
    lemma_html_decode_plain("from"@);
    lemma_html_decode_plain("gguid"@);
    lemma_html_decode_plain("mode"@);
    lemma_html_decode_plain("tguid"@);
    lemma_html_decode_plain("lang"@);
    lemma_html_decode_plain(eg);
    lemma_html_decode_plain(et);
    lemma_html_decode_plain(el);
    let d1 = pairs.drop_first();
    let d2 = d1.drop_first();
    let d3 = d2.drop_first();
    let d4 = d3.drop_first();
    let d5 = d4.drop_first();
    assert(d1 =~= seq![pairs[1], pairs[2], pairs[3], pairs[4], pairs[5]]);
    assert(d2 =~= seq![pairs[2], pairs[3], pairs[4], pairs[5]]);
    assert(d3 =~= seq![pairs[3], pairs[4], pairs[5]]);
    assert(d4 =~= seq![pairs[4], pairs[5]]);
    assert(d5 =~= seq![pairs[5]]);
    assert("objgguid"@ != "gguid"@ && "from"@ != "gguid"@);
    assert("objgguid"@ != "tguid"@ && "from"@ != "tguid"@ && "mode"@ != "tguid"@);
    assert("gguid"@ != "tguid"@) by {
        assert("gguid"@[0] != "tguid"@[0]);
    }
    assert("objgguid"@ != "lang"@ && "from"@ != "lang"@ && "gguid"@ != "lang"@ && "mode"@
        != "lang"@ && "tguid"@ != "lang"@);
}

/// The address of a course page gives back what it was built from: its `gguid`, `tguid`
/// and `lang` parameters read as the event, the semester and the language.
pub proof fn law_event_url_reads_back(g: Seq<char>, t: Seq<char>, l: Seq<char>)
    ensures
        query_param_seq(event_url_seq(g, t, l), "gguid"@) == Some(g),
        query_param_seq(event_url_seq(g, t, l), "tguid"@) == Some(t),
        query_param_seq(event_url_seq(g, t, l), "lang"@) == Some(l),
{
    let eg = url_encode_seq(g);
    let et = url_encode_seq(t);
    let el = url_encode_seq(l);
    lemma_encoded_lacks(g, '&');
    lemma_encoded_lacks(t, '&');
    lemma_encoded_lacks(l, '&');
    lemma_event_url_query(g, t, l);
    lemma_event_query_pairs(eg, et, el);
    lemma_event_pairs_params(eg, et, el);
    law_percent_decode_undoes_encode(g);
    law_percent_decode_undoes_encode(t);
    law_percent_decode_undoes_encode(l);
}

} // verus!
