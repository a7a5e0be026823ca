//! The output of the command line: explained text for readers and JSON for programs.
use vstd::prelude::*;
use crate::markup::{join, join_exec, lemma_views_push, views};
use crate::models::{
    field_views, opt_view, result_views, EventDetail, EventDetailView, Field, FieldView, Row,
    SearchResult, SearchResultView,
};
use crate::map::StrMap;
use crate::text::{
    append_chars, append_str, chars_string, decimal, decimal_exec, lacks, lemma_lacks_concat,
    matches_at, str_chars, trim, trim_seq,
};

verus! {

// ---------------------------------------------------------------------------
// JSON.
// ---------------------------------------------------------------------------

/// The lowercase hexadecimal digit of a value below 16.
pub open spec fn hex_lower(n: u32) -> char {
    if n < 10 {
        (0x30 + n) as char
    } else {
        (0x61 + n - 10) as char
    }
}

fn hex_lower_exec(n: u32) -> (c: char)
    requires
        n < 16,
    ensures
        c == hex_lower(n),
{
    if n < 10 {
        ((0x30 + n) as u8) as char
    } else {
        ((0x61 + n - 10) as u8) as char
    }
}

/// One character as it stands inside a JSON string: quote, backslash, newline, carriage
/// return and tab by their short escapes, any other control character below U+0020 as
/// `\u00` and two lowercase hexadecimal digits, everything else as it is.
pub open spec fn json_escape_char(c: char) -> Seq<char> {
    if c == '"' {
        seq!['\\', '"']
    } else if c == '\\' {
        seq!['\\', '\\']
    } else if c == '\n' {
        seq!['\\', 'n']
    } else if c == '\r' {
        seq!['\\', 'r']
    } else if c == '\t' {
        seq!['\\', 't']
    } else if (c as u32) < 0x20 {
        seq!['\\', 'u', '0', '0', hex_lower((c as u32) / 16), hex_lower((c as u32) % 16)]
    } else {
        seq![c]
    }
}

/// A text as it stands inside a JSON string: quotes, backslashes and control characters
/// escaped.
pub open spec fn json_escape_seq(v: Seq<char>) -> Seq<char>
    decreases v.len(),
{
    if v.len() == 0 {
        Seq::empty()
    } else {
        json_escape_seq(v.drop_last()) + json_escape_char(v.last())
    }
}

/// No character below U+0020 occurs in `s`.
pub open spec fn no_control_chars(s: Seq<char>) -> bool {
    forall|k: int| 0 <= k < s.len() ==> (s[k] as u32) >= 0x20
}

/// Escaped text holds no control character, so a quoted escaped text is a valid JSON
/// string whatever the text holds.
pub proof fn law_json_escape_has_no_control_characters(v: Seq<char>)
    ensures
        no_control_chars(json_escape_seq(v)),
    decreases v.len(),
{
    if v.len() > 0 {
        law_json_escape_has_no_control_characters(v.drop_last());
        let a = json_escape_seq(v.drop_last());
        let b = json_escape_char(v.last());
        let c = v.last();
        if (c as u32) < 0x20 && c != '\n' && c != '\r' && c != '\t' {
            let u = c as u32;
            assert(u / 16 < 16 && u % 16 < 16);
            assert(no_control_chars(b));
        }
        assert forall|k: int| 0 <= k < (a + b).len() implies ((a + b)[k] as u32) >= 0x20 by {
            if k >= a.len() {
                assert((a + b)[k] == b[k - a.len()]);
            }
        }
    }
}

// ---------------------------------------------------------------------------
// Reading JSON strings back.
// ---------------------------------------------------------------------------

/// The value of a JSON hexadecimal digit.
pub open spec fn json_hex_val(c: char) -> Option<u32> {
    if '0' <= c && c <= '9' {
        Some((c as u32 - 0x30) as u32)
    } else if 'a' <= c && c <= 'f' {
        Some((c as u32 - 0x61 + 10) as u32)
    } else if 'A' <= c && c <= 'F' {
        Some((c as u32 - 0x41 + 10) as u32)
    } else {
        None
    }
}

/// The code point of four JSON hexadecimal digits.
pub open spec fn json_hex4(a: char, b: char, c: char, d: char) -> Option<u32> {
    match (json_hex_val(a), json_hex_val(b), json_hex_val(c), json_hex_val(d)) {
        (Some(w), Some(x), Some(y), Some(z)) => Some((((w * 16 + x) * 16 + y) * 16 + z) as u32),
        _ => None,
    }
}

/// `c` in front of a decoded text, where there is one.
pub open spec fn prepend(c: char, o: Option<Seq<char>>) -> Option<Seq<char>> {
    match o {
        Some(t) => Some(seq![c] + t),
        None => None,
    }
}

/// What a JSON reader makes of the characters between the quotes of a string literal, as
/// RFC 8259 defines it: any character but `"`, `\` and the controls below U+0020 stands for
/// itself; `\"`, `\\`, `\/`, `\b`, `\f`, `\n`, `\r`, `\t` and `\u` with four hexadecimal
/// digits stand for one character each; anything else is no JSON string. (A `\u` escape of a
/// surrogate is refused here, so surrogate pairs, which JSON allows, are not read; a body
/// this reads is valid JSON all the same.)
pub open spec fn json_string_body(s: Seq<char>) -> Option<Seq<char>>
    decreases s.len(),
{
    if s.len() == 0 {
        Some(Seq::empty())
    } else if s[0] == '"' || (s[0] as u32) < 0x20 {
        None
    } else if s[0] != '\\' {
        prepend(s[0], json_string_body(s.skip(1)))
    } else if s.len() < 2 {
        None
    } else {
        let e = s[1];
        if e == '"' || e == '\\' || e == '/' {
            prepend(e, json_string_body(s.skip(2)))
        } else if e == 'b' {
            prepend('\u{8}', json_string_body(s.skip(2)))
        } else if e == 'f' {
            prepend('\u{c}', json_string_body(s.skip(2)))
        } else if e == 'n' {
            prepend('\n', json_string_body(s.skip(2)))
        } else if e == 'r' {
            prepend('\r', json_string_body(s.skip(2)))
        } else if e == 't' {
            prepend('\t', json_string_body(s.skip(2)))
        } else if e == 'u' && s.len() >= 6 {
            match json_hex4(s[2], s[3], s[4], s[5]) {
                Some(v) => if 0xD800 <= v && v <= 0xDFFF {
                    None
                } else {
                    prepend(v as char, json_string_body(s.skip(6)))
                },
                None => None,
            }
        } else {
            None
        }
    }
}

/// What a JSON reader makes of a string literal: the text between its quotes, read as
/// [`json_string_body`] reads it.
pub open spec fn json_string_literal(s: Seq<char>) -> Option<Seq<char>> {
    if s.len() >= 2 && s[0] == '"' && s[s.len() - 1] == '"' {
        json_string_body(s.subrange(1, s.len() - 1))
    } else {
        None
    }
}

proof fn lemma_json_escape_concat(x: Seq<char>, y: Seq<char>)
    ensures
        json_escape_seq(x + y) == json_escape_seq(x) + json_escape_seq(y),
    decreases y.len(),
{
    if y.len() == 0 {
        assert(x + y =~= x);
        assert(json_escape_seq(x) + json_escape_seq(y) =~= json_escape_seq(x));
    } else {
        assert((x + y).drop_last() =~= x + y.drop_last());
        assert((x + y).last() == y.last());
        lemma_json_escape_concat(x, y.drop_last());
        assert(json_escape_seq(x + y) =~= json_escape_seq(x) + json_escape_seq(y));
    }
}

proof fn lemma_hex_lower_reads(n: u32)
    requires
        n < 16,
    ensures
        json_hex_val(hex_lower(n)) == Some(n),
{
    if n < 10 {
        assert((0x30 + n) as char as u32 == 0x30 + n);
    } else {
        assert((0x61 + n - 10) as char as u32 == 0x61 + n - 10);
    }
}

/// Reading one escaped character in front of more text gives the character in front of
/// what the rest reads as.
proof fn lemma_escape_char_reads(c: char, rest: Seq<char>)
    ensures
        json_string_body(json_escape_char(c) + rest) == prepend(c, json_string_body(rest)),
{
    let e = json_escape_char(c);
    let s = e + rest;
    assert(s.skip(e.len() as int) =~= rest);
    assert(s[0] == e[0]);
    if e.len() >= 2 {
        assert(s[1] == e[1]);
    }
    let u = c as u32;
    if c == '"' || c == '\\' || c == '\n' || c == '\r' || c == '\t' {
    } else if u < 0x20 {
        lemma_hex_lower_reads(u / 16);
        lemma_hex_lower_reads(u % 16);
        assert(s[2] == '0' && s[3] == '0' && s[4] == e[4] && s[5] == e[5]);
        assert(json_hex4(s[2], s[3], s[4], s[5]) == Some(u)) by {
            assert(((0u32 * 16 + 0) * 16 + u / 16) * 16 + u % 16 == u) by (nonlinear_arith)
                requires
                    u < 0x20,
            ;
        }
        vstd::utf8::char_u32_cast(c, u);
    }
}

/// JSON output reads back: a quoted escaped text is a JSON string literal, and a JSON reader
/// gives back the text itself, whatever the text holds.
pub proof fn law_json_escape_reads_back(v: Seq<char>)
    ensures
        json_string_body(json_escape_seq(v)) == Some(v),
        json_string_literal(seq!['"'] + json_escape_seq(v) + seq!['"']) == Some(v),
    decreases v.len(),
{
    if v.len() == 0 {
        assert(json_escape_seq(v) =~= Seq::<char>::empty());
    } else {
        let c = v[0];
        let rest = v.drop_first();
        assert(v =~= seq![c] + rest);
        lemma_json_escape_concat(seq![c], rest);
        assert(seq![c].drop_last() =~= Seq::<char>::empty());
        assert(seq![c].last() == c);
        assert(json_escape_seq(Seq::<char>::empty()) =~= Seq::<char>::empty());
        assert(json_escape_seq(seq![c]) =~= json_escape_char(c));
        law_json_escape_reads_back(rest);
        lemma_escape_char_reads(c, json_escape_seq(rest));
        assert(seq![c] + rest =~= v);
    }
    let q = seq!['"'] + json_escape_seq(v) + seq!['"'];
    assert(q.subrange(1, q.len() - 1) =~= json_escape_seq(v));
}

/// Appends a text escaped for a JSON string.
fn push_json_escaped(out: &mut Vec<char>, v: &[char])
    ensures
        final(out)@ == old(out)@ + json_escape_seq(v@),
{
    let mut i: usize = 0;
    while i < v.len()
        invariant
            i <= v.len(),
            out@ == old(out)@ + json_escape_seq(v@.take(i as int)),
        decreases v.len() - i,
    {
        let c = v[i];
        assert(v@.take(i + 1).drop_last() =~= v@.take(i as int));
        if c == '"' {
            out.push('\\');
            out.push('"');
        } else if c == '\\' {
            out.push('\\');
            out.push('\\');
        } else if c == '\n' {
            out.push('\\');
            out.push('n');
        } else if c == '\r' {
            out.push('\\');
            out.push('r');
        } else if c == '\t' {
            out.push('\\');
            out.push('t');
        } else if (c as u32) < 0x20 {
            let u = c as u32;
            out.push('\\');
            out.push('u');
            out.push('0');
            out.push('0');
            out.push(hex_lower_exec(u / 16));
            out.push(hex_lower_exec(u % 16));
        } else {
            out.push(c);
        }
        i = i + 1;
        assert(out@ =~= old(out)@ + json_escape_seq(v@.take(i as int)));
    }
    assert(v@.take(v.len() as int) =~= v@);
}

/// Appends a string escaped for a JSON string.
fn push_json_string(out: &mut Vec<char>, s: &String)
    ensures
        final(out)@ == old(out)@ + json_escape_seq(s@),
{
    let c = str_chars(s.as_str());
    push_json_escaped(out, &c);
}

/// A text escaped for a JSON string.
pub fn json_escape(value: &str) -> (r: String)
    ensures
        r@ == json_escape_seq(value@),
{
    let mut out: Vec<char> = Vec::new();
    let v = str_chars(value);
    push_json_escaped(&mut out, &v);
    assert(out@ =~= json_escape_seq(value@));
    chars_string(&out)
}

/// An optional text in JSON: a string, or `null`.
pub open spec fn option_json_seq(v: Option<Seq<char>>) -> Seq<char> {
    match v {
        Some(s) => seq!['"'] + json_escape_seq(s) + seq!['"'],
        None => "null"@,
    }
}

fn push_option_json(out: &mut Vec<char>, v: &Option<String>)
    ensures
        final(out)@ == old(out)@ + option_json_seq(opt_view(*v)),
{
    match v {
        Some(s) => {
            out.push('"');
            push_json_string(out, s);
            out.push('"');
            assert(out@ =~= old(out)@ + option_json_seq(opt_view(*v)));
        },
        None => {
            append_str(out, "null");
        },
    }
}

/// A search result as a JSON object.
pub open spec fn search_result_json_seq(r: SearchResultView) -> Seq<char> {
    "{\"title\":\""@ + json_escape_seq(r.title) + "\",\"url\":\""@ + json_escape_seq(r.url)
        + "\",\"event_guid\":"@ + option_json_seq(r.event_guid) + ",\"term_guid\":"@
        + option_json_seq(r.term_guid) + ",\"summary\":\""@ + json_escape_seq(r.summary) + "\"}"@
}

fn search_result_json(r: &SearchResult) -> (s: Vec<char>)
    ensures
        s@ == search_result_json_seq(r@),
{
    let mut out = str_chars("{\"title\":\"");
    push_json_string(&mut out, &r.title);
    append_str(&mut out, "\",\"url\":\"");
    push_json_string(&mut out, &r.url);
    append_str(&mut out, "\",\"event_guid\":");
    push_option_json(&mut out, &r.event_guid);
    append_str(&mut out, ",\"term_guid\":");
    push_option_json(&mut out, &r.term_guid);
    append_str(&mut out, ",\"summary\":\"");
    push_json_string(&mut out, &r.summary);
    append_str(&mut out, "\"}");
    out
}

/// Search results as a JSON array on one line.
pub open spec fn search_results_json_seq(rs: Seq<SearchResultView>) -> Seq<char> {
    seq!['['] + join(rs.map_values(|r: SearchResultView| search_result_json_seq(r)), seq![','])
        + seq![']', '\n']
}

/// Search results as a JSON array on one line.
pub fn search_results_json(results: &[SearchResult]) -> (s: String)
    ensures
        s@ == search_results_json_seq(result_views(results@)),
{
    let mut items: Vec<Vec<char>> = Vec::new();
    let mut i: usize = 0;
    while i < results.len()
        invariant
            i <= results.len(),
            views(items@) =~= result_views(results@).take(i as int).map_values(
                |r: SearchResultView| search_result_json_seq(r),
            ),
        decreases results.len() - i,
    {
        let item = search_result_json(&results[i]);
        proof {
            lemma_views_push(items@, item);
            assert(result_views(results@)[i as int] == results@[i as int]@);
            assert(result_views(results@).take(i + 1) =~= result_views(results@).take(
                i as int,
            ).push(results@[i as int]@));
        }
        items.push(item);
        i = i + 1;
    }
    assert(result_views(results@).take(results.len() as int) =~= result_views(results@));
    let mut out = vec!['['];
    let comma = vec![','];
    assert(comma@ =~= seq![',']);
    let joined = join_exec(&items, &comma);
    append_chars(&mut out, &joined);
    out.push(']');
    out.push('\n');
    assert(out@ =~= search_results_json_seq(result_views(results@)));
    chars_string(&out)
}

/// An area as a JSON object.
pub open spec fn field_json_seq(f: FieldView) -> Seq<char> {
    "{\"name\":\""@ + json_escape_seq(f.name) + "\",\"url\":\""@ + json_escape_seq(f.url)
        + "\",\"value\":"@ + option_json_seq(f.value) + ",\"guid\":"@ + option_json_seq(f.guid)
        + ",\"term_guid\":"@ + option_json_seq(f.term_guid) + "}"@
}

fn field_json(f: &Field) -> (s: Vec<char>)
    ensures
        s@ == field_json_seq(f@),
{
    let mut out = str_chars("{\"name\":\"");
    push_json_string(&mut out, &f.name);
    append_str(&mut out, "\",\"url\":\"");
    push_json_string(&mut out, &f.url);
    append_str(&mut out, "\",\"value\":");
    push_option_json(&mut out, &f.value);
    append_str(&mut out, ",\"guid\":");
    push_option_json(&mut out, &f.guid);
    append_str(&mut out, ",\"term_guid\":");
    push_option_json(&mut out, &f.term_guid);
    append_str(&mut out, "}");
    out
}

/// Areas as a JSON array on one line.
pub open spec fn fields_json_seq(fs: Seq<FieldView>) -> Seq<char> {
    seq!['['] + join(fs.map_values(|f: FieldView| field_json_seq(f)), seq![',']) + seq![']', '\n']
}

/// Areas as a JSON array on one line.
pub fn fields_json(fields: &[Field]) -> (s: String)
    ensures
        s@ == fields_json_seq(field_views(fields@)),
{
    let mut items: Vec<Vec<char>> = Vec::new();
    let mut i: usize = 0;
    while i < fields.len()
        invariant
            i <= fields.len(),
            views(items@) =~= field_views(fields@).take(i as int).map_values(
                |f: FieldView| field_json_seq(f),
            ),
        decreases fields.len() - i,
    {
        let item = field_json(&fields[i]);
        proof {
            lemma_views_push(items@, item);
            assert(field_views(fields@)[i as int] == fields@[i as int]@);
            assert(field_views(fields@).take(i + 1) =~= field_views(fields@).take(i as int).push(
                fields@[i as int]@,
            ));
        }
        items.push(item);
        i = i + 1;
    }
    assert(field_views(fields@).take(fields.len() as int) =~= field_views(fields@));
    let mut out = vec!['['];
    let comma = vec![','];
    assert(comma@ =~= seq![',']);
    let joined = join_exec(&items, &comma);
    append_chars(&mut out, &joined);
    out.push(']');
    out.push('\n');
    assert(out@ =~= fields_json_seq(field_views(fields@)));
    chars_string(&out)
}

/// A text map as a JSON object, keys in order.
pub open spec fn string_map_json_seq(m: Seq<(Seq<char>, Seq<char>)>) -> Seq<char> {
    seq!['{'] + join(
        m.map_values(
            |e: (Seq<char>, Seq<char>)|
                seq!['"'] + json_escape_seq(e.0) + "\":\""@ + json_escape_seq(e.1) + seq!['"'],
        ),
        seq![','],
    ) + seq!['}']
}

fn string_map_json(m: &StrMap<String>) -> (s: Vec<char>)
    ensures
        s@ == string_map_json_seq(m@),
{
    let mut items: Vec<Vec<char>> = Vec::new();
    let mut i: usize = 0;
    while i < m.len()
        invariant
            i <= m@.len(),
            views(items@) =~= m@.take(i as int).map_values(
                |e: (Seq<char>, Seq<char>)|
                    seq!['"'] + json_escape_seq(e.0) + "\":\""@ + json_escape_seq(e.1) + seq!['"'],
            ),
        decreases m@.len() - i,
    {
        let mut item = vec!['"'];
        assert(item@ =~= seq!['"']);
        push_json_string(&mut item, m.key_at(i));
        append_str(&mut item, "\":\"");
        push_json_string(&mut item, m.value_at(i));
        item.push('"');
        assert(item@ =~= seq!['"'] + json_escape_seq(m@[i as int].0) + "\":\""@ + json_escape_seq(
            m@[i as int].1,
        ) + seq!['"']);
        proof {
            lemma_views_push(items@, item);
            assert(m@.take(i + 1) =~= m@.take(i as int).push(m@[i as int]));
        }
        items.push(item);
        i = i + 1;
    }
    assert(m@.take(m@.len() as int) =~= m@);
    let mut out = vec!['{'];
    let comma = vec![','];
    assert(comma@ =~= seq![',']);
    let joined = join_exec(&items, &comma);
    append_chars(&mut out, &joined);
    out.push('}');
    assert(out@ =~= string_map_json_seq(m@));
    out
}

/// The records of a section as a JSON array.
pub open spec fn rows_json_seq(rows: Seq<Seq<(Seq<char>, Seq<char>)>>) -> Seq<char> {
    seq!['['] + join(
        rows.map_values(|r: Seq<(Seq<char>, Seq<char>)>| string_map_json_seq(r)),
        seq![','],
    ) + seq![']']
}

fn rows_json(rows: &Vec<Row>) -> (s: Vec<char>)
    ensures
        s@ == rows_json_seq(rows.deep_view()),
{
    let mut items: Vec<Vec<char>> = Vec::new();
    let mut i: usize = 0;
    while i < rows.len()
        invariant
            i <= rows.len(),
            views(items@) =~= rows.deep_view().take(i as int).map_values(
                |r: Seq<(Seq<char>, Seq<char>)>| string_map_json_seq(r),
            ),
        decreases rows.len() - i,
    {
        let item = string_map_json(&rows[i]);
        proof {
            lemma_views_push(items@, item);
            assert(rows.deep_view().take(i + 1) =~= rows.deep_view().take(i as int).push(
                rows@[i as int].deep_view(),
            ));
        }
        items.push(item);
        i = i + 1;
    }
    assert(rows.deep_view().take(rows.len() as int) =~= rows.deep_view());
    let mut out = vec!['['];
    let comma = vec![','];
    assert(comma@ =~= seq![',']);
    let joined = join_exec(&items, &comma);
    append_chars(&mut out, &joined);
    out.push(']');
    assert(out@ =~= rows_json_seq(rows.deep_view()));
    out
}

/// The sections as a JSON object: heading to the array of its records.
pub open spec fn sections_json_seq(m: Seq<(Seq<char>, Seq<Seq<(Seq<char>, Seq<char>)>>)>) -> Seq<
    char,
> {
    seq!['{'] + join(
        m.map_values(
            |e: (Seq<char>, Seq<Seq<(Seq<char>, Seq<char>)>>)|
                seq!['"'] + json_escape_seq(e.0) + seq!['"', ':'] + rows_json_seq(e.1),
        ),
        seq![','],
    ) + seq!['}']
}

fn sections_json(m: &StrMap<Vec<Row>>) -> (s: Vec<char>)
    ensures
        s@ == sections_json_seq(m@),
{
    let mut items: Vec<Vec<char>> = Vec::new();
    let mut i: usize = 0;
    while i < m.len()
        invariant
            i <= m@.len(),
            views(items@) =~= m@.take(i as int).map_values(
                |e: (Seq<char>, Seq<Seq<(Seq<char>, Seq<char>)>>)|
                    seq!['"'] + json_escape_seq(e.0) + seq!['"', ':'] + rows_json_seq(e.1),
            ),
        decreases m@.len() - i,
    {
        let mut item = vec!['"'];
        assert(item@ =~= seq!['"']);
        push_json_string(&mut item, m.key_at(i));
        item.push('"');
        item.push(':');
        let rj = rows_json(m.value_at(i));
        append_chars(&mut item, &rj);
        assert(item@ =~= seq!['"'] + json_escape_seq(m@[i as int].0) + seq!['"', ':'] + rows_json_seq(
            m@[i as int].1,
        ));
        proof {
            lemma_views_push(items@, item);
            assert(m@.take(i + 1) =~= m@.take(i as int).push(m@[i as int]));
        }
        items.push(item);
        i = i + 1;
    }
    assert(m@.take(m@.len() as int) =~= m@);
    let mut out = vec!['{'];
    let comma = vec![','];
    assert(comma@ =~= seq![',']);
    let joined = join_exec(&items, &comma);
    append_chars(&mut out, &joined);
    out.push('}');
    assert(out@ =~= sections_json_seq(m@));
    out
}

/// A course's details as a JSON object on one line.
pub open spec fn event_detail_json_seq(d: EventDetailView) -> Seq<char> {
    "{\"title\":\""@ + json_escape_seq(d.title) + "\",\"url\":\""@ + json_escape_seq(d.url)
        + "\",\"event_guid\":"@ + option_json_seq(d.event_guid) + ",\"term_guid\":"@
        + option_json_seq(d.term_guid) + ",\"fields\":"@ + string_map_json_seq(d.fields)
        + ",\"sections\":"@ + sections_json_seq(d.sections) + ",\"description\":\""@
        + json_escape_seq(d.description) + "\"}\n"@
}

/// A course's details as a JSON object on one line.
pub fn event_detail_json(d: &EventDetail) -> (s: String)
    ensures
        s@ == event_detail_json_seq(d@),
{
    let mut out = str_chars("{\"title\":\"");
    push_json_string(&mut out, &d.title);
    append_str(&mut out, "\",\"url\":\"");
    push_json_string(&mut out, &d.url);
    append_str(&mut out, "\",\"event_guid\":");
    push_option_json(&mut out, &d.event_guid);
    append_str(&mut out, ",\"term_guid\":");
    push_option_json(&mut out, &d.term_guid);
    append_str(&mut out, ",\"fields\":");
    let f = string_map_json(&d.fields);
    append_chars(&mut out, &f);
    append_str(&mut out, ",\"sections\":");
    let s = sections_json(&d.sections);
    append_chars(&mut out, &s);
    append_str(&mut out, ",\"description\":\"");
    push_json_string(&mut out, &d.description);
    append_str(&mut out, "\"}\n");
    chars_string(&out)
}

// ---------------------------------------------------------------------------
// Explained text.
// ---------------------------------------------------------------------------

/// What a hint says where a search found nothing.
pub const SEARCH_EMPTY_HINT: &'static str = "The query returned no public VVZ courses for the selected semester. Check the spelling or set --term-guid for another semester.";

/// What a hint says where an area lists nothing.
pub const EVENTS_EMPTY_HINT: &'static str = "The VVZ area returned no public courses for the selected semester. Check the area gguid or set --term-guid.";

/// The explanation above a list of courses.
pub const RESULTS_INTERPRETATION: &'static str = "Interpretation: gguid is the course identifier and tguid is the semester. Run 'rub-vvz event <gguid> --term-guid <tguid>' for details or use '--json' for machine-readable output.\n\n";

/// The explanation above a course's details.
pub const DETAIL_INTERPRETATION: &'static str = "Interpretation: gguid is the course identifier and tguid is the semester. Fields are CampusOffice metadata; sections contain tables such as appointments, lecturers, modules, or audiences. Use '--json' for machine-readable output.\n\n";

/// The text for an empty list of areas.
pub const FIELDS_EMPTY: &'static str = "rub-vvz fields: 0 VVZ areas found.\n\nInterpretation: No public VVZ areas were detected for the selected semester. Check --term-guid or RUB VVZ availability.\n";

/// The explanation above a list of areas.
pub const FIELDS_INTERPRETATION: &'static str = "Interpretation: gguid is the area identifier and tguid is the semester. Run 'rub-vvz events <gguid> --term-guid <tguid>' for courses in an area or use '--json' for machine-readable output.\n\n";

/// Which command a list of courses answers.
#[derive(Clone, Copy, Debug, PartialEq, Eq, Structural)]
pub enum ResultListKind {
    Search,
    Events,
}

/// An optional line: a prefix, the value and a newline, or nothing.
pub open spec fn opt_line(prefix: Seq<char>, v: Option<Seq<char>>) -> Seq<char> {
    match v {
        Some(x) => prefix + x + seq!['\n'],
        None => Seq::empty(),
    }
}

fn push_opt_line(out: &mut Vec<char>, prefix: &str, v: &Option<String>)
    ensures
        final(out)@ == old(out)@ + opt_line(prefix@, opt_view(*v)),
{
    match v {
        Some(x) => {
            append_str(out, prefix);
            append_str(out, x.as_str());
            out.push('\n');
            assert(out@ =~= old(out)@ + opt_line(prefix@, opt_view(*v)));
        },
        None => {
            assert(out@ =~= old(out)@ + opt_line(prefix@, opt_view(*v)));
        },
    }
}

/// The lines of the `n`-th course of a list.
pub open spec fn result_item(n: nat, r: SearchResultView) -> Seq<char> {
    decimal(n) + ". "@ + r.title + seq!['\n'] + opt_line("   gguid: "@, r.event_guid) + opt_line(
        "   tguid: "@,
        r.term_guid,
    ) + (if r.summary.len() > 0 {
        "   "@ + r.summary + seq!['\n']
    } else {
        Seq::empty()
    }) + "   "@ + r.url + seq!['\n']
}

/// The lines of the courses, numbered from 1.
pub open spec fn result_items(rs: Seq<SearchResultView>) -> Seq<char>
    decreases rs.len(),
{
    if rs.len() == 0 {
        Seq::empty()
    } else {
        result_items(rs.drop_last()) + result_item(rs.len(), rs.last())
    }
}

/// A list of courses as explained text.
pub open spec fn search_results_text_seq(rs: Seq<SearchResultView>, kind: ResultListKind) -> Seq<char> {
    let label = match kind {
        ResultListKind::Search => "rub-vvz search"@,
        ResultListKind::Events => "rub-vvz events"@,
    };
    let hint = match kind {
        ResultListKind::Search => SEARCH_EMPTY_HINT@,
        ResultListKind::Events => EVENTS_EMPTY_HINT@,
    };
    if rs.len() == 0 {
        label + ": 0 courses found.\n\nInterpretation: "@ + hint + seq!['\n']
    } else {
        label + ": "@ + decimal(rs.len()) + " courses found.\n\n"@ + RESULTS_INTERPRETATION@
            + result_items(rs)
    }
}

fn push_result_item(out: &mut Vec<char>, n: usize, r: &SearchResult)
    ensures
        final(out)@ == old(out)@ + result_item(n as nat, r@),
{
    let num = decimal_exec(n as u64);
    append_chars(out, &num);
    append_str(out, ". ");
    append_str(out, r.title.as_str());
    out.push('\n');
    push_opt_line(out, "   gguid: ", &r.event_guid);
    push_opt_line(out, "   tguid: ", &r.term_guid);
    if !r.summary.as_str().is_empty() {
        append_str(out, "   ");
        append_str(out, r.summary.as_str());
        out.push('\n');
    }
    append_str(out, "   ");
    append_str(out, r.url.as_str());
    out.push('\n');
    assert(out@ =~= old(out)@ + result_item(n as nat, r@));
}

/// A list of courses as explained text.
pub fn search_results_text(results: &[SearchResult], kind: ResultListKind) -> (s: String)
    ensures
        s@ == search_results_text_seq(result_views(results@), kind),
{
    let label = match kind {
        ResultListKind::Search => "rub-vvz search",
        ResultListKind::Events => "rub-vvz events",
    };
    let hint = match kind {
        ResultListKind::Search => SEARCH_EMPTY_HINT,
        ResultListKind::Events => EVENTS_EMPTY_HINT,
    };
    let mut out = str_chars(label);
    if results.len() == 0 {
        append_str(&mut out, ": 0 courses found.\n\nInterpretation: ");
        append_str(&mut out, hint);
        out.push('\n');
        return chars_string(&out);
    }
    append_str(&mut out, ": ");
    let n = decimal_exec(results.len() as u64);
    append_chars(&mut out, &n);
    append_str(&mut out, " courses found.\n\n");
    append_str(&mut out, RESULTS_INTERPRETATION);
    let ghost head = out@;
    let mut i: usize = 0;
    assert(result_views(results@).take(0) =~= Seq::<SearchResultView>::empty());
    while i < results.len()
        invariant
            i <= results.len(),
            out@ == head + result_items(result_views(results@).take(i as int)),
        decreases results.len() - i,
    {
        let r = &results[i];
        let ghost rv = result_views(results@).take(i + 1);
        assert(rv.drop_last() =~= result_views(results@).take(i as int));
        assert(rv.last() == r@);
        push_result_item(&mut out, i + 1, r);
        i = i + 1;
    }
    assert(result_views(results@).take(results.len() as int) =~= result_views(results@));
    chars_string(&out)
}

/// The lines of the `n`-th area of a list.
pub open spec fn field_item(n: nat, f: FieldView) -> Seq<char> {
    decimal(n) + ". "@ + f.name + seq!['\n'] + opt_line("   field: "@, f.value) + opt_line(
        "   gguid: "@,
        f.guid,
    ) + opt_line("   tguid: "@, f.term_guid) + "   "@ + f.url + seq!['\n']
}

/// The lines of the areas, numbered from 1.
pub open spec fn field_items(fs: Seq<FieldView>) -> Seq<char>
    decreases fs.len(),
{
    if fs.len() == 0 {
        Seq::empty()
    } else {
        field_items(fs.drop_last()) + field_item(fs.len(), fs.last())
    }
}

/// A list of areas as explained text.
pub open spec fn fields_text_seq(fs: Seq<FieldView>) -> Seq<char> {
    if fs.len() == 0 {
        FIELDS_EMPTY@
    } else {
        "rub-vvz fields: "@ + decimal(fs.len()) + " VVZ areas found.\n\n"@ + FIELDS_INTERPRETATION@
            + field_items(fs)
    }
}

fn push_field_item(out: &mut Vec<char>, n: usize, f: &Field)
    ensures
        final(out)@ == old(out)@ + field_item(n as nat, f@),
{
    let num = decimal_exec(n as u64);
    append_chars(out, &num);
    append_str(out, ". ");
    append_str(out, f.name.as_str());
    out.push('\n');
    push_opt_line(out, "   field: ", &f.value);
    push_opt_line(out, "   gguid: ", &f.guid);
    push_opt_line(out, "   tguid: ", &f.term_guid);
    append_str(out, "   ");
    append_str(out, f.url.as_str());
    out.push('\n');
    assert(out@ =~= old(out)@ + field_item(n as nat, f@));
}

/// A list of areas as explained text.
pub fn fields_text(fields: &[Field]) -> (s: String)
    ensures
        s@ == fields_text_seq(field_views(fields@)),
{
    if fields.len() == 0 {
        return FIELDS_EMPTY.to_owned();
    }
    let mut out = str_chars("rub-vvz fields: ");
    let n = decimal_exec(fields.len() as u64);
    append_chars(&mut out, &n);
    append_str(&mut out, " VVZ areas found.\n\n");
    append_str(&mut out, FIELDS_INTERPRETATION);
    let ghost head = out@;
    let mut i: usize = 0;
    assert(field_views(fields@).take(0) =~= Seq::<FieldView>::empty());
    while i < fields.len()
        invariant
            i <= fields.len(),
            out@ == head + field_items(field_views(fields@).take(i as int)),
        decreases fields.len() - i,
    {
        let f = &fields[i];
        let ghost fv = field_views(fields@).take(i + 1);
        assert(fv.drop_last() =~= field_views(fields@).take(i as int));
        assert(fv.last() == f@);
        push_field_item(&mut out, i + 1, f);
        i = i + 1;
    }
    assert(field_views(fields@).take(fields.len() as int) =~= field_views(fields@));
    chars_string(&out)
}

/// `key: value` lines of a text map, in key order.
pub open spec fn field_lines(m: Seq<(Seq<char>, Seq<char>)>) -> Seq<char>
    decreases m.len(),
{
    if m.len() == 0 {
        Seq::empty()
    } else {
        field_lines(m.drop_last()) + m.last().0 + ": "@ + m.last().1 + seq!['\n']
    }
}

/// The cells of a record as `key: value`, joined by ` | `.
pub open spec fn record_line(r: Seq<(Seq<char>, Seq<char>)>) -> Seq<char> {
    join(r.map_values(|e: (Seq<char>, Seq<char>)| e.0 + ": "@ + e.1), " | "@)
}

/// One line per record, each starting with `- `.
pub open spec fn record_lines(rows: Seq<Seq<(Seq<char>, Seq<char>)>>) -> Seq<char>
    decreases rows.len(),
{
    if rows.len() == 0 {
        Seq::empty()
    } else {
        record_lines(rows.drop_last()) + "- "@ + record_line(rows.last()) + seq!['\n']
    }
}

/// Each section: an empty line, its heading, and its records.
pub open spec fn section_lines(m: Seq<(Seq<char>, Seq<Seq<(Seq<char>, Seq<char>)>>)>) -> Seq<char>
    decreases m.len(),
{
    if m.len() == 0 {
        Seq::empty()
    } else {
        section_lines(m.drop_last()) + seq!['\n'] + m.last().0 + seq!['\n'] + record_lines(
            m.last().1,
        )
    }
}

/// A course's details as explained text.
pub open spec fn event_detail_text_seq(d: EventDetailView) -> Seq<char> {
    "rub-vvz event: course details\n\n"@ + DETAIL_INTERPRETATION@ + d.title + seq!['\n']
        + opt_line("gguid: "@, d.event_guid) + opt_line("tguid: "@, d.term_guid) + d.url + seq![
        '\n',
    ] + field_lines(d.fields) + section_lines(d.sections) + (if trim_seq(d.description).len()
        > 0 {
        "\nDescription\n"@ + trim_seq(d.description) + seq!['\n']
    } else {
        Seq::empty()
    })
}

fn record_line_exec(r: &Row) -> (s: Vec<char>)
    ensures
        s@ == record_line(r@),
{
    let mut cells: Vec<Vec<char>> = Vec::new();
    let mut i: usize = 0;
    while i < r.len()
        invariant
            i <= r@.len(),
            views(cells@) =~= r@.take(i as int).map_values(
                |e: (Seq<char>, Seq<char>)| e.0 + ": "@ + e.1,
            ),
        decreases r@.len() - i,
    {
        let mut c = str_chars(r.key_at(i).as_str());
        append_str(&mut c, ": ");
        append_str(&mut c, r.value_at(i).as_str());
        proof {
            lemma_views_push(cells@, c);
            assert(r@.take(i + 1) =~= r@.take(i as int).push(r@[i as int]));
        }
        cells.push(c);
        i = i + 1;
    }
    assert(r@.take(r@.len() as int) =~= r@);
    let sep = str_chars(" | ");
    join_exec(&cells, &sep)
}

fn push_record_lines(out: &mut Vec<char>, rows: &Vec<Row>)
    ensures
        final(out)@ == old(out)@ + record_lines(rows.deep_view()),
{
    let mut i: usize = 0;
    assert(rows.deep_view().take(0) =~= Seq::<Seq<(Seq<char>, Seq<char>)>>::empty());
    while i < rows.len()
        invariant
            i <= rows.len(),
            out@ == old(out)@ + record_lines(rows.deep_view().take(i as int)),
        decreases rows.len() - i,
    {
        let ghost rv = rows.deep_view().take(i + 1);
        assert(rv.drop_last() =~= rows.deep_view().take(i as int));
        assert(rv.last() == rows@[i as int]@);
        let ghost before = out@;
        append_str(out, "- ");
        let line = record_line_exec(&rows[i]);
        append_chars(out, &line);
        out.push('\n');
        assert(out@ =~= before + "- "@ + record_line(rows@[i as int]@) + seq!['\n']);
        i = i + 1;
    }
    assert(rows.deep_view().take(rows.len() as int) =~= rows.deep_view());
}

/// A course's details as explained text.
pub fn event_detail_text(d: &EventDetail) -> (s: String)
    ensures
        s@ == event_detail_text_seq(d@),
{
    let mut out = str_chars("rub-vvz event: course details\n\n");
    append_str(&mut out, DETAIL_INTERPRETATION);
    append_str(&mut out, d.title.as_str());
    out.push('\n');
    push_opt_line(&mut out, "gguid: ", &d.event_guid);
    push_opt_line(&mut out, "tguid: ", &d.term_guid);
    append_str(&mut out, d.url.as_str());
    out.push('\n');
    let ghost after_head = out@;
    let mut i: usize = 0;
    assert(d.fields@.take(0) =~= Seq::<(Seq<char>, Seq<char>)>::empty());
    while i < d.fields.len()
        invariant
            i <= d.fields@.len(),
            out@ == after_head + field_lines(d.fields@.take(i as int)),
        decreases d.fields@.len() - i,
    {
        assert(d.fields@.take(i + 1).drop_last() =~= d.fields@.take(i as int));
        let ghost before = out@;
        append_str(&mut out, d.fields.key_at(i).as_str());
        append_str(&mut out, ": ");
        append_str(&mut out, d.fields.value_at(i).as_str());
        out.push('\n');
        assert(out@ =~= before + d.fields@[i as int].0 + ": "@ + d.fields@[i as int].1 + seq!['\n']);
        i = i + 1;
    }
    assert(d.fields@.take(d.fields@.len() as int) =~= d.fields@);
    let ghost after_fields = out@;
    let mut j: usize = 0;
    assert(d.sections@.take(0) =~= Seq::<(Seq<char>, Seq<Seq<(Seq<char>, Seq<char>)>>)>::empty());
    while j < d.sections.len()
        invariant
            j <= d.sections@.len(),
            out@ == after_fields + section_lines(d.sections@.take(j as int)),
        decreases d.sections@.len() - j,
    {
        assert(d.sections@.take(j + 1).drop_last() =~= d.sections@.take(j as int));
        let ghost before = out@;
        out.push('\n');
        append_str(&mut out, d.sections.key_at(j).as_str());
        out.push('\n');
        push_record_lines(&mut out, d.sections.value_at(j));
        assert(out@ =~= before + seq!['\n'] + d.sections@[j as int].0 + seq!['\n'] + record_lines(
            d.sections@[j as int].1,
        ));
        j = j + 1;
    }
    assert(d.sections@.take(d.sections@.len() as int) =~= d.sections@);
    let dc = str_chars(d.description.as_str());
    let dt = trim(&dc);
    if dt.len() > 0 {
        append_str(&mut out, "\nDescription\n");
        append_chars(&mut out, &dt);
        out.push('\n');
    }
    assert(out@ =~= event_detail_text_seq(d@));
    chars_string(&out)
}


// ---------------------------------------------------------------------------
// What JSON output holds.
// ---------------------------------------------------------------------------

/// A character that no literal part of the JSON output holds and that escaping never
/// introduces: the newline, and the capital `I` that begins every explanation.
pub open spec fn json_foreign(c: char) -> bool {
    c == '\n' || c == 'I'
}

/// A text of the output lacks `c`, or `c` is a newline, which escaping removes.
pub open spec fn value_lacks(v: Seq<char>, c: char) -> bool {
    lacks(v, c) || c == '\n'
}

proof fn lemma_escape_lacks(v: Seq<char>, c: char)
    requires
        json_foreign(c),
        value_lacks(v, c),
    ensures
        lacks(json_escape_seq(v), c),
    decreases v.len(),
{
    if v.len() > 0 {
        assert(value_lacks(v.drop_last(), c));
        lemma_escape_lacks(v.drop_last(), c);
        if c == 'I' {
            assert(v.last() == v[v.len() - 1]);
        }
        lemma_lacks_concat(json_escape_seq(v.drop_last()), json_escape_char(v.last()), c);
    }
}

proof fn lemma_option_json_lacks(v: Option<Seq<char>>, c: char)
    requires
        json_foreign(c),
        v matches Some(x) ==> value_lacks(x, c),
    ensures
        lacks(option_json_seq(v), c),
{
    reveal_strlit("null");
    if let Some(x) = v {
        lemma_escape_lacks(x, c);
        lemma_lacks_concat(seq!['"'], json_escape_seq(x), c);
        lemma_lacks_concat(seq!['"'] + json_escape_seq(x), seq!['"'], c);
    }
}

proof fn lemma_join_lacks(ws: Seq<Seq<char>>, sep: Seq<char>, c: char)
    requires
        lacks(sep, c),
        forall|k: int| 0 <= k < ws.len() ==> lacks(#[trigger] ws[k], c),
    ensures
        lacks(join(ws, sep), c),
    decreases ws.len(),
{
    if ws.len() > 1 {
        lemma_join_lacks(ws.drop_last(), sep, c);
        assert(ws.last() == ws[ws.len() - 1]);
        lemma_lacks_concat(join(ws.drop_last(), sep), sep, c);
        lemma_lacks_concat(join(ws.drop_last(), sep) + sep, ws.last(), c);
    } else if ws.len() == 1 {
        assert(lacks(ws[0], c));
    }
}

/// Every text of a course lacks `c` (or `c` is a newline).
pub open spec fn result_lacks(r: SearchResultView, c: char) -> bool {
    &&& value_lacks(r.title, c)
    &&& value_lacks(r.url, c)
    &&& value_lacks(r.summary, c)
    &&& (r.event_guid matches Some(x) ==> value_lacks(x, c))
    &&& (r.term_guid matches Some(x) ==> value_lacks(x, c))
}

proof fn lemma_result_json_lacks(r: SearchResultView, c: char)
    requires
        json_foreign(c),
        result_lacks(r, c),
    ensures
        lacks(search_result_json_seq(r), c),
{
    let l1 = "{\"title\":\""@;
    let l2 = "\",\"url\":\""@;
    let l3 = "\",\"event_guid\":"@;
    let l4 = ",\"term_guid\":"@;
    let l5 = ",\"summary\":\""@;
    let l6 = "\"}"@;
    reveal_strlit("{\"title\":\"");
    reveal_strlit("\",\"url\":\"");
    reveal_strlit("\",\"event_guid\":");
    reveal_strlit(",\"term_guid\":");
    reveal_strlit(",\"summary\":\"");
    reveal_strlit("\"}");
    assert(lacks(l1, c));
    assert(lacks(l2, c));
    assert(lacks(l3, c));
    assert(lacks(l4, c));
    assert(lacks(l5, c));
    assert(lacks(l6, c));
    let e1 = json_escape_seq(r.title);
    let e2 = json_escape_seq(r.url);
    let e3 = option_json_seq(r.event_guid);
    let e4 = option_json_seq(r.term_guid);
    let e5 = json_escape_seq(r.summary);
    lemma_escape_lacks(r.title, c);
    lemma_escape_lacks(r.url, c);
    lemma_escape_lacks(r.summary, c);
    lemma_option_json_lacks(r.event_guid, c);
    lemma_option_json_lacks(r.term_guid, c);
    lemma_lacks_concat(l1, e1, c);
    lemma_lacks_concat(l1 + e1, l2, c);
    lemma_lacks_concat(l1 + e1 + l2, e2, c);
    lemma_lacks_concat(l1 + e1 + l2 + e2, l3, c);
    lemma_lacks_concat(l1 + e1 + l2 + e2 + l3, e3, c);
    lemma_lacks_concat(l1 + e1 + l2 + e2 + l3 + e3, l4, c);
    lemma_lacks_concat(l1 + e1 + l2 + e2 + l3 + e3 + l4, e4, c);
    lemma_lacks_concat(l1 + e1 + l2 + e2 + l3 + e3 + l4 + e4, l5, c);
    lemma_lacks_concat(l1 + e1 + l2 + e2 + l3 + e3 + l4 + e4 + l5, e5, c);
    lemma_lacks_concat(l1 + e1 + l2 + e2 + l3 + e3 + l4 + e4 + l5 + e5, l6, c);
}

proof fn lemma_results_json_body_lacks(rs: Seq<SearchResultView>, c: char)
    requires
        json_foreign(c),
        forall|k: int| 0 <= k < rs.len() ==> result_lacks(#[trigger] rs[k], c),
    ensures
        lacks(join(rs.map_values(|r: SearchResultView| search_result_json_seq(r)), seq![',']), c),
{
    let items = rs.map_values(|r: SearchResultView| search_result_json_seq(r));
    assert forall|k: int| 0 <= k < items.len() implies lacks(#[trigger] items[k], c) by {
        lemma_result_json_lacks(rs[k], c);
    }
    lemma_join_lacks(items, seq![','], c);
}

/// The JSON of a list of courses is one line: it ends with a newline and holds no other,
/// whatever the courses' texts hold.
pub proof fn law_results_json_is_one_line(rs: Seq<SearchResultView>)
    ensures
        search_results_json_seq(rs).len() > 0,
        search_results_json_seq(rs).last() == '\n',
        lacks(search_results_json_seq(rs).drop_last(), '\n'),
{
    lemma_results_json_body_lacks(rs, '\n');
    let body = join(rs.map_values(|r: SearchResultView| search_result_json_seq(r)), seq![',']);
    lemma_lacks_concat(seq!['['], body, '\n');
    lemma_lacks_concat(seq!['['] + body, seq![']'], '\n');
    assert(search_results_json_seq(rs).drop_last() =~= seq!['['] + body + seq![']']);
}

/// The JSON of a list of courses holds no explanation: where no text of the courses holds
/// a capital `I`, no `Interpretation:` paragraph, nor any other `I`, is in the output.
pub proof fn law_results_json_has_no_explanation(rs: Seq<SearchResultView>)
    requires
        forall|k: int| 0 <= k < rs.len() ==> result_lacks(#[trigger] rs[k], 'I'),
    ensures
        lacks(search_results_json_seq(rs), 'I'),
        !crate::text::contains_seq(search_results_json_seq(rs), "Interpretation:"@),
{
    lemma_results_json_body_lacks(rs, 'I');
    let body = join(rs.map_values(|r: SearchResultView| search_result_json_seq(r)), seq![',']);
    lemma_lacks_concat(seq!['['], body, 'I');
    lemma_lacks_concat(seq!['['] + body, seq![']', '\n'], 'I');
    let s = search_results_json_seq(rs);
    reveal_strlit("Interpretation:");
    if crate::text::contains_seq(s, "Interpretation:"@) {
        crate::text::lemma_find_from(s, "Interpretation:"@, 0);
        let i = crate::text::find_from(s, "Interpretation:"@, 0)->0;
        assert(s.subrange(i, i + 15)[0] == s[i]);
    }
}


/// Every text of an area lacks `c` (or `c` is a newline).
pub open spec fn field_lacks(f: FieldView, c: char) -> bool {
    &&& value_lacks(f.name, c)
    &&& value_lacks(f.url, c)
    &&& (f.value matches Some(x) ==> value_lacks(x, c))
    &&& (f.guid matches Some(x) ==> value_lacks(x, c))
    &&& (f.term_guid matches Some(x) ==> value_lacks(x, c))
}

proof fn lemma_field_json_lacks(f: FieldView, c: char)
    requires
        json_foreign(c),
        field_lacks(f, c),
    ensures
        lacks(field_json_seq(f), c),
{
    let l1 = "{\"name\":\""@;
    let l2 = "\",\"url\":\""@;
    let l3 = "\",\"value\":"@;
    let l4 = ",\"guid\":"@;
    let l5 = ",\"term_guid\":"@;
    let l6 = "}"@;
    reveal_strlit("{\"name\":\"");
    reveal_strlit("\",\"url\":\"");
    reveal_strlit("\",\"value\":");
    reveal_strlit(",\"guid\":");
    reveal_strlit(",\"term_guid\":");
    reveal_strlit("}");
    assert(lacks(l1, c));
    assert(lacks(l2, c));
    assert(lacks(l3, c));
    assert(lacks(l4, c));
    assert(lacks(l5, c));
    assert(lacks(l6, c));
    let e1 = json_escape_seq(f.name);
    let e2 = json_escape_seq(f.url);
    let e3 = option_json_seq(f.value);
    let e4 = option_json_seq(f.guid);
    let e5 = option_json_seq(f.term_guid);
    lemma_escape_lacks(f.name, c);
    lemma_escape_lacks(f.url, c);
    lemma_option_json_lacks(f.value, c);
    lemma_option_json_lacks(f.guid, c);
    lemma_option_json_lacks(f.term_guid, c);
    lemma_lacks_concat(l1, e1, c);
    lemma_lacks_concat(l1 + e1, l2, c);
    lemma_lacks_concat(l1 + e1 + l2, e2, c);
    lemma_lacks_concat(l1 + e1 + l2 + e2, l3, c);
    lemma_lacks_concat(l1 + e1 + l2 + e2 + l3, e3, c);
    lemma_lacks_concat(l1 + e1 + l2 + e2 + l3 + e3, l4, c);
    lemma_lacks_concat(l1 + e1 + l2 + e2 + l3 + e3 + l4, e4, c);
    lemma_lacks_concat(l1 + e1 + l2 + e2 + l3 + e3 + l4 + e4, l5, c);
    lemma_lacks_concat(l1 + e1 + l2 + e2 + l3 + e3 + l4 + e4 + l5, e5, c);
    lemma_lacks_concat(l1 + e1 + l2 + e2 + l3 + e3 + l4 + e4 + l5 + e5, l6, c);
}

proof fn lemma_fields_json_body_lacks(fs: Seq<FieldView>, c: char)
    requires
        json_foreign(c),
        forall|k: int| 0 <= k < fs.len() ==> field_lacks(#[trigger] fs[k], c),
    ensures
        lacks(join(fs.map_values(|f: FieldView| field_json_seq(f)), seq![',']), c),
{
    let items = fs.map_values(|f: FieldView| field_json_seq(f));
    assert forall|k: int| 0 <= k < items.len() implies lacks(#[trigger] items[k], c) by {
        lemma_field_json_lacks(fs[k], c);
    }
    lemma_join_lacks(items, seq![','], c);
}

/// The JSON of a list of areas is one line: it ends with a newline and holds no other.
pub proof fn law_fields_json_is_one_line(fs: Seq<FieldView>)
    ensures
        fields_json_seq(fs).len() > 0,
        fields_json_seq(fs).last() == '\n',
        lacks(fields_json_seq(fs).drop_last(), '\n'),
{
    lemma_fields_json_body_lacks(fs, '\n');
    let body = join(fs.map_values(|f: FieldView| field_json_seq(f)), seq![',']);
    lemma_lacks_concat(seq!['['], body, '\n');
    lemma_lacks_concat(seq!['['] + body, seq![']'], '\n');
    assert(fields_json_seq(fs).drop_last() =~= seq!['['] + body + seq![']']);
}

/// The JSON of a list of areas holds no explanation: where no text of the areas holds a
/// capital `I`, no `Interpretation:` paragraph, nor any other `I`, is in the output.
pub proof fn law_fields_json_has_no_explanation(fs: Seq<FieldView>)
    requires
        forall|k: int| 0 <= k < fs.len() ==> field_lacks(#[trigger] fs[k], 'I'),
    ensures
        lacks(fields_json_seq(fs), 'I'),
        !crate::text::contains_seq(fields_json_seq(fs), "Interpretation:"@),
{
    lemma_fields_json_body_lacks(fs, 'I');
    let body = join(fs.map_values(|f: FieldView| field_json_seq(f)), seq![',']);
    lemma_lacks_concat(seq!['['], body, 'I');
    lemma_lacks_concat(seq!['['] + body, seq![']', '\n'], 'I');
    let s = fields_json_seq(fs);
    reveal_strlit("Interpretation:");
    if crate::text::contains_seq(s, "Interpretation:"@) {
        crate::text::lemma_find_from(s, "Interpretation:"@, 0);
        let i = crate::text::find_from(s, "Interpretation:"@, 0)->0;
        assert(s.subrange(i, i + 15)[0] == s[i]);
    }
}

proof fn lemma_contains_middle(x: Seq<char>, y: Seq<char>, z: Seq<char>, j: int, p: Seq<char>)
    requires
        matches_at(y, j, p),
    ensures
        crate::text::contains_seq(x + y + z, p),
{
    let s = x + y + z;
    assert(s.subrange(x.len() + j, x.len() + j + p.len()) =~= y.subrange(j, j + p.len()));
    assert(matches_at(s, x.len() + j, p));
    crate::text::lemma_find_from(s, p, 0);
}

/// Every key and value of a list of pairs lacks `c` (or `c` is a newline).
pub open spec fn pairs_lack(m: Seq<(Seq<char>, Seq<char>)>, c: char) -> bool {
    forall|k: int| 0 <= k < m.len() ==> value_lacks((#[trigger] m[k]).0, c) && value_lacks(m[k].1, c)
}

/// Every text of a course's details lacks `c` (or `c` is a newline).
pub open spec fn detail_lacks(d: EventDetailView, c: char) -> bool {
    &&& value_lacks(d.title, c)
    &&& value_lacks(d.url, c)
    &&& value_lacks(d.description, c)
    &&& (d.event_guid matches Some(x) ==> value_lacks(x, c))
    &&& (d.term_guid matches Some(x) ==> value_lacks(x, c))
    &&& pairs_lack(d.fields, c)
    &&& forall|k: int|
        0 <= k < d.sections.len() ==> value_lacks((#[trigger] d.sections[k]).0, c) && forall|
            j: int,
        | 0 <= j < d.sections[k].1.len() ==> pairs_lack(#[trigger] d.sections[k].1[j], c)
}

proof fn lemma_string_map_json_lacks(m: Seq<(Seq<char>, Seq<char>)>, c: char)
    requires
        json_foreign(c),
        pairs_lack(m, c),
    ensures
        lacks(string_map_json_seq(m), c),
{
    reveal_strlit("\":\"");
    let f = |e: (Seq<char>, Seq<char>)|
        seq!['"'] + json_escape_seq(e.0) + "\":\""@ + json_escape_seq(e.1) + seq!['"'];
    let items = m.map_values(f);
    assert forall|k: int| 0 <= k < items.len() implies lacks(#[trigger] items[k], c) by {
        let e = m[k];
        lemma_escape_lacks(e.0, c);
        lemma_escape_lacks(e.1, c);
        assert(lacks("\":\""@, c));
        lemma_lacks_concat(seq!['"'], json_escape_seq(e.0), c);
        lemma_lacks_concat(seq!['"'] + json_escape_seq(e.0), "\":\""@, c);
        lemma_lacks_concat(seq!['"'] + json_escape_seq(e.0) + "\":\""@, json_escape_seq(e.1), c);
        lemma_lacks_concat(
            seq!['"'] + json_escape_seq(e.0) + "\":\""@ + json_escape_seq(e.1),
            seq!['"'],
            c,
        );
    }
    lemma_join_lacks(items, seq![','], c);
    let body = join(items, seq![',']);
    lemma_lacks_concat(seq!['{'], body, c);
    lemma_lacks_concat(seq!['{'] + body, seq!['}'], c);
}

proof fn lemma_rows_json_lacks(rows: Seq<Seq<(Seq<char>, Seq<char>)>>, c: char)
    requires
        json_foreign(c),
        forall|j: int| 0 <= j < rows.len() ==> pairs_lack(#[trigger] rows[j], c),
    ensures
        lacks(rows_json_seq(rows), c),
{
    let items = rows.map_values(|r: Seq<(Seq<char>, Seq<char>)>| string_map_json_seq(r));
    assert forall|k: int| 0 <= k < items.len() implies lacks(#[trigger] items[k], c) by {
        lemma_string_map_json_lacks(rows[k], c);
    }
    lemma_join_lacks(items, seq![','], c);
    let body = join(items, seq![',']);
    lemma_lacks_concat(seq!['['], body, c);
    lemma_lacks_concat(seq!['['] + body, seq![']'], c);
}

proof fn lemma_sections_json_lacks(m: Seq<(Seq<char>, Seq<Seq<(Seq<char>, Seq<char>)>>)>, c: char)
    requires
        json_foreign(c),
        forall|k: int|
            0 <= k < m.len() ==> value_lacks((#[trigger] m[k]).0, c) && forall|j: int|
                0 <= j < m[k].1.len() ==> pairs_lack(#[trigger] m[k].1[j], c),
    ensures
        lacks(sections_json_seq(m), c),
{
    let f = |e: (Seq<char>, Seq<Seq<(Seq<char>, Seq<char>)>>)|
        seq!['"'] + json_escape_seq(e.0) + seq!['"', ':'] + rows_json_seq(e.1);
    let items = m.map_values(f);
    assert forall|k: int| 0 <= k < items.len() implies lacks(#[trigger] items[k], c) by {
        let e = m[k];
        lemma_escape_lacks(e.0, c);
        lemma_rows_json_lacks(e.1, c);
        lemma_lacks_concat(seq!['"'], json_escape_seq(e.0), c);
        lemma_lacks_concat(seq!['"'] + json_escape_seq(e.0), seq!['"', ':'], c);
        lemma_lacks_concat(seq!['"'] + json_escape_seq(e.0) + seq!['"', ':'], rows_json_seq(e.1), c);
    }
    lemma_join_lacks(items, seq![','], c);
    let body = join(items, seq![',']);
    lemma_lacks_concat(seq!['{'], body, c);
    lemma_lacks_concat(seq!['{'] + body, seq!['}'], c);
}

proof fn lemma_detail_json_body_lacks(d: EventDetailView, c: char)
    requires
        json_foreign(c),
        detail_lacks(d, c),
    ensures
        lacks(event_detail_json_seq(d).drop_last(), c),
        event_detail_json_seq(d).len() > 0,
        event_detail_json_seq(d).last() == '\n',
{
    let l1 = "{\"title\":\""@;
    let l2 = "\",\"url\":\""@;
    let l3 = "\",\"event_guid\":"@;
    let l4 = ",\"term_guid\":"@;
    let l5 = ",\"fields\":"@;
    let l6 = ",\"sections\":"@;
    let l7 = ",\"description\":\""@;
    let l8 = "\"}\n"@;
    reveal_strlit("{\"title\":\"");
    reveal_strlit("\",\"url\":\"");
    reveal_strlit("\",\"event_guid\":");
    reveal_strlit(",\"term_guid\":");
    reveal_strlit(",\"fields\":");
    reveal_strlit(",\"sections\":");
    reveal_strlit(",\"description\":\"");
    reveal_strlit("\"}\n");
    assert(lacks(l1, c) && lacks(l2, c) && lacks(l3, c) && lacks(l4, c));
    assert(lacks(l5, c) && lacks(l6, c) && lacks(l7, c));
    assert(lacks(l8.drop_last(), c));
    let e1 = json_escape_seq(d.title);
    let e2 = json_escape_seq(d.url);
    let e3 = option_json_seq(d.event_guid);
    let e4 = option_json_seq(d.term_guid);
    let e5 = string_map_json_seq(d.fields);
    let e6 = sections_json_seq(d.sections);
    let e7 = json_escape_seq(d.description);
    lemma_escape_lacks(d.title, c);
    lemma_escape_lacks(d.url, c);
    lemma_escape_lacks(d.description, c);
    lemma_option_json_lacks(d.event_guid, c);
    lemma_option_json_lacks(d.term_guid, c);
    lemma_string_map_json_lacks(d.fields, c);
    lemma_sections_json_lacks(d.sections, c);
    let a1 = l1 + e1;
    lemma_lacks_concat(l1, e1, c);
    let a2 = a1 + l2;
    lemma_lacks_concat(a1, l2, c);
    let a3 = a2 + e2;
    lemma_lacks_concat(a2, e2, c);
    let a4 = a3 + l3;
    lemma_lacks_concat(a3, l3, c);
    let a5 = a4 + e3;
    lemma_lacks_concat(a4, e3, c);
    let a6 = a5 + l4;
    lemma_lacks_concat(a5, l4, c);
    let a7 = a6 + e4;
    lemma_lacks_concat(a6, e4, c);
    let a8 = a7 + l5;
    lemma_lacks_concat(a7, l5, c);
    let a9 = a8 + e5;
    lemma_lacks_concat(a8, e5, c);
    let a10 = a9 + l6;
    lemma_lacks_concat(a9, l6, c);
    let a11 = a10 + e6;
    lemma_lacks_concat(a10, e6, c);
    let a12 = a11 + l7;
    lemma_lacks_concat(a11, l7, c);
    let a13 = a12 + e7;
    lemma_lacks_concat(a12, e7, c);
    lemma_lacks_concat(a13, l8.drop_last(), c);
    assert(event_detail_json_seq(d) =~= a13 + l8);
    assert(event_detail_json_seq(d).drop_last() =~= a13 + l8.drop_last());
}

/// The JSON of a course's details is one line: it ends with a newline and holds no other,
/// whatever its texts hold.
pub proof fn law_detail_json_is_one_line(d: EventDetailView)
    ensures
        event_detail_json_seq(d).len() > 0,
        event_detail_json_seq(d).last() == '\n',
        lacks(event_detail_json_seq(d).drop_last(), '\n'),
{
    lemma_detail_json_body_lacks(d, '\n');
}

/// The JSON of a course's details holds no explanation: where none of its texts holds a
/// capital `I`, no `Interpretation:` paragraph, nor any other `I`, is in the output.
pub proof fn law_detail_json_has_no_explanation(d: EventDetailView)
    requires
        detail_lacks(d, 'I'),
    ensures
        lacks(event_detail_json_seq(d), 'I'),
        !crate::text::contains_seq(event_detail_json_seq(d), "Interpretation:"@),
{
    lemma_detail_json_body_lacks(d, 'I');
    let s = event_detail_json_seq(d);
    lemma_lacks_concat(s.drop_last(), seq![s.last()], 'I');
    assert(s.drop_last() + seq![s.last()] =~= s);
    reveal_strlit("Interpretation:");
    if crate::text::contains_seq(s, "Interpretation:"@) {
        crate::text::lemma_find_from(s, "Interpretation:"@, 0);
        let i = crate::text::find_from(s, "Interpretation:"@, 0)->0;
        assert(s.subrange(i, i + 15)[0] == s[i]);
    }
}

/// The lines of the courses split around the `k`-th one.
proof fn lemma_result_items_split(rs: Seq<SearchResultView>, k: int) -> (ab: (Seq<char>, Seq<char>))
    requires
        0 <= k < rs.len(),
    ensures
        result_items(rs) == ab.0 + result_item((k + 1) as nat, rs[k]) + ab.1,
    decreases rs.len(),
{
    if k == rs.len() - 1 {
        let a = result_items(rs.drop_last());
        assert(rs.last() == rs[k]);
        assert(result_items(rs) =~= a + result_item((k + 1) as nat, rs[k]) + Seq::<char>::empty());
        (a, Seq::empty())
    } else {
        let p = rs.drop_last();
        assert(p[k] == rs[k]);
        let (a, b) = lemma_result_items_split(p, k);
        let b2 = b + result_item(rs.len(), rs.last());
        assert(result_items(rs) =~= a + result_item((k + 1) as nat, rs[k]) + b2);
        (a, b2)
    }
}

/// Text output shows every course's summary: for every course of the list whose summary is
/// not empty, the text holds a line of three spaces and that summary.
pub proof fn law_text_shows_every_summary(rs: Seq<SearchResultView>, kind: ResultListKind, k: int)
    requires
        0 <= k < rs.len(),
        rs[k].summary.len() > 0,
    ensures
        crate::text::contains_seq(
            search_results_text_seq(rs, kind),
            "   "@ + rs[k].summary + seq!['\n'],
        ),
{
    let r = rs[k];
    let (a, b) = lemma_result_items_split(rs, k);
    let x = decimal((k + 1) as nat) + ". "@ + r.title + seq!['\n'] + opt_line("   gguid: "@, r.event_guid)
        + opt_line("   tguid: "@, r.term_guid);
    let y = "   "@ + r.summary + seq!['\n'];
    let z = "   "@ + r.url + seq!['\n'];
    assert(result_item((k + 1) as nat, r) == x + y + z);
    let label = match kind {
        ResultListKind::Search => "rub-vvz search"@,
        ResultListKind::Events => "rub-vvz events"@,
    };
    let head = label + ": "@ + decimal(rs.len()) + " courses found.\n\n"@ + RESULTS_INTERPRETATION@;
    let t = search_results_text_seq(rs, kind);
    assert(t == head + result_items(rs));
    assert(t =~= (head + a + x) + y + (z + b));
    assert(matches_at(y, 0, y)) by {
        assert(y.subrange(0, y.len() as int) =~= y);
    }
    lemma_contains_middle(head + a + x, y, z + b, 0, y);
}

/// Text output explains itself: the text of a list of courses, of a list of areas and of a
/// course's details each hold an `Interpretation: ` paragraph.
pub proof fn law_text_output_explains(rs: Seq<SearchResultView>, kind: ResultListKind, fs: Seq<FieldView>, d: EventDetailView)
    ensures
        crate::text::contains_seq(search_results_text_seq(rs, kind), "Interpretation: "@),
        crate::text::contains_seq(fields_text_seq(fs), "Interpretation: "@),
        crate::text::contains_seq(event_detail_text_seq(d), "Interpretation: "@),
{
    reveal_strlit("Interpretation: ");
    reveal_strlit("Interpretation: gguid is the course identifier and tguid is the semester. Run 'rub-vvz event <gguid> --term-guid <tguid>' for details or use '--json' for machine-readable output.\n\n");
    reveal_strlit("Interpretation: gguid is the course identifier and tguid is the semester. Fields are CampusOffice metadata; sections contain tables such as appointments, lecturers, modules, or audiences. Use '--json' for machine-readable output.\n\n");
    reveal_strlit("rub-vvz fields: 0 VVZ areas found.\n\nInterpretation: No public VVZ areas were detected for the selected semester. Check --term-guid or RUB VVZ availability.\n");
    reveal_strlit("Interpretation: gguid is the area identifier and tguid is the semester. Run 'rub-vvz events <gguid> --term-guid <tguid>' for courses in an area or use '--json' for machine-readable output.\n\n");
    reveal_strlit(": 0 courses found.\n\nInterpretation: ");
    let p = "Interpretation: "@;
    assert(RESULTS_INTERPRETATION@.subrange(0, 16) =~= p);
    assert(DETAIL_INTERPRETATION@.subrange(0, 16) =~= p);
    assert(FIELDS_INTERPRETATION@.subrange(0, 16) =~= p);
    assert(FIELDS_EMPTY@.subrange(36, 52) =~= p);
    assert(": 0 courses found.\n\nInterpretation: "@.subrange(20, 36) =~= p);
    let label = match kind {
        ResultListKind::Search => "rub-vvz search"@,
        ResultListKind::Events => "rub-vvz events"@,
    };
    let hint = match kind {
        ResultListKind::Search => SEARCH_EMPTY_HINT@,
        ResultListKind::Events => EVENTS_EMPTY_HINT@,
    };
    if rs.len() == 0 {
        let t = search_results_text_seq(rs, kind);
        assert(t =~= label + ": 0 courses found.\n\nInterpretation: "@ + (hint + seq!['\n']));
        lemma_contains_middle(label, ": 0 courses found.\n\nInterpretation: "@, hint + seq!['\n'], 20, p);
    } else {
        lemma_contains_middle(
            label + ": "@ + decimal(rs.len()) + " courses found.\n\n"@,
            RESULTS_INTERPRETATION@,
            result_items(rs),
            0,
            p,
        );
    }
    if fs.len() == 0 {
        lemma_contains_middle(Seq::empty(), FIELDS_EMPTY@, Seq::empty(), 36, p);
        assert(Seq::<char>::empty() + FIELDS_EMPTY@ + Seq::<char>::empty() =~= FIELDS_EMPTY@);
    } else {
        lemma_contains_middle(
            "rub-vvz fields: "@ + decimal(fs.len()) + " VVZ areas found.\n\n"@,
            FIELDS_INTERPRETATION@,
            field_items(fs),
            0,
            p,
        );
    }
    let x = "rub-vvz event: course details\n\n"@;
    let t = event_detail_text_seq(d);
    let z = t.skip((x.len() + DETAIL_INTERPRETATION@.len()) as int);
    assert(t =~= x + DETAIL_INTERPRETATION@ + z);
    lemma_contains_middle(x, DETAIL_INTERPRETATION@, z, 0, p);
}

} // verus!
