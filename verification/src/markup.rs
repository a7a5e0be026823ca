//! Text cleanup of HTML fragments: entity decoding, tag stripping and
//! whitespace normalisation.
use vstd::prelude::*;
use crate::text::{append_chars, char_is_whitespace, matches_at_exec, str_chars, unicode_whitespace};

verus! {

// ---------------------------------------------------------------------------
// Replacing.
// ---------------------------------------------------------------------------

/// Every non-overlapping occurrence of `p` in `s`, from left to right, replaced by `r`
/// (`str::replace` for a non-empty pattern).
pub open spec fn replace_all(s: Seq<char>, p: Seq<char>, r: Seq<char>) -> Seq<char>
    decreases s.len(),
{
    if p.len() == 0 || s.len() < p.len() {
        s
    } else if s.take(p.len() as int) == p {
        r + replace_all(s.skip(p.len() as int), p, r)
    } else {
        seq![s[0]] + replace_all(s.skip(1), p, r)
    }
}

/// `s` with every occurrence of `p` replaced by `r`.
pub fn replace_all_exec(s: &[char], p: &[char], r: &[char]) -> (out: Vec<char>)
    requires
        p.len() > 0,
    ensures
        out@ == replace_all(s@, p@, r@),
{
    let mut out: Vec<char> = Vec::new();
    let mut i: usize = 0;
    assert(s@.skip(0) =~= s@);
    while i < s.len()
        invariant
            p.len() > 0,
            i <= s.len(),
            out@ + replace_all(s@.skip(i as int), p@, r@) == replace_all(s@, p@, r@),
        decreases s.len() - i,
    {
        let ghost rest = s@.skip(i as int);
        if matches_at_exec(s, i, p) {
            assert(rest.take(p.len() as int) =~= s@.subrange(i as int, i + p.len()));
            assert(rest.skip(p.len() as int) =~= s@.skip(i + p.len()));
            append_chars(&mut out, r);
            i = i + p.len();
            assert(out@ + replace_all(s@.skip(i as int), p@, r@) =~= replace_all(s@, p@, r@));
        } else {
            proof {
                if rest.len() >= p@.len() {
                    assert(rest.take(p@.len() as int) =~= s@.subrange(i as int, i + p@.len()));
                }
                assert(rest.skip(1) =~= s@.skip(i + 1));
                assert(rest[0] == s@[i as int]);
                if rest.len() < p@.len() {
                    assert(replace_all(rest, p@, r@) == rest);
                    assert(replace_all(rest.skip(1), p@, r@) == rest.skip(1));
                    assert(rest =~= seq![rest[0]] + rest.skip(1));
                }
            }
            out.push(s[i]);
            i = i + 1;
            assert(out@ + replace_all(s@.skip(i as int), p@, r@) =~= replace_all(s@, p@, r@));
        }
    }
    assert(s@.skip(s.len() as int) =~= Seq::<char>::empty());
    assert(out@ + Seq::<char>::empty() =~= out@);
    out
}

/// `s` with every occurrence of the literal `p` replaced by the literal `r`.
fn replace_str(s: &[char], p: &str, r: &str) -> (out: Vec<char>)
    requires
        p@.len() > 0,
    ensures
        out@ == replace_all(s@, p@, r@),
{
    let pc = str_chars(p);
    let rc = str_chars(r);
    replace_all_exec(s, &pc, &rc)
}

// ---------------------------------------------------------------------------
// HTML entities.
// ---------------------------------------------------------------------------

/// The entity replacements applied by [`html_decode`], in order: `&amp;`, `&lt;`, `&gt;`,
/// `&quot;`, `&#39;`, `&apos;` and `&nbsp;`, each replaced in the result of the previous one.
pub open spec fn html_decode_seq(v: Seq<char>) -> Seq<char> {
    let a = replace_all(v, "&amp;"@, "&"@);
    let b = replace_all(a, "&lt;"@, "<"@);
    let c = replace_all(b, "&gt;"@, ">"@);
    let d = replace_all(c, "&quot;"@, "\""@);
    let e = replace_all(d, "&#39;"@, "'"@);
    let f = replace_all(e, "&apos;"@, "'"@);
    replace_all(f, "&nbsp;"@, " "@)
}

/// Decodes the HTML entities that the catalogue uses.
pub fn html_decode(v: &[char]) -> (r: Vec<char>)
    ensures
        r@ == html_decode_seq(v@),
{
    proof {
        reveal_strlit("&amp;");
        reveal_strlit("&lt;");
        reveal_strlit("&gt;");
        reveal_strlit("&quot;");
        reveal_strlit("&#39;");
        reveal_strlit("&apos;");
        reveal_strlit("&nbsp;");
    }
    let a = replace_str(v, "&amp;", "&");
    let b = replace_str(&a, "&lt;", "<");
    let c = replace_str(&b, "&gt;", ">");
    let d = replace_str(&c, "&quot;", "\"");
    let e = replace_str(&d, "&#39;", "'");
    let f = replace_str(&e, "&apos;", "'");
    replace_str(&f, "&nbsp;", " ")
}

// ---------------------------------------------------------------------------
// Tags.
// ---------------------------------------------------------------------------

/// Whether a scan over `s` ends inside a tag: the last `<` or `>` in `s` is a `<`.
pub open spec fn inside_tag_after(s: Seq<char>) -> bool
    decreases s.len(),
{
    if s.len() == 0 {
        false
    } else if s.last() == '<' {
        true
    } else if s.last() == '>' {
        false
    } else {
        inside_tag_after(s.drop_last())
    }
}

/// The characters of `s` that are neither `<` nor `>` and do not stand between a `<` and
/// the next `>`.
pub open spec fn outside_tags(s: Seq<char>) -> Seq<char>
    decreases s.len(),
{
    if s.len() == 0 {
        Seq::empty()
    } else {
        let prev = outside_tags(s.drop_last());
        let c = s.last();
        if c == '<' || c == '>' || inside_tag_after(s.drop_last()) {
            prev
        } else {
            prev.push(c)
        }
    }
}

/// The text of an HTML fragment: its characters outside tags, entity-decoded.
pub open spec fn strip_tags_seq(s: Seq<char>) -> Seq<char> {
    html_decode_seq(outside_tags(s))
}

/// Removes the tags of an HTML fragment and decodes its entities.
pub fn strip_tags(html: &[char]) -> (r: Vec<char>)
    ensures
        r@ == strip_tags_seq(html@),
{
    let mut out: Vec<char> = Vec::new();
    let mut in_tag = false;
    let mut i: usize = 0;
    while i < html.len()
        invariant
            i <= html.len(),
            out@ == outside_tags(html@.take(i as int)),
            in_tag == inside_tag_after(html@.take(i as int)),
        decreases html.len() - i,
    {
        let c = html[i];
        assert(html@.take(i + 1).drop_last() =~= html@.take(i as int));
        if c == '<' {
            in_tag = true;
        } else if c == '>' {
            in_tag = false;
        } else if !in_tag {
            out.push(c);
        }
        i = i + 1;
    }
    assert(html@.take(html.len() as int) =~= html@);
    html_decode(&out)
}

// ---------------------------------------------------------------------------
// Whitespace.
// ---------------------------------------------------------------------------

/// The maximal runs of non-whitespace characters of `s`, in order (`str::split_whitespace`).
pub open spec fn words(s: Seq<char>) -> Seq<Seq<char>>
    decreases s.len(),
{
    if s.len() == 0 {
        Seq::empty()
    } else {
        let prev = words(s.drop_last());
        let c = s.last();
        if unicode_whitespace(c) {
            prev
        } else if s.len() >= 2 && !unicode_whitespace(s[s.len() - 2]) {
            prev.update(prev.len() - 1, prev.last().push(c))
        } else {
            prev.push(seq![c])
        }
    }
}

/// The pieces of `ws` joined with `sep` between neighbours (`slice::join`).
pub open spec fn join(ws: Seq<Seq<char>>, sep: Seq<char>) -> Seq<char>
    decreases ws.len(),
{
    if ws.len() == 0 {
        Seq::empty()
    } else if ws.len() == 1 {
        ws[0]
    } else {
        join(ws.drop_last(), sep) + sep + ws.last()
    }
}

/// The words of `s` joined by single spaces.
pub open spec fn clean_text_seq(s: Seq<char>) -> Seq<char> {
    join(words(s), seq![' '])
}

/// Every word is non-empty; there is a last word exactly when the last character is not
/// whitespace or an earlier one was not.
pub proof fn lemma_words(s: Seq<char>)
    ensures
        forall|k: int| 0 <= k < words(s).len() ==> (#[trigger] words(s)[k]).len() > 0,
        forall|k: int|
            0 <= k < words(s).len() ==> forall|j: int|
                0 <= j < (#[trigger] words(s)[k]).len() ==> !unicode_whitespace(
                    #[trigger] words(s)[k][j],
                ),
        s.len() > 0 && !unicode_whitespace(s.last()) ==> words(s).len() > 0,
    decreases s.len(),
{
    if s.len() > 0 {
        lemma_words(s.drop_last());
        let prev = words(s.drop_last());
        let c = s.last();
        if unicode_whitespace(c) {
        } else if s.len() >= 2 && !unicode_whitespace(s[s.len() - 2]) {
            assert(s.drop_last().last() == s[s.len() - 2]);
            let w = words(s);
            assert forall|k: int| 0 <= k < w.len() implies forall|j: int|
                0 <= j < (#[trigger] w[k]).len() ==> !unicode_whitespace(#[trigger] w[k][j]) by {
                if k == w.len() - 1 {
                    assert forall|j: int| 0 <= j < w[k].len() implies !unicode_whitespace(
                        w[k][j],
                    ) by {
                        if j < prev.last().len() {
                            assert(w[k][j] == prev.last()[j]);
                            assert(prev.last() == prev[prev.len() - 1]);
                        }
                    }
                } else {
                    assert(w[k] == prev[k]);
                }
            }
        } else {
            let w = words(s);
            assert forall|k: int| 0 <= k < w.len() implies forall|j: int|
                0 <= j < (#[trigger] w[k]).len() ==> !unicode_whitespace(#[trigger] w[k][j]) by {
                if k < prev.len() {
                    assert(w[k] == prev[k]);
                }
            }
        }
    }
}

proof fn lemma_join_empty(ws: Seq<Seq<char>>, sep: Seq<char>)
    requires
        forall|k: int| 0 <= k < ws.len() ==> (#[trigger] ws[k]).len() > 0,
    ensures
        (join(ws, sep).len() == 0) == (ws.len() == 0),
    decreases ws.len(),
{
    if ws.len() > 1 {
        assert(ws.last() == ws[ws.len() - 1]);
    }
    if ws.len() == 1 {
        assert(ws[0].len() > 0);
    }
}

proof fn lemma_join_push(ws: Seq<Seq<char>>, sep: Seq<char>, w: Seq<char>)
    ensures
        ws.len() == 0 ==> join(ws.push(w), sep) == w,
        ws.len() > 0 ==> join(ws.push(w), sep) == join(ws, sep) + sep + w,
{
    assert(ws.push(w).drop_last() =~= ws);
    if ws.len() == 0 {
        assert(ws.push(w)[0] == w);
    }
}

proof fn lemma_join_extend_last(ws: Seq<Seq<char>>, sep: Seq<char>, c: char)
    requires
        ws.len() > 0,
    ensures
        join(ws.update(ws.len() - 1, ws.last().push(c)), sep) == join(ws, sep).push(c),
{
    let u = ws.update(ws.len() - 1, ws.last().push(c));
    assert(u.drop_last() =~= ws.drop_last());
    if ws.len() == 1 {
        assert(u[0] == ws[0].push(c));
    } else {
        assert(join(u, sep) =~= join(ws, sep).push(c));
    }
}

proof fn lemma_words_push_space(s: Seq<char>, c: char)
    requires
        unicode_whitespace(c),
    ensures
        words(s.push(c)) == words(s),
{
    assert(s.push(c).drop_last() =~= s);
}

proof fn lemma_words_append_word(s: Seq<char>, t: Seq<char>)
    requires
        t.len() > 0,
        forall|j: int| 0 <= j < t.len() ==> !unicode_whitespace(#[trigger] t[j]),
        s.len() == 0 || unicode_whitespace(s.last()),
    ensures
        words(s + t) == words(s).push(t),
    decreases t.len(),
{
    let tp = t.drop_last();
    let c = t.last();
    assert((s + t).drop_last() =~= s + tp);
    assert((s + t).last() == c);
    assert(!unicode_whitespace(t[t.len() - 1]));
    if tp.len() == 0 {
        assert(s + tp =~= s);
        if s.len() > 0 {
            assert((s + t)[(s + t).len() - 2] == s.last());
        }
        assert(t =~= seq![c]);
    } else {
        assert forall|j: int| 0 <= j < tp.len() implies !unicode_whitespace(#[trigger] tp[j]) by {
            assert(tp[j] == t[j]);
        }
        lemma_words_append_word(s, tp);
        assert((s + t)[(s + t).len() - 2] == tp.last());
        assert(tp.last() == t[t.len() - 2]);
        assert(tp.push(c) =~= t);
        assert(words(s).push(tp).update(words(s).len() as int, t) =~= words(s).push(t));
    }
}

proof fn lemma_words_of_join(ws: Seq<Seq<char>>)
    requires
        forall|k: int| 0 <= k < ws.len() ==> (#[trigger] ws[k]).len() > 0,
        forall|k: int|
            0 <= k < ws.len() ==> forall|j: int|
                0 <= j < (#[trigger] ws[k]).len() ==> !unicode_whitespace(#[trigger] ws[k][j]),
    ensures
        words(join(ws, seq![' '])) == ws,
    decreases ws.len(),
{
    if ws.len() == 1 {
        let e = Seq::<char>::empty();
        assert(ws[0].len() > 0);
        lemma_words_append_word(e, ws[0]);
        assert(e + ws[0] =~= ws[0]);
        assert(e.len() == 0 ==> words(e) =~= Seq::<Seq<char>>::empty());
        assert(seq![ws[0]] =~= ws);
    } else if ws.len() > 1 {
        let p = ws.drop_last();
        let w = ws.last();
        assert(w == ws[ws.len() - 1]);
        lemma_words_of_join(p);
        let j = join(p, seq![' ']);
        crate::text::lemma_space_is_whitespace();
        lemma_words_push_space(j, ' ');
        assert(j + seq![' '] =~= j.push(' '));
        assert((j + seq![' ']).last() == ' ');
        lemma_words_append_word(j + seq![' '], w);
        assert(j + seq![' '] + w == join(ws, seq![' ']));
        assert(p.push(w) =~= ws);
    }
}

/// Cleaning whitespace is idempotent: a cleaned text cleaned again stays as it is.
pub proof fn law_clean_text_idempotent(s: Seq<char>)
    ensures
        clean_text_seq(clean_text_seq(s)) == clean_text_seq(s),
{
    lemma_words(s);
    lemma_words_of_join(words(s));
}

/// The words of `value` joined by single spaces (`split_whitespace` then `join(" ")`).
pub fn clean_text(value: &[char]) -> (r: Vec<char>)
    ensures
        r@ == clean_text_seq(value@),
{
    let mut out: Vec<char> = Vec::new();
    let mut prev_word = false;
    let mut i: usize = 0;
    while i < value.len()
        invariant
            i <= value.len(),
            out@ == join(words(value@.take(i as int)), seq![' ']),
            prev_word == (i > 0 && !unicode_whitespace(value@[i - 1])),
        decreases value.len() - i,
    {
        let c = value[i];
        let ghost pre = value@.take(i as int);
        let ghost cur = value@.take(i + 1);
        assert(cur.drop_last() =~= pre);
        assert(cur.last() == c);
        proof {
            lemma_words(pre);
            lemma_join_empty(words(pre), seq![' ']);
        }
        let ws = char_is_whitespace(c);
        if ws {
            prev_word = false;
        } else if prev_word {
            proof {
                assert(cur[cur.len() - 2] == value@[i - 1]);
                assert(pre.last() == value@[i - 1]);
                lemma_join_extend_last(words(pre), seq![' '], c);
            }
            out.push(c);
        } else {
            proof {
                if i > 0 {
                    assert(cur[cur.len() - 2] == value@[i - 1]);
                }
                lemma_join_push(words(pre), seq![' '], seq![c]);
            }
            if out.len() > 0 {
                out.push(' ');
            }
            out.push(c);
            assert(out@ =~= join(words(cur), seq![' ']));
            prev_word = true;
        }
        i = i + 1;
    }
    assert(value@.take(value.len() as int) =~= value@);
    out
}

/// The text of an HTML fragment with its whitespace normalised
/// (`clean_text(&strip_tags(..))`).
pub open spec fn fragment_text(s: Seq<char>) -> Seq<char> {
    clean_text_seq(strip_tags_seq(s))
}

/// The text of an HTML fragment with its whitespace normalised.
pub fn fragment_text_exec(s: &[char]) -> (r: Vec<char>)
    ensures
        r@ == fragment_text(s@),
{
    let t = strip_tags(s);
    clean_text(&t)
}

/// The view of each vector of characters.
pub open spec fn views(v: Seq<Vec<char>>) -> Seq<Seq<char>> {
    v.map_values(|x: Vec<char>| x@)
}

pub proof fn lemma_views_push(v: Seq<Vec<char>>, x: Vec<char>)
    ensures
        views(v.push(x)) == views(v).push(x@),
{
    assert(views(v.push(x)) =~= views(v).push(x@));
}

/// The words of `s` (`str::split_whitespace`).
pub fn words_exec(s: &[char]) -> (r: Vec<Vec<char>>)
    ensures
        views(r@) == words(s@),
{
    let mut out: Vec<Vec<char>> = Vec::new();
    let mut cur: Vec<char> = Vec::new();
    let mut in_word = false;
    let mut i: usize = 0;
    while i < s.len()
        invariant
            i <= s.len(),
            in_word == (i > 0 && !unicode_whitespace(s@[i - 1])),
            in_word ==> words(s@.take(i as int)) == views(out@).push(cur@),
            !in_word ==> words(s@.take(i as int)) == views(out@),
        decreases s.len() - i,
    {
        let c = s[i];
        let ghost pre = s@.take(i as int);
        let ghost nxt = s@.take(i + 1);
        assert(nxt.drop_last() =~= pre);
        assert(nxt.last() == c);
        let w = char_is_whitespace(c);
        if w {
            if in_word {
                let done = cur;
                proof {
                    lemma_views_push(out@, done);
                }
                out.push(done);
                cur = Vec::new();
            }
            in_word = false;
        } else if in_word {
            proof {
                assert(nxt[nxt.len() - 2] == s@[i - 1]);
                let ws = views(out@).push(cur@);
                assert(ws.update(ws.len() - 1, ws.last().push(c)) =~= views(out@).push(
                    cur@.push(c),
                ));
            }
            cur.push(c);
        } else {
            proof {
                if i > 0 {
                    assert(nxt[nxt.len() - 2] == s@[i - 1]);
                }
            }
            cur = Vec::new();
            cur.push(c);
            assert(cur@ =~= seq![c]);
            in_word = true;
        }
        i = i + 1;
    }
    assert(s@.take(s.len() as int) =~= s@);
    if in_word {
        proof {
            lemma_views_push(out@, cur);
        }
        out.push(cur);
    }
    out
}

/// The pieces of `ws` joined with `sep` between neighbours.
pub fn join_exec(ws: &Vec<Vec<char>>, sep: &[char]) -> (r: Vec<char>)
    ensures
        r@ == join(views(ws@), sep@),
{
    let mut out: Vec<char> = Vec::new();
    let mut i: usize = 0;
    while i < ws.len()
        invariant
            i <= ws.len(),
            out@ == join(views(ws@).take(i as int), sep@),
        decreases ws.len() - i,
    {
        let ghost pre = views(ws@).take(i as int);
        assert(views(ws@).take(i + 1) =~= pre.push(ws@[i as int]@));
        proof {
            lemma_join_push(pre, sep@, ws@[i as int]@);
        }
        if i > 0 {
            append_chars(&mut out, sep);
        }
        append_chars(&mut out, &ws[i]);
        i = i + 1;
    }
    assert(views(ws@).take(ws.len() as int) =~= views(ws@));
    out
}

} // verus!
