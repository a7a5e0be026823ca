//! Scanning HTML text for fragments: elements of a tag, table cells, anchors,
//! attributes and headings. Tag names are matched ASCII case-insensitively.
use vstd::prelude::*;
use crate::text::{
    append_chars, ascii_lower, char_is_alphanumeric, chars_eq, chars_string, copy_range,
    find_char, find_chars, find_from, is_ascii_alnum, leading_count, lemma_find_from,
    lemma_leading_count_at, lower_seq, matches_at, matches_at_exec,
    str_chars, str_to_lowercase, trim_start, trim_start_seq, unicode_alphanumeric,
    unicode_lowercase,
};
use crate::markup::{
    fragment_text, fragment_text_exec, html_decode, html_decode_seq, lemma_views_push, views,
    words, words_exec,
};

verus! {

/// The smaller of two optional positions (either one where the other is absent).
pub open spec fn choose_min(a: Option<int>, b: Option<int>) -> Option<int> {
    match (a, b) {
        (Some(l), Some(r)) => Some(if l <= r { l } else { r }),
        (Some(l), None) => Some(l),
        (None, Some(r)) => Some(r),
        (None, None) => None,
    }
}

/// The smaller of two optional positions (either one where the other is absent).
pub fn choose_min_exec(a: Option<usize>, b: Option<usize>) -> (r: Option<usize>)
    ensures
        r matches Some(x) ==> choose_min(opt_int(a), opt_int(b)) == Some(x as int),
        r is None ==> choose_min(opt_int(a), opt_int(b)) is None,
{
    match (a, b) {
        (Some(left), Some(right)) => Some(if left <= right { left } else { right }),
        (Some(left), None) => Some(left),
        (None, Some(right)) => Some(right),
        (None, None) => None,
    }
}

pub open spec fn opt_int(a: Option<usize>) -> Option<int> {
    match a {
        Some(x) => Some(x as int),
        None => None,
    }
}

/// `<` followed by the tag name.
pub open spec fn open_pat(tag: Seq<char>) -> Seq<char> {
    seq!['<'] + tag
}

/// `</`, the tag name and `>`.
pub open spec fn close_pat(tag: Seq<char>) -> Seq<char> {
    seq!['<', '/'] + tag + seq!['>']
}

fn open_pat_exec(tag: &[char]) -> (r: Vec<char>)
    ensures
        r@ == open_pat(tag@),
{
    let mut r = vec!['<'];
    append_chars(&mut r, tag);
    r
}

fn close_pat_exec(tag: &[char]) -> (r: Vec<char>)
    ensures
        r@ == close_pat(tag@),
{
    let mut r = vec!['<', '/'];
    append_chars(&mut r, tag);
    r.push('>');
    assert(r@ =~= close_pat(tag@));
    r
}

// ---------------------------------------------------------------------------
// Elements of one tag.
// ---------------------------------------------------------------------------

/// The elements `<tag ...>...</tag>` found from `cursor` on: each starts at the first
/// `<tag` at or after the cursor and ends after the first `</tag>` from its start; the
/// next search begins after that end. `lower` is the text matched against.
pub open spec fn tag_fragments_from(html: Seq<char>, lower: Seq<char>, tag: Seq<char>, cursor: int) -> Seq<Seq<char>>
    decreases lower.len() + 1 - cursor,
{
    if cursor < 0 {
        Seq::empty()
    } else {
        match find_from(lower, open_pat(tag), cursor) {
            None => Seq::empty(),
            Some(start) => match find_from(lower, close_pat(tag), start) {
                None => Seq::empty(),
                Some(rc) => {
                    proof {
                        lemma_find_from(lower, open_pat(tag), cursor);
                        lemma_find_from(lower, close_pat(tag), start);
                    }
                    let end = rc + close_pat(tag).len();
                    seq![html.subrange(start, end)] + tag_fragments_from(html, lower, tag, end)
                },
            },
        }
    }
}

/// The elements of `tag` in `html`, tag names matched ASCII case-insensitively.
pub open spec fn tag_fragments_seq(html: Seq<char>, tag: Seq<char>) -> Seq<Seq<char>> {
    tag_fragments_from(html, lower_seq(html), tag, 0)
}

/// The elements of `tag` in `html`.
pub fn tag_fragments(html: &[char], tag: &[char]) -> (r: Vec<Vec<char>>)
    ensures
        views(r@) == tag_fragments_seq(html@, tag@),
{
    let lower = ascii_lower(html);
    let open = open_pat_exec(tag);
    let close = close_pat_exec(tag);
    let mut frags: Vec<Vec<char>> = Vec::new();
    let mut cursor: usize = 0;
    assert(views(frags@) =~= Seq::<Seq<char>>::empty());
    loop
        invariant
            lower@.len() == html@.len(),
            lower@ == lower_seq(html@),
            open@ == open_pat(tag@),
            close@ == close_pat(tag@),
            cursor <= html.len(),
            views(frags@) + tag_fragments_from(html@, lower@, tag@, cursor as int)
                == tag_fragments_seq(html@, tag@),
        ensures
            views(frags@) == tag_fragments_seq(html@, tag@),
        decreases html.len() - cursor,
    {
        let ghost rest = tag_fragments_from(html@, lower@, tag@, cursor as int);
        match find_chars(&lower, &open, cursor) {
            None => {
                assert(views(frags@) + rest =~= views(frags@));
                break;
            },
            Some(start) => {
                proof {
                    lemma_find_from(lower@, open@, cursor as int);
                }
                match find_chars(&lower, &close, start) {
                    None => {
                        assert(views(frags@) + rest =~= views(frags@));
                        break;
                    },
                    Some(rc) => {
                        proof {
                            lemma_find_from(lower@, close@, start as int);
                        }
                        let end = rc + close.len();
                        let frag = copy_range(html, start, end);
                        proof {
                            lemma_views_push(frags@, frag);
                            assert(rest == seq![frag@] + tag_fragments_from(
                                html@,
                                lower@,
                                tag@,
                                end as int,
                            ));
                        }
                        frags.push(frag);
                        cursor = end;
                        assert(views(frags@) + tag_fragments_from(
                            html@,
                            lower@,
                            tag@,
                            cursor as int,
                        ) =~= tag_fragments_seq(html@, tag@));
                    },
                }
            },
        }
    }
    frags
}

// ---------------------------------------------------------------------------
// Table cells.
// ---------------------------------------------------------------------------

pub open spec fn td_pat() -> Seq<char> {
    seq!['<', 't', 'd']
}

pub open spec fn th_pat() -> Seq<char> {
    seq!['<', 't', 'h']
}

/// The cells found from `cursor` on: each starts at the nearer of the next `<td` and
/// `<th`, and ends after the first closing tag `</td>` or `</th>` (the name that opened
/// it) from its start.
pub open spec fn cell_fragments_from(row: Seq<char>, lower: Seq<char>, cursor: int) -> Seq<Seq<char>>
    decreases lower.len() + 1 - cursor,
{
    if cursor < 0 || cursor >= row.len() {
        Seq::empty()
    } else {
        match choose_min(find_from(lower, td_pat(), cursor), find_from(lower, th_pat(), cursor)) {
            None => Seq::empty(),
            Some(start) => {
                let close = close_pat(lower.subrange(start + 1, start + 3));
                match find_from(lower, close, start) {
                    None => Seq::empty(),
                    Some(rc) => {
                        proof {
                            lemma_find_from(lower, td_pat(), cursor);
                            lemma_find_from(lower, th_pat(), cursor);
                            lemma_find_from(lower, close, start);
                        }
                        let end = rc + close.len();
                        seq![row.subrange(start, end)] + cell_fragments_from(row, lower, end)
                    },
                }
            },
        }
    }
}

/// The `td` and `th` cells of a table row, in order.
pub open spec fn cell_fragments_seq(row: Seq<char>) -> Seq<Seq<char>> {
    cell_fragments_from(row, lower_seq(row), 0)
}

/// The `td` and `th` cells of a table row, in order.
pub fn cell_fragments(row: &[char]) -> (r: Vec<Vec<char>>)
    ensures
        views(r@) == cell_fragments_seq(row@),
{
    let lower = ascii_lower(row);
    let td = vec!['<', 't', 'd'];
    let th = vec!['<', 't', 'h'];
    assert(td@ =~= td_pat());
    assert(th@ =~= th_pat());
    let mut cells: Vec<Vec<char>> = Vec::new();
    let mut cursor: usize = 0;
    assert(views(cells@) =~= Seq::<Seq<char>>::empty());
    while cursor < row.len()
        invariant
            lower@.len() == row@.len(),
            lower@ == lower_seq(row@),
            td@ == td_pat(),
            th@ == th_pat(),
            cursor <= row.len(),
            views(cells@) + cell_fragments_from(row@, lower@, cursor as int)
                == cell_fragments_seq(row@),
        ensures
            views(cells@) == cell_fragments_seq(row@),
        decreases row.len() - cursor,
    {
        let ghost rest = cell_fragments_from(row@, lower@, cursor as int);
        let a = find_chars(&lower, &td, cursor);
        let b = find_chars(&lower, &th, cursor);
        proof {
            lemma_find_from(lower@, td@, cursor as int);
            lemma_find_from(lower@, th@, cursor as int);
        }
        match choose_min_exec(a, b) {
            None => {
                assert(views(cells@) + rest =~= views(cells@));
                break;
            },
            Some(start) => {
                let tag = copy_range(&lower, start + 1, start + 3);
                let close = close_pat_exec(&tag);
                match find_chars(&lower, &close, start) {
                    None => {
                        assert(views(cells@) + rest =~= views(cells@));
                        break;
                    },
                    Some(rc) => {
                        proof {
                            lemma_find_from(lower@, close@, start as int);
                        }
                        let end = rc + close.len();
                        let cell = copy_range(row, start, end);
                        proof {
                            lemma_views_push(cells@, cell);
                        }
                        cells.push(cell);
                        cursor = end;
                        assert(views(cells@) + cell_fragments_from(row@, lower@, cursor as int)
                            =~= cell_fragments_seq(row@));
                    },
                }
            },
        }
    }
    if cursor >= row.len() {
        assert(views(cells@) + cell_fragments_from(row@, lower@, cursor as int) =~= views(
            cells@,
        ));
    }
    cells
}

// ---------------------------------------------------------------------------
// Anchors.
// ---------------------------------------------------------------------------

/// An anchor element: its opening tag and the HTML between the opening and closing tags.
pub struct Anchor {
    pub open_tag: Vec<char>,
    pub inner_html: Vec<char>,
}

pub open spec fn anchor_views(v: Seq<Anchor>) -> Seq<(Seq<char>, Seq<char>)> {
    v.map_values(|a: Anchor| (a.open_tag@, a.inner_html@))
}

pub open spec fn a_pat() -> Seq<char> {
    seq!['<', 'a']
}

pub open spec fn a_close_pat() -> Seq<char> {
    seq!['<', '/', 'a', '>']
}

/// The anchors found from `cursor` on: each opens at the next `<a`, its opening tag ends
/// at the first `>` after that, and its content ends at the first `</a>` after the
/// opening tag.
pub open spec fn anchors_from(html: Seq<char>, lower: Seq<char>, cursor: int) -> Seq<(Seq<char>, Seq<char>)>
    decreases lower.len() + 1 - cursor,
{
    if cursor < 0 {
        Seq::empty()
    } else {
        match find_from(lower, a_pat(), cursor) {
            None => Seq::empty(),
            Some(start) => match find_from(lower, seq!['>'], start) {
                None => Seq::empty(),
                Some(roe) => {
                    let open_end = roe + 1;
                    match find_from(lower, a_close_pat(), open_end) {
                        None => Seq::empty(),
                        Some(close_start) => {
                            proof {
                                lemma_find_from(lower, a_pat(), cursor);
                                lemma_find_from(lower, seq!['>'], start);
                                lemma_find_from(lower, a_close_pat(), open_end);
                            }
                            seq![
                                (
                                    html.subrange(start, open_end),
                                    html.subrange(open_end, close_start),
                                ),
                            ] + anchors_from(html, lower, close_start + 4)
                        },
                    }
                },
            },
        }
    }
}

/// The anchors of `html`, in order.
pub open spec fn anchor_fragments_seq(html: Seq<char>) -> Seq<(Seq<char>, Seq<char>)> {
    anchors_from(html, lower_seq(html), 0)
}

/// The anchors of `html`, in order.
pub fn anchor_fragments(html: &[char]) -> (r: Vec<Anchor>)
    ensures
        anchor_views(r@) == anchor_fragments_seq(html@),
{
    let lower = ascii_lower(html);
    let a = vec!['<', 'a'];
    let close = vec!['<', '/', 'a', '>'];
    assert(a@ =~= a_pat());
    assert(close@ =~= a_close_pat());
    let mut anchors: Vec<Anchor> = Vec::new();
    let mut cursor: usize = 0;
    assert(anchor_views(anchors@) =~= Seq::<(Seq<char>, Seq<char>)>::empty());
    loop
        invariant
            lower@.len() == html@.len(),
            lower@ == lower_seq(html@),
            a@ == a_pat(),
            close@ == a_close_pat(),
            cursor <= html.len(),
            anchor_views(anchors@) + anchors_from(html@, lower@, cursor as int)
                == anchor_fragments_seq(html@),
        ensures
            anchor_views(anchors@) == anchor_fragments_seq(html@),
        decreases html.len() - cursor,
    {
        let ghost rest = anchors_from(html@, lower@, cursor as int);
        let start = match find_chars(&lower, &a, cursor) {
            None => {
                assert(anchor_views(anchors@) + rest =~= anchor_views(anchors@));
                break ;
            },
            Some(s) => s,
        };
        proof {
            lemma_find_from(lower@, a@, cursor as int);
        }
        let roe = match find_char(&lower, '>', start) {
            None => {
                assert(anchor_views(anchors@) + rest =~= anchor_views(anchors@));
                break ;
            },
            Some(x) => x,
        };
        proof {
            lemma_find_from(lower@, seq!['>'], start as int);
        }
        let open_end = roe + 1;
        let close_start = match find_chars(&lower, &close, open_end) {
            None => {
                assert(anchor_views(anchors@) + rest =~= anchor_views(anchors@));
                break ;
            },
            Some(x) => x,
        };
        proof {
            lemma_find_from(lower@, close@, open_end as int);
        }
        let anchor = Anchor {
            open_tag: copy_range(html, start, open_end),
            inner_html: copy_range(html, open_end, close_start),
        };
        assert(anchor_views(anchors@.push(anchor)) =~= anchor_views(anchors@).push(
            (anchor.open_tag@, anchor.inner_html@),
        ));
        anchors.push(anchor);
        cursor = close_start + 4;
        assert(anchor_views(anchors@) + anchors_from(html@, lower@, cursor as int)
            =~= anchor_fragments_seq(html@));
    }
    anchors
}

// ---------------------------------------------------------------------------
// Opening tags and attributes.
// ---------------------------------------------------------------------------

/// A fragment up to and including its first `>`, or the whole fragment without one.
pub open spec fn open_tag_seq(f: Seq<char>) -> Seq<char> {
    match find_from(f, seq!['>'], 0) {
        Some(e) => f.take(e + 1),
        None => f,
    }
}

/// A fragment up to and including its first `>`, or the whole fragment without one.
pub fn open_tag(f: &[char]) -> (r: Vec<char>)
    ensures
        r@ == open_tag_seq(f@),
{
    match find_char(f, '>', 0) {
        Some(e) => {
            proof {
                lemma_find_from(f@, seq!['>'], 0);
                assert(matches_at(f@, e as int, seq!['>']));
                assert(e + 1 <= f.len());
            }
            copy_range(f, 0, e + 1)
        },
        None => copy_range(f, 0, f.len()),
    }
}

/// The value of attribute `name` in an opening tag: the text between the quotes (`"` or
/// `'`) that directly follow the first `name=` (ASCII case-insensitive), entity-decoded.
pub open spec fn attr_seq(open: Seq<char>, name: Seq<char>) -> Option<Seq<char>> {
    let needle = lower_seq(name) + seq!['='];
    match find_from(lower_seq(open), needle, 0) {
        None => None,
        Some(index) => {
            let vs = index + needle.len();
            if vs >= open.len() {
                None
            } else if open[vs] != '"' && open[vs] != '\'' {
                None
            } else {
                match find_from(open, seq![open[vs]], vs + 1) {
                    None => None,
                    Some(ve) => Some(html_decode_seq(open.subrange(vs + 1, ve))),
                }
            }
        },
    }
}

/// The value of attribute `name` in an opening tag.
pub fn attr(open: &[char], name: &[char]) -> (r: Option<Vec<char>>)
    ensures
        r matches Some(v) ==> attr_seq(open@, name@) == Some(v@),
        r is None ==> attr_seq(open@, name@) is None,
{
    let lower = ascii_lower(open);
    let mut needle = ascii_lower(name);
    needle.push('=');
    assert(needle@ =~= lower_seq(name@) + seq!['=']);
    let index = match find_chars(&lower, &needle, 0) {
        None => {
            return None;
        },
        Some(i) => i,
    };
    proof {
        lemma_find_from(lower@, needle@, 0);
        assert(matches_at(lower@, index as int, needle@));
        assert(index + needle.len() <= lower.len());
    }
    let vs = index + needle.len();
    if vs >= open.len() {
        return None;
    }
    let quote = open[vs];
    if quote != '"' && quote != '\'' {
        return None;
    }
    match find_char(open, quote, vs + 1) {
        None => None,
        Some(ve) => {
            proof {
                lemma_find_from(open@, seq![quote], vs + 1);
            }
            let raw = copy_range(open, vs + 1, ve);
            Some(html_decode(&raw))
        },
    }
}

/// Whether the opening tag of a fragment lists `class_name` among its classes.
pub open spec fn has_class_seq(f: Seq<char>, class_name: Seq<char>) -> bool {
    match attr_seq(open_tag_seq(f), "class"@) {
        Some(classes) => words(classes).contains(class_name),
        None => false,
    }
}

/// Whether the opening tag of a fragment lists `class_name` among its classes.
pub fn has_class(f: &[char], class_name: &[char]) -> (r: bool)
    ensures
        r == has_class_seq(f@, class_name@),
{
    let open = open_tag(f);
    let name = str_chars("class");
    assert(name@ == "class"@);
    match attr(&open, &name) {
        None => false,
        Some(classes) => {
            let ws = words_exec(&classes);
            let mut i: usize = 0;
            while i < ws.len()
                invariant
                    i <= ws.len(),
                    views(ws@) == words(classes@),
                    attr_seq(open_tag_seq(f@), "class"@) == Some(classes@),
                    forall|k: int| 0 <= k < i ==> views(ws@)[k] != class_name@,
                decreases ws.len() - i,
            {
                if chars_eq(&ws[i], class_name) {
                    assert(views(ws@)[i as int] == class_name@);
                    assert(views(ws@).contains(class_name@));
                    return true;
                }
                i = i + 1;
            }
            assert(!views(ws@).contains(class_name@));
            assert(name@ == "class"@);
            false
        },
    }
}

/// The tag name of an opening tag: after leading whitespace and `<`, any `/` characters
/// are skipped and the ASCII letters and digits that follow are taken; absent when there
/// is no `<` or no such character.
pub open spec fn tag_name_seq(open: Seq<char>) -> Option<Seq<char>> {
    let t = trim_start_seq(open);
    if t.len() == 0 || t[0] != '<' {
        None
    } else {
        let rest = t.skip(1);
        let after = rest.skip(leading_count(rest, |c: char| c == '/') as int);
        let name = after.take(leading_count(after, |c: char| is_ascii_alnum(c)) as int);
        if name.len() == 0 {
            None
        } else {
            Some(name)
        }
    }
}

fn is_ascii_alnum_exec(c: char) -> (b: bool)
    ensures
        b == is_ascii_alnum(c),
{
    (c >= '0' && c <= '9') || (c >= 'a' && c <= 'z') || (c >= 'A' && c <= 'Z')
}

/// The tag name of an opening tag.
pub fn tag_name(open: &[char]) -> (r: Option<Vec<char>>)
    ensures
        r matches Some(v) ==> tag_name_seq(open@) == Some(v@),
        r is None ==> tag_name_seq(open@) is None,
{
    let t = trim_start(open);
    if t.len() == 0 || t[0] != '<' {
        return None;
    }
    let ghost rest = t@.skip(1);
    let mut i: usize = 1;
    while i < t.len() && t[i] == '/'
        invariant
            1 <= i <= t.len(),
            rest == t@.skip(1),
            forall|k: int| 0 <= k < i - 1 ==> #[trigger] rest[k] == '/',
        decreases t.len() - i,
    {
        i = i + 1;
    }
    proof {
        lemma_leading_count_at(rest, |c: char| c == '/', i - 1);
    }
    let ghost after = rest.skip(i - 1);
    let mut j: usize = i;
    while j < t.len() && is_ascii_alnum_exec(t[j])
        invariant
            i <= j <= t.len(),
            after == t@.skip(i as int),
            forall|k: int| 0 <= k < j - i ==> is_ascii_alnum(#[trigger] after[k]),
        decreases t.len() - j,
    {
        j = j + 1;
    }
    proof {
        assert(after =~= t@.skip(i as int));
        lemma_leading_count_at(after, |c: char| is_ascii_alnum(c), j - i);
        assert(after.take(j - i) =~= t@.subrange(i as int, j as int));
    }
    if j == i {
        None
    } else {
        Some(copy_range(&t, i, j))
    }
}

/// Whether a fragment, after leading whitespace and in Unicode lowercase, begins with
/// `<` and the tag name.
pub open spec fn starts_with_tag_seq(f: Seq<char>, tag: Seq<char>) -> bool {
    matches_at(unicode_lowercase(trim_start_seq(f)), 0, open_pat(tag))
}

/// Whether a fragment begins with an opening tag of `tag`.
pub fn starts_with_tag(f: &[char], tag: &[char]) -> (r: bool)
    ensures
        r == starts_with_tag_seq(f@, tag@),
{
    let t = trim_start(f);
    let s = chars_string(&t);
    let l = str_to_lowercase(&s);
    let lc = str_chars(&l);
    let p = open_pat_exec(tag);
    matches_at_exec(&lc, 0, &p)
}

// ---------------------------------------------------------------------------
// The first element with a class.
// ---------------------------------------------------------------------------

/// Scans the tags of `html` from `cursor` on and gives the first element whose opening tag
/// lists `class_name`: it runs from that `<` to after the first matching closing tag
/// (`</` and the lowercase tag name), or to the end of its opening tag where there is no
/// closing tag. Closing tags are skipped; absent when the opening tag has no name.
pub open spec fn fragment_with_class_from(
    html: Seq<char>,
    lower: Seq<char>,
    class_name: Seq<char>,
    cursor: int,
) -> Option<Seq<char>>
    decreases lower.len() + 1 - cursor,
{
    if cursor < 0 {
        None
    } else {
        match find_from(lower, seq!['<'], cursor) {
            None => None,
            Some(start) => {
                proof {
                    lemma_find_from(lower, seq!['<'], cursor);
                }
                if matches_at(lower, start, seq!['<', '/']) {
                    fragment_with_class_from(html, lower, class_name, start + 2)
                } else {
                    match find_from(lower, seq!['>'], start) {
                        None => None,
                        Some(roe) => {
                            proof {
                                lemma_find_from(lower, seq!['>'], start);
                            }
                            let open_end = roe + 1;
                            let open = html.subrange(start, open_end);
                            if !has_class_seq(open, class_name) {
                                fragment_with_class_from(html, lower, class_name, open_end)
                            } else {
                                match tag_name_seq(open) {
                                    None => None,
                                    Some(tag) => {
                                        let close = close_pat(lower_seq(tag));
                                        let end = match find_from(lower, close, open_end) {
                                            Some(o) => o + close.len(),
                                            None => open_end,
                                        };
                                        Some(html.subrange(start, end))
                                    },
                                }
                            }
                        },
                    }
                }
            },
        }
    }
}

/// The first element of `html` whose opening tag lists `class_name`.
pub open spec fn first_fragment_with_class_seq(html: Seq<char>, class_name: Seq<char>) -> Option<
    Seq<char>,
> {
    fragment_with_class_from(html, lower_seq(html), class_name, 0)
}

/// The first element of `html` whose opening tag lists `class_name`.
pub fn first_fragment_with_class(html: &[char], class_name: &[char]) -> (r: Option<Vec<char>>)
    ensures
        r matches Some(v) ==> first_fragment_with_class_seq(html@, class_name@) == Some(v@),
        r is None ==> first_fragment_with_class_seq(html@, class_name@) is None,
{
    let lower = ascii_lower(html);
    let slash = vec!['<', '/'];
    assert(slash@ =~= seq!['<', '/']);
    let mut cursor: usize = 0;
    loop
        invariant
            lower@.len() == html@.len(),
            lower@ == lower_seq(html@),
            slash@ == seq!['<', '/'],
            cursor <= html.len(),
            fragment_with_class_from(html@, lower@, class_name@, cursor as int)
                == first_fragment_with_class_seq(html@, class_name@),
        decreases html.len() - cursor,
    {
        let start = match find_char(&lower, '<', cursor) {
            None => {
                return None;
            },
            Some(x) => x,
        };
        proof {
            lemma_find_from(lower@, seq!['<'], cursor as int);
        }
        if matches_at_exec(&lower, start, &slash) {
            cursor = start + 2;
            continue ;
        }
        let roe = match find_char(&lower, '>', start) {
            None => {
                return None;
            },
            Some(x) => x,
        };
        proof {
            lemma_find_from(lower@, seq!['>'], start as int);
        }
        let open_end = roe + 1;
        let open = copy_range(html, start, open_end);
        if !has_class(&open, class_name) {
            cursor = open_end;
            continue ;
        }
        let tag = match tag_name(&open) {
            None => {
                return None;
            },
            Some(t) => t,
        };
        let ltag = ascii_lower(&tag);
        let close = close_pat_exec(&ltag);
        let end = match find_chars(&lower, &close, open_end) {
            Some(o) => {
                proof {
                    lemma_find_from(lower@, close@, open_end as int);
                    assert(matches_at(lower@, o as int, close@));
                    assert(o + close.len() <= lower.len());
                }
                o + close.len()
            },
            None => open_end,
        };
        return Some(copy_range(html, start, end));
    }
}

// ---------------------------------------------------------------------------
// Headings.
// ---------------------------------------------------------------------------

/// The start of the first `<h2` or `<h3` at or after `from`.
pub open spec fn heading_start(lower: Seq<char>, from: int) -> Option<int> {
    choose_min(
        find_from(lower, seq!['<', 'h', '2'], from),
        find_from(lower, seq!['<', 'h', '3'], from),
    )
}

/// Whether `c` is not alphanumeric in Unicode.
pub open spec fn not_alphanumeric(c: char) -> bool {
    !unicode_alphanumeric(c)
}

/// The text of a heading without its leading characters that are not alphanumeric.
pub open spec fn heading_text(t: Seq<char>) -> Seq<char> {
    t.skip(leading_count(t, |c: char| not_alphanumeric(c)) as int)
}

/// The next `h2` or `h3` heading at or after `from`: its start, the end of its closing
/// tag, and its text without leading characters that are not alphanumeric.
pub open spec fn next_heading_seq(html: Seq<char>, from: int) -> Option<(int, int, Seq<char>)> {
    let lower = lower_seq(html);
    match heading_start(lower, from) {
        None => None,
        Some(start) => {
            let close = close_pat(lower.subrange(start + 1, start + 3));
            match find_from(lower, close, start) {
                None => None,
                Some(o) => {
                    let end = o + close.len();
                    Some((start, end, heading_text(fragment_text(html.subrange(start, end)))))
                },
            }
        },
    }
}

/// `t` without its leading characters that are not alphanumeric.
fn trim_non_alphanumeric(t: &[char]) -> (r: Vec<char>)
    ensures
        r@ == heading_text(t@),
{
    let mut i: usize = 0;
    while i < t.len()
        invariant
            i <= t.len(),
            forall|k: int| 0 <= k < i ==> not_alphanumeric(#[trigger] t@[k]),
        ensures
            i <= t.len(),
            forall|k: int| 0 <= k < i ==> not_alphanumeric(#[trigger] t@[k]),
            i < t.len() ==> !not_alphanumeric(t@[i as int]),
        decreases t.len() - i,
    {
        if char_is_alphanumeric(t[i]) {
            break;
        }
        i = i + 1;
    }
    proof {
        lemma_leading_count_at(t@, |c: char| not_alphanumeric(c), i as int);
    }
    copy_range(t, i, t.len())
}

/// The next `h2` or `h3` heading at or after `from`.
pub fn next_heading(html: &[char], from: usize) -> (r: Option<(usize, usize, Vec<char>)>)
    ensures
        r matches Some(h) ==> next_heading_seq(html@, from as int) == Some(
            (h.0 as int, h.1 as int, h.2@),
        ),
        r matches Some(h) ==> from <= h.0 < h.1 <= html.len(),
        r is None ==> next_heading_seq(html@, from as int) is None,
{
    let lower = ascii_lower(html);
    let h2 = vec!['<', 'h', '2'];
    let h3 = vec!['<', 'h', '3'];
    assert(h2@ =~= seq!['<', 'h', '2']);
    assert(h3@ =~= seq!['<', 'h', '3']);
    let a = find_chars(&lower, &h2, from);
    let b = find_chars(&lower, &h3, from);
    proof {
        lemma_find_from(lower@, h2@, from as int);
        lemma_find_from(lower@, h3@, from as int);
    }
    let start = match choose_min_exec(a, b) {
        None => {
            return None;
        },
        Some(s) => s,
    };
    proof {
        if a is Some && a->0 == start {
            assert(matches_at(lower@, start as int, h2@));
        } else {
            assert(matches_at(lower@, start as int, h3@));
        }
        assert(start + 3 <= lower.len());
    }
    let tag = copy_range(&lower, start + 1, start + 3);
    let close = close_pat_exec(&tag);
    let o = match find_chars(&lower, &close, start) {
        None => {
            return None;
        },
        Some(o) => o,
    };
    proof {
        lemma_find_from(lower@, close@, start as int);
        assert(matches_at(lower@, o as int, close@));
    }
    let end = o + close.len();
    let frag = copy_range(html, start, end);
    let text = fragment_text_exec(&frag);
    let trimmed = trim_non_alphanumeric(&text);
    Some((start, end, trimmed))
}

/// A heading found at or after `from` starts there or later and ends within the text.
pub proof fn lemma_next_heading(html: Seq<char>, from: int)
    requires
        0 <= from,
    ensures
        next_heading_seq(html, from) matches Some(h) ==> from <= h.0 < h.1 <= html.len(),
{
    let lower = lower_seq(html);
    lemma_find_from(lower, seq!['<', 'h', '2'], from);
    lemma_find_from(lower, seq!['<', 'h', '3'], from);
    match heading_start(lower, from) {
        None => {},
        Some(start) => {
            let close = close_pat(lower.subrange(start + 1, start + 3));
            lemma_find_from(lower, close, start);
        },
    }
}

} // verus!
