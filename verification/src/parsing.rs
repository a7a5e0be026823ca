//! Reading the public catalogue pages: search results, areas, course details,
//! and the addresses that lead to them.
use vstd::prelude::*;
use crate::html::{
    anchor_fragments, anchor_fragments_seq, anchor_views, attr, attr_seq, cell_fragments,
    cell_fragments_seq, first_fragment_with_class, first_fragment_with_class_seq, has_class,
    has_class_seq, next_heading, next_heading_seq, open_tag, open_tag_seq, starts_with_tag,
    starts_with_tag_seq, tag_fragments, tag_fragments_seq, Anchor,
};
use crate::map::{assoc_insert, StrMap};
use crate::markup::{
    clean_text_seq, fragment_text, fragment_text_exec, strip_tags_seq, html_decode, html_decode_seq, join, join_exec,
    views,
};
use crate::models::{
    field_views, opt_view, result_views, EventDetail, EventDetailView, Field, FieldView, Row,
    SearchResult, SearchResultView,
};
use crate::text::{
    append_chars, ascii_lower, chars_eq, chars_string, contains_seq, copy_range, find_chars,
    find_from, find_str, is_ascii_alnum, leading_count, lemma_find_from, lemma_leading_count_at,
    lower_char, lower_seq, matches_at, str_chars, str_to_lowercase, str_to_uppercase, unicode_lowercase,
    unicode_uppercase,
};
use crate::url::{
    absolutize, absolutize_seq, event_url_chars, event_url_seq, query_param, query_param_seq,
    url_encode_chars, url_encode_seq,
};

verus! {

// ---------------------------------------------------------------------------
// Helpers.
// ---------------------------------------------------------------------------

/// The first `Some` that `f` gives for an element of `s`, in order.
pub open spec fn find_map<A, B>(s: Seq<A>, f: spec_fn(A) -> Option<B>) -> Option<B>
    decreases s.len(),
{
    if s.len() == 0 {
        None
    } else {
        match f(s[0]) {
            Some(b) => Some(b),
            None => find_map(s.drop_first(), f),
        }
    }
}

pub open spec fn opt_chars(o: Option<Vec<char>>) -> Option<Seq<char>> {
    match o {
        Some(v) => Some(v@),
        None => None,
    }
}

fn opt_string(o: Option<Vec<char>>) -> (r: Option<String>)
    ensures
        opt_view(r) == opt_chars(o),
{
    match o {
        Some(v) => Some(chars_string(&v)),
        None => None,
    }
}

/// Whether the Unicode lowercase of `h` contains the literal `needle`.
fn lowercase_contains(h: &[char], needle: &str) -> (r: bool)
    ensures
        r == contains_seq(unicode_lowercase(h@), needle@),
{
    let s = chars_string(h);
    let l = str_to_lowercase(s.as_str());
    let lc = str_chars(l.as_str());
    find_str(&lc, needle, 0).is_some()
}

// ---------------------------------------------------------------------------
// Anchors and cells.
// ---------------------------------------------------------------------------

/// The `href` of an anchor when it points to an `event.asp` page (in any case).
pub open spec fn event_href_of(a: (Seq<char>, Seq<char>)) -> Option<Seq<char>> {
    match attr_seq(a.0, "href"@) {
        Some(h) => if contains_seq(unicode_lowercase(h), "event.asp"@) {
            Some(h)
        } else {
            None
        },
        None => None,
    }
}

/// The first link of `html` to an `event.asp` page.
pub open spec fn first_event_href_seq(html: Seq<char>) -> Option<Seq<char>> {
    find_map(anchor_fragments_seq(html), |a: (Seq<char>, Seq<char>)| event_href_of(a))
}

/// The text of an anchor when it is not empty.
pub open spec fn anchor_text_of(a: (Seq<char>, Seq<char>)) -> Option<Seq<char>> {
    let t = fragment_text(a.1);
    if t.len() > 0 {
        Some(t)
    } else {
        None
    }
}

/// The first non-empty anchor text of `html`.
pub open spec fn first_anchor_text_seq(html: Seq<char>) -> Option<Seq<char>> {
    find_map(anchor_fragments_seq(html), |a: (Seq<char>, Seq<char>)| anchor_text_of(a))
}

fn event_href_exec(a: &Anchor) -> (r: Option<Vec<char>>)
    ensures
        opt_chars(r) == event_href_of((a.open_tag@, a.inner_html@)),
{
    let name = str_chars("href");
    match attr(&a.open_tag, &name) {
        Some(h) => {
            if lowercase_contains(&h, "event.asp") {
                Some(h)
            } else {
                None
            }
        },
        None => None,
    }
}

/// The first link of `html` to an `event.asp` page.
fn first_event_href(html: &[char]) -> (r: Option<Vec<char>>)
    ensures
        opt_chars(r) == first_event_href_seq(html@),
{
    let anchors = anchor_fragments(html);
    let ghost all = anchor_views(anchors@);
    let ghost f = |a: (Seq<char>, Seq<char>)| event_href_of(a);
    let mut i: usize = 0;
    assert(all.skip(0) =~= all);
    while i < anchors.len()
        invariant
            i <= anchors.len(),
            all == anchor_views(anchors@),
            all == anchor_fragments_seq(html@),
            f == (|a: (Seq<char>, Seq<char>)| event_href_of(a)),
            find_map(all, f) == find_map(all.skip(i as int), f),
        decreases anchors.len() - i,
    {
        let ghost rest = all.skip(i as int);
        assert(rest[0] == (anchors@[i as int].open_tag@, anchors@[i as int].inner_html@));
        assert(rest.drop_first() =~= all.skip(i + 1));
        match event_href_exec(&anchors[i]) {
            Some(h) => {
                return Some(h);
            },
            None => {},
        }
        i = i + 1;
    }
    None
}

/// The first non-empty anchor text of `html`.
fn first_anchor_text(html: &[char]) -> (r: Option<Vec<char>>)
    ensures
        opt_chars(r) == first_anchor_text_seq(html@),
{
    let anchors = anchor_fragments(html);
    let ghost all = anchor_views(anchors@);
    let ghost f = |a: (Seq<char>, Seq<char>)| anchor_text_of(a);
    let mut i: usize = 0;
    assert(all.skip(0) =~= all);
    while i < anchors.len()
        invariant
            i <= anchors.len(),
            all == anchor_views(anchors@),
            all == anchor_fragments_seq(html@),
            f == (|a: (Seq<char>, Seq<char>)| anchor_text_of(a)),
            find_map(all, f) == find_map(all.skip(i as int), f),
        decreases anchors.len() - i,
    {
        let ghost rest = all.skip(i as int);
        assert(rest[0] == (anchors@[i as int].open_tag@, anchors@[i as int].inner_html@));
        assert(rest.drop_first() =~= all.skip(i + 1));
        let t = fragment_text_exec(&anchors[i].inner_html);
        if t.len() > 0 {
            return Some(t);
        }
        i = i + 1;
    }
    None
}

/// A cell whose opening tag, in Unicode uppercase, contains the uppercase `needle`.
pub open spec fn cell_with_id(cell: Seq<char>, needle: Seq<char>) -> Option<Seq<char>> {
    if contains_seq(unicode_uppercase(open_tag_seq(cell)), unicode_uppercase(needle)) {
        Some(cell)
    } else {
        None
    }
}

/// The first cell of a row whose opening tag names `needle` (case-insensitively), such as
/// an `id` ending in `EVENTLIST_TITLE_1`.
pub open spec fn cell_by_id_seq(row: Seq<char>, needle: Seq<char>) -> Option<Seq<char>> {
    find_map(cell_fragments_seq(row), |c: Seq<char>| cell_with_id(c, needle))
}

fn uppercase_chars(v: &[char]) -> (r: Vec<char>)
    ensures
        r@ == unicode_uppercase(v@),
{
    let s = chars_string(v);
    let u = str_to_uppercase(s.as_str());
    str_chars(u.as_str())
}

/// The first cell of a row whose opening tag names `needle`.
fn cell_by_id(row: &[char], needle: &str) -> (r: Option<Vec<char>>)
    ensures
        opt_chars(r) == cell_by_id_seq(row@, needle@),
{
    let nc = str_chars(needle);
    let up = uppercase_chars(&nc);
    let cells = cell_fragments(row);
    let ghost all = views(cells@);
    let ghost f = |c: Seq<char>| cell_with_id(c, needle@);
    let mut i: usize = 0;
    assert(all.skip(0) =~= all);
    while i < cells.len()
        invariant
            i <= cells.len(),
            all == views(cells@),
            all == cell_fragments_seq(row@),
            up@ == unicode_uppercase(needle@),
            f == (|c: Seq<char>| cell_with_id(c, needle@)),
            find_map(all, f) == find_map(all.skip(i as int), f),
        decreases cells.len() - i,
    {
        let ghost rest = all.skip(i as int);
        assert(rest[0] == cells@[i as int]@);
        assert(rest.drop_first() =~= all.skip(i + 1));
        let open = open_tag(&cells[i]);
        let uo = uppercase_chars(&open);
        if find_chars(&uo, &up, 0).is_some() {
            return Some(copy_range(&cells[i], 0, cells[i].len()));
        }
        i = i + 1;
    }
    None
}

/// The text of the first part of a cell with class `class_name`, or of the whole cell.
pub open spec fn cell_text_by_class(cell: Seq<char>, class_name: Seq<char>) -> Seq<char> {
    match first_fragment_with_class_seq(cell, class_name) {
        Some(f) => fragment_text(f),
        None => fragment_text(cell),
    }
}

fn cell_text_by_class_exec(cell: &[char], class_name: &str) -> (r: Vec<char>)
    ensures
        r@ == cell_text_by_class(cell@, class_name@),
{
    let cn = str_chars(class_name);
    match first_fragment_with_class(cell, &cn) {
        Some(f) => fragment_text_exec(&f),
        None => fragment_text_exec(cell),
    }
}

/// The text of a non-empty title element.
pub open spec fn title_text_of(f: Seq<char>) -> Option<Seq<char>> {
    let t = fragment_text(f);
    if t.len() > 0 {
        Some(t)
    } else {
        None
    }
}

pub open spec fn title_tag() -> Seq<char> {
    seq!['t', 'i', 't', 'l', 'e']
}

/// The first non-empty `title` element text of a page.
pub open spec fn first_title_seq(html: Seq<char>) -> Option<Seq<char>> {
    find_map(tag_fragments_seq(html, title_tag()), |f: Seq<char>| title_text_of(f))
}

/// The first non-empty `title` element text of a page.
fn first_title(html: &[char]) -> (r: Option<Vec<char>>)
    ensures
        opt_chars(r) == first_title_seq(html@),
{
    let tag = vec!['t', 'i', 't', 'l', 'e'];
    assert(tag@ =~= title_tag());
    let frags = tag_fragments(html, &tag);
    let ghost all = views(frags@);
    let ghost f = |x: Seq<char>| title_text_of(x);
    let mut i: usize = 0;
    assert(all.skip(0) =~= all);
    while i < frags.len()
        invariant
            i <= frags.len(),
            all == views(frags@),
            all == first_title_all(html@),
            f == (|x: Seq<char>| title_text_of(x)),
            find_map(all, f) == find_map(all.skip(i as int), f),
        decreases frags.len() - i,
    {
        let ghost rest = all.skip(i as int);
        assert(rest[0] == frags@[i as int]@);
        assert(rest.drop_first() =~= all.skip(i + 1));
        let t = fragment_text_exec(&frags[i]);
        if t.len() > 0 {
            return Some(t);
        }
        i = i + 1;
    }
    None
}

pub open spec fn first_title_all(html: Seq<char>) -> Seq<Seq<char>> {
    tag_fragments_seq(html, title_tag())
}

/// The text of the first heading of a page.
pub open spec fn first_heading_seq(html: Seq<char>) -> Option<Seq<char>> {
    match next_heading_seq(html, 0) {
        Some(h) => Some(h.2),
        None => None,
    }
}

// ---------------------------------------------------------------------------
// Summaries of event list rows.
// ---------------------------------------------------------------------------

/// The text of an optional cell, as a list of at most one non-empty text.
pub open spec fn opt_cell_text(o: Option<Seq<char>>) -> Seq<Seq<char>> {
    match o {
        Some(c) => if fragment_text(c).len() > 0 {
            seq![fragment_text(c)]
        } else {
            Seq::empty()
        },
        None => Seq::empty(),
    }
}

/// The summary of an event list row: the non-empty texts of its course number, lecturer
/// and SWS cells (the type cell where there is no SWS cell), joined by ` | `.
pub open spec fn eventlist_summary_seq(row: Seq<char>) -> Seq<char> {
    let number = cell_by_id_seq(row, "EVENTLIST_COURSENUMBER"@);
    let lecturer = cell_by_id_seq(row, "EVENTLIST_LECTURER"@);
    let kind = match cell_by_id_seq(row, "EVENTLIST_SWS"@) {
        Some(c) => Some(c),
        None => cell_by_id_seq(row, "EVENTLIST_TYPE"@),
    };
    join(opt_cell_text(number) + opt_cell_text(lecturer) + opt_cell_text(kind), " | "@)
}

fn push_cell_text(texts: &mut Vec<Vec<char>>, o: Option<Vec<char>>)
    ensures
        views(final(texts)@) == views(old(texts)@) + opt_cell_text(opt_chars(o)),
{
    match o {
        Some(c) => {
            let t = fragment_text_exec(&c);
            if t.len() > 0 {
                let ghost before = texts@;
                texts.push(t);
                assert(views(texts@) =~= views(before) + opt_cell_text(opt_chars(o)));
            } else {
                assert(views(texts@) =~= views(old(texts)@) + opt_cell_text(opt_chars(o)));
            }
        },
        None => {
            assert(views(texts@) =~= views(old(texts)@) + opt_cell_text(opt_chars(o)));
        },
    }
}

/// The summary of an event list row.
fn eventlist_summary(row: &[char]) -> (r: Vec<char>)
    ensures
        r@ == eventlist_summary_seq(row@),
{
    let mut texts: Vec<Vec<char>> = Vec::new();
    assert(views(texts@) =~= Seq::<Seq<char>>::empty());
    let number = cell_by_id(row, "EVENTLIST_COURSENUMBER");
    push_cell_text(&mut texts, number);
    let lecturer = cell_by_id(row, "EVENTLIST_LECTURER");
    push_cell_text(&mut texts, lecturer);
    let kind = match cell_by_id(row, "EVENTLIST_SWS") {
        Some(c) => Some(c),
        None => cell_by_id(row, "EVENTLIST_TYPE"),
    };
    push_cell_text(&mut texts, kind);
    let sep = str_chars(" | ");
    join_exec(&texts, &sep)
}

// ---------------------------------------------------------------------------
// Search results.
// ---------------------------------------------------------------------------

/// Some result has address `url`.
pub open spec fn has_url(results: Seq<SearchResultView>, url: Seq<char>) -> bool {
    exists|k: int| 0 <= k < results.len() && results[k].url == url
}

/// A result for address `url` with its identifiers read from the address.
pub open spec fn result_for(title: Seq<char>, url: Seq<char>, summary: Seq<char>) -> SearchResultView {
    SearchResultView {
        title,
        url,
        event_guid: query_param_seq(url, "gguid"@),
        term_guid: query_param_seq(url, "tguid"@),
        summary,
    }
}

/// The title of an event list row: the first anchor text of its title cell, or else the
/// first anchor text of the row, or else empty.
pub open spec fn row_title(row: Seq<char>) -> Seq<char> {
    let from_cell = match cell_by_id_seq(row, "EVENTLIST_TITLE"@) {
        Some(c) => first_anchor_text_seq(c),
        None => None,
    };
    match from_cell {
        Some(t) => t,
        None => match first_anchor_text_seq(row) {
            Some(t) => t,
            None => Seq::empty(),
        },
    }
}

/// One table row considered for the results: a row that mentions `event.asp` and links to
/// an event page adds a result, unless its address is already listed or it has no title.
pub open spec fn row_step(results: Seq<SearchResultView>, row: Seq<char>, base: Seq<char>) -> Seq<
    SearchResultView,
> {
    if !contains_seq(unicode_lowercase(row), "event.asp"@) {
        results
    } else {
        match first_event_href_seq(row) {
            None => results,
            Some(href) => {
                let url = absolutize_seq(base, href);
                if has_url(results, url) {
                    results
                } else {
                    let title = row_title(row);
                    if title.len() == 0 {
                        results
                    } else {
                        results.push(result_for(title, url, eventlist_summary_seq(row)))
                    }
                }
            },
        }
    }
}

/// The results of the table rows, in order.
pub open spec fn rows_results(rows: Seq<Seq<char>>, base: Seq<char>) -> Seq<SearchResultView>
    decreases rows.len(),
{
    if rows.len() == 0 {
        Seq::empty()
    } else {
        row_step(rows_results(rows.drop_last(), base), rows.last(), base)
    }
}

/// One anchor considered for the results: a link to an event page with a non-empty text
/// adds a result with an empty summary, unless its address is already listed.
pub open spec fn anchor_step(
    results: Seq<SearchResultView>,
    a: (Seq<char>, Seq<char>),
    base: Seq<char>,
) -> Seq<SearchResultView> {
    match event_href_of(a) {
        None => results,
        Some(href) => {
            let url = absolutize_seq(base, href);
            if has_url(results, url) {
                results
            } else {
                let title = fragment_text(a.1);
                if title.len() == 0 {
                    results
                } else {
                    results.push(result_for(title, url, Seq::empty()))
                }
            }
        },
    }
}

/// The results after the anchors, in order, starting from `init`.
pub open spec fn anchors_results(
    anchors: Seq<(Seq<char>, Seq<char>)>,
    base: Seq<char>,
    init: Seq<SearchResultView>,
) -> Seq<SearchResultView>
    decreases anchors.len(),
{
    if anchors.len() == 0 {
        init
    } else {
        anchor_step(anchors_results(anchors.drop_last(), base, init), anchors.last(), base)
    }
}

pub open spec fn tr_tag() -> Seq<char> {
    seq!['t', 'r']
}

/// The courses listed on a search or event list page: first from its table rows, then
/// from its remaining links to event pages, each address once.
pub open spec fn parse_search_results_seq(html: Seq<char>, base: Seq<char>) -> Seq<
    SearchResultView,
> {
    anchors_results(
        anchor_fragments_seq(html),
        base,
        rows_results(tag_fragments_seq(html, tr_tag()), base),
    )
}

// ---------------------------------------------------------------------------
// What every list read from a page keeps.
// ---------------------------------------------------------------------------

/// A list of courses as the parser keeps it: no two share an address, every title is
/// non-empty and already cleaned of extra whitespace, and each course's `gguid` and `tguid`
/// are those of its address.
pub open spec fn results_well_formed(rs: Seq<SearchResultView>) -> bool {
    &&& forall|i: int, j: int| 0 <= i < j < rs.len() ==> rs[i].url != rs[j].url
    &&& forall|k: int|
        0 <= k < rs.len() ==> {
            &&& (#[trigger] rs[k]).title.len() > 0
            &&& clean_text_seq(rs[k].title) == rs[k].title
            &&& rs[k].event_guid == query_param_seq(rs[k].url, "gguid"@)
            &&& rs[k].term_guid == query_param_seq(rs[k].url, "tguid"@)
        }
}

proof fn lemma_push_result_well_formed(rs: Seq<SearchResultView>, r: SearchResultView)
    requires
        results_well_formed(rs),
        !has_url(rs, r.url),
        r.title.len() > 0,
        clean_text_seq(r.title) == r.title,
        r.event_guid == query_param_seq(r.url, "gguid"@),
        r.term_guid == query_param_seq(r.url, "tguid"@),
    ensures
        results_well_formed(rs.push(r)),
{
    let t = rs.push(r);
    assert forall|i: int, j: int| 0 <= i < j < t.len() implies t[i].url != t[j].url by {
        if j == rs.len() {
            assert(t[i] == rs[i]);
            if rs[i].url == r.url {
                assert(has_url(rs, r.url));
            }
        } else {
            assert(t[i] == rs[i] && t[j] == rs[j]);
        }
    }
    assert forall|k: int| 0 <= k < t.len() implies {
        &&& (#[trigger] t[k]).title.len() > 0
        &&& clean_text_seq(t[k].title) == t[k].title
        &&& t[k].event_guid == query_param_seq(t[k].url, "gguid"@)
        &&& t[k].term_guid == query_param_seq(t[k].url, "tguid"@)
    } by {
        if k < rs.len() {
            assert(t[k] == rs[k]);
        }
    }
}

/// A text found among anchors is cleaned already.
proof fn lemma_anchor_text_clean(anchors: Seq<(Seq<char>, Seq<char>)>)
    ensures
        find_map(anchors, |a: (Seq<char>, Seq<char>)| anchor_text_of(a)) matches Some(t) ==> clean_text_seq(t) == t,
    decreases anchors.len(),
{
    if anchors.len() > 0 {
        crate::markup::law_clean_text_idempotent(strip_tags_seq(anchors[0].1));
        lemma_anchor_text_clean(anchors.drop_first());
    }
}

proof fn lemma_row_title_clean(row: Seq<char>)
    ensures
        clean_text_seq(row_title(row)) == row_title(row),
{
    lemma_anchor_text_clean(anchor_fragments_seq(row));
    if let Some(c) = cell_by_id_seq(row, "EVENTLIST_TITLE"@) {
        lemma_anchor_text_clean(anchor_fragments_seq(c));
    }
    assert(clean_text_seq(Seq::<char>::empty()) =~= Seq::<char>::empty()) by {
        assert(crate::markup::words(Seq::<char>::empty()) =~= Seq::<Seq<char>>::empty());
    }
}

proof fn lemma_rows_results_well_formed(rows: Seq<Seq<char>>, base: Seq<char>)
    ensures
        results_well_formed(rows_results(rows, base)),
    decreases rows.len(),
{
    if rows.len() > 0 {
        let prev = rows_results(rows.drop_last(), base);
        lemma_rows_results_well_formed(rows.drop_last(), base);
        let row = rows.last();
        if contains_seq(unicode_lowercase(row), "event.asp"@) {
            if let Some(href) = first_event_href_seq(row) {
                let url = absolutize_seq(base, href);
                if !has_url(prev, url) && row_title(row).len() > 0 {
                    lemma_row_title_clean(row);
                    lemma_push_result_well_formed(
                        prev,
                        result_for(row_title(row), url, eventlist_summary_seq(row)),
                    );
                }
            }
        }
    }
}

proof fn lemma_anchors_results_well_formed(
    anchors: Seq<(Seq<char>, Seq<char>)>,
    base: Seq<char>,
    init: Seq<SearchResultView>,
)
    requires
        results_well_formed(init),
    ensures
        results_well_formed(anchors_results(anchors, base, init)),
    decreases anchors.len(),
{
    if anchors.len() > 0 {
        let prev = anchors_results(anchors.drop_last(), base, init);
        lemma_anchors_results_well_formed(anchors.drop_last(), base, init);
        let a = anchors.last();
        if let Some(href) = event_href_of(a) {
            let url = absolutize_seq(base, href);
            if !has_url(prev, url) && fragment_text(a.1).len() > 0 {
                crate::markup::law_clean_text_idempotent(strip_tags_seq(a.1));
                lemma_push_result_well_formed(prev, result_for(fragment_text(a.1), url, Seq::empty()));
            }
        }
    }
}

/// Every list of courses read from a page lists each address once, with a non-empty,
/// cleaned title and with the `gguid` and `tguid` of its address.
pub proof fn law_search_results_well_formed(html: Seq<char>, base: Seq<char>)
    ensures
        results_well_formed(parse_search_results_seq(html, base)),
{
    lemma_rows_results_well_formed(tag_fragments_seq(html, tr_tag()), base);
    lemma_anchors_results_well_formed(
        anchor_fragments_seq(html),
        base,
        rows_results(tag_fragments_seq(html, tr_tag()), base),
    );
}

/// A list of areas as the parser keeps it: every name is non-empty and cleaned of extra
/// whitespace, every area has a `field` or a `gguid`, and its `field`, `gguid` and `tguid`
/// are those of its address.
pub open spec fn fields_well_formed(fs: Seq<FieldView>) -> bool {
    forall|k: int|
        0 <= k < fs.len() ==> {
            &&& (#[trigger] fs[k]).name.len() > 0
            &&& clean_text_seq(fs[k].name) == fs[k].name
            &&& (fs[k].value is Some || fs[k].guid is Some)
            &&& fs[k].value == query_param_seq(fs[k].url, "field"@)
            &&& fs[k].guid == query_param_seq(fs[k].url, "gguid"@)
            &&& fs[k].term_guid == query_param_seq(fs[k].url, "tguid"@)
        }
}

proof fn lemma_anchors_fields_well_formed(anchors: Seq<(Seq<char>, Seq<char>)>, base: Seq<char>)
    ensures
        fields_well_formed(anchors_fields(anchors, base)),
    decreases anchors.len(),
{
    if anchors.len() > 0 {
        let prev = anchors_fields(anchors.drop_last(), base);
        lemma_anchors_fields_well_formed(anchors.drop_last(), base);
        let next = anchors_fields(anchors, base);
        crate::markup::law_clean_text_idempotent(strip_tags_seq(anchors.last().1));
        assert forall|k: int| 0 <= k < next.len() implies {
            &&& (#[trigger] next[k]).name.len() > 0
            &&& clean_text_seq(next[k].name) == next[k].name
            &&& (next[k].value is Some || next[k].guid is Some)
            &&& next[k].value == query_param_seq(next[k].url, "field"@)
            &&& next[k].guid == query_param_seq(next[k].url, "gguid"@)
            &&& next[k].term_guid == query_param_seq(next[k].url, "tguid"@)
        } by {
            if k < prev.len() {
                assert(next[k] == prev[k]);
            }
        }
    }
}

/// Every area read from a page has a non-empty, cleaned name and a `field` or a `gguid`, and its
/// identifiers are those of its address.
pub proof fn law_fields_well_formed(html: Seq<char>, base: Seq<char>)
    ensures
        fields_well_formed(parse_fields_seq(html, base)),
{
    lemma_anchors_fields_well_formed(anchor_fragments_seq(html), base);
}

// ---------------------------------------------------------------------------
// Where things are found.
// ---------------------------------------------------------------------------

proof fn lemma_find_map_some<A, B>(s: Seq<A>, f: spec_fn(A) -> Option<B>)
    ensures
        find_map(s, f) matches Some(b) ==> exists|k: int| 0 <= k < s.len() && f(s[k]) == Some(b),
    decreases s.len(),
{
    if s.len() > 0 {
        lemma_find_map_some(s.drop_first(), f);
        if f(s[0]) is None {
            if let Some(b) = find_map(s.drop_first(), f) {
                let k = choose|k: int| 0 <= k < s.drop_first().len() && f(s.drop_first()[k]) == Some(b);
                assert(s[k + 1] == s.drop_first()[k]);
            }
        }
    }
}

/// A course read from a page came from a link whose address, lowercased, names an
/// `event.asp` page: its address is that link resolved against the page's address.
pub open spec fn from_course_link(r: SearchResultView, base: Seq<char>) -> bool {
    exists|href: Seq<char>|
        contains_seq(unicode_lowercase(href), "event.asp"@) && r.url == #[trigger] absolutize_seq(
            base,
            href,
        )
}

proof fn lemma_rows_from_course_links(rows: Seq<Seq<char>>, base: Seq<char>)
    ensures
        forall|k: int|
            0 <= k < rows_results(rows, base).len() ==> from_course_link(
                #[trigger] rows_results(rows, base)[k],
                base,
            ),
    decreases rows.len(),
{
    if rows.len() > 0 {
        let prev = rows_results(rows.drop_last(), base);
        lemma_rows_from_course_links(rows.drop_last(), base);
        let row = rows.last();
        let next = rows_results(rows, base);
        if contains_seq(unicode_lowercase(row), "event.asp"@) {
            if let Some(href) = first_event_href_seq(row) {
                lemma_find_map_some(
                    anchor_fragments_seq(row),
                    |a: (Seq<char>, Seq<char>)| event_href_of(a),
                );
                let url = absolutize_seq(base, href);
                assert(contains_seq(unicode_lowercase(href), "event.asp"@) && url == absolutize_seq(
                    base,
                    href,
                ));
            }
        }
        assert forall|k: int| 0 <= k < next.len() implies from_course_link(#[trigger] next[k], base) by {
            if k < prev.len() {
                assert(next[k] == prev[k]);
            }
        }
    }
}

proof fn lemma_anchors_from_course_links(
    anchors: Seq<(Seq<char>, Seq<char>)>,
    base: Seq<char>,
    init: Seq<SearchResultView>,
)
    requires
        forall|k: int| 0 <= k < init.len() ==> from_course_link(#[trigger] init[k], base),
    ensures
        forall|k: int|
            0 <= k < anchors_results(anchors, base, init).len() ==> from_course_link(
                #[trigger] anchors_results(anchors, base, init)[k],
                base,
            ),
    decreases anchors.len(),
{
    if anchors.len() > 0 {
        let prev = anchors_results(anchors.drop_last(), base, init);
        lemma_anchors_from_course_links(anchors.drop_last(), base, init);
        let next = anchors_results(anchors, base, init);
        if let Some(href) = event_href_of(anchors.last()) {
            let url = absolutize_seq(base, href);
            assert(contains_seq(unicode_lowercase(href), "event.asp"@) && url == absolutize_seq(
                base,
                href,
            ));
        }
        assert forall|k: int| 0 <= k < next.len() implies from_course_link(#[trigger] next[k], base) by {
            if k < prev.len() {
                assert(next[k] == prev[k]);
            }
        }
    }
}

/// Every course read from a search or event list page comes from a link to an `event.asp`
/// page; other links on the page (navigation, areas) never become courses.
pub proof fn law_search_results_come_from_course_links(html: Seq<char>, base: Seq<char>)
    ensures
        forall|k: int|
            0 <= k < parse_search_results_seq(html, base).len() ==> from_course_link(
                #[trigger] parse_search_results_seq(html, base)[k],
                base,
            ),
{
    lemma_rows_from_course_links(tag_fragments_seq(html, tr_tag()), base);
    lemma_anchors_from_course_links(
        anchor_fragments_seq(html),
        base,
        rows_results(tag_fragments_seq(html, tr_tag()), base),
    );
}

/// The semester of the address a page was fetched from wins: where that address carries a
/// `tguid` parameter, it is the semester found, whatever the page holds.
pub proof fn law_address_semester_wins(html: Seq<char>, final_url: Seq<char>, v: Seq<char>)
    requires
        query_param_seq(final_url, "tguid"@) == Some(v),
    ensures
        discover_term_guid_seq(html, final_url) == Some(v),
{
}

/// `needle` occurs in `html` at `i` with ASCII letters compared without regard to case.
pub open spec fn occurs_ignoring_case(html: Seq<char>, i: int, needle: Seq<char>) -> bool {
    0 <= i && i + needle.len() <= html.len() && forall|k: int|
        0 <= k < needle.len() ==> lower_char(#[trigger] html[i + k]) == needle[k]
}

proof fn lemma_find_from_first(s: Seq<char>, p: Seq<char>, from: int, i: int)
    requires
        0 <= from <= i,
        matches_at(s, i, p),
        forall|j: int| from <= j < i ==> !matches_at(s, j, p),
    ensures
        find_from(s, p, from) == Some(i),
    decreases i - from,
{
    if from < i {
        lemma_find_from_first(s, p, from + 1, i);
    }
}

/// A course page's description is found without regard to case: where `Beschreibung`,
/// in any mix of ASCII case, first occurs at `i` and the text of the window that starts
/// there is not empty, that text is the description.
pub proof fn law_description_found_ignoring_case(html: Seq<char>, url: Seq<char>, i: int)
    requires
        occurs_ignoring_case(html, i, "beschreibung"@),
        forall|j: int| 0 <= j < i ==> !occurs_ignoring_case(html, j, "beschreibung"@),
        fragment_text(html.subrange(i, window_end(html, i, 2500))).len() > 0,
    ensures
        parse_event_detail_seq(html, url).description == fragment_text(
            html.subrange(i, window_end(html, i, 2500)),
        ),
{
    let n = "beschreibung"@;
    let lower = lower_seq(html);
    assert(lower.subrange(i, i + n.len()) =~= n) by {
        assert forall|k: int| 0 <= k < n.len() implies lower.subrange(i, i + n.len())[k] == n[k] by {
            assert(lower_char(html[i + k]) == n[k]);
        }
    }
    assert forall|j: int| 0 <= j < i implies !matches_at(lower, j, n) by {
        if matches_at(lower, j, n) {
            assert forall|k: int| 0 <= k < n.len() implies lower_char(#[trigger] html[j + k]) == n[k] by {
                assert(lower.subrange(j, j + n.len())[k] == lower[j + k]);
            }
            assert(occurs_ignoring_case(html, j, n));
        }
    }
    lemma_find_from_first(lower, n, 0, i);
}

/// Whether some result has address `url`.
fn has_url_exec(results: &Vec<SearchResult>, url: &[char]) -> (r: bool)
    ensures
        r == has_url(result_views(results@), url@),
{
    let mut k: usize = 0;
    while k < results.len()
        invariant
            k <= results.len(),
            forall|j: int| 0 <= j < k ==> result_views(results@)[j].url != url@,
        decreases results.len() - k,
    {
        let u = str_chars(results[k].url.as_str());
        if chars_eq(&u, url) {
            assert(result_views(results@)[k as int].url == url@);
            return true;
        }
        k = k + 1;
    }
    false
}

fn push_result(results: &mut Vec<SearchResult>, title: Vec<char>, url: Vec<char>, summary: Vec<char>)
    ensures
        result_views(final(results)@) == result_views(old(results)@).push(
            result_for(title@, url@, summary@),
        ),
{
    let g = str_chars("gguid");
    let t = str_chars("tguid");
    let event_guid = opt_string(query_param(&url, &g));
    let term_guid = opt_string(query_param(&url, &t));
    let r = SearchResult {
        title: chars_string(&title),
        url: chars_string(&url),
        event_guid,
        term_guid,
        summary: chars_string(&summary),
    };
    results.push(r);
    assert(result_views(results@) =~= result_views(old(results)@).push(
        result_for(title@, url@, summary@),
    ));
}

fn row_title_exec(row: &[char]) -> (r: Vec<char>)
    ensures
        r@ == row_title(row@),
{
    let from_cell = match cell_by_id(row, "EVENTLIST_TITLE") {
        Some(c) => first_anchor_text(&c),
        None => None,
    };
    match from_cell {
        Some(t) => t,
        None => match first_anchor_text(row) {
            Some(t) => t,
            None => Vec::new(),
        },
    }
}

fn row_step_exec(results: &mut Vec<SearchResult>, row: &[char], base: &[char])
    ensures
        result_views(final(results)@) == row_step(result_views(old(results)@), row@, base@),
{
    if !lowercase_contains(row, "event.asp") {
        return ;
    }
    let href = match first_event_href(row) {
        None => {
            return ;
        },
        Some(h) => h,
    };
    let url = absolutize(base, &href);
    if has_url_exec(results, &url) {
        return ;
    }
    let title = row_title_exec(row);
    if title.len() == 0 {
        return ;
    }
    let summary = eventlist_summary(row);
    push_result(results, title, url, summary);
}

fn anchor_step_exec(results: &mut Vec<SearchResult>, a: &Anchor, base: &[char])
    ensures
        result_views(final(results)@) == anchor_step(
            result_views(old(results)@),
            (a.open_tag@, a.inner_html@),
            base@,
        ),
{
    let href = match event_href_exec(a) {
        None => {
            return ;
        },
        Some(h) => h,
    };
    let url = absolutize(base, &href);
    if has_url_exec(results, &url) {
        return ;
    }
    let title = fragment_text_exec(&a.inner_html);
    if title.len() == 0 {
        return ;
    }
    push_result(results, title, url, Vec::new());
}

/// The courses listed on a search or event list page.
fn parse_search_results_chars(html: &[char], base: &[char]) -> (r: Vec<SearchResult>)
    ensures
        result_views(r@) == parse_search_results_seq(html@, base@),
{
    let mut results: Vec<SearchResult> = Vec::new();
    let tr = vec!['t', 'r'];
    assert(tr@ =~= tr_tag());
    let rows = tag_fragments(html, &tr);
    let mut i: usize = 0;
    assert(result_views(results@) =~= Seq::<SearchResultView>::empty());
    while i < rows.len()
        invariant
            i <= rows.len(),
            views(rows@) == tag_fragments_seq(html@, tr_tag()),
            result_views(results@) == rows_results(views(rows@).take(i as int), base@),
        decreases rows.len() - i,
    {
        assert(views(rows@).take(i + 1).drop_last() =~= views(rows@).take(i as int));
        assert(views(rows@).take(i + 1).last() == rows@[i as int]@);
        row_step_exec(&mut results, &rows[i], base);
        i = i + 1;
    }
    assert(views(rows@).take(rows.len() as int) =~= views(rows@));
    let ghost init = result_views(results@);
    let anchors = anchor_fragments(html);
    let mut j: usize = 0;
    while j < anchors.len()
        invariant
            j <= anchors.len(),
            anchor_views(anchors@) == anchor_fragments_seq(html@),
            init == rows_results(tag_fragments_seq(html@, tr_tag()), base@),
            result_views(results@) == anchors_results(
                anchor_views(anchors@).take(j as int),
                base@,
                init,
            ),
        decreases anchors.len() - j,
    {
        assert(anchor_views(anchors@).take(j + 1).drop_last() =~= anchor_views(anchors@).take(
            j as int,
        ));
        assert(anchor_views(anchors@).take(j + 1).last() == (
            anchors@[j as int].open_tag@,
            anchors@[j as int].inner_html@,
        ));
        anchor_step_exec(&mut results, &anchors[j], base);
        j = j + 1;
    }
    assert(anchor_views(anchors@).take(anchors.len() as int) =~= anchor_views(anchors@));
    results
}

/// Reads the courses of a search or event list page. `base_url` is the address the page
/// was fetched from; relative links are resolved against it.
pub fn parse_search_results(html: &str, base_url: &str) -> (r: Vec<SearchResult>)
    ensures
        result_views(r@) == parse_search_results_seq(html@, base_url@),
{
    let h = str_chars(html);
    let b = str_chars(base_url);
    parse_search_results_chars(&h, &b)
}

// ---------------------------------------------------------------------------
// Areas.
// ---------------------------------------------------------------------------

/// One anchor considered for the areas: a link whose address carries a `field` or a
/// `gguid` parameter and whose text is not empty adds an area.
pub open spec fn field_step(fields: Seq<FieldView>, a: (Seq<char>, Seq<char>), base: Seq<char>) -> Seq<
    FieldView,
> {
    match attr_seq(a.0, "href"@) {
        None => fields,
        Some(href) => {
            let url = absolutize_seq(base, href);
            let value = query_param_seq(url, "field"@);
            let guid = query_param_seq(url, "gguid"@);
            if value is None && guid is None {
                fields
            } else {
                let name = fragment_text(a.1);
                if name.len() == 0 {
                    fields
                } else {
                    fields.push(
                        FieldView {
                            name,
                            url,
                            value,
                            guid,
                            term_guid: query_param_seq(url, "tguid"@),
                        },
                    )
                }
            }
        },
    }
}

/// The areas of the anchors, in order.
pub open spec fn anchors_fields(anchors: Seq<(Seq<char>, Seq<char>)>, base: Seq<char>) -> Seq<
    FieldView,
>
    decreases anchors.len(),
{
    if anchors.len() == 0 {
        Seq::empty()
    } else {
        field_step(anchors_fields(anchors.drop_last(), base), anchors.last(), base)
    }
}

/// The areas and faculties linked from a page.
pub open spec fn parse_fields_seq(html: Seq<char>, base: Seq<char>) -> Seq<FieldView> {
    anchors_fields(anchor_fragments_seq(html), base)
}

fn field_step_exec(fields: &mut Vec<Field>, a: &Anchor, base: &[char])
    ensures
        field_views(final(fields)@) == field_step(
            field_views(old(fields)@),
            (a.open_tag@, a.inner_html@),
            base@,
        ),
{
    let hname = str_chars("href");
    let href = match attr(&a.open_tag, &hname) {
        None => {
            return ;
        },
        Some(h) => h,
    };
    let url = absolutize(base, &href);
    let fname = str_chars("field");
    let gname = str_chars("gguid");
    let value = query_param(&url, &fname);
    let guid = query_param(&url, &gname);
    if value.is_none() && guid.is_none() {
        return ;
    }
    let name = fragment_text_exec(&a.inner_html);
    if name.len() == 0 {
        return ;
    }
    let tname = str_chars("tguid");
    let term_guid = opt_string(query_param(&url, &tname));
    let f = Field {
        name: chars_string(&name),
        url: chars_string(&url),
        value: opt_string(value),
        guid: opt_string(guid),
        term_guid,
    };
    fields.push(f);
    assert(field_views(fields@) =~= field_step(
        field_views(old(fields)@),
        (a.open_tag@, a.inner_html@),
        base@,
    ));
}

fn parse_fields_chars(html: &[char], base: &[char]) -> (r: Vec<Field>)
    ensures
        field_views(r@) == parse_fields_seq(html@, base@),
{
    let mut fields: Vec<Field> = Vec::new();
    let anchors = anchor_fragments(html);
    let mut j: usize = 0;
    assert(field_views(fields@) =~= Seq::<FieldView>::empty());
    while j < anchors.len()
        invariant
            j <= anchors.len(),
            anchor_views(anchors@) == anchor_fragments_seq(html@),
            field_views(fields@) == anchors_fields(anchor_views(anchors@).take(j as int), base@),
        decreases anchors.len() - j,
    {
        assert(anchor_views(anchors@).take(j + 1).drop_last() =~= anchor_views(anchors@).take(
            j as int,
        ));
        assert(anchor_views(anchors@).take(j + 1).last() == (
            anchors@[j as int].open_tag@,
            anchors@[j as int].inner_html@,
        ));
        field_step_exec(&mut fields, &anchors[j], base);
        j = j + 1;
    }
    assert(anchor_views(anchors@).take(anchors.len() as int) =~= anchor_views(anchors@));
    fields
}

/// Reads the areas and faculties linked from a page. `base_url` is the address the page
/// was fetched from.
pub fn parse_fields(html: &str, base_url: &str) -> (r: Vec<Field>)
    ensures
        field_views(r@) == parse_fields_seq(html@, base_url@),
{
    let h = str_chars(html);
    let b = str_chars(base_url);
    parse_fields_chars(&h, &b)
}

// ---------------------------------------------------------------------------
// The current semester.
// ---------------------------------------------------------------------------

pub open spec fn tguid_pat() -> Seq<char> {
    seq!['t', 'g', 'u', 'i', 'd', '=']
}

/// A character of a semester identifier: an ASCII letter or digit.
pub open spec fn guid_char(c: char) -> bool {
    is_ascii_alnum(c) || c == 'x' || c == 'X'
}

/// The semester identifier of a page: the `tguid` parameter of the address it was fetched
/// from, or else the letters and digits after the first `tguid=` in the page (matched ASCII
/// case-insensitively), entity-decoded.
pub open spec fn discover_term_guid_seq(html: Seq<char>, final_url: Seq<char>) -> Option<Seq<char>> {
    match query_param_seq(final_url, "tguid"@) {
        Some(v) => Some(v),
        None => match find_from(lower_seq(html), tguid_pat(), 0) {
            None => None,
            Some(index) => {
                let rest = html.skip(index + 6);
                Some(html_decode_seq(rest.take(leading_count(rest, |c: char| guid_char(c)) as int)))
            },
        },
    }
}

/// Finds the semester identifier (`tguid`) of a page. `final_url` is the address the page
/// was fetched from, after redirects.
pub fn discover_term_guid(html: &str, final_url: &str) -> (r: Option<String>)
    ensures
        opt_view(r) == discover_term_guid_seq(html@, final_url@),
{
    let url = str_chars(final_url);
    let tname = str_chars("tguid");
    match query_param(&url, &tname) {
        Some(v) => {
            return Some(chars_string(&v));
        },
        None => {},
    }
    let h = str_chars(html);
    let lower = ascii_lower(&h);
    let pat = vec!['t', 'g', 'u', 'i', 'd', '='];
    assert(pat@ =~= tguid_pat());
    let index = match find_chars(&lower, &pat, 0) {
        None => {
            return None;
        },
        Some(i) => i,
    };
    proof {
        lemma_find_from(lower@, pat@, 0);
        assert(matches_at(lower@, index as int, pat@));
        assert(index + 6 <= h.len());
    }
    let start = index + 6;
    let mut end: usize = start;
    while end < h.len() && (is_guid_char(h[end]))
        invariant
            start <= end <= h.len(),
            forall|k: int| start <= k < end ==> guid_char(#[trigger] h@[k]),
        decreases h.len() - end,
    {
        end = end + 1;
    }
    let ghost rest = h@.skip(start as int);
    proof {
        assert forall|k: int| 0 <= k < end - start implies guid_char(#[trigger] rest[k]) by {
            assert(rest[k] == h@[start + k]);
        }
        if end < h.len() {
            assert(rest[end - start] == h@[end as int]);
        }
        lemma_leading_count_at(rest, |c: char| guid_char(c), end - start);
        assert(rest.take(end - start) =~= h@.subrange(start as int, end as int));
    }
    let value = copy_range(&h, start, end);
    let decoded = html_decode(&value);
    Some(chars_string(&decoded))
}

fn is_guid_char(c: char) -> (b: bool)
    ensures
        b == guid_char(c),
{
    (c >= '0' && c <= '9') || (c >= 'a' && c <= 'z') || (c >= 'A' && c <= 'Z')
}

// ---------------------------------------------------------------------------
// Addresses.
// ---------------------------------------------------------------------------

/// Percent-encodes a URL component: ASCII letters, digits and `-_.~` stay, a space
/// becomes `+`, and every other byte of its UTF-8 encoding becomes `%XX`.
pub fn url_encode(value: &str) -> (r: String)
    ensures
        r@ == url_encode_seq(value@),
{
    let v = str_chars(value);
    let e = url_encode_chars(&v);
    chars_string(&e)
}

/// The address of the course page of an event in a semester, in a language.
pub fn event_url(event_guid: &str, term_guid: &str, lang: &str) -> (r: String)
    ensures
        r@ == event_url_seq(event_guid@, term_guid@, lang@),
{
    let e = str_chars(event_guid);
    let t = str_chars(term_guid);
    let l = str_chars(lang);
    let u = event_url_chars(&e, &t, &l);
    chars_string(&u)
}

// ---------------------------------------------------------------------------
// Tables as records.
// ---------------------------------------------------------------------------

/// The texts of the cells.
pub open spec fn cell_texts(cells: Seq<Seq<char>>) -> Seq<Seq<char>> {
    cells.map_values(|c: Seq<char>| fragment_text(c))
}

/// The non-empty texts, in order.
pub open spec fn nonempty_only(ts: Seq<Seq<char>>) -> Seq<Seq<char>>
    decreases ts.len(),
{
    if ts.len() == 0 {
        Seq::empty()
    } else if ts.last().len() > 0 {
        nonempty_only(ts.drop_last()).push(ts.last())
    } else {
        nonempty_only(ts.drop_last())
    }
}

/// The first `n` header and value pairs inserted in order, skipping empty ones.
pub open spec fn zip_record(headers: Seq<Seq<char>>, values: Seq<Seq<char>>, n: nat) -> Seq<
    (Seq<char>, Seq<char>),
>
    decreases n,
{
    if n == 0 {
        Seq::empty()
    } else {
        let m = zip_record(headers, values, (n - 1) as nat);
        let h = headers[n - 1];
        let v = values[n - 1];
        if h.len() > 0 && v.len() > 0 {
            assoc_insert(m, h, v)
        } else {
            m
        }
    }
}

/// The first `n` values inserted under `column_1`, `column_2`, ...
pub open spec fn column_record(values: Seq<Seq<char>>, n: nat) -> Seq<(Seq<char>, Seq<char>)>
    decreases n,
{
    if n == 0 {
        Seq::empty()
    } else {
        assoc_insert(
            column_record(values, (n - 1) as nat),
            "column_"@ + crate::text::decimal(n),
            values[n - 1],
        )
    }
}

/// The record of a data row: by header where the table has a header row with as many
/// cells as the row has values, under `value` for a single value, else by column number.
pub open spec fn record_for(has_header: bool, headers: Seq<Seq<char>>, values: Seq<Seq<char>>) -> Seq<
    (Seq<char>, Seq<char>),
> {
    if has_header && values.len() == headers.len() {
        zip_record(headers, values, values.len())
    } else if values.len() == 1 {
        assoc_insert(Seq::empty(), "value"@, values[0])
    } else {
        column_record(values, values.len())
    }
}

/// The non-empty cell texts of a row.
pub open spec fn row_values(row: Seq<char>) -> Seq<Seq<char>> {
    nonempty_only(cell_texts(cell_fragments_seq(row)))
}

/// The records of the data rows, in order; rows without values or without a record are
/// left out.
pub open spec fn rows_records(rows: Seq<Seq<char>>, has_header: bool, headers: Seq<Seq<char>>) -> Seq<
    Seq<(Seq<char>, Seq<char>)>,
>
    decreases rows.len(),
{
    if rows.len() == 0 {
        Seq::empty()
    } else {
        let prev = rows_records(rows.drop_last(), has_header, headers);
        let values = row_values(rows.last());
        if values.len() == 0 {
            prev
        } else {
            let record = record_for(has_header, headers, values);
            if record.len() == 0 {
                prev
            } else {
                prev.push(record)
            }
        }
    }
}

pub open spec fn th_tag() -> Seq<char> {
    seq!['t', 'h']
}

/// Whether the first row is a header row: one of its cells starts with `<th`.
pub open spec fn is_header_row(cells: Seq<Seq<char>>) -> bool {
    exists|k: int| 0 <= k < cells.len() && starts_with_tag_seq(cells[k], th_tag())
}

/// The rows of a table as records.
pub open spec fn table_as_records_seq(table: Seq<char>) -> Seq<Seq<(Seq<char>, Seq<char>)>> {
    let rows = tag_fragments_seq(table, tr_tag());
    if rows.len() == 0 {
        Seq::empty()
    } else {
        let first_cells = cell_fragments_seq(rows[0]);
        let has_header = is_header_row(first_cells);
        let headers = cell_texts(first_cells);
        let data = if has_header {
            rows.drop_first()
        } else {
            rows
        };
        rows_records(data, has_header, headers)
    }
}

/// The texts of cells.
fn cell_texts_exec(cells: &Vec<Vec<char>>) -> (r: Vec<Vec<char>>)
    ensures
        views(r@) == cell_texts(views(cells@)),
{
    let mut out: Vec<Vec<char>> = Vec::new();
    let mut i: usize = 0;
    assert(views(out@) =~= cell_texts(views(cells@)).take(0));
    while i < cells.len()
        invariant
            i <= cells.len(),
            views(out@) == cell_texts(views(cells@)).take(i as int),
        decreases cells.len() - i,
    {
        let t = fragment_text_exec(&cells[i]);
        let ghost before = out@;
        proof {
            crate::markup::lemma_views_push(before, t);
            assert(cell_texts(views(cells@)).take(i + 1) =~= cell_texts(views(cells@)).take(
                i as int,
            ).push(fragment_text(cells@[i as int]@)));
        }
        out.push(t);
        i = i + 1;
    }
    assert(cell_texts(views(cells@)).take(cells.len() as int) =~= cell_texts(views(cells@)));
    out
}

/// The non-empty cell texts of a row.
fn row_values_exec(row: &[char]) -> (r: Vec<Vec<char>>)
    ensures
        views(r@) == row_values(row@),
{
    let cells = cell_fragments(row);
    let texts = cell_texts_exec(&cells);
    let mut out: Vec<Vec<char>> = Vec::new();
    let mut i: usize = 0;
    assert(views(texts@).take(0) =~= Seq::<Seq<char>>::empty());
    assert(views(out@) =~= Seq::<Seq<char>>::empty());
    while i < texts.len()
        invariant
            i <= texts.len(),
            views(out@) == nonempty_only(views(texts@).take(i as int)),
        decreases texts.len() - i,
    {
        assert(views(texts@).take(i + 1).drop_last() =~= views(texts@).take(i as int));
        assert(views(texts@).take(i + 1).last() == texts@[i as int]@);
        if texts[i].len() > 0 {
            let t = copy_range(&texts[i], 0, texts[i].len());
            let ghost before = out@;
            proof {
                crate::markup::lemma_views_push(before, t);
                assert(t@ =~= texts@[i as int]@);
            }
            out.push(t);
        }
        i = i + 1;
    }
    assert(views(texts@).take(texts.len() as int) =~= views(texts@));
    out
}

fn record_for_exec(has_header: bool, headers: &Vec<Vec<char>>, values: &Vec<Vec<char>>) -> (r: Row)
    ensures
        r@ == record_for(has_header, views(headers@), views(values@)),
{
    let mut record: Row = StrMap::new();
    if has_header && values.len() == headers.len() {
        let mut i: usize = 0;
        while i < values.len()
            invariant
                i <= values.len() == headers.len(),
                record@ == zip_record(views(headers@), views(values@), i as nat),
            decreases values.len() - i,
        {
            if headers[i].len() > 0 && values[i].len() > 0 {
                record.insert(chars_string(&headers[i]), chars_string(&values[i]));
            }
            i = i + 1;
        }
    } else if values.len() == 1 {
        record.insert("value".to_owned(), chars_string(&values[0]));
    } else {
        let mut i: usize = 0;
        while i < values.len()
            invariant
                i <= values.len(),
                record@ == column_record(views(values@), i as nat),
            decreases values.len() - i,
        {
            let mut key = str_chars("column_");
            let num = crate::text::decimal_exec((i + 1) as u64);
            append_chars(&mut key, &num);
            record.insert(chars_string(&key), chars_string(&values[i]));
            i = i + 1;
        }
    }
    record
}

/// Whether one of the cells starts with `<th`.
fn header_flag(cells: &Vec<Vec<char>>) -> (r: bool)
    ensures
        r == is_header_row(views(cells@)),
{
    let th = vec!['t', 'h'];
    assert(th@ =~= th_tag());
    let mut has_header = false;
    let mut k: usize = 0;
    while k < cells.len()
        invariant
            k <= cells.len(),
            th@ == th_tag(),
            has_header == exists|j: int|
                0 <= j < k && starts_with_tag_seq(views(cells@)[j], th_tag()),
        decreases cells.len() - k,
    {
        assert(views(cells@)[k as int] == cells@[k as int]@);
        if starts_with_tag(&cells[k], &th) {
            has_header = true;
        }
        k = k + 1;
    }
    has_header
}

/// The records of the rows from index `start` on.
fn records_from(rows: &Vec<Vec<char>>, start: usize, has_header: bool, headers: &Vec<Vec<char>>) -> (r: Vec<Row>)
    requires
        start <= rows.len(),
    ensures
        r.deep_view() == rows_records(views(rows@).skip(start as int), has_header, views(headers@)),
{
    let ghost data = views(rows@).skip(start as int);
    let mut records: Vec<Row> = Vec::new();
    let mut i: usize = start;
    assert(records.deep_view() =~= Seq::<Seq<(Seq<char>, Seq<char>)>>::empty());
    assert(data.take(0) =~= Seq::<Seq<char>>::empty());
    while i < rows.len()
        invariant
            start <= i <= rows.len(),
            data == views(rows@).skip(start as int),
            records.deep_view() == rows_records(data.take(i - start), has_header, views(headers@)),
        decreases rows.len() - i,
    {
        assert(data.take(i + 1 - start).drop_last() =~= data.take(i - start));
        assert(data.take(i + 1 - start).last() == rows@[i as int]@);
        let values = row_values_exec(&rows[i]);
        if values.len() > 0 {
            let record = record_for_exec(has_header, headers, &values);
            if !record.is_empty() {
                let ghost before = records.deep_view();
                records.push(record);
                assert(records.deep_view() =~= before.push(record@));
            }
        }
        i = i + 1;
    }
    assert(data.take(rows.len() - start) =~= data);
    records
}

/// The rows of a table as records.
fn table_as_records(table: &[char]) -> (r: Vec<Row>)
    ensures
        r.deep_view() == table_as_records_seq(table@),
{
    let tr = vec!['t', 'r'];
    assert(tr@ =~= tr_tag());
    let rows = tag_fragments(table, &tr);
    if rows.len() == 0 {
        let e: Vec<Row> = Vec::new();
        assert(e.deep_view() =~= Seq::<Seq<(Seq<char>, Seq<char>)>>::empty());
        return e;
    }
    let first_cells = cell_fragments(&rows[0]);
    let has_header = header_flag(&first_cells);
    let headers = cell_texts_exec(&first_cells);
    let start: usize = if has_header {
        1
    } else {
        0
    };
    proof {
        if has_header {
            assert(views(rows@).skip(1) =~= views(rows@).drop_first());
        } else {
            assert(views(rows@).skip(0) =~= views(rows@));
        }
    }
    records_from(&rows, start, has_header, &headers)
}

// ---------------------------------------------------------------------------
// Labelled fields.
// ---------------------------------------------------------------------------

/// `s` without its trailing `:` characters.
pub open spec fn trim_colons(s: Seq<char>) -> Seq<char> {
    s.take(s.len() - crate::text::trailing_count(s, |c: char| c == ':'))
}

/// One table row considered for the labelled fields: a row of exactly two cells whose
/// label (without trailing colons) and value are not empty, and whose label has at most
/// 60 characters, maps the label to the value.
pub open spec fn kv_row_step(m: Seq<(Seq<char>, Seq<char>)>, row: Seq<char>) -> Seq<
    (Seq<char>, Seq<char>),
> {
    let cells = cell_fragments_seq(row);
    if cells.len() != 2 {
        m
    } else {
        let key = trim_colons(cell_text_by_class(cells[0], "label-wrap"@));
        let value = cell_text_by_class(cells[1], "cas-extended-field-value"@);
        if key.len() == 0 || value.len() == 0 || key.len() > 60 {
            m
        } else {
            assoc_insert(m, key, value)
        }
    }
}

/// The labelled fields after the rows, in order, starting from `m`.
pub open spec fn kv_rows(m: Seq<(Seq<char>, Seq<char>)>, rows: Seq<Seq<char>>) -> Seq<
    (Seq<char>, Seq<char>),
>
    decreases rows.len(),
{
    if rows.len() == 0 {
        m
    } else {
        kv_row_step(kv_rows(m, rows.drop_last()), rows.last())
    }
}

/// A table that holds no labelled fields: one of class `listview` or `collapsiblelist`.
pub open spec fn is_list_table(t: Seq<char>) -> bool {
    has_class_seq(t, "listview"@) || has_class_seq(t, "collapsiblelist"@)
}

/// The labelled fields of the tables, in order.
pub open spec fn kv_tables(tables: Seq<Seq<char>>) -> Seq<(Seq<char>, Seq<char>)>
    decreases tables.len(),
{
    if tables.len() == 0 {
        Seq::empty()
    } else {
        let m = kv_tables(tables.drop_last());
        let t = tables.last();
        if is_list_table(t) {
            m
        } else {
            kv_rows(m, tag_fragments_seq(t, tr_tag()))
        }
    }
}

pub open spec fn table_tag() -> Seq<char> {
    seq!['t', 'a', 'b', 'l', 'e']
}

/// The labelled fields of a course page: label to value, over all tables that are no lists.
pub open spec fn parse_key_value_fields_seq(html: Seq<char>) -> Seq<(Seq<char>, Seq<char>)> {
    kv_tables(tag_fragments_seq(html, table_tag()))
}

fn trim_colons_exec(s: &[char]) -> (r: Vec<char>)
    ensures
        r@ == trim_colons(s@),
{
    let mut k: usize = 0;
    while k < s.len() && s[s.len() - 1 - k] == ':'
        invariant
            k <= s.len(),
            forall|j: int| s.len() - k <= j < s.len() ==> #[trigger] s@[j] == ':',
        decreases s.len() - k,
    {
        k = k + 1;
    }
    proof {
        crate::text::lemma_trailing_count_at(s@, |c: char| c == ':', k as int);
    }
    copy_range(s, 0, s.len() - k)
}

fn kv_row_step_exec(m: &mut StrMap<String>, row: &[char])
    ensures
        final(m)@ == kv_row_step(old(m)@, row@),
{
    let cells = cell_fragments(row);
    if cells.len() != 2 {
        return ;
    }
    let label = cell_text_by_class_exec(&cells[0], "label-wrap");
    let key = trim_colons_exec(&label);
    let value = cell_text_by_class_exec(&cells[1], "cas-extended-field-value");
    if key.len() == 0 || value.len() == 0 || key.len() > 60 {
        return ;
    }
    m.insert(chars_string(&key), chars_string(&value));
}

fn kv_table_exec(fields: &mut StrMap<String>, table: &[char])
    ensures
        final(fields)@ == kv_rows(old(fields)@, tag_fragments_seq(table@, tr_tag())),
{
    let tr = vec!['t', 'r'];
    assert(tr@ =~= tr_tag());
    let rows = tag_fragments(table, &tr);
    let ghost m0 = fields@;
    let mut j: usize = 0;
    assert(views(rows@).take(0) =~= Seq::<Seq<char>>::empty());
    while j < rows.len()
        invariant
            j <= rows.len(),
            m0 == old(fields)@,
            fields@ == kv_rows(m0, views(rows@).take(j as int)),
        decreases rows.len() - j,
    {
        assert(views(rows@).take(j + 1).drop_last() =~= views(rows@).take(j as int));
        assert(views(rows@).take(j + 1).last() == rows@[j as int]@);
        kv_row_step_exec(fields, &rows[j]);
        j = j + 1;
    }
    assert(views(rows@).take(rows.len() as int) =~= views(rows@));
}

fn parse_key_value_fields(html: &[char]) -> (r: StrMap<String>)
    ensures
        r@ == parse_key_value_fields_seq(html@),
{
    let tt = vec!['t', 'a', 'b', 'l', 'e'];
    assert(tt@ =~= table_tag());
    let tables = tag_fragments(html, &tt);
    let mut fields: StrMap<String> = StrMap::new();
    let mut i: usize = 0;
    assert(views(tables@).take(0) =~= Seq::<Seq<char>>::empty());
    while i < tables.len()
        invariant
            i <= tables.len(),
            views(tables@) == tag_fragments_seq(html@, table_tag()),
            fields@ == kv_tables(views(tables@).take(i as int)),
        decreases tables.len() - i,
    {
        assert(views(tables@).take(i + 1).drop_last() =~= views(tables@).take(i as int));
        assert(views(tables@).take(i + 1).last() == tables@[i as int]@);
        let listview = str_chars("listview");
        let collapsible = str_chars("collapsiblelist");
        if !(has_class(&tables[i], &listview) || has_class(&tables[i], &collapsible)) {
            kv_table_exec(&mut fields, &tables[i]);
        }
        i = i + 1;
    }
    assert(views(tables@).take(tables.len() as int) =~= views(tables@));
    fields
}

// ---------------------------------------------------------------------------
// Sections.
// ---------------------------------------------------------------------------

/// The records of a table when it is no field table and has at least one record.
pub open spec fn section_rows(t: Seq<char>) -> Option<Seq<Seq<(Seq<char>, Seq<char>)>>> {
    if has_class_seq(t, "displayfields"@) {
        None
    } else {
        let rows = table_as_records_seq(t);
        if rows.len() > 0 {
            Some(rows)
        } else {
            None
        }
    }
}

/// The sections from the heading found at or after `cursor` on: each heading maps to the
/// records of the first table with records between it and the next heading; the search
/// goes on just after the start of each heading.
pub open spec fn sections_from(
    html: Seq<char>,
    cursor: int,
    m: Seq<(Seq<char>, Seq<Seq<(Seq<char>, Seq<char>)>>)>,
) -> Seq<(Seq<char>, Seq<Seq<(Seq<char>, Seq<char>)>>)>
    decreases html.len() + 1 - cursor,
{
    if cursor < 0 {
        m
    } else {
        match next_heading_seq(html, cursor) {
            None => m,
            Some(h) => {
                proof {
                    crate::html::lemma_next_heading(html, cursor);
                }
                let next_start = match next_heading_seq(html, h.1) {
                    Some(n) => n.0,
                    None => html.len() as int,
                };
                let block = html.subrange(h.1, next_start);
                let m2 = match find_map(
                    tag_fragments_seq(block, table_tag()),
                    |t: Seq<char>| section_rows(t),
                ) {
                    Some(rows) => assoc_insert(m, h.2, rows),
                    None => m,
                };
                sections_from(html, h.0 + 1, m2)
            },
        }
    }
}

/// The table sections of a course page, by heading.
pub open spec fn parse_sections_seq(html: Seq<char>) -> Seq<
    (Seq<char>, Seq<Seq<(Seq<char>, Seq<char>)>>),
> {
    sections_from(html, 0, Seq::empty())
}

/// The records of the first table of a block that is no field table and has records.
fn first_section_rows(block: &[char]) -> (r: Option<Vec<Row>>)
    ensures
        r matches Some(rows) ==> find_map(
            tag_fragments_seq(block@, table_tag()),
            |t: Seq<char>| section_rows(t),
        ) == Some(rows.deep_view()),
        r is None ==> find_map(
            tag_fragments_seq(block@, table_tag()),
            |t: Seq<char>| section_rows(t),
        ) is None,
{
    let tt = vec!['t', 'a', 'b', 'l', 'e'];
    assert(tt@ =~= table_tag());
    let tables = tag_fragments(block, &tt);
    let ghost all = views(tables@);
    let ghost f = |t: Seq<char>| section_rows(t);
    let mut i: usize = 0;
    assert(all.skip(0) =~= all);
    while i < tables.len()
        invariant
            i <= tables.len(),
            all == views(tables@),
            all == tag_fragments_seq(block@, table_tag()),
            f == (|t: Seq<char>| section_rows(t)),
            find_map(all, f) == find_map(all.skip(i as int), f),
        decreases tables.len() - i,
    {
        let ghost rest = all.skip(i as int);
        assert(rest[0] == tables@[i as int]@);
        assert(rest.drop_first() =~= all.skip(i + 1));
        let dname = str_chars("displayfields");
        if !has_class(&tables[i], &dname) {
            let rows = table_as_records(&tables[i]);
            if rows.len() > 0 {
                return Some(rows);
            }
        }
        i = i + 1;
    }
    None
}

/// The table sections of a course page, by heading.
fn parse_sections(html: &[char]) -> (r: StrMap<Vec<Row>>)
    ensures
        r@ == parse_sections_seq(html@),
{
    let mut sections: StrMap<Vec<Row>> = StrMap::new();
    let mut cursor: usize = 0;
    loop
        invariant
            cursor <= html.len(),
            sections_from(html@, cursor as int, sections@) == parse_sections_seq(html@),
        ensures
            sections@ == parse_sections_seq(html@),
        decreases html.len() - cursor,
    {
        let h = match next_heading(html, cursor) {
            None => {
                break ;
            },
            Some(h) => h,
        };
        let (heading_start, heading_end, heading_text) = h;
        let next_start = match next_heading(html, heading_end) {
            Some(n) => n.0,
            None => html.len(),
        };
        let block = copy_range(html, heading_end, next_start);
        match first_section_rows(&block) {
            Some(rows) => {
                sections.insert(chars_string(&heading_text), rows);
            },
            None => {},
        }
        cursor = heading_start + 1;
    }
    sections
}

// ---------------------------------------------------------------------------
// Description.
// ---------------------------------------------------------------------------

/// The number of bytes of a character in UTF-8.
pub open spec fn utf8_width(c: char) -> int {
    if (c as u32) < 0x80 {
        1
    } else if (c as u32) < 0x800 {
        2
    } else if (c as u32) < 0x10000 {
        3
    } else {
        4
    }
}

/// The end of the longest run of characters from `i` on whose UTF-8 encoding takes at
/// most `budget` bytes.
pub open spec fn window_end(s: Seq<char>, i: int, budget: int) -> int
    decreases s.len() - i,
{
    if i < 0 || i >= s.len() {
        s.len() as int
    } else if utf8_width(s[i]) > budget {
        i
    } else {
        window_end(s, i + 1, budget - utf8_width(s[i]))
    }
}

/// The description text after the first occurrence of `needle`: the cleaned text of the
/// next 2500 bytes of the page, when it is not empty.
///
/// Where the 2500th byte falls inside a character, the window ends before that character.
pub open spec fn description_for(html: Seq<char>, needle: Seq<char>) -> Option<Seq<char>> {
    match find_from(lower_seq(html), needle, 0) {
        None => None,
        Some(index) => {
            let text = fragment_text(html.subrange(index, window_end(html, index, 2500)));
            if text.len() > 0 {
                Some(text)
            } else {
                None
            }
        },
    }
}

/// The description of a course page: the text after `Beschreibung`, else after `Inhalt`,
/// else after `Kommentar` (matched ASCII case-insensitively), else empty.
pub open spec fn parse_description_seq(html: Seq<char>) -> Seq<char> {
    match description_for(html, "beschreibung"@) {
        Some(t) => t,
        None => match description_for(html, "inhalt"@) {
            Some(t) => t,
            None => match description_for(html, "kommentar"@) {
                Some(t) => t,
                None => Seq::empty(),
            },
        },
    }
}

fn utf8_width_exec(c: char) -> (w: usize)
    ensures
        w == utf8_width(c),
        1 <= w <= 4,
{
    let u = c as u32;
    if u < 0x80 {
        1
    } else if u < 0x800 {
        2
    } else if u < 0x10000 {
        3
    } else {
        4
    }
}

fn description_for_exec(html: &[char], lower: &[char], needle: &str) -> (r: Option<Vec<char>>)
    requires
        lower@ == lower_seq(html@),
    ensures
        opt_chars(r) == description_for(html@, needle@),
{
    let index = match find_str(lower, needle, 0) {
        None => {
            return None;
        },
        Some(i) => i,
    };
    proof {
        lemma_find_from(lower@, needle@, 0);
        assert(index <= html.len());
    }
    let mut end: usize = index;
    let mut budget: usize = 2500;
    while end < html.len() && utf8_width_exec(html[end]) <= budget
        invariant
            index <= end <= html.len(),
            budget <= 2500,
            window_end(html@, index as int, 2500) == window_end(html@, end as int, budget as int),
        decreases html.len() - end,
    {
        budget = budget - utf8_width_exec(html[end]);
        end = end + 1;
    }
    let block = copy_range(html, index, end);
    let text = fragment_text_exec(&block);
    if text.len() > 0 {
        Some(text)
    } else {
        None
    }
}

/// The description of a course page.
fn parse_description(html: &[char]) -> (r: Vec<char>)
    ensures
        r@ == parse_description_seq(html@),
{
    let lower = ascii_lower(html);
    match description_for_exec(html, &lower, "beschreibung") {
        Some(t) => t,
        None => match description_for_exec(html, &lower, "inhalt") {
            Some(t) => t,
            None => match description_for_exec(html, &lower, "kommentar") {
                Some(t) => t,
                None => Vec::new(),
            },
        },
    }
}

// ---------------------------------------------------------------------------
// Course details.
// ---------------------------------------------------------------------------

/// The title of a course page: its `Titel` field, else its first heading, else its first
/// non-empty `title` element, else `Course`.
pub open spec fn detail_title(html: Seq<char>, fields: Seq<(Seq<char>, Seq<char>)>) -> Seq<char> {
    match crate::map::assoc_get(fields, "Titel"@) {
        Some(t) => t,
        None => match first_heading_seq(html) {
            Some(t) => t,
            None => match first_title_seq(html) {
                Some(t) => t,
                None => "Course"@,
            },
        },
    }
}

/// The details of a course page fetched from `url`.
pub open spec fn parse_event_detail_seq(html: Seq<char>, url: Seq<char>) -> EventDetailView {
    let fields = parse_key_value_fields_seq(html);
    EventDetailView {
        title: detail_title(html, fields),
        url,
        event_guid: query_param_seq(url, "gguid"@),
        term_guid: query_param_seq(url, "tguid"@),
        fields,
        sections: parse_sections_seq(html),
        description: parse_description_seq(html),
    }
}

/// Reads the details of a course page. `url` is the address it was fetched from.
pub fn parse_event_detail(html: &str, url: &str) -> (r: EventDetail)
    ensures
        r@ == parse_event_detail_seq(html@, url@),
{
    let h = str_chars(html);
    let fields = parse_key_value_fields(&h);
    let title: String = match fields.get("Titel") {
        Some(t) => t.clone(),
        None => match next_heading(&h, 0) {
            Some(n) => chars_string(&n.2),
            None => match first_title(&h) {
                Some(t) => chars_string(&t),
                None => "Course".to_owned(),
            },
        },
    };
    let u = str_chars(url);
    let g = str_chars("gguid");
    let t = str_chars("tguid");
    let event_guid = opt_string(query_param(&u, &g));
    let term_guid = opt_string(query_param(&u, &t));
    let sections = parse_sections(&h);
    let description = chars_string(&parse_description(&h));
    EventDetail {
        title,
        url: url.to_owned(),
        event_guid,
        term_guid,
        fields,
        sections,
        description,
    }
}

} // verus!
