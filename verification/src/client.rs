//! The catalogue client: which pages an operation fetches, in which order, and
//! what it makes of them. Fetching itself is left to the caller, who runs an
//! operation as a loop: ask the operation for its next step, fetch the page it
//! names, hand the fetched pages back, until the operation is done.
use vstd::prelude::*;
use vstd::utf8::{decode_utf8, valid_utf8};
use crate::models::{field_views, result_views, EventDetail, Field, SearchResult};
use crate::parsing::{
    discover_term_guid, discover_term_guid_seq, event_url, parse_event_detail,
    parse_event_detail_seq, parse_fields, parse_fields_seq, parse_search_results,
    parse_search_results_seq,
};
use crate::text::{
    append_chars, append_str, chars_string, copy_range, decimal, decimal_exec, leading_count,
    lemma_leading_count_at, matches_at, push_char, starts_with_str,
    str_chars, trim, trim_seq,
};
use crate::url::{event_url_seq, lossy_text, url_encode_chars, url_encode_seq, utf8_lossy_string, BASE_URL};

verus! {

/// The line that `curl` is told to print after the body, followed by the final address.
pub const EFFECTIVE_URL_MARKER: &'static str = "\n__RUB_VVZ_EFFECTIVE_URL__:";

/// The message of an operation that needs the current semester and finds none.
pub open spec fn term_error() -> Seq<char> {
    "Could not find a tguid for the current VVZ semester."@
}

/// A client of the catalogue at one address.
#[derive(Debug, Clone)]
pub struct VvzClient {
    base_url: String,
    timeout_secs: u64,
}

/// A fetched page: the address it came from after redirects, and its text.
#[derive(Debug, Clone)]
pub struct Page {
    pub final_url: String,
    pub body: String,
}

/// A page as text.
pub struct PageView {
    pub final_url: Seq<char>,
    pub body: Seq<char>,
}

impl View for Page {
    type V = PageView;

    open spec fn view(&self) -> PageView {
        PageView { final_url: self.final_url@, body: self.body@ }
    }
}

/// The views of fetched pages.
pub open spec fn page_views(pages: Seq<Page>) -> Seq<PageView> {
    pages.map_values(|p: Page| p@)
}

/// The next step of an operation.
pub enum Step<T> {
    /// Fetch this address: with this form body as a POST, or as a GET without one.
    Fetch { url: String, payload: Option<String> },
    /// The operation is over.
    Done(Result<T, String>),
}

/// What an operation does next, as text.
pub enum Plan {
    /// Fetch an address, with an optional form body.
    Fetch(Seq<char>, Option<Seq<char>>),
    /// Fail with a message.
    Fail(Seq<char>),
    /// Read this fetched page.
    Read(PageView),
}

/// A step of an operation does what the plan says: it names the same request, fails with
/// the same message, or gives what reading the planned page gives.
pub open spec fn step_matches<T>(step: Step<T>, plan: Plan, read: spec_fn(PageView, T) -> bool) -> bool {
    match plan {
        Plan::Fetch(url, payload) => step matches Step::Fetch { url: u, payload: p } && u@ == url
            && crate::models::opt_view(p) == payload,
        Plan::Fail(m) => step matches Step::Done(Err(e)) && e@ == m,
        Plan::Read(page) => step matches Step::Done(Ok(v)) && read(page, v),
    }
}

/// The address that `path_or_url` stands for: itself where it is absolute, else below the
/// client's address (leading slashes dropped).
pub open spec fn request_url_seq(base: Seq<char>, path_or_url: Seq<char>) -> Seq<char> {
    if matches_at(path_or_url, 0, "http://"@) || matches_at(path_or_url, 0, "https://"@) {
        path_or_url
    } else {
        base + seq!['/'] + path_or_url.skip(
            leading_count(path_or_url, |c: char| c == '/') as int,
        )
    }
}

/// The request of an operation once the semester is known, then the reading of its page.
pub open spec fn plan_after(pages: Seq<PageView>, request: (Seq<char>, Option<Seq<char>>)) -> Plan {
    if pages.len() == 0 {
        Plan::Fetch(request.0, request.1)
    } else {
        Plan::Read(pages[0])
    }
}

/// The plan of an operation that needs the semester: a given `term` is used; otherwise the
/// start page is fetched first and its semester found (or the operation fails).
pub open spec fn plan_with_term(
    base: Seq<char>,
    term: Option<Seq<char>>,
    pages: Seq<PageView>,
    request: spec_fn(Seq<char>) -> (Seq<char>, Option<Seq<char>>),
) -> Plan {
    match term {
        Some(t) => plan_after(pages, request(t)),
        None => if pages.len() == 0 {
            Plan::Fetch(request_url_seq(base, "/"@), None)
        } else {
            match discover_term_guid_seq(pages[0].body, pages[0].final_url) {
                None => Plan::Fail(term_error()),
                Some(t) => plan_after(pages.drop_first(), request(t)),
            }
        },
    }
}

/// Every operation asks for at most two pages: once two pages are handed back (one where the
/// semester is given or no semester is needed), its plan is no longer a request. The loop
/// that runs an operation therefore ends after at most two fetches.
pub proof fn law_operations_fetch_at_most_twice(
    base: Seq<char>,
    term: Option<Seq<char>>,
    pages: Seq<PageView>,
    request: spec_fn(Seq<char>) -> (Seq<char>, Option<Seq<char>>),
    direct: (Seq<char>, Option<Seq<char>>),
)
    ensures
        pages.len() >= 2 ==> !(plan_with_term(base, term, pages, request) is Fetch),
        pages.len() >= 1 && term is Some ==> !(plan_with_term(base, term, pages, request) is Fetch),
        pages.len() >= 1 ==> !(plan_after(pages, direct) is Fetch),
{
}

/// A text without its trailing slashes (`str::trim_end_matches('/')`).
pub open spec fn without_trailing_slashes(s: Seq<char>) -> Seq<char> {
    s.take(s.len() - crate::text::trailing_count(s, |ch: char| ch == '/'))
}

/// A client built from an address with trailing slashes is the client built from the
/// address without them: the stored address ends in no slash, and dropping trailing slashes
/// again changes nothing, so every request address and `curl` call is the same.
pub proof fn law_new_ignores_trailing_slashes(b: Seq<char>, path_or_url: Seq<char>)
    ensures
        without_trailing_slashes(without_trailing_slashes(b)) == without_trailing_slashes(b),
        without_trailing_slashes(b).len() > 0 ==> without_trailing_slashes(b).last() != '/',
        request_url_seq(without_trailing_slashes(without_trailing_slashes(b)), path_or_url)
            == request_url_seq(without_trailing_slashes(b), path_or_url),
{
    let f = |ch: char| ch == '/';
    let t = without_trailing_slashes(b);
    crate::text::lemma_trailing_count(b, f);
    let k = crate::text::trailing_count(b, f);
    if t.len() > 0 {
        assert(t.last() == b[b.len() - 1 - k]);
    }
    crate::text::lemma_trailing_count_at(t, f, 0);
    assert(t.take(t.len() as int) =~= t);
}

/// The form body of a search.
pub open spec fn search_payload_seq(query: Seq<char>, term: Seq<char>, lang: Seq<char>) -> Seq<char> {
    "find="@ + url_encode_seq(query) + "&searchobject=event&tguid="@ + url_encode_seq(term)
        + "&lang="@ + url_encode_seq(lang) + "&searchButton=Suchen"@
}

/// The path of the event list of an area.
pub open spec fn events_path_seq(field: Seq<char>, term: Seq<char>, lang: Seq<char>) -> Seq<char> {
    "/campus/all/eventlist.asp?gguid="@ + url_encode_seq(field) + "&mode=field&tguid="@
        + url_encode_seq(term) + "&lang="@ + url_encode_seq(lang)
}

/// The path of the list of areas.
pub open spec fn fields_path_seq(term: Seq<char>, lang: Seq<char>) -> Seq<char> {
    "/campus/all/fields.asp?group=Vorlesungsverzeichnis&tguid="@ + url_encode_seq(term)
        + "&lang="@ + url_encode_seq(lang)
}

/// Whether a text is an absolute `http` or `https` address.
pub open spec fn is_absolute(s: Seq<char>) -> bool {
    matches_at(s, 0, "http://"@) || matches_at(s, 0, "https://"@)
}

fn is_absolute_exec(s: &[char]) -> (r: bool)
    ensures
        r == is_absolute(s@),
{
    starts_with_str(s, "http://") || starts_with_str(s, "https://")
}

/// The text of an optional string slice.
pub open spec fn opt_str_view(o: Option<&str>) -> Option<Seq<char>> {
    match o {
        Some(s) => Some(s@),
        None => None,
    }
}

/// What a step that reads search results gives.
pub open spec fn reads_results(page: PageView, v: Vec<SearchResult>) -> bool {
    result_views(v@) == parse_search_results_seq(page.body, page.final_url)
}

/// What a step that reads areas gives.
pub open spec fn reads_fields(page: PageView, v: Vec<Field>) -> bool {
    field_views(v@) == parse_fields_seq(page.body, page.final_url)
}

/// What a step that reads a course page gives.
pub open spec fn reads_detail(page: PageView, v: EventDetail) -> bool {
    v@ == parse_event_detail_seq(page.body, page.final_url)
}

/// What a step that finds the semester gives.
pub open spec fn reads_term(page: PageView, v: String) -> bool {
    discover_term_guid_seq(page.body, page.final_url) == Some(v@)
}

impl Default for VvzClient {
    /// A client of the public catalogue whose requests time out after 20 seconds.
    fn default() -> (c: Self)
        ensures
            c.base_view() == crate::url::base_url_seq(),
            c.timeout_view() == 20,
    {
        let c = VvzClient::new(BASE_URL, 20);
        proof {
            reveal_strlit("https://vvz.ruhr-uni-bochum.de");
            assert(crate::text::trailing_count(BASE_URL@, |ch: char| ch == '/') == 0) by {
                crate::text::lemma_trailing_count_at(BASE_URL@, |ch: char| ch == '/', 0);
            }
            assert(BASE_URL@.take(BASE_URL@.len() as int) =~= BASE_URL@);
        }
        c
    }
}

impl VvzClient {
    /// The client's address, without trailing slashes.
    pub closed spec fn base_view(&self) -> Seq<char> {
        self.base_url@
    }

    /// The timeout of each request, in seconds.
    pub closed spec fn timeout_view(&self) -> u64 {
        self.timeout_secs
    }

    /// A client of the catalogue at `base_url` (trailing slashes dropped), whose requests
    /// time out after `timeout_secs` seconds.
    pub fn new(base_url: &str, timeout_secs: u64) -> (c: Self)
        ensures
            c.base_view() == without_trailing_slashes(base_url@),
            c.timeout_view() == timeout_secs,
    {
        let b = str_chars(base_url);
        let mut k: usize = 0;
        while k < b.len() && b[b.len() - 1 - k] == '/'
            invariant
                k <= b.len(),
                forall|j: int| b.len() - k <= j < b.len() ==> #[trigger] b@[j] == '/',
            decreases b.len() - k,
        {
            k = k + 1;
        }
        proof {
            crate::text::lemma_trailing_count_at(b@, |ch: char| ch == '/', k as int);
        }
        let t = copy_range(&b, 0, b.len() - k);
        VvzClient { base_url: chars_string(&t), timeout_secs }
    }

    /// The client's address.
    pub fn base_url(&self) -> (r: &String)
        ensures
            r@ == self.base_view(),
    {
        &self.base_url
    }

    /// The timeout of each request, in seconds.
    pub fn timeout_secs(&self) -> (r: u64)
        ensures
            r == self.timeout_view(),
    {
        self.timeout_secs
    }

    /// The address that `path_or_url` stands for.
    pub fn request_url(&self, path_or_url: &str) -> (r: String)
        ensures
            r@ == request_url_seq(self.base_view(), path_or_url@),
    {
        let p = str_chars(path_or_url);
        if is_absolute_exec(&p) {
            return chars_string(&p);
        }
        let mut i: usize = 0;
        while i < p.len() && p[i] == '/'
            invariant
                i <= p.len(),
                forall|j: int| 0 <= j < i ==> #[trigger] p@[j] == '/',
            decreases p.len() - i,
        {
            i = i + 1;
        }
        proof {
            lemma_leading_count_at(p@, |c: char| c == '/', i as int);
        }
        let mut out = str_chars(self.base_url.as_str());
        out.push('/');
        let rest = copy_range(&p, i, p.len());
        append_chars(&mut out, &rest);
        assert(rest@ =~= p@.skip(i as int));
        chars_string(&out)
    }

    /// The semester to use: the given one, or the one found on the first fetched page.
    /// `Err(Some(step))` is the step to take first; `Ok((t, n))` gives the semester and the
    /// number of pages used for it.
    fn resolve_term<T>(&self, term_guid: Option<&str>, pages: &[Page]) -> (r: Result<
        (Vec<char>, usize),
        Step<T>,
    >)
        ensures
            match term_guid {
                Some(t) => r matches Ok((v, n)) && v@ == t@ && n == 0,
                None => if pages@.len() == 0 {
                    r matches Err(Step::Fetch { url: u, payload: p }) && u@ == request_url_seq(
                        self.base_view(),
                        "/"@,
                    ) && p is None
                } else {
                    match discover_term_guid_seq(pages@[0]@.body, pages@[0]@.final_url) {
                        None => r matches Err(Step::Done(Err(e))) && e@ == term_error(),
                        Some(t) => r matches Ok((v, n)) && v@ == t && n == 1,
                    }
                },
            },
    {
        match term_guid {
            Some(t) => Ok((str_chars(t), 0)),
            None => {
                if pages.len() == 0 {
                    let url = self.request_url("/");
                    Err(Step::Fetch { url, payload: None })
                } else {
                    match discover_term_guid(pages[0].body.as_str(), pages[0].final_url.as_str()) {
                        Some(t) => Ok((str_chars(t.as_str()), 1)),
                        None => Err(
                            Step::Done(
                                Err("Could not find a tguid for the current VVZ semester.".to_owned()),
                            ),
                        ),
                    }
                }
            },
        }
    }

    /// The current semester: fetches the start page and finds its semester identifier.
    pub fn current_term_guid(&self, pages: &[Page]) -> (r: Step<String>)
        ensures
            step_matches(
                r,
                if pages@.len() == 0 {
                    Plan::Fetch(request_url_seq(self.base_view(), "/"@), None)
                } else {
                    match discover_term_guid_seq(pages@[0]@.body, pages@[0]@.final_url) {
                        None => Plan::Fail(term_error()),
                        Some(_) => Plan::Read(pages@[0]@),
                    }
                },
                |page: PageView, v: String| reads_term(page, v),
            ),
    {
        match self.resolve_term::<String>(None, pages) {
            Err(step) => step,
            Ok((t, _)) => Step::Done(Ok(chars_string(&t))),
        }
    }

    /// Searches the catalogue for `query` in a semester (the current one where none is
    /// given) and a language.
    pub fn search_events(&self, query: &str, term_guid: Option<&str>, lang: &str, pages: &[Page]) -> (r:
        Step<Vec<SearchResult>>)
        ensures
            step_matches(
                r,
                plan_with_term(
                    self.base_view(),
                    opt_str_view(term_guid),
                    page_views(pages@),
                    |t: Seq<char>|
                        (
                            request_url_seq(self.base_view(), "/campus/all/dispatcher.asp"@),
                            Some(search_payload_seq(query@, t, lang@)),
                        ),
                ),
                |page: PageView, v: Vec<SearchResult>| reads_results(page, v),
            ),
    {
        let (t, used) = match self.resolve_term(term_guid, pages) {
            Err(step) => {
                return step;
            },
            Ok(x) => x,
        };
        proof {
            if used == 1 {
                assert(page_views(pages@).drop_first() =~= page_views(pages@.skip(1)));
            } else {
                assert(page_views(pages@) =~= page_views(pages@.skip(0)));
            }
        }
        if pages.len() == used {
            let mut payload = str_chars("find=");
            append_chars(&mut payload, &url_encode_chars(&str_chars(query)));
            append_str(&mut payload, "&searchobject=event&tguid=");
            append_chars(&mut payload, &url_encode_chars(&t));
            append_str(&mut payload, "&lang=");
            append_chars(&mut payload, &url_encode_chars(&str_chars(lang)));
            append_str(&mut payload, "&searchButton=Suchen");
            let url = self.request_url("/campus/all/dispatcher.asp");
            return Step::Fetch { url, payload: Some(chars_string(&payload)) };
        }
        let page = &pages[used];
        assert(page_views(pages@.skip(used as int))[0] == pages@[used as int]@);
        Step::Done(Ok(parse_search_results(page.body.as_str(), page.final_url.as_str())))
    }

    /// The details of a course, by its `gguid` in a semester (the current one where none is
    /// given) or by the address of its page.
    pub fn event(&self, event_guid_or_url: &str, term_guid: Option<&str>, lang: &str, pages: &[Page]) -> (r:
        Step<EventDetail>)
        ensures
            step_matches(
                r,
                if is_absolute(event_guid_or_url@) {
                    plan_after(page_views(pages@), (event_guid_or_url@, None))
                } else {
                    plan_with_term(
                        self.base_view(),
                        opt_str_view(term_guid),
                        page_views(pages@),
                        |t: Seq<char>|
                            (
                                request_url_seq(
                                    self.base_view(),
                                    event_url_seq(event_guid_or_url@, t, lang@),
                                ),
                                None,
                            ),
                    )
                },
                |page: PageView, v: EventDetail| reads_detail(page, v),
            ),
    {
        let e = str_chars(event_guid_or_url);
        let mut used: usize = 0;
        let url: String;
        if is_absolute_exec(&e) {
            url = chars_string(&e);
            proof {
                assert(page_views(pages@) =~= page_views(pages@.skip(0)));
            }
        } else {
            let (t, n) = match self.resolve_term(term_guid, pages) {
                Err(step) => {
                    return step;
                },
                Ok(x) => x,
            };
            used = n;
            proof {
                if used == 1 {
                    assert(page_views(pages@).drop_first() =~= page_views(pages@.skip(1)));
                } else {
                    assert(page_views(pages@) =~= page_views(pages@.skip(0)));
                }
            }
            let tu = chars_string(&t);
            let path = event_url(event_guid_or_url, tu.as_str(), lang);
            url = self.request_url(path.as_str());
        }
        if pages.len() == used {
            return Step::Fetch { url, payload: None };
        }
        let page = &pages[used];
        assert(page_views(pages@.skip(used as int))[0] == pages@[used as int]@);
        Step::Done(Ok(parse_event_detail(page.body.as_str(), page.final_url.as_str())))
    }

    /// The courses of an area, by its `gguid` in a semester (the current one where none is
    /// given) or by the address of its event list.
    pub fn events(&self, field_guid_or_url: &str, term_guid: Option<&str>, lang: &str, pages: &[Page]) -> (r:
        Step<Vec<SearchResult>>)
        ensures
            step_matches(
                r,
                if is_absolute(field_guid_or_url@) {
                    plan_after(
                        page_views(pages@),
                        (request_url_seq(self.base_view(), field_guid_or_url@), None),
                    )
                } else {
                    plan_with_term(
                        self.base_view(),
                        opt_str_view(term_guid),
                        page_views(pages@),
                        |t: Seq<char>|
                            (
                                request_url_seq(
                                    self.base_view(),
                                    events_path_seq(field_guid_or_url@, t, lang@),
                                ),
                                None,
                            ),
                    )
                },
                |page: PageView, v: Vec<SearchResult>| reads_results(page, v),
            ),
    {
        let f = str_chars(field_guid_or_url);
        let mut used: usize = 0;
        let url: String;
        if is_absolute_exec(&f) {
            url = self.request_url(field_guid_or_url);
            proof {
                assert(page_views(pages@) =~= page_views(pages@.skip(0)));
            }
        } else {
            let (t, n) = match self.resolve_term(term_guid, pages) {
                Err(step) => {
                    return step;
                },
                Ok(x) => x,
            };
            used = n;
            proof {
                if used == 1 {
                    assert(page_views(pages@).drop_first() =~= page_views(pages@.skip(1)));
                } else {
                    assert(page_views(pages@) =~= page_views(pages@.skip(0)));
                }
            }
            let mut path = str_chars("/campus/all/eventlist.asp?gguid=");
            append_chars(&mut path, &url_encode_chars(&f));
            append_str(&mut path, "&mode=field&tguid=");
            append_chars(&mut path, &url_encode_chars(&t));
            append_str(&mut path, "&lang=");
            append_chars(&mut path, &url_encode_chars(&str_chars(lang)));
            let ps = chars_string(&path);
            url = self.request_url(ps.as_str());
        }
        if pages.len() == used {
            return Step::Fetch { url, payload: None };
        }
        let page = &pages[used];
        assert(page_views(pages@.skip(used as int))[0] == pages@[used as int]@);
        Step::Done(Ok(parse_search_results(page.body.as_str(), page.final_url.as_str())))
    }

    /// The areas and faculties of a semester (the current one where none is given).
    pub fn fields(&self, term_guid: Option<&str>, lang: &str, pages: &[Page]) -> (r: Step<Vec<Field>>)
        ensures
            step_matches(
                r,
                plan_with_term(
                    self.base_view(),
                    opt_str_view(term_guid),
                    page_views(pages@),
                    |t: Seq<char>|
                        (request_url_seq(self.base_view(), fields_path_seq(t, lang@)), None),
                ),
                |page: PageView, v: Vec<Field>| reads_fields(page, v),
            ),
    {
        let (t, used) = match self.resolve_term(term_guid, pages) {
            Err(step) => {
                return step;
            },
            Ok(x) => x,
        };
        proof {
            if used == 1 {
                assert(page_views(pages@).drop_first() =~= page_views(pages@.skip(1)));
            } else {
                assert(page_views(pages@) =~= page_views(pages@.skip(0)));
            }
        }
        if pages.len() == used {
            let mut path = str_chars("/campus/all/fields.asp?group=Vorlesungsverzeichnis&tguid=");
            append_chars(&mut path, &url_encode_chars(&t));
            append_str(&mut path, "&lang=");
            append_chars(&mut path, &url_encode_chars(&str_chars(lang)));
            let ps = chars_string(&path);
            let url = self.request_url(ps.as_str());
            return Step::Fetch { url, payload: None };
        }
        let page = &pages[used];
        assert(page_views(pages@.skip(used as int))[0] == pages@[used as int]@);
        Step::Done(Ok(parse_fields(page.body.as_str(), page.final_url.as_str())))
    }
}

// ---------------------------------------------------------------------------
// Requests and responses.
// ---------------------------------------------------------------------------

/// The marker that `curl` prints between the body and the final address.
pub open spec fn marker_seq() -> Seq<char> {
    EFFECTIVE_URL_MARKER@
}

/// `n` occurs in `h` at index `i`.
pub open spec fn bytes_match_at(h: Seq<u8>, i: int, n: Seq<u8>) -> bool {
    0 <= i && i + n.len() <= h.len() && h.subrange(i, i + n.len()) == n
}

/// The greatest index below `end` where `n` occurs in `h`.
pub open spec fn last_match_before(h: Seq<u8>, n: Seq<u8>, end: int) -> Option<int>
    decreases end,
{
    if end <= 0 {
        None
    } else if bytes_match_at(h, end - 1, n) {
        Some(end - 1)
    } else {
        last_match_before(h, n, end - 1)
    }
}

/// The last index where `n` occurs in `h`.
pub open spec fn last_match(h: Seq<u8>, n: Seq<u8>) -> Option<int> {
    last_match_before(h, n, h.len() - n.len() + 1)
}

proof fn lemma_last_match_before(h: Seq<u8>, n: Seq<u8>, end: int)
    ensures
        last_match_before(h, n, end) matches Some(i) ==> bytes_match_at(h, i, n),
    decreases end,
{
    if end > 0 && !bytes_match_at(h, end - 1, n) {
        lemma_last_match_before(h, n, end - 1);
    }
}

fn bytes_match_at_exec(h: &[u8], i: usize, n: &[u8]) -> (r: bool)
    ensures
        r == bytes_match_at(h@, i as int, n@),
{
    if i > h.len() || n.len() > h.len() - i {
        return false;
    }
    let mut j: usize = 0;
    while j < n.len()
        invariant
            i + n.len() <= h.len(),
            j <= n.len(),
            h@.subrange(i as int, i + j) == n@.take(j as int),
        decreases n.len() - j,
    {
        if h[i + j] != n[j] {
            assert(h@.subrange(i as int, i + n.len())[j as int] != n@[j as int]);
            return false;
        }
        assert(h@.subrange(i as int, i + j + 1) =~= h@.subrange(i as int, i + j).push(h@[i + j]));
        assert(n@.take(j + 1) =~= n@.take(j as int).push(n@[j as int]));
        j = j + 1;
    }
    assert(n@.take(n.len() as int) =~= n@);
    true
}

/// The last index where `needle` occurs in `haystack`.
pub fn find_last_marker(haystack: &[u8], needle: &[u8]) -> (r: Option<usize>)
    requires
        needle@.len() > 0,
    ensures
        r matches Some(i) ==> last_match(haystack@, needle@) == Some(i as int),
        r is None ==> last_match(haystack@, needle@) is None,
{
    if needle.len() > haystack.len() {
        assert(last_match(haystack@, needle@) is None);
        return None;
    }
    let mut end: usize = haystack.len() - needle.len() + 1;
    while end > 0
        invariant
            end <= haystack.len() - needle.len() + 1,
            needle.len() <= haystack.len(),
            last_match(haystack@, needle@) == last_match_before(haystack@, needle@, end as int),
        decreases end,
    {
        if bytes_match_at_exec(haystack, end - 1, needle) {
            return Some(end - 1);
        }
        end = end - 1;
    }
    None
}

/// A byte read as Windows-1252: the bytes 0x80 to 0x9F that the code page assigns become
/// their characters, every other byte the character of the same number.
pub open spec fn cp1252_char(b: u8) -> char {
    if b == 0x80 {
        '\u{20AC}'
    } else if b == 0x82 {
        '\u{201A}'
    } else if b == 0x83 {
        '\u{0192}'
    } else if b == 0x84 {
        '\u{201E}'
    } else if b == 0x85 {
        '\u{2026}'
    } else if b == 0x86 {
        '\u{2020}'
    } else if b == 0x87 {
        '\u{2021}'
    } else if b == 0x88 {
        '\u{02C6}'
    } else if b == 0x89 {
        '\u{2030}'
    } else if b == 0x8A {
        '\u{0160}'
    } else if b == 0x8B {
        '\u{2039}'
    } else if b == 0x8C {
        '\u{0152}'
    } else if b == 0x8E {
        '\u{017D}'
    } else if b == 0x91 {
        '\u{2018}'
    } else if b == 0x92 {
        '\u{2019}'
    } else if b == 0x93 {
        '\u{201C}'
    } else if b == 0x94 {
        '\u{201D}'
    } else if b == 0x95 {
        '\u{2022}'
    } else if b == 0x96 {
        '\u{2013}'
    } else if b == 0x97 {
        '\u{2014}'
    } else if b == 0x98 {
        '\u{02DC}'
    } else if b == 0x99 {
        '\u{2122}'
    } else if b == 0x9A {
        '\u{0161}'
    } else if b == 0x9B {
        '\u{203A}'
    } else if b == 0x9C {
        '\u{0153}'
    } else if b == 0x9E {
        '\u{017E}'
    } else if b == 0x9F {
        '\u{0178}'
    } else {
        b as char
    }
}

fn cp1252_char_exec(b: u8) -> (c: char)
    ensures
        c == cp1252_char(b),
{
    if b == 0x80 {
        '\u{20AC}'
    } else if b == 0x82 {
        '\u{201A}'
    } else if b == 0x83 {
        '\u{0192}'
    } else if b == 0x84 {
        '\u{201E}'
    } else if b == 0x85 {
        '\u{2026}'
    } else if b == 0x86 {
        '\u{2020}'
    } else if b == 0x87 {
        '\u{2021}'
    } else if b == 0x88 {
        '\u{02C6}'
    } else if b == 0x89 {
        '\u{2030}'
    } else if b == 0x8A {
        '\u{0160}'
    } else if b == 0x8B {
        '\u{2039}'
    } else if b == 0x8C {
        '\u{0152}'
    } else if b == 0x8E {
        '\u{017D}'
    } else if b == 0x91 {
        '\u{2018}'
    } else if b == 0x92 {
        '\u{2019}'
    } else if b == 0x93 {
        '\u{201C}'
    } else if b == 0x94 {
        '\u{201D}'
    } else if b == 0x95 {
        '\u{2022}'
    } else if b == 0x96 {
        '\u{2013}'
    } else if b == 0x97 {
        '\u{2014}'
    } else if b == 0x98 {
        '\u{02DC}'
    } else if b == 0x99 {
        '\u{2122}'
    } else if b == 0x9A {
        '\u{0161}'
    } else if b == 0x9B {
        '\u{203A}'
    } else if b == 0x9C {
        '\u{0153}'
    } else if b == 0x9E {
        '\u{017E}'
    } else if b == 0x9F {
        '\u{0178}'
    } else {
        b as char
    }
}

/// The text of a response body: its UTF-8 decoding where it is valid UTF-8, else each
/// byte read as Windows-1252.
pub open spec fn decode_text_seq(b: Seq<u8>) -> Seq<char> {
    if valid_utf8(b) {
        decode_utf8(b)
    } else {
        Seq::new(b.len(), |i: int| cp1252_char(b[i]))
    }
}

/// Calls `String::from_utf8`. Claimed: it succeeds exactly on valid UTF-8, and then gives
/// the decoded characters.
#[verifier::external_body]
fn string_from_utf8(b: &[u8]) -> (r: Option<String>)
    ensures
        r is Some <==> valid_utf8(b@),
        r matches Some(s) ==> s@ == decode_utf8(b@),
{
    String::from_utf8(b.to_vec()).ok()
}

/// The text of a response body.
pub fn decode_text(bytes: &[u8]) -> (r: String)
    ensures
        r@ == decode_text_seq(bytes@),
{
    match string_from_utf8(bytes) {
        Some(s) => s,
        None => {
            let mut out = String::new();
            let mut i: usize = 0;
            while i < bytes.len()
                invariant
                    i <= bytes.len(),
                    out@ =~= Seq::new(i as nat, |k: int| cp1252_char(bytes@[k])),
                decreases bytes.len() - i,
            {
                push_char(&mut out, cp1252_char_exec(bytes[i]));
                i = i + 1;
            }
            out
        },
    }
}

/// The page that `curl` printed for a request of `url`: where its output ends with the
/// marker, the body is what comes before the last marker and the final address what comes
/// after it, trimmed; otherwise the whole output is the body of `url`.
pub open spec fn read_response_seq(url: Seq<char>, out: Seq<u8>) -> PageView {
    let marker = vstd::utf8::encode_utf8(marker_seq());
    match last_match(out, marker) {
        None => PageView { final_url: url, body: decode_text_seq(out) },
        Some(i) => PageView {
            final_url: trim_seq(lossy_text(out.skip(i + marker.len()))),
            body: decode_text_seq(out.take(i)),
        },
    }
}

/// Reads the output of `curl` for a request of `url`.
pub fn read_response(url: &str, stdout: &[u8]) -> (p: Page)
    ensures
        p@ == read_response_seq(url@, stdout@),
{
    let marker = EFFECTIVE_URL_MARKER.as_bytes();
    proof {
        reveal_strlit("\n__RUB_VVZ_EFFECTIVE_URL__:");
        assert(marker_seq().len() > 0);
        assert(marker@.len() > 0);
    }
    match find_last_marker(stdout, marker) {
        None => Page { final_url: url.to_owned(), body: decode_text(stdout) },
        Some(i) => {
            proof {
                lemma_last_match_before(stdout@, marker@, stdout@.len() - marker@.len() + 1);
                assert(i + marker@.len() <= stdout@.len());
                assert(stdout@.len() == stdout.len());
            }
            let head = slice_bytes(stdout, 0, i);
            let tail = slice_bytes(stdout, i + marker.len(), stdout.len());
            assert(head@ =~= stdout@.take(i as int));
            assert(tail@ =~= stdout@.skip(i + marker@.len()));
            let body = decode_text(&head);
            let rest = utf8_lossy_string(&tail);
            let rc = str_chars(rest.as_str());
            let t = trim(&rc);
            Page { final_url: chars_string(&t), body }
        },
    }
}

fn slice_bytes(b: &[u8], from: usize, to: usize) -> (r: Vec<u8>)
    requires
        from <= to <= b@.len(),
    ensures
        r@ == b@.subrange(from as int, to as int),
{
    let mut r: Vec<u8> = Vec::new();
    let mut i = from;
    while i < to
        invariant
            from <= i <= to <= b@.len(),
            r@ == b@.subrange(from as int, i as int),
        decreases to - i,
    {
        r.push(b[i]);
        assert(b@.subrange(from as int, i + 1) =~= b@.subrange(from as int, i as int).push(b@[i as int]));
        i = i + 1;
    }
    r
}

/// The message of a failed request: the address and what `curl` reported, trimmed.
pub open spec fn failure_message_seq(url: Seq<char>, stderr: Seq<u8>) -> Seq<char> {
    "HTTP request failed for "@ + url + ": "@ + trim_seq(lossy_text(stderr))
}

/// The message of a failed request.
pub fn failure_message(url: &str, stderr: &[u8]) -> (r: String)
    ensures
        r@ == failure_message_seq(url@, stderr@),
{
    let mut out = str_chars("HTTP request failed for ");
    append_str(&mut out, url);
    append_str(&mut out, ": ");
    let e = utf8_lossy_string(stderr);
    let ec = str_chars(e.as_str());
    let t = trim(&ec);
    append_chars(&mut out, &t);
    chars_string(&out)
}

/// The arguments of `curl` for a request: follow redirects, fail on HTTP errors, time out,
/// print the final address after the marker, and send `payload` as a form where there is
/// one.
pub open spec fn curl_args_seq(timeout: u64, url: Seq<char>, payload: Option<Seq<char>>) -> Seq<Seq<char>> {
    let common = seq![
        "--http1.1"@,
        "-L"@,
        "-sS"@,
        "--fail"@,
        "--max-time"@,
        decimal(timeout as nat),
        "-A"@,
        "rub-vvz-cli/0.1"@,
        "-w"@,
        marker_seq() + "%{url_effective}"@,
    ];
    let form = match payload {
        Some(p) => seq!["-H"@, "Content-Type: application/x-www-form-urlencoded"@, "--data"@, p],
        None => Seq::empty(),
    };
    common + form + seq![url]
}

fn push_str_arg(args: &mut Vec<String>, s: &str)
    ensures
        final(args)@.map_values(|a: String| a@) == old(args)@.map_values(|a: String| a@).push(s@),
{
    let ghost before = args@;
    args.push(s.to_owned());
    assert(args@.map_values(|a: String| a@) =~= before.map_values(|a: String| a@).push(s@));
}

impl VvzClient {
    /// The arguments of `curl` for a request of `url`.
    pub fn curl_args(&self, url: &str, payload: Option<&str>) -> (r: Vec<String>)
        ensures
            r@.map_values(|a: String| a@) == curl_args_seq(
                self.timeout_view(),
                url@,
                opt_str_view(payload),
            ),
    {
        let mut args: Vec<String> = Vec::new();
        push_str_arg(&mut args, "--http1.1");
        push_str_arg(&mut args, "-L");
        push_str_arg(&mut args, "-sS");
        push_str_arg(&mut args, "--fail");
        push_str_arg(&mut args, "--max-time");
        let t = chars_string(&decimal_exec(self.timeout_secs));
        push_str_arg(&mut args, t.as_str());
        push_str_arg(&mut args, "-A");
        push_str_arg(&mut args, "rub-vvz-cli/0.1");
        push_str_arg(&mut args, "-w");
        let mut w = str_chars(EFFECTIVE_URL_MARKER);
        append_str(&mut w, "%{url_effective}");
        let ws = chars_string(&w);
        push_str_arg(&mut args, ws.as_str());
        match payload {
            Some(p) => {
                push_str_arg(&mut args, "-H");
                push_str_arg(&mut args, "Content-Type: application/x-www-form-urlencoded");
                push_str_arg(&mut args, "--data");
                push_str_arg(&mut args, p);
            },
            None => {},
        }
        push_str_arg(&mut args, url);
        assert(args@.map_values(|a: String| a@) =~= curl_args_seq(
            self.timeout_secs,
            url@,
            opt_str_view(payload),
        ));
        args
    }
}

} // verus!
