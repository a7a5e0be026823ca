//! The command line: reading the arguments, deciding what to do, and rendering
//! what the catalogue answered.
use vstd::prelude::*;
use crate::markup::views;
use crate::models::{field_views, result_views, EventDetail, EventDetailView, Field, FieldView, SearchResult, SearchResultView};
use crate::render::{
    event_detail_json, event_detail_json_seq, event_detail_text, event_detail_text_seq,
    fields_json, fields_json_seq, fields_text, fields_text_seq, search_results_json,
    search_results_json_seq, search_results_text, search_results_text_seq, ResultListKind,
};
use crate::client::opt_str_view;
use crate::text::{append_chars, append_str, chars_eq, chars_string, copy_range, matches_at, starts_with_str, str_chars};

verus! {

pub const ROOT_HELP: &'static str = "Usage: rub-vvz [--timeout SECONDS] COMMAND [ARGS]...\n\nCLI for Ruhr-Universitaet Bochum's public course catalogue.\n\nCommands:\n  search      Search public courses\n  event       Show course details\n  events      List courses in a VVZ area\n  fields      List VVZ areas and faculties\n  help        Show help, optionally for a command\n\nGlobal Options:\n  --timeout SECONDS   HTTP timeout, default: 20\n  -h, --help          Show help\n\nOutput:\n  Text output explains gguid, tguid, and the next useful command.\n  Use --json for stable machine-readable output without explanations.\n\nExamples:\n  rub-vvz search \"Software Engineering\" --limit 5\n  rub-vvz event 0xEVENT --term-guid 0xTERM\n  rub-vvz help search\n";

pub const SEARCH_HELP: &'static str = "Usage: rub-vvz search <query> [OPTIONS]\n\nSearches public VVZ courses by title, lecturer, or course number.\n\nOptions:\n  --json                Print a JSON array instead of explained text\n  --limit N             Result limit, default: 20\n  --term-guid TGUID     Set the semester explicitly\n  --lang LANG           VVZ language, default: de\n  -h, --help            Show help for search\n\nOutput:\n  Text: numbered results with title, gguid, tguid, summary, and URL.\n  JSON: array with title, url, event_guid, term_guid, and summary.\n  Next step: rub-vvz event <gguid> --term-guid <tguid>\n\nExamples:\n  rub-vvz search \"Software Engineering\" --limit 5\n  rub-vvz search \"Software Engineering\" --json\n";

pub const EVENT_HELP: &'static str = "Usage: rub-vvz event <gguid|url> [OPTIONS]\n\nShows details for a public VVZ course. The argument can be a raw gguid\nor a complete event.asp URL.\n\nOptions:\n  --json                Print a JSON object instead of explained text\n  --term-guid TGUID     Set the semester, important for raw gguid values\n  --lang LANG           VVZ language, default: de\n  -h, --help            Show help for event\n\nOutput:\n  Text: title, identifiers, CampusOffice fields, table sections, and description.\n  JSON: object with title, url, event_guid, term_guid, fields, sections, and description.\n\nExamples:\n  rub-vvz event 0xEVENT --term-guid 0xTERM\n  rub-vvz event \"https://vvz.ruhr-uni-bochum.de/campus/all/event.asp?...\" --json\n";

pub const EVENTS_HELP: &'static str = "Usage: rub-vvz events <field-gguid|url> [OPTIONS]\n\nLists public courses in a VVZ area or faculty.\n\nOptions:\n  --json                Print a JSON array instead of explained text\n  --limit N             Result limit, default: 100\n  --term-guid TGUID     Set the semester explicitly\n  --lang LANG           VVZ language, default: de\n  -h, --help            Show help for events\n\nOutput:\n  Text: numbered courses with title, gguid, tguid, summary, and URL.\n  JSON: array with title, url, event_guid, term_guid, and summary.\n  Next step: rub-vvz event <gguid> --term-guid <tguid>\n\nExamples:\n  rub-vvz events 0xFIELD --term-guid 0xTERM --limit 10\n  rub-vvz events \"https://vvz.ruhr-uni-bochum.de/campus/all/eventlist.asp?...\" --json\n";

pub const FIELDS_HELP: &'static str = "Usage: rub-vvz fields [OPTIONS]\n\nLists top-level VVZ areas and faculties for the selected semester.\n\nOptions:\n  --json                Print a JSON array instead of explained text\n  --term-guid TGUID     Set the semester explicitly\n  --lang LANG           VVZ language, default: de\n  -h, --help            Show help for fields\n\nOutput:\n  Text: area names with field, gguid, tguid, and URL.\n  JSON: array with name, url, value, guid, and term_guid.\n  Next step: rub-vvz events <gguid> --term-guid <tguid>\n\nExamples:\n  rub-vvz fields\n  rub-vvz fields --json\n";

pub const HELP_HELP: &'static str = "Usage: rub-vvz help [COMMAND]\n\nShows root help or help for search, event, events, or fields.\n\nExamples:\n  rub-vvz help\n  rub-vvz help search\n";

/// A list answer of a client, as text: the items' views, or the error message.
pub open spec fn list_answer<T: View>(r: Result<Vec<T>, String>) -> Result<Seq<T::V>, Seq<char>> {
    match r {
        Ok(v) => Ok(v@.map_values(|x: T| x@)),
        Err(e) => Err(e@),
    }
}

/// A course answer of a client, as text.
pub open spec fn detail_answer(r: Result<EventDetail, String>) -> Result<EventDetailView, Seq<char>> {
    match r {
        Ok(d) => Ok(d@),
        Err(e) => Err(e@),
    }
}

/// The catalogue as the command line uses it. The program implements it over HTTP; a test
/// can implement it with canned answers.
///
/// The four `answers_*` predicates say which answers a client gives to which questions, and
/// each method's answer satisfies the predicate for the arguments it was given. As declared
/// here they admit every answer; a verified implementation narrows them to its own. Code
/// that is generic over the client knows nothing of them, so what it proves of an answer
/// ties that answer to the very question the client was asked.
pub trait CliClient {
    /// `r` is an answer this client gives to a search for `query` in semester `term` and
    /// language `lang`.
    closed spec fn answers_search(
        &self,
        query: Seq<char>,
        term: Option<Seq<char>>,
        lang: Seq<char>,
        r: Result<Seq<SearchResultView>, Seq<char>>,
    ) -> bool {
        true
    }

    /// `r` is an answer this client gives to a question for the details of `event`.
    closed spec fn answers_event(
        &self,
        event: Seq<char>,
        term: Option<Seq<char>>,
        lang: Seq<char>,
        r: Result<EventDetailView, Seq<char>>,
    ) -> bool {
        true
    }

    /// `r` is an answer this client gives to a question for the courses of area `field`.
    closed spec fn answers_events(
        &self,
        field: Seq<char>,
        term: Option<Seq<char>>,
        lang: Seq<char>,
        r: Result<Seq<SearchResultView>, Seq<char>>,
    ) -> bool {
        true
    }

    /// `r` is an answer this client gives to a question for the areas.
    closed spec fn answers_fields(
        &self,
        term: Option<Seq<char>>,
        lang: Seq<char>,
        r: Result<Seq<FieldView>, Seq<char>>,
    ) -> bool {
        true
    }

    /// Searches the catalogue.
    fn search_events(&self, query: &str, term_guid: Option<&str>, lang: &str) -> (r: Result<
        Vec<SearchResult>,
        String,
    >)
        ensures
            self.answers_search(query@, opt_str_view(term_guid), lang@, list_answer(r)),
    ;

    /// The details of a course, by `gguid` or address.
    fn event(&self, event: &str, term_guid: Option<&str>, lang: &str) -> (r: Result<
        EventDetail,
        String,
    >)
        ensures
            self.answers_event(event@, opt_str_view(term_guid), lang@, detail_answer(r)),
    ;

    /// The courses of an area, by `gguid` or address.
    fn events(&self, field: &str, term_guid: Option<&str>, lang: &str) -> (r: Result<
        Vec<SearchResult>,
        String,
    >)
        ensures
            self.answers_events(field@, opt_str_view(term_guid), lang@, list_answer(r)),
    ;

    /// The areas and faculties.
    fn fields(&self, term_guid: Option<&str>, lang: &str) -> (r: Result<Vec<Field>, String>)
        ensures
            self.answers_fields(opt_str_view(term_guid), lang@, list_answer(r)),
    ;
}

// ---------------------------------------------------------------------------
// Words of the command line.
// ---------------------------------------------------------------------------

/// The texts of the arguments.
pub open spec fn arg_views(a: Seq<&str>) -> Seq<Seq<char>> {
    a.map_values(|s: &str| s@)
}

/// One of the commands that ask the catalogue.
pub open spec fn is_command_seq(v: Seq<char>) -> bool {
    v == "search"@ || v == "event"@ || v == "events"@ || v == "fields"@
}

/// `-h` or `--help`.
pub open spec fn is_help_flag_seq(v: Seq<char>) -> bool {
    v == "-h"@ || v == "--help"@
}

/// Some argument is a help flag.
pub open spec fn any_help_flag(a: Seq<Seq<char>>) -> bool {
    exists|k: int| 0 <= k < a.len() && is_help_flag_seq(#[trigger] a[k])
}

fn eq_lit(v: &[char], lit: &str) -> (r: bool)
    ensures
        r == (v@ == lit@),
{
    let l = str_chars(lit);
    chars_eq(v, &l)
}

/// Whether an argument is one of the commands that ask the catalogue.
fn is_command(v: &[char]) -> (r: bool)
    ensures
        r == is_command_seq(v@),
{
    eq_lit(v, "search") || eq_lit(v, "event") || eq_lit(v, "events") || eq_lit(v, "fields")
}

/// Whether an argument is `-h` or `--help`.
fn is_help_flag(v: &[char]) -> (r: bool)
    ensures
        r == is_help_flag_seq(v@),
{
    eq_lit(v, "-h") || eq_lit(v, "--help")
}

/// Whether some argument from index `from` on is a help flag.
fn has_help_flag(a: &Vec<Vec<char>>, from: usize) -> (r: bool)
    requires
        from <= a.len(),
    ensures
        r == any_help_flag(views(a@).skip(from as int)),
{
    let ghost s = views(a@).skip(from as int);
    let mut i: usize = from;
    while i < a.len()
        invariant
            from <= i <= a.len(),
            s == views(a@).skip(from as int),
            forall|k: int| 0 <= k < i - from ==> !is_help_flag_seq(#[trigger] s[k]),
        decreases a.len() - i,
    {
        assert(s[i - from] == a@[i as int]@);
        if is_help_flag(&a[i]) {
            assert(is_help_flag_seq(s[i - from]));
            return true;
        }
        i = i + 1;
    }
    false
}

/// The index of the first element of `a` that satisfies `p`.
pub open spec fn first_index(a: Seq<Seq<char>>, p: spec_fn(Seq<char>) -> bool) -> Option<int>
    decreases a.len(),
{
    if a.len() == 0 {
        None
    } else if p(a[0]) {
        Some(0)
    } else {
        match first_index(a.drop_first(), p) {
            Some(i) => Some(i + 1),
            None => None,
        }
    }
}

proof fn lemma_first_index(a: Seq<Seq<char>>, p: spec_fn(Seq<char>) -> bool, i: int)
    requires
        0 <= i <= a.len(),
        forall|k: int| 0 <= k < i ==> !p(#[trigger] a[k]),
    ensures
        i < a.len() && p(a[i]) ==> first_index(a, p) == Some(i),
        i == a.len() ==> first_index(a, p) is None,
    decreases i,
{
    if i > 0 {
        assert forall|k: int| 0 <= k < i - 1 implies !p(#[trigger] a.drop_first()[k]) by {
            assert(a.drop_first()[k] == a[k + 1]);
        }
        if i < a.len() {
            assert(a.drop_first()[i - 1] == a[i]);
        }
        lemma_first_index(a.drop_first(), p, i - 1);
    }
}

proof fn lemma_first_index_found(a: Seq<Seq<char>>, p: spec_fn(Seq<char>) -> bool)
    ensures
        first_index(a, p) matches Some(i) ==> 0 <= i < a.len() && p(a[i]),
    decreases a.len(),
{
    if a.len() > 0 && !p(a[0]) {
        lemma_first_index_found(a.drop_first(), p);
    }
}

// ---------------------------------------------------------------------------
// Numbers.
// ---------------------------------------------------------------------------

/// All characters are ASCII digits.
pub open spec fn all_digits(d: Seq<char>) -> bool {
    forall|k: int| 0 <= k < d.len() ==> crate::text::is_ascii_digit(#[trigger] d[k])
}

/// The value of a sequence of decimal digits.
pub open spec fn digits_value(d: Seq<char>) -> nat
    decreases d.len(),
{
    if d.len() == 0 {
        0
    } else {
        digits_value(d.drop_last()) * 10 + ((d.last() as u32) - 0x30) as nat
    }
}

/// A number as `str::parse` reads it for an unsigned type of maximum `max`: ASCII digits
/// after an optional `+`, at least one, with a value of at most `max`.
pub open spec fn parse_decimal_seq(s: Seq<char>, max: nat) -> Option<nat> {
    let digits = if s.len() > 0 && s[0] == '+' {
        s.skip(1)
    } else {
        s
    };
    if digits.len() == 0 || !all_digits(digits) || digits_value(digits) > max {
        None
    } else {
        Some(digits_value(digits))
    }
}

proof fn lemma_digits_value_grows(d: Seq<char>, i: int)
    requires
        0 <= i <= d.len(),
        all_digits(d),
    ensures
        digits_value(d.take(i)) <= digits_value(d),
    decreases d.len() - i,
{
    if i < d.len() {
        lemma_digits_value_grows(d, i + 1);
        assert(d.take(i + 1).drop_last() =~= d.take(i));
        assert(crate::text::is_ascii_digit(d[i]));
    } else {
        assert(d.take(i) =~= d);
    }
}

/// A number as `str::parse` reads it for an unsigned type of maximum `max`.
pub fn parse_decimal(s: &[char], max: u64) -> (r: Option<u64>)
    ensures
        r matches Some(n) ==> parse_decimal_seq(s@, max as nat) == Some(n as nat),
        r is None ==> parse_decimal_seq(s@, max as nat) is None,
{
    let start: usize = if s.len() > 0 && s[0] == '+' {
        1
    } else {
        0
    };
    let ghost digits = s@.skip(start as int);
    proof {
        if start == 0 {
            assert(digits =~= s@);
        }
    }
    if s.len() == start {
        return None;
    }
    let mut value: u64 = 0;
    let mut i: usize = start;
    while i < s.len()
        invariant
            start <= i <= s.len(),
            digits == s@.skip(start as int),
            digits == (if s@.len() > 0 && s@[0] == '+' {
                s@.skip(1)
            } else {
                s@
            }),
            forall|k: int| 0 <= k < i - start ==> crate::text::is_ascii_digit(#[trigger] digits[k]),
            value as nat == digits_value(digits.take(i - start)),
            value <= max,
        decreases s.len() - i,
    {
        let c = s[i];
        assert(digits[i - start] == c);
        if !(c >= '0' && c <= '9') {
            assert(!all_digits(digits));
            return None;
        }
        let d: u64 = ((c as u32) - 0x30) as u64;
        assert(digits.take(i + 1 - start).drop_last() =~= digits.take(i - start));
        if d > max {
            proof {
                if all_digits(digits) {
                    lemma_digits_value_grows(digits, i + 1 - start);
                }
            }
            return None;
        }
        if value > (max - d) / 10 {
            proof {
                assert(value * 10 + d > max) by (nonlinear_arith)
                    requires
                        value > (max - d) / 10,
                        d <= max,
                ;
                if all_digits(digits) {
                    lemma_digits_value_grows(digits, i + 1 - start);
                }
            }
            return None;
        }
        assert(value * 10 + d <= max) by (nonlinear_arith)
            requires
                value <= (max - d) / 10,
                d <= max,
        ;
        value = value * 10 + d;
        i = i + 1;
    }
    assert(digits.take(s.len() - start) =~= digits);
    Some(value)
}

/// The limit of `--limit`: a positive number.
pub open spec fn parse_limit_seq(v: Seq<char>) -> Result<usize, Seq<char>> {
    match parse_decimal_seq(v, usize::MAX as nat) {
        Some(n) => if n > 0 {
            Ok(n as usize)
        } else {
            Err("--limit requires a positive number, got: "@ + v)
        },
        None => Err("--limit requires a positive number, got: "@ + v),
    }
}

/// The limit of `--limit`: a positive number.
fn parse_limit(v: &[char]) -> (r: Result<usize, Vec<char>>)
    ensures
        match parse_limit_seq(v@) {
            Ok(n) => r matches Ok(m) && m == n,
            Err(e) => r matches Err(x) && x@ == e,
        },
{
    match parse_decimal(v, usize::MAX as u64) {
        Some(n) => {
            if n > 0 {
                return Ok(n as usize);
            }
        },
        None => {},
    }
    let mut e = str_chars("--limit requires a positive number, got: ");
    append_chars(&mut e, v);
    Err(e)
}

/// The timeout given by `--timeout=N`, or else by `--timeout N`: the first argument of the
/// first form decides; where its number does not read, the first `--timeout` followed by an
/// argument decides.
pub open spec fn global_timeout_seq(a: Seq<Seq<char>>) -> Option<u64> {
    let eq_form = match first_index(a, |x: Seq<char>| matches_at(x, 0, "--timeout="@)) {
        Some(i) => match parse_decimal_seq(a[i].skip(10), u64::MAX as nat) {
            Some(n) => Some(n as u64),
            None => None,
        },
        None => None,
    };
    match eq_form {
        Some(n) => Some(n),
        None => match (if a.len() > 0 {
            first_index(a.drop_last(), |x: Seq<char>| x == "--timeout"@)
        } else {
            None
        }) {
            Some(i) => match parse_decimal_seq(a[i + 1], u64::MAX as nat) {
                Some(n) => Some(n as u64),
                None => None,
            },
            None => None,
        },
    }
}

/// The HTTP timeout in seconds that the arguments give, if any.
pub fn parse_global_timeout(args: &[String]) -> (r: Option<u64>)
    ensures
        r == global_timeout_seq(args@.map_values(|s: String| s@)),
{
    let ghost a = args@.map_values(|s: String| s@);
    proof {
        reveal_strlit("--timeout=");
    }
    let mut i: usize = 0;
    while i < args.len()
        invariant
            i <= args.len(),
            a == args@.map_values(|s: String| s@),
            forall|k: int| 0 <= k < i ==> !matches_at(#[trigger] a[k], 0, "--timeout="@),
        ensures
            i <= args.len(),
            forall|k: int| 0 <= k < i ==> !matches_at(#[trigger] a[k], 0, "--timeout="@),
            i < args.len() ==> matches_at(a[i as int], 0, "--timeout="@),
        decreases args.len() - i,
    {
        let c = str_chars(args[i].as_str());
        assert(c@ == a[i as int]);
        if starts_with_str(&c, "--timeout=") {
            break;
        }
        i = i + 1;
    }
    proof {
        lemma_first_index(a, |x: Seq<char>| matches_at(x, 0, "--timeout="@), i as int);
    }
    if i < args.len() {
        let c = str_chars(args[i].as_str());
        assert(c@ == a[i as int]);
        let v = copy_range(&c, 10, c.len());
        assert(v@ =~= a[i as int].skip(10));
        match parse_decimal(&v, u64::MAX) {
            Some(n) => {
                return Some(n);
            },
            None => {},
        }
    }
    if args.len() < 2 {
        proof {
            if a.len() > 0 {
                lemma_first_index(a.drop_last(), |x: Seq<char>| x == "--timeout"@, 0);
            }
        }
        return None;
    }
    let ghost b = a.drop_last();
    let mut j: usize = 0;
    while j + 1 < args.len()
        invariant
            j + 1 <= args.len(),
            a == args@.map_values(|s: String| s@),
            b == a.drop_last(),
            forall|k: int| 0 <= k < j ==> !(#[trigger] b[k] == "--timeout"@),
        ensures
            j + 1 <= args.len(),
            forall|k: int| 0 <= k < j ==> !(#[trigger] b[k] == "--timeout"@),
            j + 1 < args.len() ==> b[j as int] == "--timeout"@,
        decreases args.len() - j,
    {
        let c = str_chars(args[j].as_str());
        assert(c@ == b[j as int]);
        if eq_lit(&c, "--timeout") {
            break;
        }
        j = j + 1;
    }
    proof {
        lemma_first_index(b, |x: Seq<char>| x == "--timeout"@, j as int);
    }
    if j + 1 < args.len() {
        let c = str_chars(args[j + 1].as_str());
        assert(c@ == a[j + 1]);
        parse_decimal(&c, u64::MAX)
    } else {
        None
    }
}

/// The HTTP timeout in seconds for a command line: the one the arguments give, or 20.
pub fn global_timeout(args: &[String]) -> (r: u64)
    ensures
        r == match global_timeout_seq(args@.map_values(|s: String| s@)) {
            Some(n) => n,
            None => 20,
        },
{
    match parse_global_timeout(args) {
        Some(n) => n,
        None => 20,
    }
}

// ---------------------------------------------------------------------------
// Options.
// ---------------------------------------------------------------------------

/// The options of a command.
#[derive(Debug)]
pub struct Options {
    pub json: bool,
    pub lang: String,
    pub term_guid: Option<String>,
    pub limit: Option<usize>,
    pub positionals: Vec<String>,
}

/// The options of a command, as text.
pub struct OptionsView {
    pub json: bool,
    pub lang: Seq<char>,
    pub term_guid: Option<Seq<char>>,
    pub limit: Option<usize>,
    pub positionals: Seq<Seq<char>>,
}

impl View for Options {
    type V = OptionsView;

    open spec fn view(&self) -> OptionsView {
        OptionsView {
            json: self.json,
            lang: self.lang@,
            term_guid: crate::models::opt_view(self.term_guid),
            limit: self.limit,
            positionals: self.positionals@.map_values(|p: String| p@),
        }
    }
}

/// The options before any argument: text output, language `de`, no semester, no limit.
pub open spec fn default_options() -> OptionsView {
    OptionsView {
        json: false,
        lang: "de"@,
        term_guid: None,
        limit: None,
        positionals: Seq::empty(),
    }
}

/// The options after the arguments from index `i` on, starting from `o`: `--json`;
/// `--lang`, `--term-guid` and `--limit` with their value after `=` or as the next
/// argument; any other argument starting with `-` is refused; the rest are positionals.
pub open spec fn parse_options_from(a: Seq<Seq<char>>, i: int, o: OptionsView) -> Result<
    OptionsView,
    Seq<char>,
>
    decreases a.len() - i,
{
    if i < 0 || i >= a.len() {
        Ok(o)
    } else {
        let v = a[i];
        if v == "--json"@ {
            parse_options_from(a, i + 1, OptionsView { json: true, ..o })
        } else if matches_at(v, 0, "--lang="@) {
            parse_options_from(a, i + 1, OptionsView { lang: v.skip(7), ..o })
        } else if v == "--lang"@ {
            if i + 1 < a.len() {
                parse_options_from(a, i + 2, OptionsView { lang: a[i + 1], ..o })
            } else {
                Err("--lang requires a value."@)
            }
        } else if matches_at(v, 0, "--term-guid="@) {
            parse_options_from(a, i + 1, OptionsView { term_guid: Some(v.skip(12)), ..o })
        } else if v == "--term-guid"@ {
            if i + 1 < a.len() {
                parse_options_from(a, i + 2, OptionsView { term_guid: Some(a[i + 1]), ..o })
            } else {
                Err("--term-guid requires a value."@)
            }
        } else if matches_at(v, 0, "--limit="@) {
            match parse_limit_seq(v.skip(8)) {
                Ok(n) => parse_options_from(a, i + 1, OptionsView { limit: Some(n), ..o }),
                Err(e) => Err(e),
            }
        } else if v == "--limit"@ {
            if i + 1 < a.len() {
                match parse_limit_seq(a[i + 1]) {
                    Ok(n) => parse_options_from(a, i + 2, OptionsView { limit: Some(n), ..o }),
                    Err(e) => Err(e),
                }
            } else {
                Err("--limit requires a value."@)
            }
        } else if matches_at(v, 0, "-"@) {
            Err("Unknown option: "@ + v + ". Run 'rub-vvz help'."@)
        } else {
            parse_options_from(
                a,
                i + 1,
                OptionsView { positionals: o.positionals.push(v), ..o },
            )
        }
    }
}

/// The options of a command's arguments.
pub open spec fn parse_options_seq(a: Seq<Seq<char>>) -> Result<OptionsView, Seq<char>> {
    parse_options_from(a, 0, default_options())
}

fn push_positional(o: &mut Options, v: &[char])
    ensures
        final(o)@ == (OptionsView { positionals: old(o)@.positionals.push(v@), ..old(o)@ }),
{
    let ghost before = o.positionals@;
    o.positionals.push(chars_string(v));
    assert(o.positionals@.map_values(|p: String| p@) =~= before.map_values(|p: String| p@).push(
        v@,
    ));
}

impl Options {
    /// Reads the options of a command's arguments.
    pub fn parse(args: &[Vec<char>]) -> (r: Result<Options, String>)
        ensures
            match parse_options_seq(views(args@)) {
                Ok(o) => r matches Ok(x) && x@ == o,
                Err(e) => r matches Err(x) && x@ == e,
            },
    {
        let ghost a = views(args@);
        let mut o = Options {
            json: false,
            lang: "de".to_owned(),
            term_guid: None,
            limit: None,
            positionals: Vec::new(),
        };
        assert(o@.positionals =~= Seq::<Seq<char>>::empty());
        let mut i: usize = 0;
        while i < args.len()
            invariant
                i <= args.len(),
                a == views(args@),
                parse_options_from(a, i as int, o@) == parse_options_seq(a),
            decreases args.len() - i,
        {
            let v = &args[i];
            assert(a[i as int] == v@);
            if eq_lit(v, "--json") {
                o.json = true;
                i = i + 1;
            } else if starts_with_str(v, "--lang=") {
                proof {
                    reveal_strlit("--lang=");
                }
                let l = copy_range(v, 7, v.len());
                assert(l@ =~= v@.skip(7));
                o.lang = chars_string(&l);
                i = i + 1;
            } else if eq_lit(v, "--lang") {
                if i + 1 < args.len() {
                    assert(a[i + 1] == args@[i + 1]@);
                    o.lang = chars_string(&args[i + 1]);
                    i = i + 2;
                } else {
                    return Err("--lang requires a value.".to_owned());
                }
            } else if starts_with_str(v, "--term-guid=") {
                proof {
                    reveal_strlit("--term-guid=");
                }
                let t = copy_range(v, 12, v.len());
                assert(t@ =~= v@.skip(12));
                o.term_guid = Some(chars_string(&t));
                i = i + 1;
            } else if eq_lit(v, "--term-guid") {
                if i + 1 < args.len() {
                    assert(a[i + 1] == args@[i + 1]@);
                    o.term_guid = Some(chars_string(&args[i + 1]));
                    i = i + 2;
                } else {
                    return Err("--term-guid requires a value.".to_owned());
                }
            } else if starts_with_str(v, "--limit=") {
                proof {
                    reveal_strlit("--limit=");
                }
                let t = copy_range(v, 8, v.len());
                assert(t@ =~= v@.skip(8));
                match parse_limit(&t) {
                    Ok(n) => {
                        o.limit = Some(n);
                        i = i + 1;
                    },
                    Err(e) => {
                        return Err(chars_string(&e));
                    },
                }
            } else if eq_lit(v, "--limit") {
                if i + 1 < args.len() {
                    assert(a[i + 1] == args@[i + 1]@);
                    match parse_limit(&args[i + 1]) {
                        Ok(n) => {
                            o.limit = Some(n);
                            i = i + 2;
                        },
                        Err(e) => {
                            return Err(chars_string(&e));
                        },
                    }
                } else {
                    return Err("--limit requires a value.".to_owned());
                }
            } else if v.len() > 0 && v[0] == '-' {
                proof {
                    reveal_strlit("-");
                    assert(v@.subrange(0, 1) =~= "-"@);
                }
                let mut e = str_chars("Unknown option: ");
                append_chars(&mut e, v);
                append_str(&mut e, ". Run 'rub-vvz help'.");
                return Err(chars_string(&e));
            } else {
                proof {
                    reveal_strlit("-");
                    if v@.len() > 0 {
                        assert(v@.subrange(0, 1)[0] == v@[0]);
                    }
                }
                push_positional(&mut o, v);
                i = i + 1;
            }
        }
        Ok(o)
    }
}


/// Reading options depends only on the arguments not yet read.
proof fn lemma_parse_depends_on_rest(a: Seq<Seq<char>>, i: int, b: Seq<Seq<char>>, j: int, o: OptionsView)
    requires
        0 <= i <= a.len(),
        0 <= j <= b.len(),
        a.skip(i) == b.skip(j),
    ensures
        parse_options_from(a, i, o) == parse_options_from(b, j, o),
    decreases a.len() - i,
{
    assert(a.len() - i == b.skip(j).len());
    if i < a.len() {
        assert(a[i] == a.skip(i)[0]);
        assert(b[j] == b.skip(j)[0]);
        if i + 1 < a.len() {
            assert(a[i + 1] == a.skip(i)[1]);
            assert(b[j + 1] == b.skip(j)[1]);
        }
        assert(a.skip(i + 1) =~= a.skip(i).skip(1));
        assert(b.skip(j + 1) =~= b.skip(j).skip(1));
        let v = a[i];
        lemma_parse_depends_on_rest(a, i + 1, b, j + 1, OptionsView { json: true, ..o });
        lemma_parse_depends_on_rest(a, i + 1, b, j + 1, OptionsView { lang: v.skip(7), ..o });
        lemma_parse_depends_on_rest(
            a,
            i + 1,
            b,
            j + 1,
            OptionsView { term_guid: Some(v.skip(12)), ..o },
        );
        lemma_parse_depends_on_rest(
            a,
            i + 1,
            b,
            j + 1,
            OptionsView { positionals: o.positionals.push(v), ..o },
        );
        if matches_at(v, 0, "--limit="@) {
            if let Ok(n) = parse_limit_seq(v.skip(8)) {
                lemma_parse_depends_on_rest(a, i + 1, b, j + 1, OptionsView { limit: Some(n), ..o });
            }
        }
        if i + 1 < a.len() {
            assert(a.skip(i + 2) =~= a.skip(i).skip(2));
            assert(b.skip(j + 2) =~= b.skip(j).skip(2));
            let w = a[i + 1];
            lemma_parse_depends_on_rest(a, i + 2, b, j + 2, OptionsView { lang: w, ..o });
            lemma_parse_depends_on_rest(a, i + 2, b, j + 2, OptionsView { term_guid: Some(w), ..o });
            if let Ok(n) = parse_limit_seq(w) {
                lemma_parse_depends_on_rest(a, i + 2, b, j + 2, OptionsView { limit: Some(n), ..o });
            }
        }
    }
}

/// `--lang=v`, `--term-guid=v` and `--limit=v` read as `--lang v`, `--term-guid v` and
/// `--limit v`: where the argument at index `i` is the first form, reading the options on
/// from there gives what reading the arguments with it replaced by the second form gives.
pub proof fn law_equals_form_reads_as_two_arguments(
    a: Seq<Seq<char>>,
    i: int,
    o: OptionsView,
    flag: Seq<char>,
    v: Seq<char>,
)
    requires
        flag == "--lang"@ || flag == "--term-guid"@ || flag == "--limit"@,
        0 <= i < a.len(),
        a[i] == flag + "="@ + v,
    ensures
        parse_options_from(a, i, o) == parse_options_from(
            a.take(i) + seq![flag, v] + a.skip(i + 1),
            i,
            o,
        ),
{
    reveal_strlit("--json");
    reveal_strlit("--lang");
    reveal_strlit("--lang=");
    reveal_strlit("--term-guid");
    reveal_strlit("--term-guid=");
    reveal_strlit("--limit");
    reveal_strlit("--limit=");
    reveal_strlit("=");
    let b = a.take(i) + seq![flag, v] + a.skip(i + 1);
    assert(b[i] == flag);
    assert(b[i + 1] == v);
    assert(a.skip(i + 1) =~= b.skip(i + 2));
    let x = a[i];
    assert(x.len() == flag.len() + 1 + v.len());
    if flag == "--lang"@ {
        assert(x.subrange(0, 7) =~= "--lang="@);
        assert(x.skip(7) =~= v);
        assert(x != "--json"@) by {
            assert(x[2] != "--json"@[2]);
        }
        assert(flag != "--json"@) by {
            assert(flag[2] != "--json"@[2]);
        }
        lemma_parse_depends_on_rest(a, i + 1, b, i + 2, OptionsView { lang: v, ..o });
    } else if flag == "--term-guid"@ {
        assert(x.subrange(0, 12) =~= "--term-guid="@);
        assert(x.skip(12) =~= v);
        assert(x != "--json"@) by {
            assert(x[2] != "--json"@[2]);
        }
        assert(x != "--lang"@) by {
            assert(x[2] != "--lang"@[2]);
        }
        assert(!matches_at(x, 0, "--lang="@)) by {
            assert(x.subrange(0, 7)[2] != "--lang="@[2]);
        }
        assert(flag != "--json"@) by {
            assert(flag[2] != "--json"@[2]);
        }
        assert(flag != "--lang"@) by {
            assert(flag[2] != "--lang"@[2]);
        }
        assert(!matches_at(flag, 0, "--lang="@)) by {
            assert(flag.subrange(0, 7)[2] != "--lang="@[2]);
        }
        lemma_parse_depends_on_rest(a, i + 1, b, i + 2, OptionsView { term_guid: Some(v), ..o });
    } else {
        assert(x.subrange(0, 8) =~= "--limit="@);
        assert(x.skip(8) =~= v);
        assert(x != "--json"@) by {
            assert(x[2] != "--json"@[2]);
        }
        assert(x != "--lang"@) by {
            assert(x[3] != "--lang"@[3]);
        }
        assert(!matches_at(x, 0, "--lang="@)) by {
            assert(x.subrange(0, 7)[3] != "--lang="@[3]);
        }
        assert(x != "--term-guid"@) by {
            assert(x[2] != "--term-guid"@[2]);
        }
        assert(!matches_at(x, 0, "--term-guid="@)) by {
            if x.len() >= 12 {
                assert(x.subrange(0, 12)[2] != "--term-guid="@[2]);
            }
        }
        assert(flag != "--json"@) by {
            assert(flag[2] != "--json"@[2]);
        }
        assert(flag != "--lang"@) by {
            assert(flag[3] != "--lang"@[3]);
        }
        assert(!matches_at(flag, 0, "--lang="@)) by {
            assert(flag.subrange(0, 7)[3] != "--lang="@[3]);
        }
        assert(flag != "--term-guid"@) by {
            assert(flag[2] != "--term-guid"@[2]);
        }
        assert(!matches_at(flag, 0, "--term-guid="@));
        assert(!matches_at(flag, 0, "--limit="@));
        if let Ok(n) = parse_limit_seq(v) {
            lemma_parse_depends_on_rest(a, i + 1, b, i + 2, OptionsView { limit: Some(n), ..o });
        }
    }
}

/// The arguments that name an option, alone or with `=` and its value.
pub open spec fn is_known_option(v: Seq<char>) -> bool {
    v == "--json"@ || v == "--lang"@ || v == "--term-guid"@ || v == "--limit"@ || matches_at(
        v,
        0,
        "--lang="@,
    ) || matches_at(v, 0, "--term-guid="@) || matches_at(v, 0, "--limit="@)
}

/// An argument that starts with `-` and names no option is refused, by name, where it is
/// read; it is never ignored.
pub proof fn law_unknown_option_refused(a: Seq<Seq<char>>, i: int, o: OptionsView)
    requires
        0 <= i < a.len(),
        a[i].len() > 0,
        a[i][0] == '-',
        !is_known_option(a[i]),
    ensures
        parse_options_from(a, i, o) == Err::<OptionsView, Seq<char>>(
            "Unknown option: "@ + a[i] + ". Run 'rub-vvz help'."@,
        ),
{
    reveal_strlit("-");
    assert(a[i].subrange(0, 1) =~= "-"@);
}

// ---------------------------------------------------------------------------
// Help.
// ---------------------------------------------------------------------------

/// The help of a command, or the refusal of an unknown topic.
pub open spec fn command_help_seq(command: Seq<char>) -> Result<Seq<char>, Seq<char>> {
    if command == "search"@ {
        Ok(SEARCH_HELP@)
    } else if command == "event"@ {
        Ok(EVENT_HELP@)
    } else if command == "events"@ {
        Ok(EVENTS_HELP@)
    } else if command == "fields"@ {
        Ok(FIELDS_HELP@)
    } else if command == "help"@ {
        Ok(HELP_HELP@)
    } else {
        Err("Unknown help topic: "@ + command + ". Run 'rub-vvz help'."@)
    }
}

/// The root help.
pub fn help() -> (s: String)
    ensures
        s@ == ROOT_HELP@,
{
    ROOT_HELP.to_owned()
}

/// The help of a command.
pub fn command_help(command: &[char]) -> (r: Result<String, String>)
    ensures
        match command_help_seq(command@) {
            Ok(t) => r matches Ok(x) && x@ == t,
            Err(e) => r matches Err(x) && x@ == e,
        },
{
    if eq_lit(command, "search") {
        Ok(SEARCH_HELP.to_owned())
    } else if eq_lit(command, "event") {
        Ok(EVENT_HELP.to_owned())
    } else if eq_lit(command, "events") {
        Ok(EVENTS_HELP.to_owned())
    } else if eq_lit(command, "fields") {
        Ok(FIELDS_HELP.to_owned())
    } else if eq_lit(command, "help") {
        Ok(HELP_HELP.to_owned())
    } else {
        let mut e = str_chars("Unknown help topic: ");
        append_chars(&mut e, command);
        append_str(&mut e, ". Run 'rub-vvz help'.");
        Err(chars_string(&e))
    }
}


// ---------------------------------------------------------------------------
// What a command line asks for.
// ---------------------------------------------------------------------------

/// What the arguments ask for: a reply that needs no catalogue, or one of the four
/// questions to the catalogue with what is handed to it and how the answer is shown.
pub enum Invocation {
    Reply(Result<String, String>),
    Search { query: String, term_guid: Option<String>, lang: String, limit: usize, json: bool },
    Event { event: String, term_guid: Option<String>, lang: String, json: bool },
    Events { field: String, term_guid: Option<String>, lang: String, limit: usize, json: bool },
    Fields { term_guid: Option<String>, lang: String, json: bool },
}

/// An invocation, as text.
pub enum InvocationView {
    Reply(Result<Seq<char>, Seq<char>>),
    Search {
        query: Seq<char>,
        term_guid: Option<Seq<char>>,
        lang: Seq<char>,
        limit: usize,
        json: bool,
    },
    Event { event: Seq<char>, term_guid: Option<Seq<char>>, lang: Seq<char>, json: bool },
    Events {
        field: Seq<char>,
        term_guid: Option<Seq<char>>,
        lang: Seq<char>,
        limit: usize,
        json: bool,
    },
    Fields { term_guid: Option<Seq<char>>, lang: Seq<char>, json: bool },
}

/// The text of a reply.
pub open spec fn reply_view(r: Result<String, String>) -> Result<Seq<char>, Seq<char>> {
    match r {
        Ok(s) => Ok(s@),
        Err(e) => Err(e@),
    }
}

impl View for Invocation {
    type V = InvocationView;

    open spec fn view(&self) -> InvocationView {
        match self {
            Invocation::Reply(r) => InvocationView::Reply(reply_view(*r)),
            Invocation::Search { query, term_guid, lang, limit, json } => InvocationView::Search {
                query: query@,
                term_guid: crate::models::opt_view(*term_guid),
                lang: lang@,
                limit: *limit,
                json: *json,
            },
            Invocation::Event { event, term_guid, lang, json } => InvocationView::Event {
                event: event@,
                term_guid: crate::models::opt_view(*term_guid),
                lang: lang@,
                json: *json,
            },
            Invocation::Events { field, term_guid, lang, limit, json } => InvocationView::Events {
                field: field@,
                term_guid: crate::models::opt_view(*term_guid),
                lang: lang@,
                limit: *limit,
                json: *json,
            },
            Invocation::Fields { term_guid, lang, json } => InvocationView::Fields {
                term_guid: crate::models::opt_view(*term_guid),
                lang: lang@,
                json: *json,
            },
        }
    }
}

/// A limit that was given, or the default.
pub open spec fn limit_or(l: Option<usize>, default: usize) -> usize {
    match l {
        Some(n) => n,
        None => default,
    }
}

/// What a command asks for, given its options: the first positional is the query, the
/// course or the area; a search shows 20 courses unless told otherwise, an area 100.
pub open spec fn command_plan(command: Seq<char>, o: OptionsView) -> InvocationView {
    if command == "search"@ {
        if o.positionals.len() == 0 {
            InvocationView::Reply(Err("search requires a query."@))
        } else {
            InvocationView::Search {
                query: o.positionals[0],
                term_guid: o.term_guid,
                lang: o.lang,
                limit: limit_or(o.limit, 20),
                json: o.json,
            }
        }
    } else if command == "event"@ {
        if o.positionals.len() == 0 {
            InvocationView::Reply(Err("event requires a gguid or URL."@))
        } else {
            InvocationView::Event {
                event: o.positionals[0],
                term_guid: o.term_guid,
                lang: o.lang,
                json: o.json,
            }
        }
    } else if command == "events"@ {
        if o.positionals.len() == 0 {
            InvocationView::Reply(Err("events requires a field gguid or URL."@))
        } else {
            InvocationView::Events {
                field: o.positionals[0],
                term_guid: o.term_guid,
                lang: o.lang,
                limit: limit_or(o.limit, 100),
                json: o.json,
            }
        }
    } else if command == "fields"@ {
        InvocationView::Fields { term_guid: o.term_guid, lang: o.lang, json: o.json }
    } else {
        InvocationView::Reply(Err("Unknown command: "@ + command))
    }
}

/// What a whole command line (the program's name first) asks for.
///
/// No arguments, or `-h`/`--help` first, is the root help. A `help` before the first
/// command gives the help of the word after it (of `help` itself where a help flag
/// follows; the root help where nothing follows). Without a command, a help flag gives
/// the root help, and anything else is refused. A help flag after the command gives the
/// command's help; otherwise the arguments after the command are read as its options.
pub open spec fn invocation_seq(a: Seq<Seq<char>>) -> InvocationView {
    if a.len() <= 1 || is_help_flag_seq(a[1]) {
        InvocationView::Reply(Ok(ROOT_HELP@))
    } else {
        let action = first_index(a, |x: Seq<char>| is_command_seq(x));
        let help = first_index(a, |x: Seq<char>| x == "help"@);
        if help is Some && (action is None || help->0 < action->0) {
            let rest = a.skip(help->0 + 1);
            if any_help_flag(rest) {
                InvocationView::Reply(command_help_seq("help"@))
            } else if rest.len() > 0 {
                InvocationView::Reply(command_help_seq(rest[0]))
            } else {
                InvocationView::Reply(Ok(ROOT_HELP@))
            }
        } else if action is None {
            if any_help_flag(a.skip(1)) {
                InvocationView::Reply(Ok(ROOT_HELP@))
            } else {
                InvocationView::Reply(Err("Missing command. Run 'rub-vvz help'."@))
            }
        } else {
            let command = a[action->0];
            let rest = a.skip(action->0 + 1);
            if any_help_flag(rest) {
                InvocationView::Reply(command_help_seq(command))
            } else {
                match parse_options_seq(rest) {
                    Err(e) => InvocationView::Reply(Err(e)),
                    Ok(o) => command_plan(command, o),
                }
            }
        }
    }
}

/// The index of the first argument that is a command.
fn first_command(a: &Vec<Vec<char>>) -> (r: Option<usize>)
    ensures
        match first_index(views(a@), |x: Seq<char>| is_command_seq(x)) {
            Some(i) => r == Some(i as usize),
            None => r is None,
        },
{
    let ghost s = views(a@);
    let mut i: usize = 0;
    while i < a.len()
        invariant
            i <= a.len(),
            s == views(a@),
            forall|k: int| 0 <= k < i ==> !is_command_seq(#[trigger] s[k]),
        decreases a.len() - i,
    {
        assert(s[i as int] == a@[i as int]@);
        if is_command(&a[i]) {
            proof {
                lemma_first_index(s, |x: Seq<char>| is_command_seq(x), i as int);
            }
            return Some(i);
        }
        i = i + 1;
    }
    proof {
        lemma_first_index(s, |x: Seq<char>| is_command_seq(x), i as int);
    }
    None
}

/// The index of the first argument `help`.
fn first_help(a: &Vec<Vec<char>>) -> (r: Option<usize>)
    ensures
        match first_index(views(a@), |x: Seq<char>| x == "help"@) {
            Some(i) => r == Some(i as usize),
            None => r is None,
        },
{
    let ghost s = views(a@);
    let mut i: usize = 0;
    while i < a.len()
        invariant
            i <= a.len(),
            s == views(a@),
            forall|k: int| 0 <= k < i ==> !(#[trigger] s[k] == "help"@),
        decreases a.len() - i,
    {
        assert(s[i as int] == a@[i as int]@);
        if eq_lit(&a[i], "help") {
            proof {
                lemma_first_index(s, |x: Seq<char>| x == "help"@, i as int);
            }
            return Some(i);
        }
        i = i + 1;
    }
    proof {
        lemma_first_index(s, |x: Seq<char>| x == "help"@, i as int);
    }
    None
}

/// The arguments as character sequences.
fn arg_chars(args: &[&str]) -> (r: Vec<Vec<char>>)
    ensures
        views(r@) == arg_views(args@),
{
    let mut r: Vec<Vec<char>> = Vec::new();
    let mut i: usize = 0;
    while i < args.len()
        invariant
            i <= args.len(),
            views(r@) == arg_views(args@).take(i as int),
        decreases args.len() - i,
    {
        let c = str_chars(args[i]);
        proof {
            crate::markup::lemma_views_push(r@, c);
        }
        r.push(c);
        assert(arg_views(args@).take(i + 1) =~= arg_views(args@).take(i as int).push(args@[i as int]@));
        i = i + 1;
    }
    assert(arg_views(args@).take(args.len() as int) =~= arg_views(args@));
    r
}

/// What a command, given its options, asks for.
fn plan_command(command: &[char], o: Options) -> (r: Invocation)
    ensures
        r@ == command_plan(command@, o@),
{
    let Options { json, lang, term_guid, limit, positionals } = o;
    let limit_search: usize = match limit {
        Some(n) => n,
        None => 20,
    };
    let limit_events: usize = match limit {
        Some(n) => n,
        None => 100,
    };
    if eq_lit(command, "search") {
        if positionals.len() == 0 {
            Invocation::Reply(Err("search requires a query.".to_owned()))
        } else {
            let query = positionals[0].clone();
            Invocation::Search { query, term_guid, lang, limit: limit_search, json }
        }
    } else if eq_lit(command, "event") {
        if positionals.len() == 0 {
            Invocation::Reply(Err("event requires a gguid or URL.".to_owned()))
        } else {
            let event = positionals[0].clone();
            Invocation::Event { event, term_guid, lang, json }
        }
    } else if eq_lit(command, "events") {
        if positionals.len() == 0 {
            Invocation::Reply(Err("events requires a field gguid or URL.".to_owned()))
        } else {
            let field = positionals[0].clone();
            Invocation::Events { field, term_guid, lang, limit: limit_events, json }
        }
    } else if eq_lit(command, "fields") {
        Invocation::Fields { term_guid, lang, json }
    } else {
        let mut e = str_chars("Unknown command: ");
        append_chars(&mut e, command);
        Invocation::Reply(Err(chars_string(&e)))
    }
}

/// What a command line (the program's name first) asks for.
pub fn plan_invocation(args: &[&str]) -> (r: Invocation)
    ensures
        r@ == invocation_seq(arg_views(args@)),
{
    let a = arg_chars(args);
    let ghost s = views(a@);
    if a.len() <= 1 || is_help_flag(&a[1]) {
        return Invocation::Reply(Ok(help()));
    }
    let action = first_command(&a);
    let help_at = first_help(&a);
    proof {
        lemma_first_index_found(s, |x: Seq<char>| is_command_seq(x));
        lemma_first_index_found(s, |x: Seq<char>| x == "help"@);
    }
    let help_first = match help_at {
        Some(h) => match action {
            Some(c) => h < c,
            None => true,
        },
        None => false,
    };
    if help_first {
        let h = match help_at {
            Some(h) => h,
            None => 0,
        };
        assert(s.skip(h + 1) =~= views(a@).skip(h + 1));
        if has_help_flag(&a, h + 1) {
            let hl = str_chars("help");
            return Invocation::Reply(command_help(&hl));
        }
        if h + 1 < a.len() {
            assert(s.skip(h + 1)[0] == a@[h + 1]@);
            return Invocation::Reply(command_help(&a[h + 1]));
        }
        return Invocation::Reply(Ok(help()));
    }
    match action {
        None => {
            if has_help_flag(&a, 1) {
                Invocation::Reply(Ok(help()))
            } else {
                Invocation::Reply(Err("Missing command. Run 'rub-vvz help'.".to_owned()))
            }
        },
        Some(c) => {
            assert(s[c as int] == a@[c as int]@);
            if has_help_flag(&a, c + 1) {
                return Invocation::Reply(command_help(&a[c]));
            }
            let rest = vstd::slice::slice_subrange(a.as_slice(), c + 1, a.len());
            assert(views(rest@) =~= s.skip(c + 1));
            match Options::parse(rest) {
                Err(e) => Invocation::Reply(Err(e)),
                Ok(o) => plan_command(&a[c], o),
            }
        },
    }
}


// ---------------------------------------------------------------------------
// What is shown of the catalogue's answer.
// ---------------------------------------------------------------------------

/// A list of courses as shown: its first `limit` entries, as JSON or as explained text.
pub open spec fn results_output(
    rs: Seq<SearchResultView>,
    limit: usize,
    json: bool,
    kind: ResultListKind,
) -> Seq<char> {
    let shown = if rs.len() > limit {
        rs.take(limit as int)
    } else {
        rs
    };
    if json {
        search_results_json_seq(shown)
    } else {
        search_results_text_seq(shown, kind)
    }
}

/// A course's details as shown.
pub open spec fn detail_output(d: EventDetailView, json: bool) -> Seq<char> {
    if json {
        event_detail_json_seq(d)
    } else {
        event_detail_text_seq(d)
    }
}

/// A list of areas as shown.
pub open spec fn fields_output(fs: Seq<FieldView>, json: bool) -> Seq<char> {
    if json {
        fields_json_seq(fs)
    } else {
        fields_text_seq(fs)
    }
}

/// The limit cuts the list in both formats alike: what is shown, as JSON or as text, is the
/// first `min(limit, |rs|)` courses of the list.
pub proof fn law_limit_cuts_both_formats(rs: Seq<SearchResultView>, limit: usize, kind: ResultListKind)
    ensures
        results_output(rs, limit, true, kind) == search_results_json_seq(
            rs.take(if rs.len() < limit { rs.len() as int } else { limit as int }),
        ),
        results_output(rs, limit, false, kind) == search_results_text_seq(
            rs.take(if rs.len() < limit { rs.len() as int } else { limit as int }),
            kind,
        ),
{
    assert(rs.take(rs.len() as int) =~= rs);
}

/// Shows the first `limit` courses of a list, as JSON or as explained text.
pub fn render_results(results: Vec<SearchResult>, limit: usize, json: bool, kind: ResultListKind) -> (s:
    String)
    ensures
        s@ == results_output(result_views(results@), limit, json, kind),
{
    let ghost before = results@;
    let mut results = results;
    results.truncate(limit);
    assert(result_views(results@) =~= (if before.len() > limit {
        result_views(before).take(limit as int)
    } else {
        result_views(before)
    }));
    if json {
        search_results_json(&results)
    } else {
        search_results_text(&results, kind)
    }
}

/// Shows a course's details, as JSON or as explained text.
pub fn render_detail(detail: &EventDetail, json: bool) -> (s: String)
    ensures
        s@ == detail_output(detail@, json),
{
    if json {
        event_detail_json(detail)
    } else {
        event_detail_text(detail)
    }
}

/// Shows a list of areas, as JSON or as explained text.
pub fn render_fields(fields: &[Field], json: bool) -> (s: String)
    ensures
        s@ == fields_output(field_views(fields@), json),
{
    if json {
        fields_json(fields)
    } else {
        fields_text(fields)
    }
}

/// What a run gives for an invocation: a reply exactly; for a question to the catalogue,
/// the client's answer to exactly the planned question, its list cut to the limit and shown
/// as text or JSON, or its error as it is.
pub open spec fn answers<C: CliClient>(client: &C, inv: InvocationView, r: Result<String, String>) -> bool {
    match inv {
        InvocationView::Reply(x) => reply_view(r) == x,
        InvocationView::Search { query, term_guid, lang, limit, json } => exists|
            a: Result<Seq<SearchResultView>, Seq<char>>,
        |
            #[trigger] client.answers_search(query, term_guid, lang, a) && shown_results(a, r, limit, json, ResultListKind::Search),
        InvocationView::Event { event, term_guid, lang, json } => exists|
            a: Result<EventDetailView, Seq<char>>,
        |
            #[trigger] client.answers_event(event, term_guid, lang, a) && shown_detail(a, r, json),
        InvocationView::Events { field, term_guid, lang, limit, json } => exists|
            a: Result<Seq<SearchResultView>, Seq<char>>,
        |
            #[trigger] client.answers_events(field, term_guid, lang, a) && shown_results(a, r, limit, json, ResultListKind::Events),
        InvocationView::Fields { term_guid, lang, json } => exists|
            a: Result<Seq<FieldView>, Seq<char>>,
        |
            #[trigger] client.answers_fields(term_guid, lang, a) && shown_fields(a, r, json),
    }
}

/// A run's result shows the client's list answer `a`: cut to `limit` and rendered, or its
/// error as it is.
pub open spec fn shown_results(
    a: Result<Seq<SearchResultView>, Seq<char>>,
    r: Result<String, String>,
    limit: usize,
    json: bool,
    kind: ResultListKind,
) -> bool {
    match a {
        Ok(rs) => r matches Ok(s) && s@ == results_output(rs, limit, json, kind),
        Err(e) => r matches Err(x) && x@ == e,
    }
}

/// A run's result shows the client's course answer `a`, or its error as it is.
pub open spec fn shown_detail(a: Result<EventDetailView, Seq<char>>, r: Result<String, String>, json: bool) -> bool {
    match a {
        Ok(d) => r matches Ok(s) && s@ == detail_output(d, json),
        Err(e) => r matches Err(x) && x@ == e,
    }
}

/// A run's result shows the client's area answer `a`, or its error as it is.
pub open spec fn shown_fields(a: Result<Seq<FieldView>, Seq<char>>, r: Result<String, String>, json: bool) -> bool {
    match a {
        Ok(fs) => r matches Ok(s) && s@ == fields_output(fs, json),
        Err(e) => r matches Err(x) && x@ == e,
    }
}

fn opt_as_str(o: &Option<String>) -> (r: Option<&str>)
    ensures
        crate::client::opt_str_view(r) == crate::models::opt_view(*o),
{
    match o {
        Some(s) => Some(s.as_str()),
        None => None,
    }
}

/// Runs a command line (the program's name first) against the catalogue and gives the
/// text to print, or the error to report.
///
/// A reply that needs no catalogue is given as `invocation_seq` says. Otherwise the client
/// is asked the question that `plan_invocation` names, its error is passed on, and what it
/// answered is shown as `render_results`, `render_detail` or `render_fields` show it.
pub fn run_with_client<C: CliClient>(client: &C, args: &[&str]) -> (r: Result<String, String>)
    ensures
        answers(client, invocation_seq(arg_views(args@)), r),
{
    let inv = plan_invocation(args);
    let ghost iv = inv@;
    assert(iv == invocation_seq(arg_views(args@)));
    match inv {
        Invocation::Reply(reply) => {
            assert(answers(client, iv, reply));
            reply
        },
        Invocation::Search { query, term_guid, lang, limit, json } => {
            let answer = client.search_events(query.as_str(), opt_as_str(&term_guid), lang.as_str());
            let ghost a = list_answer(answer);
            assert(iv == InvocationView::Search {
                query: query@,
                term_guid: crate::models::opt_view(term_guid),
                lang: lang@,
                limit,
                json,
            });
            let r = match answer {
                Err(e) => Err(e),
                Ok(results) => {
                    let ghost rv = result_views(results@);
                    let s = render_results(results, limit, json, ResultListKind::Search);
                    assert(s@ == results_output(rv, limit, json, ResultListKind::Search));
                    Ok(s)
                },
            };
            assert(shown_results(a, r, limit, json, ResultListKind::Search));
            assert(client.answers_search(query@, crate::models::opt_view(term_guid), lang@, a));
            assert(iv is Search && iv->Search_query == query@ && iv->Search_term_guid
                == crate::models::opt_view(term_guid) && iv->Search_lang == lang@
                && iv->Search_limit == limit && iv->Search_json == json);
            assert(answers(client, iv, r));
            r
        },
        Invocation::Event { event, term_guid, lang, json } => {
            let answer = client.event(event.as_str(), opt_as_str(&term_guid), lang.as_str());
            let ghost a = detail_answer(answer);
            assert(iv == InvocationView::Event {
                event: event@,
                term_guid: crate::models::opt_view(term_guid),
                lang: lang@,
                json,
            });
            let r = match answer {
                Err(e) => Err(e),
                Ok(detail) => {
                    let s = render_detail(&detail, json);
                    Ok(s)
                },
            };
            assert(shown_detail(a, r, json));
            assert(client.answers_event(event@, crate::models::opt_view(term_guid), lang@, a));
            assert(iv is Event && iv->Event_event == event@ && iv->Event_term_guid
                == crate::models::opt_view(term_guid) && iv->Event_lang == lang@ && iv->Event_json
                == json);
            assert(answers(client, iv, r));
            r
        },
        Invocation::Events { field, term_guid, lang, limit, json } => {
            let answer = client.events(field.as_str(), opt_as_str(&term_guid), lang.as_str());
            let ghost a = list_answer(answer);
            assert(iv == InvocationView::Events {
                field: field@,
                term_guid: crate::models::opt_view(term_guid),
                lang: lang@,
                limit,
                json,
            });
            let r = match answer {
                Err(e) => Err(e),
                Ok(results) => {
                    let ghost rv = result_views(results@);
                    let s = render_results(results, limit, json, ResultListKind::Events);
                    assert(s@ == results_output(rv, limit, json, ResultListKind::Events));
                    Ok(s)
                },
            };
            assert(shown_results(a, r, limit, json, ResultListKind::Events));
            assert(client.answers_events(field@, crate::models::opt_view(term_guid), lang@, a));
            assert(iv is Events && iv->Events_field == field@ && iv->Events_term_guid
                == crate::models::opt_view(term_guid) && iv->Events_lang == lang@
                && iv->Events_limit == limit && iv->Events_json == json);
            assert(answers(client, iv, r));
            r
        },
        Invocation::Fields { term_guid, lang, json } => {
            let answer = client.fields(opt_as_str(&term_guid), lang.as_str());
            let ghost a = list_answer(answer);
            assert(iv == InvocationView::Fields {
                term_guid: crate::models::opt_view(term_guid),
                lang: lang@,
                json,
            });
            let r = match answer {
                Err(e) => Err(e),
                Ok(fields) => {
                    let s = render_fields(&fields, json);
                    Ok(s)
                },
            };
            assert(shown_fields(a, r, json));
            assert(client.answers_fields(crate::models::opt_view(term_guid), lang@, a));
            assert(iv is Fields && iv->Fields_term_guid == crate::models::opt_view(term_guid)
                && iv->Fields_lang == lang@ && iv->Fields_json == json);
            assert(answers(client, iv, r));
            r
        },
    }
}

} // verus!
