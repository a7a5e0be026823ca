use lib::client::{
    decode_text, failure_message, find_last_marker, read_response, Page, Step, VvzClient,
};
use lib::markup::clean_text;
use lib::parsing::{
    discover_term_guid, event_url, parse_event_detail, parse_fields, parse_search_results,
    url_encode,
};
use lib::url::{percent_decode, query_param};

fn chars(s: &str) -> Vec<char> {
    s.chars().collect()
}

fn text(v: &[char]) -> String {
    v.iter().collect()
}

const SEARCH_HTML: &str = r#"
<html>
  <body>
    <a href="/campus/all/event.asp?gguid=0xEVENT&amp;tguid=0xTERM&amp;lang=de">100001 Kryptographie</a>
    <span>Vorlesung, 4 SWS</span>
  </body>
</html>
"#;

#[test]
fn url_encoding_is_exact() {
    assert_eq!(url_encode("a b&ü~-_."), "a+b%26%C3%BC~-_.");
    assert_eq!(
        event_url("0xE", "0xT", "de"),
        "https://vvz.ruhr-uni-bochum.de/campus/all/event.asp?objgguid=NEW&from=vvz&gguid=0xE&mode=own&tguid=0xT&lang=de"
    );
}

#[test]
fn course_address_reads_back_its_identifiers() {
    let url = event_url("Kurs ü&1=2", "0x#T", "en");
    let detail = parse_event_detail("", &url);
    assert_eq!(detail.event_guid.as_deref(), Some("Kurs ü&1=2"));
    assert_eq!(detail.term_guid.as_deref(), Some("0x#T"));
    assert_eq!(detail.url, url);
    assert_eq!(detail.title, "Course");
    assert_eq!(
        query_param(&chars(&url), &chars("lang")).map(|v| text(&v)),
        Some("en".to_string())
    );
}

#[test]
fn percent_decoding_replaces_invalid_bytes() {
    assert_eq!(text(&percent_decode(&chars("%C3%BC+x%2"))), "ü x%2");
    assert_eq!(text(&percent_decode(&chars("%FF"))), "\u{FFFD}");
    assert_eq!(
        query_param(&chars("https://h/x?a=1&b=%41%2b#frag"), &chars("b")).map(|v| text(&v)),
        Some("A+".to_string())
    );
    assert_eq!(query_param(&chars("https://h/x?a=1"), &chars("b")), None);
}

#[test]
fn repeated_addresses_are_listed_once() {
    let html = r#"
<table>
  <tr><td><a href="event.asp?gguid=0xA&amp;tguid=0xT">Erster Kurs</a></td></tr>
  <tr><td><a href="event.asp?gguid=0xA&amp;tguid=0xT">Derselbe Kurs</a></td></tr>
</table>
<a href="event.asp?gguid=0xA&amp;tguid=0xT">Noch einmal</a>
<a href="event.asp?gguid=0xB">   </a>
<a href="event.asp?gguid=0xC">Zweiter   Kurs</a>
"#;
    let results = parse_search_results(html, "https://h/campus/all/search.asp");
    assert_eq!(results.len(), 2);
    assert_eq!(results[0].title, "Erster Kurs");
    assert_eq!(results[0].url, "https://h/campus/all/event.asp?gguid=0xA&tguid=0xT");
    assert_eq!(results[0].event_guid.as_deref(), Some("0xA"));
    assert_eq!(results[0].term_guid.as_deref(), Some("0xT"));
    assert_eq!(results[1].title, "Zweiter Kurs");
    assert_eq!(results[1].summary, "");
    assert_eq!(results[1].term_guid, None);
}

#[test]
fn upper_case_links_are_found() {
    let html = r#"<table><tr><td><a href="EVENT.ASP?gguid=0xE">Kurs</a></td></tr></table>"#;
    let results = parse_search_results(html, "https://h/campus/all/search.asp");
    assert_eq!(results.len(), 1);
    assert_eq!(results[0].url, "https://h/campus/all/EVENT.ASP?gguid=0xE");
}

#[test]
fn title_cell_is_found_by_its_id_in_any_case() {
    let html = r#"<table><tr>
<td id="cas-table_eventlist_coursenumber_1"><a href="event.asp?gguid=0xE">211009</a></td>
<td id="cas-table_eventlist_title_1"><a href="event.asp?gguid=0xE">Kryptographie</a></td>
<td id="cas-table_eventlist_type_1">Vorlesung</td>
</tr></table>"#;
    let results = parse_search_results(html, "https://h/campus/all/dispatcher.asp");
    assert_eq!(results.len(), 1);
    assert_eq!(results[0].title, "Kryptographie");
    assert_eq!(results[0].summary, "211009 | Vorlesung");
}

#[test]
fn links_without_area_identifiers_are_not_areas() {
    let html = r#"
<a href="fields.asp?field=Mathe&amp;tguid=0xT">Mathematik</a>
<a href="about.asp">Impressum</a>
<a href="subfields.asp?gguid=0xG"> </a>
"#;
    let fields = parse_fields(html, "https://h/campus/all/fields.asp");
    assert_eq!(fields.len(), 1);
    assert_eq!(fields[0].name, "Mathematik");
    assert_eq!(fields[0].value.as_deref(), Some("Mathe"));
    assert_eq!(fields[0].guid, None);
    assert_eq!(fields[0].term_guid.as_deref(), Some("0xT"));
    assert_eq!(fields[0].url, "https://h/campus/all/fields.asp?field=Mathe&tguid=0xT");
}

#[test]
fn unicode_whitespace_separates_words() {
    assert_eq!(text(&clean_text(&chars("  A\u{2003}\u{2003}B\n C "))), "A B C");
}

#[test]
fn heading_text_starts_at_its_first_letter() {
    let detail = parse_event_detail("<h2>» Über uns</h2>", "https://h/event.asp");
    assert_eq!(detail.title, "Über uns");
}

#[test]
fn term_is_found_in_the_page_when_the_address_has_none() {
    assert_eq!(
        discover_term_guid("<a href='x.asp?TGUID=0xAB12&amp;lang=de'>", "https://h/"),
        Some("0xAB12".to_string())
    );
    assert_eq!(discover_term_guid("<p>nichts</p>", "https://h/"), None);
}

#[test]
fn response_bodies_are_decoded() {
    assert_eq!(decode_text("Grüße".as_bytes()), "Grüße");
    assert_eq!(decode_text(&[0x80, 0x41, 0xFC]), "€Aü");
}

#[test]
fn curl_output_is_split_at_the_last_marker() {
    let page = read_response(
        "https://h/",
        b"<html>\n__RUB_VVZ_EFFECTIVE_URL__:x\n__RUB_VVZ_EFFECTIVE_URL__: https://final/x \n",
    );
    assert_eq!(page.final_url, "https://final/x");
    assert_eq!(page.body, "<html>\n__RUB_VVZ_EFFECTIVE_URL__:x");
    let lossy = read_response("https://h/", b"b\n__RUB_VVZ_EFFECTIVE_URL__:https://f/\xFF");
    assert_eq!(lossy.final_url, "https://f/\u{FFFD}");
    let plain = read_response("https://h/", b"<p>");
    assert_eq!(plain.final_url, "https://h/");
    assert_eq!(plain.body, "<p>");
    assert_eq!(find_last_marker(b"abXab", b"ab"), Some(3));
    assert_eq!(find_last_marker(b"a", b"ab"), None);
}

#[test]
fn failures_name_the_address() {
    assert_eq!(
        failure_message("https://h/x", b"  curl: (22) error \n"),
        "HTTP request failed for https://h/x: curl: (22) error"
    );
}

#[test]
fn client_addresses() {
    let client = VvzClient::new("https://h//", 7);
    assert_eq!(client.base_url(), "https://h");
    assert_eq!(client.timeout_secs(), 7);
    assert_eq!(client.request_url("//campus/x"), "https://h/campus/x");
    assert_eq!(client.request_url("http://other/y"), "http://other/y");
    assert_eq!(
        client.curl_args("https://h/x", Some("a=1")),
        vec![
            "--http1.1",
            "-L",
            "-sS",
            "--fail",
            "--max-time",
            "7",
            "-A",
            "rub-vvz-cli/0.1",
            "-w",
            "\n__RUB_VVZ_EFFECTIVE_URL__:%{url_effective}",
            "-H",
            "Content-Type: application/x-www-form-urlencoded",
            "--data",
            "a=1",
            "https://h/x",
        ]
    );
    assert_eq!(client.curl_args("https://h/x", None).len(), 11);
}

fn fetch<T>(step: Step<T>) -> (String, Option<String>) {
    match step {
        Step::Fetch { url, payload } => (url, payload),
        Step::Done(_) => panic!("expected a request"),
    }
}

fn done<T>(step: Step<T>) -> Result<T, String> {
    match step {
        Step::Fetch { .. } => panic!("expected an answer"),
        Step::Done(r) => r,
    }
}

#[test]
fn search_fetches_the_semester_then_the_results() {
    let client = VvzClient::new("https://h", 20);
    assert_eq!(
        fetch(client.search_events("Software Engineering", None, "de", &[])),
        ("https://h/".to_string(), None)
    );
    let start = Page {
        final_url: "https://h/campus/all/groups.asp?tguid=0xT&lang=de".to_string(),
        body: String::new(),
    };
    assert_eq!(
        fetch(client.search_events("Software Engineering", None, "de", &[start.clone()])),
        (
            "https://h/campus/all/dispatcher.asp".to_string(),
            Some("find=Software+Engineering&searchobject=event&tguid=0xT&lang=de&searchButton=Suchen".to_string())
        )
    );
    let answer = Page {
        final_url: "https://h/campus/all/search.asp".to_string(),
        body: SEARCH_HTML.to_string(),
    };
    let results = done(client.search_events("Software Engineering", None, "de", &[start, answer]))
        .unwrap();
    assert_eq!(results.len(), 1);
    assert_eq!(results[0].title, "100001 Kryptographie");
    assert_eq!(results[0].url, "https://h/campus/all/event.asp?gguid=0xEVENT&tguid=0xTERM&lang=de");
}

#[test]
fn other_operations_build_their_addresses() {
    let client = VvzClient::new("https://h", 20);
    assert_eq!(
        fetch(client.event("https://x/event.asp?gguid=0xE", None, "de", &[])),
        ("https://x/event.asp?gguid=0xE".to_string(), None)
    );
    assert_eq!(
        fetch(client.event("0xE", Some("0xT"), "de", &[])),
        (event_url("0xE", "0xT", "de"), None)
    );
    assert_eq!(
        fetch(client.events("0xF", Some("0xT"), "en", &[])),
        (
            "https://h/campus/all/eventlist.asp?gguid=0xF&mode=field&tguid=0xT&lang=en".to_string(),
            None
        )
    );
    assert_eq!(
        fetch(client.fields(Some("0xT"), "en", &[])),
        (
            "https://h/campus/all/fields.asp?group=Vorlesungsverzeichnis&tguid=0xT&lang=en".to_string(),
            None
        )
    );
    let page = Page { final_url: "https://h/e".to_string(), body: "<title>T</title>".to_string() };
    let detail = done(client.event("0xE", Some("0xT"), "de", &[page])).unwrap();
    assert_eq!(detail.title, "T");
}

#[test]
fn missing_semester_fails() {
    let client = VvzClient::new("https://h", 20);
    let page = Page { final_url: "https://h/".to_string(), body: "<p>leer</p>".to_string() };
    assert_eq!(
        done(client.current_term_guid(&[page.clone()])),
        Err("Could not find a tguid for the current VVZ semester.".to_string())
    );
    assert_eq!(
        done(client.fields(None, "de", &[page])).map(|f| f.len()),
        Err("Could not find a tguid for the current VVZ semester.".to_string())
    );
    let found = Page { final_url: "https://h/?tguid=0xT".to_string(), body: String::new() };
    assert_eq!(done(client.current_term_guid(&[found])), Ok("0xT".to_string()));
}
