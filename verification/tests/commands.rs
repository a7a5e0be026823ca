use lib::cli::{command_help, help, parse_global_timeout, run_with_client, CliClient};
use lib::map::StrMap;
use lib::models::{EventDetail, Field, SearchResult};

fn result(n: usize) -> SearchResult {
    SearchResult {
        title: format!("Course {n}"),
        url: format!("https://example.test/event.asp?gguid=0x{n}&tguid=0xTERM"),
        event_guid: Some(format!("0x{n}")),
        term_guid: Some("0xTERM".to_string()),
        summary: String::new(),
    }
}

/// Answers every question with canned lists of the given sizes.
struct ListClient {
    results: usize,
    fail: bool,
}

impl CliClient for ListClient {
    fn search_events(
        &self,
        _: &str,
        _: Option<&str>,
        _: &str,
    ) -> Result<Vec<SearchResult>, String> {
        if self.fail {
            return Err("boom".to_string());
        }
        Ok((1..=self.results).map(result).collect())
    }

    fn event(&self, event: &str, term_guid: Option<&str>, _: &str) -> Result<EventDetail, String> {
        let mut fields = StrMap::new();
        fields.insert("Titel".to_string(), "Kryptographie".to_string());
        Ok(EventDetail {
            title: "Kryptographie".to_string(),
            url: format!("https://example.test/event.asp?gguid={event}"),
            event_guid: Some(event.to_string()),
            term_guid: term_guid.map(str::to_string),
            fields,
            sections: StrMap::new(),
            description: "  Worum es geht.  ".to_string(),
        })
    }

    fn events(&self, _: &str, _: Option<&str>, _: &str) -> Result<Vec<SearchResult>, String> {
        Ok((1..=self.results).map(result).collect())
    }

    fn fields(&self, _: Option<&str>, lang: &str) -> Result<Vec<Field>, String> {
        Ok(vec![Field {
            name: "Informatik".to_string(),
            url: format!("https://example.test/fields.asp?gguid=0xF&lang={lang}"),
            value: None,
            guid: Some("0xF".to_string()),
            term_guid: None,
        }])
    }
}

fn run(results: usize, args: &[&str]) -> Result<String, String> {
    run_with_client(&ListClient { results, fail: false }, args)
}

#[test]
fn no_arguments_print_root_help() {
    assert_eq!(run(0, &["rub-vvz"]), Ok(help()));
    assert_eq!(run(0, &["rub-vvz", "-h"]), Ok(help()));
    assert_eq!(run(0, &["rub-vvz", "--help", "search"]), Ok(help()));
}

#[test]
fn help_of_help_and_unknown_topics() {
    let help_help = run(0, &["rub-vvz", "help", "search", "--help"]).unwrap();
    assert!(help_help.starts_with("Usage: rub-vvz help [COMMAND]"));
    assert_eq!(
        run(0, &["rub-vvz", "help", "nope"]),
        Err("Unknown help topic: nope. Run 'rub-vvz help'.".to_string())
    );
    let nope: Vec<char> = "nope".chars().collect();
    assert_eq!(
        command_help(&nope),
        Err("Unknown help topic: nope. Run 'rub-vvz help'.".to_string())
    );
}

#[test]
fn help_after_the_command_is_a_query() {
    let output = run(1, &["rub-vvz", "search", "help"]).unwrap();
    assert!(output.starts_with("rub-vvz search: 1 courses found."));
}

#[test]
fn missing_command_and_arguments_are_refused() {
    assert_eq!(
        run(0, &["rub-vvz", "--timeout", "5"]),
        Err("Missing command. Run 'rub-vvz help'.".to_string())
    );
    assert_eq!(
        run(0, &["rub-vvz", "search"]),
        Err("search requires a query.".to_string())
    );
    assert_eq!(
        run(0, &["rub-vvz", "event"]),
        Err("event requires a gguid or URL.".to_string())
    );
    assert_eq!(
        run(0, &["rub-vvz", "events", "--json"]),
        Err("events requires a field gguid or URL.".to_string())
    );
}

#[test]
fn option_values_are_checked() {
    assert_eq!(
        run(0, &["rub-vvz", "search", "x", "--limit", "0"]),
        Err("--limit requires a positive number, got: 0".to_string())
    );
    assert_eq!(
        run(0, &["rub-vvz", "search", "x", "--limit=abc"]),
        Err("--limit requires a positive number, got: abc".to_string())
    );
    assert_eq!(
        run(0, &["rub-vvz", "search", "x", "--lang"]),
        Err("--lang requires a value.".to_string())
    );
    assert_eq!(
        run(0, &["rub-vvz", "search", "x", "--term-guid"]),
        Err("--term-guid requires a value.".to_string())
    );
    assert_eq!(
        run(0, &["rub-vvz", "search", "x", "--limit"]),
        Err("--limit requires a value.".to_string())
    );
    assert_eq!(
        run(0, &["rub-vvz", "fields", "-x"]),
        Err("Unknown option: -x. Run 'rub-vvz help'.".to_string())
    );
}

#[test]
fn equals_form_gives_the_same_output_as_two_arguments() {
    let joined = run(
        3,
        &["rub-vvz", "search", "q", "--limit=2", "--lang=en", "--term-guid=0xT"],
    );
    let split = run(
        3,
        &["rub-vvz", "search", "q", "--limit", "2", "--lang", "en", "--term-guid", "0xT"],
    );
    assert_eq!(joined, split);
    assert!(joined.unwrap().starts_with("rub-vvz search: 2 courses found."));
}

#[test]
fn limits_default_to_twenty_and_one_hundred() {
    let search = run(25, &["rub-vvz", "search", "q"]).unwrap();
    assert!(search.starts_with("rub-vvz search: 20 courses found.\n\n"));
    assert!(search.contains("20. Course 20\n"));
    assert!(!search.contains("21. Course 21"));
    let events = run(101, &["rub-vvz", "events", "0xF"]).unwrap();
    assert!(events.starts_with("rub-vvz events: 100 courses found.\n\n"));
    let fewer = run(101, &["rub-vvz", "events", "0xF", "--limit", "3"]).unwrap();
    assert!(fewer.starts_with("rub-vvz events: 3 courses found.\n\n"));
}

#[test]
fn empty_search_explains_itself() {
    assert_eq!(
        run(0, &["rub-vvz", "search", "q"]),
        Ok("rub-vvz search: 0 courses found.\n\nInterpretation: The query returned no public VVZ courses for the selected semester. Check the spelling or set --term-guid for another semester.\n".to_string())
    );
    assert_eq!(run(0, &["rub-vvz", "search", "q", "--json"]), Ok("[]\n".to_string()));
}

#[test]
fn search_json_is_exact() {
    assert_eq!(
        run(1, &["rub-vvz", "search", "q", "--json"]),
        Ok("[{\"title\":\"Course 1\",\"url\":\"https://example.test/event.asp?gguid=0x1&tguid=0xTERM\",\"event_guid\":\"0x1\",\"term_guid\":\"0xTERM\",\"summary\":\"\"}]\n".to_string())
    );
}

#[test]
fn search_text_is_exact() {
    assert_eq!(
        run(1, &["rub-vvz", "search", "q"]),
        Ok("rub-vvz search: 1 courses found.\n\nInterpretation: gguid is the course identifier and tguid is the semester. Run 'rub-vvz event <gguid> --term-guid <tguid>' for details or use '--json' for machine-readable output.\n\n1. Course 1\n   gguid: 0x1\n   tguid: 0xTERM\n   https://example.test/event.asp?gguid=0x1&tguid=0xTERM\n".to_string())
    );
}

#[test]
fn client_errors_are_passed_on() {
    let client = ListClient { results: 1, fail: true };
    assert_eq!(
        run_with_client(&client, &["rub-vvz", "search", "q"]),
        Err("boom".to_string())
    );
}

#[test]
fn event_detail_text_and_json() {
    let text = run(0, &["rub-vvz", "event", "0xE", "--term-guid", "0xT"]).unwrap();
    assert_eq!(
        text,
        "rub-vvz event: course details\n\nInterpretation: gguid is the course identifier and tguid is the semester. Fields are CampusOffice metadata; sections contain tables such as appointments, lecturers, modules, or audiences. Use '--json' for machine-readable output.\n\nKryptographie\ngguid: 0xE\ntguid: 0xT\nhttps://example.test/event.asp?gguid=0xE\nTitel: Kryptographie\n\nDescription\nWorum es geht.\n"
    );
    let json = run(0, &["rub-vvz", "event", "0xE", "--json"]).unwrap();
    assert_eq!(
        json,
        "{\"title\":\"Kryptographie\",\"url\":\"https://example.test/event.asp?gguid=0xE\",\"event_guid\":\"0xE\",\"term_guid\":null,\"fields\":{\"Titel\":\"Kryptographie\"},\"sections\":{},\"description\":\"  Worum es geht.  \"}\n"
    );
}

#[test]
fn fields_text_and_json() {
    let text = run(0, &["rub-vvz", "fields", "--lang", "en"]).unwrap();
    assert_eq!(
        text,
        "rub-vvz fields: 1 VVZ areas found.\n\nInterpretation: gguid is the area identifier and tguid is the semester. Run 'rub-vvz events <gguid> --term-guid <tguid>' for courses in an area or use '--json' for machine-readable output.\n\n1. Informatik\n   gguid: 0xF\n   https://example.test/fields.asp?gguid=0xF&lang=en\n"
    );
    let json = run(0, &["rub-vvz", "fields", "--json"]).unwrap();
    assert_eq!(
        json,
        "[{\"name\":\"Informatik\",\"url\":\"https://example.test/fields.asp?gguid=0xF&lang=de\",\"value\":null,\"guid\":\"0xF\",\"term_guid\":null}]\n"
    );
}

#[test]
fn global_timeout_forms() {
    let args = |v: &[&str]| v.iter().map(|s| s.to_string()).collect::<Vec<String>>();
    assert_eq!(parse_global_timeout(&args(&["rub-vvz", "--timeout=5", "search"])), Some(5));
    assert_eq!(parse_global_timeout(&args(&["rub-vvz", "--timeout", "7"])), Some(7));
    assert_eq!(
        parse_global_timeout(&args(&["rub-vvz", "--timeout=x", "--timeout", "3"])),
        Some(3)
    );
    assert_eq!(parse_global_timeout(&args(&["rub-vvz", "--timeout=+9"])), Some(9));
    assert_eq!(parse_global_timeout(&args(&["rub-vvz", "--timeout"])), None);
    assert_eq!(parse_global_timeout(&args(&["rub-vvz", "search"])), None);
}

#[test]
fn string_map_keeps_keys_sorted_and_reads_back() {
    let mut m: StrMap<u32> = StrMap::new();
    m.insert("b".to_string(), 1);
    m.insert("a".to_string(), 2);
    m.insert("b".to_string(), 3);
    assert_eq!(m.len(), 2);
    assert_eq!(m.key_at(0), "a");
    assert_eq!(m.key_at(1), "b");
    assert_eq!(m.get("b"), Some(&3));
    assert_eq!(m.get("a"), Some(&2));
    assert_eq!(m.get("c"), None);
}

#[test]
fn json_output_is_one_line() {
    let r = SearchResult {
        title: "a\nb \"c\"".to_string(),
        url: "u\\v".to_string(),
        event_guid: None,
        term_guid: None,
        summary: "\t\r".to_string(),
    };
    let s = lib::render::search_results_json(&[r]);
    assert_eq!(
        s,
        "[{\"title\":\"a\\nb \\\"c\\\"\",\"url\":\"u\\\\v\",\"event_guid\":null,\"term_guid\":null,\"summary\":\"\\t\\r\"}]\n"
    );
    assert_eq!(s.matches('\n').count(), 1);
    assert!(!s.contains("Interpretation:"));
}

#[test]
fn json_escapes_every_control_character() {
    assert_eq!(lib::render::json_escape("\u{1}a\u{1f}\u{7f}"), "\\u0001a\\u001f\u{7f}");
    assert_eq!(lib::render::json_escape("\u{8}\u{c}\n"), "\\u0008\\u000c\\n");
}

#[test]
fn whitespace_is_the_unicode_white_space_set() {
    for c in (0..=0x10FFFFu32).filter_map(char::from_u32) {
        assert_eq!(lib::text::char_is_whitespace(c), c.is_whitespace(), "{:?}", c);
    }
}

#[test]
fn cleaning_twice_changes_nothing() {
    let once = lib::markup::clean_text(&" a \u{3000} b\tc ".chars().collect::<Vec<char>>());
    assert_eq!(once.iter().collect::<String>(), "a b c");
    assert_eq!(lib::markup::clean_text(&once), once);
}

#[test]
fn timeout_defaults_to_twenty() {
    let args = |v: &[&str]| v.iter().map(|s| s.to_string()).collect::<Vec<String>>();
    assert_eq!(lib::cli::global_timeout(&args(&["rub-vvz", "search"])), 20);
    assert_eq!(lib::cli::global_timeout(&args(&["rub-vvz", "--timeout", "3"])), 3);
}

#[test]
fn escaped_strings_read_back() {
    let text = "q\"\\\u{0}\u{1b}\n\r\t\u{7f}ü€";
    let escaped = lib::render::json_escape(text);
    assert_eq!(escaped, "q\\\"\\\\\\u0000\\u001b\\n\\r\\t\u{7f}ü€");
    assert!(escaped.chars().all(|c| c >= ' '));
}
