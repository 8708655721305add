use opencase::case::{parse_case, parse_record_line, Case};
use opencase::drift::{drift_hash, drift_hint};

const VALID_FRONT: &str = "id: login\ntitle: Login\nstatus: draft\nmode: manual\nsource: PRD\n";

fn valid_body() -> &'static str {
    "\n## Steps\n\n1. go\n\n## Expected\n\n- ok\n"
}

fn case_text(front: &str, body: &str) -> String {
    format!("---\n{front}---\n{body}")
}

fn parse(front: &str, body: &str) -> Case {
    parse_case("cases/login.md", &case_text(front, body)).unwrap()
}

#[test]
fn parses_valid_case() {
    let c = parse(VALID_FRONT, valid_body());
    assert_eq!(c.get("id"), Some("login"));
    assert_eq!(c.get("status"), Some("draft"));
    assert_eq!(c.get("source"), Some("PRD"));
    assert!(c.records.is_empty());
    assert!(c.errors.is_empty());
}

#[test]
fn rejects_missing_frontmatter() {
    assert!(parse_case("x.md", "no frontmatter here\n").is_err());
}

#[test]
fn rejects_unterminated_frontmatter() {
    assert!(parse_case("x.md", "---\nid: x\n").is_err());
}

#[test]
fn roundtrip_preserves_file() {
    let before = case_text(VALID_FRONT, valid_body());
    let c = parse_case("cases/login.md", &before).unwrap();
    assert_eq!(c.render(), before);
}

#[test]
fn parses_record_lines() {
    let body = "\n## Executions\n\n- 2025-06-01 | abc123 | pass\n- 2025-06-02 | def456 | fail | product-bug | button unresponsive\n- 2025-06-03 | 111 | fail\n- 2025-06-04 | 222 | pass | test-bug\n- 2025-06-xx | 333 | pass\n";
    let c = parse(VALID_FRONT, body);
    // docs/PRD.md (case file format): on pass lines the first extra field is
    // the note, so `pass | test-bug` is a pass whose note is "test-bug".
    assert_eq!(c.records.len(), 3);
    assert_eq!(c.records[0].result, "pass");
    assert_eq!(c.records[1].category.as_deref(), Some("product-bug"));
    assert_eq!(c.records[1].note.as_deref(), Some("button unresponsive"));
    assert_eq!(c.records[2].commit, "222");
    assert_eq!(c.records[2].category, None);
    assert_eq!(c.records[2].note.as_deref(), Some("test-bug"));
    assert_eq!(c.errors.len(), 2, "errors: {:?}", c.errors);
}

#[test]
fn record_lines_ignored_outside_executions() {
    let body = "\n## Steps\n\n- 2025-06-01 | abc | pass\n\n## Expected\n\n- ok\n";
    let c = parse(VALID_FRONT, body);
    assert!(c.records.is_empty());
    assert!(c.errors.is_empty());
}

// --- further cases of the format ---

#[test]
fn parse_error_messages_name_the_path() {
    let e = parse_case("cases/x.md", "no frontmatter here\n").err().unwrap();
    assert_eq!(e, "cases/x.md: missing frontmatter");
    let e = parse_case("cases/x.md", "---\nid: x\n").err().unwrap();
    assert_eq!(e, "cases/x.md: unterminated frontmatter");
}

#[test]
fn frontmatter_keys_and_values_are_trimmed() {
    let c = parse_case("a.md", "---\n  id :  spaced  \nnot a field\ntitle:T: with colon\n---\nbody").unwrap();
    assert_eq!(c.front.len(), 2);
    assert_eq!(c.get("id"), Some("spaced"));
    assert_eq!(c.get("title"), Some("T: with colon"));
    assert_eq!(c.body, "body");
}

#[test]
fn first_field_wins_on_lookup() {
    let c = parse_case("a.md", "---\nid: one\nid: two\n---\n").unwrap();
    assert_eq!(c.get("id"), Some("one"));
    assert_eq!(c.get("missing"), None);
}

#[test]
fn record_error_variants() {
    let l = |s: &str| parse_record_line(&s.chars().collect::<Vec<char>>());
    assert_eq!(
        l("- 2025-06-01 | a").err().unwrap(),
        "bad record line: - 2025-06-01 | a"
    );
    assert_eq!(
        l("- 2025-6-01 | a | pass").err().unwrap(),
        "bad record date '2025-6-01': - 2025-6-01 | a | pass"
    );
    assert_eq!(
        l("- 2025-06-01 | a | skipped").err().unwrap(),
        "bad record result 'skipped': - 2025-06-01 | a | skipped"
    );
    assert_eq!(
        l("- 2025-06-01 | a | fail | bogus").err().unwrap(),
        "failed record needs category [\"product-bug\", \"test-bug\", \"environment\"]: - 2025-06-01 | a | fail | bogus"
    );
    // docs/PRD.md: field positions follow the result; a pass line has at
    // most a note after the result, so a fifth field is refused.
    assert_eq!(
        l("- 2025-06-01 | a | pass | product-bug | x").err().unwrap(),
        "pass record must not have a category: - 2025-06-01 | a | pass | product-bug | x"
    );
    assert_eq!(l("- 2025-06-01 | a | pass | product-bug").unwrap().note.as_deref(), Some("product-bug"));
    assert!(l("- 2025-06-01 | a | b | c | d | e").is_err());
    let r = l("-  2025-06-01 |  a  | fail | environment | flaky net ").unwrap();
    assert_eq!(r.date, "2025-06-01");
    assert_eq!(r.commit, "a");
    assert_eq!(r.category.as_deref(), Some("environment"));
    assert_eq!(r.note.as_deref(), Some("flaky net"));
}

#[test]
fn record_errors_carry_path() {
    let c = parse(VALID_FRONT, "\n## Executions\n\n- 2025-06-01 | abc | fail\n");
    assert_eq!(
        c.errors,
        vec!["cases/login.md: failed record needs category [\"product-bug\", \"test-bug\", \"environment\"]: - 2025-06-01 | abc | fail".to_string()]
    );
}

#[test]
fn crlf_lines_are_read() {
    // the opening delimiter must be exactly "---\n"
    assert!(parse_case("a.md", "---\r\nid: x\r\n---\r\n").is_err());
    let c = parse_case("a.md", "---\nid: x\r\n---\n## Executions\r\n- 2025-06-01 | c | pass\r\n").unwrap();
    assert_eq!(c.get("id"), Some("x"));
    assert_eq!(c.records.len(), 1);
    assert_eq!(c.records[0].commit, "c");
}

#[test]
fn section_lists_nonblank_lines_under_heading() {
    let c = parse(VALID_FRONT, "\n## Steps\n\n1. go\n   \n2. stop\n\n### Steps\n\n## Expected\n\n- ok\n");
    assert_eq!(c.section("Steps"), vec!["1. go".to_string(), "2. stop".to_string(), "### Steps".to_string()]);
    assert_eq!(c.section("Expected"), vec!["- ok".to_string()]);
    assert!(c.section("Nope").is_empty());
}

#[test]
fn set_field_replaces_or_appends() {
    let mut c = parse(VALID_FRONT, valid_body());
    c.set_status("reviewed");
    assert_eq!(c.get("status"), Some("reviewed"));
    assert_eq!(c.front[2].0, "status");
    c.set_field("covered-by", "tests/login.spec.ts");
    assert_eq!(c.front.len(), 6);
    assert_eq!(c.get("covered-by"), Some("tests/login.spec.ts"));
    assert_eq!(c.get("id"), Some("login"));
    assert!(c.render().contains("status: reviewed\nmode: manual\nsource: PRD\ncovered-by: tests/login.spec.ts\n---\n"));
}

#[test]
fn add_record_creates_section() {
    let mut c = parse(VALID_FRONT, "\n## Steps\n\n1. go");
    c.add_record("2025-06-01 | c1 | pass");
    assert_eq!(c.body, "\n## Steps\n\n1. go\n\n## Executions\n\n- 2025-06-01 | c1 | pass\n");
    let again = parse_case("cases/login.md", &c.render()).unwrap();
    assert_eq!(again.records.len(), 1);
    assert_eq!(again.records[0].commit, "c1");
}

#[test]
fn add_record_goes_after_last_record() {
    let mut c = parse(VALID_FRONT, "## Executions\n\n- 2025-06-01 | a | pass\n- 2025-06-02 | b | pass\n\ntrailing\n");
    c.add_record("2025-06-03 | c | pass");
    assert_eq!(c.body, "## Executions\n\n- 2025-06-01 | a | pass\n- 2025-06-02 | b | pass\n- 2025-06-03 | c | pass\n\ntrailing\n");
}

#[test]
fn add_record_into_empty_section() {
    let mut c = parse(VALID_FRONT, "## Executions\n\n  ");
    c.add_record("2025-06-03 | c | pass");
    assert_eq!(c.body, "## Executions\n\n  \n- 2025-06-03 | c | pass\n");
    let mut c = parse(VALID_FRONT, "## Executions");
    c.add_record("2025-06-03 | c | pass");
    assert_eq!(c.body, "## Executions\n- 2025-06-03 | c | pass\n");
}

#[test]
fn add_record_last_line_without_newline() {
    let mut c = parse(VALID_FRONT, "## Executions\n- 2025-06-01 | a | pass");
    c.add_record("2025-06-02 | b | pass");
    assert_eq!(c.body, "## Executions\n- 2025-06-01 | a | pass\n- 2025-06-02 | b | pass\n");
}

#[test]
fn add_record_after_crlf_lines() {
    let mut c = parse(VALID_FRONT, "## Executions\r\n\r\n- 2025-06-01 | \u{e9}\u{e9} | pass\r\n");
    c.add_record("2025-06-02 | b | pass");
    assert_eq!(c.body, "## Executions\r\n\r\n- 2025-06-01 | \u{e9}\u{e9} | pass\r\n- 2025-06-02 | b | pass\n");
    let again = parse_case("cases/login.md", &c.render()).unwrap();
    assert_eq!(again.records.len(), 2);
}

#[test]
fn add_record_ignores_a_mention_of_the_heading() {
    let mut c = parse(VALID_FRONT, "\n## Steps\n\n1. go\n\n## Expected\n\n- see ## Executions\n");
    c.add_record("2025-06-01 | c1 | pass");
    assert_eq!(c.section("Executions"), vec!["- 2025-06-01 | c1 | pass".to_string()]);
    assert_eq!(c.section("Expected"), vec!["- see ## Executions".to_string()]);
}

#[test]
fn add_record_stays_in_its_section() {
    let mut c = parse(VALID_FRONT, "\n## Executions\n\n- 2025-06-01 | old | pass\n\n## Expected\n\n- ok\n");
    c.add_record("2025-06-02 | new | pass");
    assert_eq!(
        c.section("Executions"),
        vec!["- 2025-06-01 | old | pass".to_string(), "- 2025-06-02 | new | pass".to_string()]
    );
    assert_eq!(c.section("Expected"), vec!["- ok".to_string()]);
}

#[test]
fn pass_record_with_a_note() {
    let parse_record_line = |s: &str| parse_record_line(&s.chars().collect::<Vec<char>>());
    let r = parse_record_line("- 2025-06-05 | abc | pass | looked fine").unwrap();
    assert_eq!(r.result, "pass");
    assert_eq!(r.category, None);
    assert_eq!(r.note.as_deref(), Some("looked fine"));
    // docs/PRD.md: on pass lines the first extra field is the note, even a
    // category word; only a fifth field is refused.
    let r = parse_record_line("- 2025-06-05 | abc | pass | test-bug").unwrap();
    assert_eq!(r.category, None);
    assert_eq!(r.note.as_deref(), Some("test-bug"));
    assert_eq!(
        parse_record_line("- 2025-06-05 | abc | pass | a | b").err().unwrap(),
        "pass record must not have a category: - 2025-06-05 | abc | pass | a | b"
    );
}

#[test]
fn drift_hash_is_fnv1a_of_steps_and_expected() {
    // FNV-1a 64 of "1. go\n\0- ok\n"
    let mut h: u64 = 0xcbf2_9ce4_8422_2325;
    for b in "1. go\n\0- ok\n".as_bytes() {
        h ^= *b as u64;
        h = h.wrapping_mul(0x0000_0100_0000_01b3);
    }
    let c = parse(VALID_FRONT, valid_body());
    assert_eq!(drift_hash(&c), format!("{h:016x}"));
    assert_eq!(drift_hash(&c).len(), 16);
    // the empty case hashes just the separator
    let e = parse(VALID_FRONT, "");
    let mut h0: u64 = 0xcbf2_9ce4_8422_2325;
    h0 ^= 0;
    h0 = h0.wrapping_mul(0x0000_0100_0000_01b3);
    assert_eq!(drift_hash(&e), format!("{h0:016x}"));
}

#[test]
fn drift_hint_needs_a_baseline() {
    let mut c = parse(VALID_FRONT, valid_body());
    assert!(drift_hint(&c).is_none());
    c.set_field("drift-sha", "0000000000000000");
    let h = drift_hint(&c).unwrap();
    assert!(h.contains("opencase scriptify login --rebaseline"), "{h}");
    assert!(h.starts_with("\u{26a0} drift: Steps/Expected changed since scriptify"), "{h}");
    let sha = drift_hash(&c);
    c.set_field("drift-sha", &sha);
    assert!(drift_hint(&c).is_none());
}

#[test]
fn set_field_reads_back_after_write() {
    let mut c = parse(VALID_FRONT, valid_body());
    c.set_field("covered-by", "tests/login.spec.ts");
    c.set_status("reviewed");
    let again = parse_case("cases/login.md", &c.render()).unwrap();
    assert_eq!(again.get("covered-by"), Some("tests/login.spec.ts"));
    assert_eq!(again.get("status"), Some("reviewed"));
    assert_eq!(again.get("title"), Some("Login"));
    assert_eq!(again.front, c.front);
    assert_eq!(again.body, valid_body());
    assert_eq!(again.render(), c.render());
}
