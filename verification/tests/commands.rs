use std::path::Path;

use opencase::case::{parse_case, Case};
use opencase::commands::{cmd_record, cmd_run, cmd_scriptify, record_entry};
use opencase::drift::drift_hint;
use opencase::report::cmd_report;
use opencase::review::{cmd_review, finish_edit, Review};
use opencase::setup::{example_case, installed_message, skill_base_dir, skill_install_count, today_from};
use opencase::validate::{load_cases, validate_dir};

const TODAY: &str = "2025-06-10";

/// A directory tree held in memory: file path to text.
struct Tree {
    files: Vec<(String, String)>,
}

impl Tree {
    fn new() -> Tree {
        Tree { files: Vec::new() }
    }

    fn put(&mut self, path: &str, text: &str) {
        if let Some(slot) = self.files.iter_mut().find(|(p, _)| p == path) {
            slot.1 = text.to_string();
        } else {
            self.files.push((path.to_string(), text.to_string()));
        }
    }

    fn read(&self, path: &str) -> String {
        self.files.iter().find(|(p, _)| p == path).unwrap().1.clone()
    }

    fn has_file(&self, path: &str) -> bool {
        self.files.iter().any(|(p, _)| p == path)
    }

    fn write_case(&mut self, dir: &str, name: &str, front: &str, body: &str) -> String {
        let p = format!("{dir}/{name}.md");
        self.put(&p, &format!("---\n{front}---\n{body}"));
        p
    }

    fn save(&mut self, c: &Case) {
        let text = c.render();
        self.put(&c.path, &text);
    }

    fn load(&self, dir: &str) -> (Vec<Case>, Vec<String>) {
        let entries: Vec<Result<(String, String), String>> = self
            .files
            .iter()
            .filter(|(p, _)| {
                let path = Path::new(p);
                path.parent() == Some(Path::new(dir))
                    && path.extension().and_then(|e| e.to_str()) == Some("md")
            })
            .map(|(p, t)| Ok((p.clone(), t.clone())))
            .collect();
        load_cases(entries)
    }

    fn validate(&self, dir: &str) -> (usize, Vec<String>) {
        let (cases, errs) = self.load(dir);
        let found: Vec<bool> = cases
            .iter()
            .map(|c| match c.get("covered-by") {
                Some(cb) => {
                    let root = Path::new(&c.path)
                        .parent()
                        .and_then(|p| p.parent())
                        .unwrap_or_else(|| Path::new("."));
                    self.has_file(root.join(cb).to_str().unwrap())
                }
                None => false,
            })
            .collect();
        validate_dir(Ok((cases, errs)), &found)
    }

    fn review(&mut self, dir: &str, id: Option<&str>, approve: bool, edit: bool) -> Result<String, String> {
        let loaded = Ok(self.load(dir));
        match cmd_review(loaded, id, approve, edit)? {
            Review::Done(m) => Ok(m),
            Review::Write(c, m) => {
                self.save(&c);
                Ok(m)
            }
            // the editor here changes nothing and exits successfully
            Review::Edit(c) => match finish_edit(&c, parse_case(&c.path, &self.read(&c.path)).unwrap(), id.unwrap()) {
                Review::Done(m) => Ok(m),
                Review::Write(c, m) => {
                    self.save(&c);
                    Ok(m)
                }
                Review::Edit(_) => unreachable!(),
            },
        }
    }

    fn run(&self, dir: &str, id: &str) -> Result<String, String> {
        let (cases, _) = self.load(dir);
        cmd_run(&cases, id)
    }

    fn record(
        &mut self,
        dir: &str,
        id: &str,
        result: &str,
        category: Option<&str>,
        commit: Option<&str>,
        note: Option<&str>,
    ) -> Result<String, String> {
        let (cases, _) = self.load(dir);
        let commit = commit.unwrap_or("unknown");
        let today = Ok(TODAY.to_string());
        let (c, msg) = cmd_record(cases, id, result, category, commit, note, &today)?;
        self.save(&c);
        Ok(msg)
    }

    fn scriptify(&mut self, dir: &str, id: &str, covered_by: Option<&str>, rebaseline: bool) -> Result<String, String> {
        let (cases, _) = self.load(dir);
        let (c, out) = cmd_scriptify(cases, id, covered_by, rebaseline)?;
        self.save(&c);
        Ok(out)
    }

    fn report(&self, dir: &str) -> String {
        let (cases, _) = self.load(dir);
        cmd_report(&cases, TODAY)
    }
}

const VALID_FRONT: &str = "id: login\ntitle: Login\nstatus: draft\nmode: manual\nsource: PRD\n";

fn valid_body() -> &'static str {
    "\n## Steps\n\n1. go\n\n## Expected\n\n- ok\n"
}

fn reviewed_front(name: &str) -> String {
    format!("id: {name}\ntitle: {name}\nstatus: reviewed\nmode: manual\nsource: P\n")
}

fn front_for(name: &str) -> String {
    format!("id: {name}\ntitle: {name}\nstatus: draft\nmode: manual\nsource: P\n")
}

fn reviewed_manual(name: &str) -> String {
    format!("id: {name}\ntitle: {name}\nstatus: reviewed\nmode: manual\nsource: P\n")
}

fn parse_at(t: &Tree, p: &str) -> Case {
    parse_case(p, &t.read(p)).unwrap()
}

// --- validate ---

#[test]
fn validate_accepts_valid_dir() {
    let mut t = Tree::new();
    t.write_case("d/cases", "a", VALID_FRONT, valid_body());
    t.write_case(
        "d/cases",
        "b",
        "id: b\ntitle: B\nstatus: reviewed\nmode: scripted\nsource: P\ncovered-by: tests/b.spec.ts\n",
        valid_body(),
    );
    t.put("d/tests/b.spec.ts", "// stub\n");
    let (count, problems) = t.validate("d/cases");
    assert_eq!(count, 2);
    assert!(problems.is_empty(), "problems: {:?}", problems);
}

#[test]
fn validate_flags_missing_field() {
    let mut t = Tree::new();
    t.write_case("d", "a", "id: a\ntitle: A\nmode: manual\nsource: P\n", valid_body());
    let (_, problems) = t.validate("d");
    assert!(problems.iter().any(|p| p.contains("missing 'status'")), "{:?}", problems);
}

#[test]
fn validate_flags_duplicate_id() {
    let mut t = Tree::new();
    t.write_case("d", "a", VALID_FRONT, valid_body());
    t.write_case("d", "b", "id: login\ntitle: B\nstatus: draft\nmode: manual\nsource: P\n", valid_body());
    let (_, problems) = t.validate("d");
    assert!(problems.iter().any(|p| p.contains("duplicate id 'login'")), "{:?}", problems);
    assert_eq!(problems, vec!["d/b.md: duplicate id 'login' (also d/a.md)".to_string()]);
}

#[test]
fn validate_flags_bad_status_and_mode() {
    let mut t = Tree::new();
    t.write_case("d", "a", "id: a\ntitle: A\nstatus: shipped\nmode: manual\nsource: P\n", valid_body());
    t.write_case("d", "b", "id: b\ntitle: B\nstatus: draft\nmode: magical\nsource: P\n", valid_body());
    let (_, problems) = t.validate("d");
    assert!(problems.iter().any(|p| p.contains("bad status 'shipped'")), "{:?}", problems);
    assert!(problems.iter().any(|p| p.contains("bad mode 'magical'")), "{:?}", problems);
    assert!(problems.contains(&"d/a.md: bad status 'shipped' (need [\"draft\", \"reviewed\"])".to_string()));
    assert!(problems.contains(&"d/b.md: bad mode 'magical' (need [\"manual\", \"scripted\"])".to_string()));
}

#[test]
fn validate_flags_bad_records() {
    let mut t = Tree::new();
    t.write_case("d", "a", VALID_FRONT, "\n## Executions\n\n- 2025-06-01 | abc | fail\n");
    let (_, problems) = t.validate("d");
    assert!(problems.iter().any(|p| p.contains("failed record needs category")), "{:?}", problems);
}

#[test]
fn validate_missing_dir() {
    let err = "/nonexistent/opencase-test-dir: No such file or directory (os error 2)".to_string();
    let (count, problems) = validate_dir(Err(err), &Vec::new());
    assert_eq!(count, 0);
    assert_eq!(problems.len(), 1);
}

#[test]
fn validate_flags_missing_covered_by_file() {
    let mut t = Tree::new();
    t.write_case(
        "d",
        "a",
        "id: a\ntitle: A\nstatus: reviewed\nmode: manual\nsource: P\ncovered-by: tests/a.spec.ts\n",
        valid_body(),
    );
    let (_, problems) = t.validate("d");
    assert!(problems.iter().any(|p| p.contains("covered-by file missing")), "{:?}", problems);
}

#[test]
fn validate_flags_scripted_without_covered_by() {
    let mut t = Tree::new();
    t.write_case("d", "a", "id: a\ntitle: A\nstatus: reviewed\nmode: scripted\nsource: P\n", valid_body());
    let (_, problems) = t.validate("d");
    assert!(
        problems.iter().any(|p| p.contains("scripted case needs 'covered-by'")),
        "{:?}",
        problems
    );
}

#[test]
fn validate_reports_unreadable_entries_first() {
    let (cases, errs) = load_cases(vec![
        Ok(("d/a.md".to_string(), "no frontmatter".to_string())),
        Err("d/b.md: permission denied".to_string()),
        Ok(("d/c.md".to_string(), format!("---\n{}---\n", front_for("c")))),
    ]);
    assert_eq!(cases.len(), 1);
    assert_eq!(errs, vec!["d/a.md: missing frontmatter".to_string(), "d/b.md: permission denied".to_string()]);
    let (count, problems) = validate_dir(Ok((cases, errs)), &vec![false]);
    assert_eq!(count, 1);
    assert_eq!(problems.len(), 2);
}

#[test]
fn load_orders_by_id_then_path() {
    let (cases, _) = load_cases(vec![
        Ok(("d/z.md".to_string(), "---\nid: b\n---\n".to_string())),
        Ok(("d/y.md".to_string(), "---\nid: a\n---\n".to_string())),
        Ok(("d/x.md".to_string(), "---\ntitle: none\n---\n".to_string())),
        Ok(("d/w.md".to_string(), "---\nid: b\n---\n".to_string())),
    ]);
    let paths: Vec<&str> = cases.iter().map(|c| c.path.as_str()).collect();
    assert_eq!(paths, vec!["d/x.md", "d/y.md", "d/w.md", "d/z.md"]);
}

#[test]
fn validate_lists_every_missing_field_in_order() {
    let (cases, errs) = load_cases(vec![Ok(("d/e.md".to_string(), "---\n---\n".to_string()))]);
    // with no field at all the closing delimiter is not found
    assert!(cases.is_empty());
    assert_eq!(errs, vec!["d/e.md: unterminated frontmatter".to_string()]);
    let (cases, errs) = load_cases(vec![Ok(("d/e.md".to_string(), "---\nx: 1\n---\n".to_string()))]);
    let (_, problems) = validate_dir(Ok((cases, errs)), &vec![false]);
    assert_eq!(
        problems,
        vec![
            "d/e.md: missing 'id'".to_string(),
            "d/e.md: missing 'title'".to_string(),
            "d/e.md: missing 'status'".to_string(),
            "d/e.md: missing 'mode'".to_string(),
            "d/e.md: missing 'source'".to_string(),
        ]
    );
}

// --- review state machine ---

#[test]
fn review_lists_drafts_only() {
    let mut t = Tree::new();
    t.write_case("d", "a", &reviewed_front("a"), valid_body());
    t.write_case("d", "b", &front_for("b"), valid_body());
    let out = t.review("d", None, false, false).unwrap();
    assert!(out.contains("b"), "out: {out}");
    assert!(!out.contains("a"), "out: {out}");
}

#[test]
fn review_listing_columns() {
    let mut t = Tree::new();
    t.write_case("d", "b", &front_for("b"), valid_body());
    let out = t.review("d", None, false, false).unwrap();
    assert_eq!(out, format!("{:<28} {:<32} {}", "b", "b", "P"));
}

#[test]
fn review_no_drafts_message() {
    let mut t = Tree::new();
    t.write_case("d", "a", &reviewed_front("a"), valid_body());
    let out = t.review("d", None, false, false).unwrap();
    assert!(out.contains("no draft cases"), "out: {out}");
}

#[test]
fn review_approve_flips_to_reviewed() {
    let mut t = Tree::new();
    let p = t.write_case("d", "b", &front_for("b"), valid_body());
    let out = t.review("d", Some("b"), true, false).unwrap();
    assert!(out.contains("approved"), "out: {out}");
    let text = t.read(&p);
    assert!(text.contains("status: reviewed"), "text: {text}");
}

#[test]
fn review_approve_reviewed_is_noop() {
    let mut t = Tree::new();
    let p = t.write_case("d", "a", &reviewed_front("a"), valid_body());
    let out = t.review("d", Some("a"), true, false).unwrap();
    assert!(out.contains("already reviewed"), "out: {out}");
    assert!(t.read(&p).contains("status: reviewed"));
}

#[test]
fn review_edit_resets_reviewed_to_draft() {
    let mut t = Tree::new();
    let p = t.write_case("d", "a", &reviewed_front("a"), valid_body());
    let out = t.review("d", Some("a"), false, true).unwrap();
    assert!(out.contains("reset to draft"), "out: {out}");
    let text = t.read(&p);
    assert!(text.contains("status: draft"), "text: {text}");
}

#[test]
fn review_edit_draft_stays_draft() {
    let mut t = Tree::new();
    let p = t.write_case("d", "b", &front_for("b"), valid_body());
    let out = t.review("d", Some("b"), false, true).unwrap();
    assert!(out.contains("still draft"), "out: {out}");
    assert!(t.read(&p).contains("status: draft"));
}

#[test]
fn review_unknown_id_and_flag_mix() {
    let mut t = Tree::new();
    t.write_case("d", "a", VALID_FRONT, valid_body());
    assert!(t.review("d", Some("nope"), true, false).is_err());
    assert!(t.review("d", Some("a"), true, true).is_err());
    assert!(t.review("d", None, true, false).is_err());
}

#[test]
fn review_error_messages() {
    assert_eq!(
        cmd_review(Err("cases: gone".to_string()), None, true, true).err().unwrap(),
        "use only one of --approve / --edit"
    );
    assert_eq!(cmd_review(Err("cases: gone".to_string()), None, false, false).err().unwrap(), "cases: gone");
    assert_eq!(
        cmd_review(Ok((Vec::new(), Vec::new())), None, false, true).err().unwrap(),
        "review --edit needs a case id"
    );
    assert_eq!(
        cmd_review(Ok((Vec::new(), vec!["x: bad".to_string(), "y: bad".to_string()])), None, false, false)
            .err()
            .unwrap(),
        "x: bad\ny: bad"
    );
    assert_eq!(
        cmd_review(Ok((Vec::new(), Vec::new())), Some("q"), false, false).err().unwrap(),
        "no case with id 'q'"
    );
}

#[test]
fn review_shows_status_of_one_case() {
    let mut t = Tree::new();
    t.write_case("d", "a", &reviewed_front("a"), valid_body());
    assert_eq!(t.review("d", Some("a"), false, false).unwrap(), "a: status=reviewed mode=manual");
}

// --- run + record ---

#[test]
fn run_refused_on_draft() {
    let mut t = Tree::new();
    t.write_case("d", "a", &front_for("a"), valid_body());
    let err = t.run("d", "a").unwrap_err();
    assert!(err.contains("review gate"), "err: {err}");
}

#[test]
fn run_prints_prompt() {
    let mut t = Tree::new();
    t.write_case("d", "a", &reviewed_manual("a"), valid_body());
    let out = t.run("d", "a").unwrap();
    assert!(out.contains("Source: P"));
    assert!(out.contains("1. go"));
    assert!(out.contains("- ok"));
    assert_eq!(
        out,
        "# Execute: a (mode: manual)\nSource: P\n\n## Steps\n\n1. go\n\n## Expected\n\n- ok\n\nThen record:\n  opencase record a --result pass|fail [--category product-bug|test-bug|environment] [--note ...]"
    );
}

#[test]
fn record_refused_on_draft() {
    let mut t = Tree::new();
    t.write_case("d", "a", &front_for("a"), valid_body());
    let err = t.record("d", "a", "pass", None, Some("c1"), None).unwrap_err();
    assert!(err.contains("review gate"), "err: {err}");
}

#[test]
fn record_refused_on_scripted() {
    let mut t = Tree::new();
    t.write_case(
        "d",
        "a",
        "id: a\ntitle: A\nstatus: reviewed\nmode: scripted\nsource: P\ncovered-by: tests/a.spec.ts\n",
        valid_body(),
    );
    let err = t.record("d", "a", "pass", None, Some("c1"), None).unwrap_err();
    assert!(err.contains("scripted"), "err: {err}");
}

#[test]
fn record_pass_appends_line() {
    let mut t = Tree::new();
    let p = t.write_case("d", "a", &reviewed_manual("a"), valid_body());
    t.record("d", "a", "pass", None, Some("abc123"), None).unwrap();
    let text = t.read(&p);
    assert!(text.contains("## Executions"), "text: {text}");
    assert!(text.contains("- 20"), "text: {text}");
    let c = parse_at(&t, &p);
    assert_eq!(c.records.len(), 1);
    assert_eq!(c.records[0].result, "pass");
    assert_eq!(c.records[0].commit, "abc123");
    assert!(c.errors.is_empty(), "{:?}", c.errors);
}

#[test]
fn record_fail_requires_category() {
    let mut t = Tree::new();
    t.write_case("d", "a", &reviewed_manual("a"), valid_body());
    let err = t.record("d", "a", "fail", None, Some("c1"), None).unwrap_err();
    assert!(err.contains("--category"), "err: {err}");
    let err = t.record("d", "a", "fail", Some("bogus"), Some("c1"), None).unwrap_err();
    assert!(err.contains("--category"), "err: {err}");
}

#[test]
fn record_fail_with_category_appends() {
    let mut t = Tree::new();
    let p = t.write_case("d", "a", &reviewed_manual("a"), valid_body());
    t.record("d", "a", "fail", Some("product-bug"), Some("c1"), Some("button broken")).unwrap();
    let text = t.read(&p);
    assert!(text.contains("fail | product-bug | button broken"), "text: {text}");
}

#[test]
fn record_pass_rejects_category() {
    let mut t = Tree::new();
    t.write_case("d", "a", &reviewed_manual("a"), valid_body());
    let err = t.record("d", "a", "pass", Some("test-bug"), Some("c1"), None).unwrap_err();
    assert!(err.contains("only for failed"), "err: {err}");
}

#[test]
fn record_note_rejects_pipe() {
    let mut t = Tree::new();
    t.write_case("d", "a", &reviewed_manual("a"), valid_body());
    let err = t.record("d", "a", "pass", None, Some("c1"), Some("a|b")).unwrap_err();
    assert!(err.contains("'|'"), "err: {err}");
}

#[test]
fn record_appends_in_order() {
    let mut t = Tree::new();
    let p = t.write_case("d", "a", &reviewed_manual("a"), valid_body());
    t.record("d", "a", "pass", None, Some("c1"), None).unwrap();
    t.record("d", "a", "fail", Some("test-bug"), Some("c2"), Some("wrong expectation")).unwrap();
    let c = parse_at(&t, &p);
    assert_eq!(c.records.len(), 2);
    assert_eq!(c.records[0].commit, "c1");
    assert_eq!(c.records[1].result, "fail");
    assert_eq!(c.records[1].category.as_deref(), Some("test-bug"));
}

#[test]
fn record_appends_into_existing_section() {
    let mut t = Tree::new();
    let p = t.write_case(
        "d",
        "a",
        &reviewed_manual("a"),
        "\n## Steps\n\n1. go\n\n## Expected\n\n- ok\n\n## Executions\n\n- 2025-06-01 | old | pass\n",
    );
    t.record("d", "a", "pass", None, Some("new"), None).unwrap();
    let c = parse_at(&t, &p);
    assert_eq!(c.records.len(), 2);
    assert_eq!(c.records[0].commit, "old");
    assert_eq!(c.records[1].commit, "new");
}

#[test]
fn record_error_messages() {
    let mut t = Tree::new();
    t.write_case("d", "a", &reviewed_manual("a"), valid_body());
    assert_eq!(t.record("d", "zz", "pass", None, None, None).unwrap_err(), "no case with id 'zz'");
    assert_eq!(
        t.record("d", "a", "maybe", None, None, None).unwrap_err(),
        "--result must be pass or fail, got 'maybe'"
    );
    assert_eq!(
        t.record("d", "a", "fail", None, None, None).unwrap_err(),
        "failed run needs --category: [\"product-bug\", \"test-bug\", \"environment\"]"
    );
    let (cases, _) = t.load("d");
    let err = cmd_record(cases, "a", "pass", None, "c", None, &Err("no date".to_string())).err().unwrap();
    assert_eq!(err, "no date");
}

#[test]
fn record_message_and_line() {
    let mut t = Tree::new();
    let p = t.write_case("d", "a", &reviewed_manual("a"), valid_body());
    let msg = t.record("d", "a", "fail", Some("environment"), None, Some("net down")).unwrap();
    assert_eq!(msg, "a: recorded fail");
    assert!(t.read(&p).ends_with("\n## Executions\n\n- 2025-06-10 | unknown | fail | environment | net down\n"));
}

// --- scriptify ---

#[test]
fn scriptify_refused_on_draft() {
    let mut t = Tree::new();
    t.write_case("d", "a", &front_for("a"), valid_body());
    let err = t.scriptify("d", "a", None, false).unwrap_err();
    assert!(err.contains("review gate"), "err: {err}");
}

#[test]
fn scriptify_refused_when_already_scripted() {
    let mut t = Tree::new();
    t.write_case(
        "d",
        "a",
        "id: a\ntitle: A\nstatus: reviewed\nmode: scripted\nsource: P\ncovered-by: tests/a.spec.ts\n",
        valid_body(),
    );
    let err = t.scriptify("d", "a", None, false).unwrap_err();
    assert!(err.contains("already scripted"), "err: {err}");
}

#[test]
fn scriptify_refused_when_not_manual() {
    let mut t = Tree::new();
    t.write_case("d", "a", "id: a\ntitle: A\nstatus: reviewed\nmode: magical\nsource: P\n", valid_body());
    let err = t.scriptify("d", "a", None, false).unwrap_err();
    assert!(err.contains("not manual"), "err: {err}");
}

#[test]
fn scriptify_flips_case_and_passes_validate() {
    let mut t = Tree::new();
    let p = t.write_case("d/cases", "a", &reviewed_manual("a"), valid_body());
    t.record("d/cases", "a", "pass", None, Some("c1"), None).unwrap();
    t.record("d/cases", "a", "fail", Some("test-bug"), Some("c2"), Some("wrong expectation")).unwrap();
    t.put("d/tests/a.spec.ts", "// stub\n");
    let out = t.scriptify("d/cases", "a", None, false).unwrap();
    assert!(out.contains("1. go"), "out: {out}");
    assert!(out.contains("fail | test-bug"), "out: {out}");
    let text = t.read(&p);
    assert!(text.contains("mode: scripted"), "text: {text}");
    assert!(text.contains("covered-by: tests/a.spec.ts"), "text: {text}");
    let (_, problems) = t.validate("d/cases");
    assert!(problems.is_empty(), "{:?}", problems);
}

#[test]
fn scriptify_custom_covered_by() {
    let mut t = Tree::new();
    t.write_case("d/cases", "a", &reviewed_manual("a"), valid_body());
    t.put("d/e2e/a.spec.ts", "// stub\n");
    let out = t.scriptify("d/cases", "a", Some("e2e/a.spec.ts"), false).unwrap();
    assert!(out.contains("e2e/a.spec.ts"), "out: {out}");
    let (_, problems) = t.validate("d/cases");
    assert!(problems.is_empty(), "{:?}", problems);
}

#[test]
fn run_allows_scripted_case() {
    let mut t = Tree::new();
    t.write_case(
        "d",
        "a",
        "id: a\ntitle: A\nstatus: reviewed\nmode: scripted\nsource: P\ncovered-by: tests/a.spec.ts\n",
        valid_body(),
    );
    let out = t.run("d", "a").unwrap();
    assert!(out.contains("mode: scripted"), "out: {out}");
}

#[test]
fn scriptify_context_lists_steps_and_records() {
    let mut t = Tree::new();
    t.write_case("d", "a", &reviewed_manual("a"), valid_body());
    t.record("d", "a", "pass", None, Some("c1"), None).unwrap();
    let out = t.scriptify("d", "a", None, false).unwrap();
    assert_eq!(
        out,
        "# Scriptify: a (mode: manual)\nSource: P\n\n## Steps\n\n1. go\n\n## Executions\n\n- 2025-06-10 | c1 | pass\n\nWrite the script at 'tests/a.spec.ts' from the steps above, then re-run validate."
    );
}

// --- drift hint ---

fn scripted_tree() -> (Tree, String) {
    let mut t = Tree::new();
    let p = t.write_case("d/cases", "a", &reviewed_manual("a"), valid_body());
    t.put("d/tests/a.spec.ts", "// stub\n");
    (t, p)
}

#[test]
fn scriptify_sets_drift_baseline() {
    let (mut t, p) = scripted_tree();
    t.scriptify("d/cases", "a", None, false).unwrap();
    let c = parse_at(&t, &p);
    assert!(c.get("drift-sha").is_some(), "front: {:?}", c.front);
    assert!(drift_hint(&c).is_none());
}

#[test]
fn drift_hint_fires_when_steps_change() {
    let (mut t, p) = scripted_tree();
    t.scriptify("d/cases", "a", None, false).unwrap();
    let text = t.read(&p).replace("1. go", "1. NEW STEP");
    t.put(&p, &text);
    let c = parse_at(&t, &p);
    assert!(drift_hint(&c).is_some());
    let out = t.review("d/cases", Some("a"), false, false).unwrap();
    assert!(out.contains("drift"), "out: {out}");
    let out = t.review("d/cases", None, false, false).unwrap();
    assert!(out.contains("## Drift"), "out: {out}");
    assert!(out.contains("--rebaseline"), "out: {out}");
}

#[test]
fn no_drift_hint_when_content_unchanged() {
    let (mut t, p) = scripted_tree();
    t.scriptify("d/cases", "a", None, false).unwrap();
    let mut text = t.read(&p);
    text.push_str("\n## Executions\n\n- 2026-08-08 | c1 | pass\n");
    t.put(&p, &text);
    let c = parse_at(&t, &p);
    assert!(drift_hint(&c).is_none());
}

#[test]
fn rebaseline_clears_drift() {
    let (mut t, p) = scripted_tree();
    t.scriptify("d/cases", "a", None, false).unwrap();
    let text = t.read(&p).replace("1. go", "1. NEW STEP");
    t.put(&p, &text);
    let c = parse_at(&t, &p);
    assert!(drift_hint(&c).is_some());
    let out = t.scriptify("d/cases", "a", None, true).unwrap();
    assert!(out.ends_with("Drift baseline refreshed. Update the script to match the current Steps, then validate."));
    let c = parse_at(&t, &p);
    assert!(drift_hint(&c).is_none());
    let mut t2 = Tree::new();
    t2.write_case("d2/cases", "b", &reviewed_manual("b"), valid_body());
    assert!(t2.scriptify("d2/cases", "b", None, true).is_err());
}

// --- init ---

#[test]
fn init_scaffolds_valid_cases_dir() {
    let mut t = Tree::new();
    t.put("d/cases/example-happy-path.md", &example_case());
    let (count, problems) = t.validate("d/cases");
    assert_eq!(count, 1);
    assert!(problems.is_empty(), "{:?}", problems);
    let out = t.review("d/cases", None, false, false).unwrap();
    assert!(out.starts_with("example-happy-path"), "out: {out}");
}

// --- skill install ---

#[test]
fn skill_install_rejects_unknown_agent() {
    let err = skill_base_dir("vim", "/home/u", None).unwrap_err();
    assert!(err.contains("unknown agent"), "err: {err}");
}

#[test]
fn skill_base_dirs() {
    assert_eq!(skill_base_dir("pi", "/h", None).unwrap(), "/h/.agents/skills");
    assert_eq!(skill_base_dir("codex", "/h", None).unwrap(), "/h/.codex/skills");
    assert_eq!(skill_base_dir("project", "/h", None).unwrap(), ".agents/skills");
    assert_eq!(skill_base_dir("vim", "/h", Some("/x")).unwrap(), "/x");
}

#[test]
fn today_must_be_a_date() {
    assert_eq!(today_from("2025-06-10\n").unwrap(), "2025-06-10");
    assert_eq!(
        today_from(" 10.06.2025 ").unwrap_err(),
        "'date +%F' returned unexpected value '10.06.2025'"
    );
}

// --- report ---

#[test]
fn report_empty_dir() {
    let t = Tree::new();
    let out = t.report("d");
    assert!(out.contains("no cases"), "out: {out}");
    assert_eq!(out, "# Opencase Report \u{2014} 2025-06-10\n\nno cases\n");
}

#[test]
fn report_counts_table_and_drafts() {
    let mut t = Tree::new();
    t.write_case("d", "b", &reviewed_manual("b"), valid_body());
    t.write_case("d", "a", &front_for("a"), valid_body());
    t.write_case(
        "d",
        "c",
        "id: c\ntitle: C\nstatus: reviewed\nmode: scripted\nsource: P\ncovered-by: tests/c.spec.ts\n",
        valid_body(),
    );
    t.write_case("d", "d", &reviewed_manual("d"), valid_body());
    t.record("d", "d", "fail", Some("product-bug"), Some("abc"), Some("broken")).unwrap();
    let out = t.report("d");
    assert!(out.contains("Total: 4 | reviewed: 3 | draft: 1"), "out: {out}");
    assert!(out.contains("Manual: 3 | scripted: 1 | automated coverage: 1"), "out: {out}");
    assert!(out.contains("|------|"), "out: {out}");
    assert!(out.contains("fail 20"), "out: {out}");
    assert!(out.contains("| b | b | reviewed | manual | — | — |"), "out: {out}");
    assert!(out.contains("## Draft (need review)"), "out: {out}");
    assert!(out.contains("- a — a"), "out: {out}");
    assert!(!out.contains("- b —"), "out: {out}");
}

#[test]
fn report_escapes_pipes() {
    let mut t = Tree::new();
    t.write_case("d", "a", "id: a|b\ntitle: x | y\nstatus: draft\nmode: manual\nsource: P\n", valid_body());
    let out = t.report("d");
    assert!(out.contains("| a\\|b | x \\| y | draft | manual | — | — |"), "out: {out}");
    assert!(out.contains("- a\\|b — x \\| y\n"), "out: {out}");
}

// --- the full loop, in memory ---

#[test]
fn full_loop_in_memory() {
    let mut t = Tree::new();
    t.put("d/cases/checkout-success.md", "---\nid: checkout-success\ntitle: Checkout succeeds\nstatus: draft\nmode: manual\nsource: PRD §3\n---\n\n## Steps\n\n1. Add to cart\n2. Check out\n\n## Expected\n\n- Order created\n");
    assert!(t.run("d/cases", "checkout-success").unwrap_err().contains("review gate"));
    assert!(t.review("d/cases", None, false, false).unwrap().contains("checkout-success"));
    t.review("d/cases", Some("checkout-success"), true, false).unwrap();
    let out = t.run("d/cases", "checkout-success").unwrap();
    assert!(out.contains("## Steps") && out.contains("checkout"), "run: {out}");
    t.record("d/cases", "checkout-success", "pass", None, Some("abc"), None).unwrap();
    assert!(t.record("d/cases", "checkout-success", "fail", None, None, None).unwrap_err().contains("--category"));
    t.record("d/cases", "checkout-success", "fail", Some("test-bug"), Some("abc"), Some("wrong expectation")).unwrap();
    let out = t.report("d/cases");
    assert!(out.contains("checkout-success"), "report: {out}");
    assert!(out.contains("fail 20"), "report: {out}");
    let (count, problems) = t.validate("d/cases");
    assert_eq!(count, 1);
    assert!(problems.is_empty(), "{:?}", problems);
}

#[test]
fn recorded_failure_reads_back_after_reload() {
    let mut t = Tree::new();
    let p = t.write_case(
        "d",
        "a",
        &reviewed_manual("a"),
        "\n## Steps\n\n1. go\n\n## Executions\n\n- 2025-06-01 | old | pass\n\n",
    );
    t.record("d", "a", "fail", Some("test-bug"), Some(" abc "), Some(" flaky wait ")).unwrap();
    let c = parse_at(&t, &p);
    assert!(c.errors.is_empty());
    assert_eq!(c.records.len(), 2);
    let r = &c.records[1];
    assert_eq!(r.date, TODAY);
    assert_eq!(r.commit, "abc");
    assert_eq!(r.result, "fail");
    assert_eq!(r.category.as_deref(), Some("test-bug"));
    assert_eq!(r.note.as_deref(), Some("flaky wait"));
    assert_eq!(c.get("status"), Some("reviewed"));
}

#[test]
fn recorded_pass_with_note_reads_back() {
    let mut t = Tree::new();
    let p = t.write_case("d", "a", &reviewed_manual("a"), valid_body());
    t.record("d", "a", "pass", None, Some("abc"), Some("smooth")).unwrap();
    let c = parse_at(&t, &p);
    assert!(c.errors.is_empty());
    assert_eq!(c.records.len(), 1);
    assert_eq!(c.records[0].note.as_deref(), Some("smooth"));
    assert_eq!(c.records[0].category, None);
}

#[test]
fn record_goes_under_executions_before_a_later_section() {
    let mut t = Tree::new();
    let p = t.write_case(
        "d",
        "a",
        &reviewed_manual("a"),
        "\n## Steps\n\n1. go\n\n## Executions\n\n- 2025-06-01 | old | pass\n\n## Notes\n\nplain text\n",
    );
    t.record("d", "a", "pass", None, Some("new"), None).unwrap();
    assert!(t.read(&p).ends_with(
        "## Executions\n\n- 2025-06-01 | old | pass\n- 2025-06-10 | new | pass\n\n## Notes\n\nplain text\n"
    ));
    let c = parse_at(&t, &p);
    assert_eq!(c.records.len(), 2);
    assert_eq!(c.records[1].commit, "new");
    assert_eq!(c.section("Notes"), vec!["plain text".to_string()]);
}

#[test]
fn review_edit_keeps_the_edit_and_resets_to_draft() {
    let mut t = Tree::new();
    let p = t.write_case("d", "a", &reviewed_front("a"), valid_body());
    let (cases, errs) = t.load("d");
    let before = match cmd_review(Ok((cases, errs)), Some("a"), false, true).unwrap() {
        Review::Edit(c) => c,
        _ => panic!("expected an edit"),
    };
    // the editor rewrites the title and the steps
    t.put(
        &p,
        "---\nid: a\ntitle: A renamed\nstatus: reviewed\nmode: manual\nsource: P\n---\n\n## Steps\n\n1. go twice\n",
    );
    let edited = parse_case(&p, &t.read(&p)).unwrap();
    match finish_edit(&before, edited, "a") {
        Review::Write(c, m) => {
            assert_eq!(m, "a: edited \u{2014} status reset to draft");
            t.save(&c);
        }
        _ => panic!("expected a write-back"),
    }
    assert_eq!(
        t.read(&p),
        "---\nid: a\ntitle: A renamed\nstatus: draft\nmode: manual\nsource: P\n---\n\n## Steps\n\n1. go twice\n"
    );
}

#[test]
fn report_lists_failures_and_recent_runs() {
    let mut t = Tree::new();
    t.write_case("d", "b", &reviewed_manual("b"), valid_body());
    t.write_case("d", "a", &front_for("a"), valid_body());
    t.write_case("d", "d", &reviewed_manual("d"), valid_body());
    t.record("d", "d", "fail", Some("product-bug"), Some("abc"), Some("broken")).unwrap();
    let out = t.report("d");
    assert!(out.contains("Total: 3 | reviewed: 2 | draft: 1 | failures: 1\n"), "out: {out}");
    assert!(out.contains("\n## Failures (need triage)\n- d \u{2014} 2025-06-10 | product-bug | broken\n"), "out: {out}");
    assert!(out.ends_with("\n## Recent executions\n- 2025-06-10 | d | fail | product-bug | broken\n"), "out: {out}");
}

#[test]
fn report_recent_runs_are_latest_first_and_at_most_ten() {
    let mut t = Tree::new();
    let mut body = String::from("\n## Executions\n\n");
    for day in 1..=12 {
        body.push_str(&format!("- 2025-05-{day:02} | c{day} | pass\n"));
    }
    t.write_case("d", "a", &reviewed_manual("a"), &body);
    t.write_case("d", "b", &reviewed_manual("b"), "\n## Executions\n\n- 2025-05-20 | x | pass\n");
    let out = t.report("d");
    let recent = out.split("## Recent executions\n").nth(1).unwrap();
    let lines: Vec<&str> = recent.lines().collect();
    assert_eq!(lines.len(), 10);
    assert_eq!(lines[0], "- 2025-05-20 | b | pass");
    assert_eq!(lines[1], "- 2025-05-12 | a | pass");
    assert_eq!(lines[9], "- 2025-05-04 | a | pass");
    assert!(!out.contains("## Failures"));
    assert!(out.contains("| failures: 0\n"));
}

#[test]
fn record_refusal_names_the_approval() {
    let mut t = Tree::new();
    let p = t.write_case("d", "a", &front_for("a"), valid_body());
    let before = t.read(&p);
    let e = t.record("d", "a", "pass", None, Some("test"), None).unwrap_err();
    assert_eq!(e, t.run("d", "a").unwrap_err());
    assert_eq!(e, "review gate: 'a' is not reviewed \u{2014} run `opencase review a --approve` first");
    assert_eq!(t.read(&p), before);
}

#[test]
fn skill_install_stops_at_an_existing_skill_unless_forced() {
    assert_eq!(skill_install_count(&vec![false, true, false], false), 1);
    assert_eq!(skill_install_count(&vec![false, true, false], true), 3);
    assert_eq!(skill_install_count(&vec![false, false], false), 2);
    let names = vec!["case-writer".to_string(), "case-executor".to_string()];
    assert_eq!(
        installed_message(&names, "/h/.agents/skills"),
        "Installed case-writer, case-executor into /h/.agents/skills \u{2014} restart your agent to pick them up"
    );
}

#[test]
fn add_record_into_section_followed_by_indented_text() {
    let mut c = parse_case("cases/a.md", "---\nid: a\n---\n## Executions\n\n  note\n").unwrap();
    c.add_record("2025-06-03 | c | pass");
    assert_eq!(c.body, "## Executions\n\n  \n- 2025-06-03 | c | pass\nnote\n");
}
