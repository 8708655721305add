//! The commands' logic over loaded cases: gates, prompts, record lines and
//! the scriptify transition. Reading and writing the files is the caller's.
use vstd::prelude::*;
use crate::case::{
    add_record_spec, is_category, lookup, records_view, section_of,
    set_front, strings_view, Case, CaseView, RecordView,
};
use crate::drift::{drift_hash, drift_hash_of};
use crate::text::{chars_of, push_str, string_of};

verus! {

pub open spec fn cases_view(cs: Seq<Case>) -> Seq<CaseView> {
    cs.map_values(|c: Case| c@)
}

/// A field's value, or the empty text when the field is missing.
pub open spec fn field(c: CaseView, key: Seq<char>) -> Seq<char> {
    match lookup(c.front, key) {
        Some(v) => v,
        None => seq![],
    }
}

/// Index of the first case whose `id` is `id`.
pub open spec fn find_case(cs: Seq<CaseView>, id: Seq<char>) -> Option<nat>
    decreases cs.len(),
{
    if cs.len() == 0 {
        None
    } else if lookup(cs[0].front, "id"@) == Some(id) {
        Some(0)
    } else {
        match find_case(cs.drop_first(), id) {
            Some(k) => Some(k + 1),
            None => None,
        }
    }
}

pub open spec fn no_case_message(id: Seq<char>) -> Seq<char> {
    "no case with id '"@ + id + "'"@
}

pub open spec fn is_reviewed(c: CaseView) -> bool {
    lookup(c.front, "status"@) == Some("reviewed"@)
}

/// Each line preceded by a newline.
pub open spec fn prefixed_lines(ls: Seq<Seq<char>>) -> Seq<char>
    decreases ls.len(),
{
    if ls.len() == 0 {
        seq![]
    } else {
        prefixed_lines(ls.drop_last()) + seq!['\n'] + ls.last()
    }
}

/// The execution prompt for a case.
pub open spec fn run_prompt(c: CaseView, id: Seq<char>) -> Seq<char> {
    "# Execute: "@ + field(c, "title"@) + " (mode: "@ + field(c, "mode"@) + ")\nSource: "@ + field(
        c,
        "source"@,
    ) + "\n\n## Steps\n"@ + prefixed_lines(section_of(c.body, "Steps"@)) + "\n\n## Expected\n"@
        + prefixed_lines(section_of(c.body, "Expected"@))
        + "\n\nThen record:\n  opencase record "@ + id
        + " --result pass|fail [--category product-bug|test-bug|environment] [--note ...]"@
}

/// The refusal of `run` and `record` for a case that is not reviewed; it
/// names the way to approve it.
pub open spec fn gate_message(id: Seq<char>) -> Seq<char> {
    "review gate: '"@ + id + "' is not reviewed \u{2014} run `opencase review "@ + id + " --approve` first"@
}

/// `run`: the prompt of a reviewed case.
pub open spec fn run_spec(cs: Seq<CaseView>, id: Seq<char>) -> Result<Seq<char>, Seq<char>> {
    match find_case(cs, id) {
        None => Err(no_case_message(id)),
        Some(i) => if !is_reviewed(cs[i as int]) {
            Err(gate_message(id))
        } else {
            Ok(run_prompt(cs[i as int], id))
        },
    }
}

pub open spec fn record_text(r: RecordView) -> Seq<char> {
    "\n- "@ + r.date + " | "@ + r.commit + " | "@ + r.result + match r.category {
        Some(c) => " | "@ + c,
        None => seq![],
    } + match r.note {
        Some(n) => " | "@ + n,
        None => seq![],
    }
}

pub open spec fn records_text(rs: Seq<RecordView>) -> Seq<char>
    decreases rs.len(),
{
    if rs.len() == 0 {
        seq![]
    } else {
        records_text(rs.drop_last()) + record_text(rs.last())
    }
}

/// The conversion context shared by scriptify and its rebaseline.
pub open spec fn scriptify_context_of(c: CaseView) -> Seq<char> {
    "# Scriptify: "@ + field(c, "title"@) + " (mode: "@ + field(c, "mode"@) + ")\nSource: "@ + field(
        c,
        "source"@,
    ) + "\n\n## Steps\n"@ + prefixed_lines(section_of(c.body, "Steps"@)) + "\n\n## Executions\n"@
        + records_text(c.records)
}

pub open spec fn with_field(c: CaseView, key: Seq<char>, value: Seq<char>) -> CaseView {
    CaseView { front: set_front(c.front, key, value), ..c }
}

/// `scriptify`: the context to print and the case as it is written back.
/// Gates: reviewed and manual; `rebaseline` instead needs a scripted case and
/// only refreshes `drift-sha`.
pub open spec fn scriptify_spec(cs: Seq<CaseView>, id: Seq<char>, covered_by: Option<Seq<char>>, rebaseline: bool) -> Result<(CaseView, Seq<char>), Seq<char>> {
    match find_case(cs, id) {
        None => Err(no_case_message(id)),
        Some(i) => {
            let c = cs[i as int];
            let mode = lookup(c.front, "mode"@);
            if !is_reviewed(c) {
                Err("review gate: '"@ + id + "' is not reviewed \u{2014} cannot scriptify"@)
            } else if rebaseline {
                if mode != Some("scripted"@) {
                    Err(
                        "'"@ + id
                            + "' is not scripted \u{2014} --rebaseline refreshes the drift baseline of a scripted case"@,
                    )
                } else {
                    Ok(
                        (
                            with_field(c, "drift-sha"@, drift_hash_of(c.body)),
                            scriptify_context_of(c)
                                + "\n\nDrift baseline refreshed. Update the script to match the current Steps, then validate."@,
                        ),
                    )
                }
            } else if mode == Some("scripted"@) {
                Err("'"@ + id + "' is already scripted"@)
            } else if mode != Some("manual"@) {
                Err("'"@ + id + "' is not manual \u{2014} scriptify converts manual cases"@)
            } else {
                let cb = match covered_by {
                    Some(p) => p,
                    None => "tests/"@ + id + ".spec.ts"@,
                };
                Ok(
                    (
                        with_field(
                            with_field(with_field(c, "mode"@, "scripted"@), "covered-by"@, cb),
                            "drift-sha"@,
                            drift_hash_of(c.body),
                        ),
                        scriptify_context_of(c) + "\n\nWrite the script at '"@ + cb
                            + "' from the steps above, then re-run validate."@,
                    ),
                )
            }
        },
    }
}

/// A record line as `record` writes it, without its leading `"- "`.
pub open spec fn record_line_text(
    date: Seq<char>,
    commit: Seq<char>,
    result: Seq<char>,
    category: Option<Seq<char>>,
    note: Option<Seq<char>>,
) -> Seq<char> {
    date + " | "@ + commit + " | "@ + result + match category {
        Some(k) => " | "@ + k,
        None => seq![],
    } + match note {
        Some(n) => " | "@ + n,
        None => seq![],
    }
}

/// The record line `record` appends (without its `"- "`), or why it refuses.
/// Gates: reviewed, manual, a result of pass or fail, a known category on
/// a failed run and none on a pass, and no `|` in the note.
pub open spec fn record_plan(
    cs: Seq<CaseView>,
    id: Seq<char>,
    result: Seq<char>,
    category: Option<Seq<char>>,
    commit: Seq<char>,
    note: Option<Seq<char>>,
    today: Result<Seq<char>, Seq<char>>,
) -> Result<(nat, Seq<char>), Seq<char>> {
    match find_case(cs, id) {
        None => Err(no_case_message(id)),
        Some(i) => {
            let c = cs[i as int];
            if !is_reviewed(c) {
                Err(gate_message(id))
            } else if lookup(c.front, "mode"@) != Some("manual"@) {
                Err(
                    "'"@ + id
                        + "' is scripted \u{2014} scripted results live in CI, opencase only records manual runs"@,
                )
            } else if result != "pass"@ && result != "fail"@ {
                Err("--result must be pass or fail, got '"@ + result + "'"@)
            } else if result == "fail"@ && !(category matches Some(k) && is_category(k)) {
                Err("failed run needs --category: "@ + crate::case::categories_text())
            } else if result == "pass"@ && category is Some {
                Err("--category is only for failed runs"@)
            } else if note matches Some(n) && n.contains('|') {
                Err("--note must not contain '|'"@)
            } else {
                match today {
                    Err(e) => Err(e),
                    Ok(date) => Ok((i, record_line_text(date, commit, result, category, note))),
                }
            }
        },
    }
}

pub open spec fn opt_str_view(o: Option<&str>) -> Option<Seq<char>> {
    match o {
        Some(s) => Some(s@),
        None => None,
    }
}

pub open spec fn result_view(r: &Result<String, String>) -> Result<Seq<char>, Seq<char>> {
    match r {
        Ok(s) => Ok(s@),
        Err(e) => Err(e@),
    }
}

// ---------------------------------------------------------------------------
// Executable parts
// ---------------------------------------------------------------------------

pub fn find_case_exec(cases: &Vec<Case>, id: &str) -> (r: Option<usize>)
    ensures
        match r {
            Some(i) => find_case(cases_view(cases@), id@) == Some(i as nat) && i < cases.len(),
            None => find_case(cases_view(cases@), id@) is None,
        },
{
    let ghost all = cases_view(cases@);
    let mut i: usize = 0;
    assert(all.subrange(0, all.len() as int) =~= all);
    while i < cases.len()
        invariant
            i <= cases.len(),
            all == cases_view(cases@),
            find_case(all, id@) == match find_case(all.subrange(i as int, all.len() as int), id@) {
                Some(k) => Some((k + i) as nat),
                None => None,
            },
        decreases cases.len() - i,
    {
        let ghost t = all.subrange(i as int, all.len() as int);
        assert(t.drop_first() =~= all.subrange(i + 1, all.len() as int));
        assert(t[0] == cases@[i as int]@);
        match cases[i].get("id") {
            Some(v) => {
                if crate::text::str_eq(v, id) {
                    return Some(i);
                }
            },
            None => {},
        }
        i += 1;
    }
    None
}

fn push_field(out: &mut Vec<char>, c: &Case, key: &str)
    ensures
        final(out)@ == old(out)@ + field(c@, key@),
{
    match c.get(key) {
        Some(v) => push_str(out, v),
        None => {
            assert(old(out)@ + field(c@, key@) =~= old(out)@);
        },
    }
}

/// Whether the field `key` of `c` is `value`.
pub(crate) fn field_is(c: &Case, key: &str, value: &str) -> (r: bool)
    ensures
        r == (lookup(c@.front, key@) == Some(value@)),
{
    match c.get(key) {
        Some(v) => crate::text::str_eq(v, value),
        None => false,
    }
}

/// The field `key` of `c`, empty when missing.
pub(crate) fn field_chars(c: &Case, key: &str) -> (r: Vec<char>)
    ensures
        r@ == field(c@, key@),
{
    match c.get(key) {
        Some(v) => chars_of(v),
        None => Vec::new(),
    }
}

fn push_prefixed(out: &mut Vec<char>, ls: &Vec<String>)
    ensures
        final(out)@ == old(out)@ + prefixed_lines(strings_view(ls@)),
{
    let ghost start = out@;
    let ghost all = strings_view(ls@);
    let mut i: usize = 0;
    while i < ls.len()
        invariant
            i <= ls.len(),
            all == strings_view(ls@),
            out@ == start + prefixed_lines(all.subrange(0, i as int)),
        decreases ls.len() - i,
    {
        assert(all.subrange(0, i + 1).drop_last() =~= all.subrange(0, i as int));
        out.push('\n');
        push_str(out, ls[i].as_str());
        i += 1;
        assert(out@ =~= start + prefixed_lines(all.subrange(0, i as int)));
    }
    assert(all.subrange(0, ls.len() as int) =~= all);
}

fn err_with_id(before: &str, id: &str, after: &str) -> (r: String)
    ensures
        r@ == before@ + id@ + after@,
{
    let mut out: Vec<char> = Vec::new();
    push_str(&mut out, before);
    push_str(&mut out, id);
    push_str(&mut out, after);
    string_of(&out)
}

fn gate_refusal(id: &str) -> (r: String)
    ensures
        r@ == gate_message(id@),
{
    let mut out: Vec<char> = Vec::new();
    push_str(&mut out, "review gate: '");
    push_str(&mut out, id);
    push_str(&mut out, "' is not reviewed \u{2014} run `opencase review ");
    push_str(&mut out, id);
    push_str(&mut out, " --approve` first");
    string_of(&out)
}

/// `run`: the execution prompt of the case `id`. Gate: reviewed.
pub fn cmd_run(cases: &Vec<Case>, id: &str) -> (r: Result<String, String>)
    ensures
        result_view(&r) == run_spec(cases_view(cases@), id@),
{
    let i = match find_case_exec(cases, id) {
        Some(i) => i,
        None => return Err(err_with_id("no case with id '", id, "'")),
    };
    let c = &cases[i];
    assert(cases_view(cases@)[i as int] == c@);
    if !field_is(c, "status", "reviewed") {
        return Err(gate_refusal(id));
    }
    let mut out: Vec<char> = Vec::new();
    push_str(&mut out, "# Execute: ");
    push_field(&mut out, c, "title");
    push_str(&mut out, " (mode: ");
    push_field(&mut out, c, "mode");
    push_str(&mut out, ")\nSource: ");
    push_field(&mut out, c, "source");
    push_str(&mut out, "\n\n## Steps\n");
    let steps = c.section("Steps");
    push_prefixed(&mut out, &steps);
    push_str(&mut out, "\n\n## Expected\n");
    let expected = c.section("Expected");
    push_prefixed(&mut out, &expected);
    push_str(&mut out, "\n\nThen record:\n  opencase record ");
    push_str(&mut out, id);
    push_str(
        &mut out,
        " --result pass|fail [--category product-bug|test-bug|environment] [--note ...]",
    );
    assert(out@ =~= run_prompt(c@, id@));
    Ok(string_of(&out))
}

fn push_opt_field(out: &mut Vec<char>, v: &Option<String>)
    ensures
        final(out)@ == old(out)@ + match crate::case::opt_view(*v) {
            Some(s) => " | "@ + s,
            None => seq![],
        },
{
    match v {
        Some(s) => {
            push_str(out, " | ");
            push_str(out, s.as_str());
            assert(final(out)@ =~= old(out)@ + (" | "@ + s@));
        },
        None => {
            assert(old(out)@ + Seq::<char>::empty() =~= old(out)@);
        },
    }
}

/// The conversion context: the case's Steps and its execution records.
pub fn scriptify_context(c: &Case) -> (r: String)
    ensures
        r@ == scriptify_context_of(c@),
{
    let mut out: Vec<char> = Vec::new();
    push_str(&mut out, "# Scriptify: ");
    push_field(&mut out, c, "title");
    push_str(&mut out, " (mode: ");
    push_field(&mut out, c, "mode");
    push_str(&mut out, ")\nSource: ");
    push_field(&mut out, c, "source");
    push_str(&mut out, "\n\n## Steps\n");
    let steps = c.section("Steps");
    push_prefixed(&mut out, &steps);
    push_str(&mut out, "\n\n## Executions\n");
    let ghost head = out@;
    let ghost all = c@.records;
    let mut i: usize = 0;
    while i < c.records.len()
        invariant
            i <= c.records.len(),
            all == records_view(c.records@),
            out@ == head + records_text(all.subrange(0, i as int)),
        decreases c.records.len() - i,
    {
        let r = &c.records[i];
        assert(all[i as int] == r@);
        assert(all.subrange(0, i + 1).drop_last() =~= all.subrange(0, i as int));
        let ghost before = out@;
        push_str(&mut out, "\n- ");
        push_str(&mut out, r.date.as_str());
        push_str(&mut out, " | ");
        push_str(&mut out, r.commit.as_str());
        push_str(&mut out, " | ");
        push_str(&mut out, r.result.as_str());
        push_opt_field(&mut out, &r.category);
        push_opt_field(&mut out, &r.note);
        assert(out@ =~= before + record_text(r@));
        i += 1;
        assert(out@ =~= head + records_text(all.subrange(0, i as int)));
    }
    assert(all.subrange(0, c.records.len() as int) =~= all);
    assert(out@ =~= scriptify_context_of(c@));
    string_of(&out)
}

/// `scriptify`: the conversion context (steps and execution records) for an
/// agent to turn into a script, and the case flipped to scripted with a
/// `covered-by` link and a drift baseline. Gates: reviewed and manual.
/// With `rebaseline`, refreshes the drift baseline of a scripted case.
/// The returned case is the one to write back.
pub fn cmd_scriptify(cases: Vec<Case>, id: &str, covered_by: Option<&str>, rebaseline: bool) -> (r: Result<(Case, String), String>)
    ensures
        match r {
            Ok((c, out)) => scriptify_spec(cases_view(cases@), id@, opt_str_view(covered_by), rebaseline) == Ok::<(CaseView, Seq<char>), Seq<char>>((c@, out@)),
            Err(e) => scriptify_spec(cases_view(cases@), id@, opt_str_view(covered_by), rebaseline) == Err::<(CaseView, Seq<char>), Seq<char>>(e@),
        },
{
    let ghost cv = cases_view(cases@);
    let i = match find_case_exec(&cases, id) {
        Some(i) => i,
        None => return Err(err_with_id("no case with id '", id, "'")),
    };
    let mut cases = cases;
    let mut c = cases.remove(i);
    assert(cv[i as int] == c@);
    if !field_is(&c, "status", "reviewed") {
        return Err(err_with_id("review gate: '", id, "' is not reviewed \u{2014} cannot scriptify"));
    }
    if rebaseline {
        if !field_is(&c, "mode", "scripted") {
            return Err(
                err_with_id(
                    "'",
                    id,
                    "' is not scripted \u{2014} --rebaseline refreshes the drift baseline of a scripted case",
                ),
            );
        }
        let ctx = scriptify_context(&c);
        let h = drift_hash(&c);
        c.set_field("drift-sha", h.as_str());
        let mut out = chars_of(ctx.as_str());
        push_str(
            &mut out,
            "\n\nDrift baseline refreshed. Update the script to match the current Steps, then validate.",
        );
        return Ok((c, string_of(&out)));
    }
    if field_is(&c, "mode", "scripted") {
        return Err(err_with_id("'", id, "' is already scripted"));
    }
    if !field_is(&c, "mode", "manual") {
        return Err(err_with_id("'", id, "' is not manual \u{2014} scriptify converts manual cases"));
    }
    let cb: String = match covered_by {
        Some(p) => string_of(&chars_of(p)),
        None => err_with_id("tests/", id, ".spec.ts"),
    };
    let h = drift_hash(&c);
    let ctx = scriptify_context(&c);
    let mut out = chars_of(ctx.as_str());
    push_str(&mut out, "\n\nWrite the script at '");
    push_str(&mut out, cb.as_str());
    push_str(&mut out, "' from the steps above, then re-run validate.");
    c.set_field("mode", "scripted");
    c.set_field("covered-by", cb.as_str());
    c.set_field("drift-sha", h.as_str());
    Ok((c, string_of(&out)))
}

fn push_opt_str(out: &mut Vec<char>, v: Option<&str>)
    ensures
        final(out)@ == old(out)@ + match opt_str_view(v) {
            Some(s) => " | "@ + s,
            None => seq![],
        },
{
    match v {
        Some(s) => {
            push_str(out, " | ");
            push_str(out, s);
            assert(final(out)@ =~= old(out)@ + (" | "@ + s@));
        },
        None => {
            assert(old(out)@ + Seq::<char>::empty() =~= old(out)@);
        },
    }
}

/// The record line `record` would append to the case `id` (without its
/// `"- "`) and that case's index, or why `record` refuses.
pub fn record_entry(
    cases: &Vec<Case>,
    id: &str,
    result: &str,
    category: Option<&str>,
    commit: &str,
    note: Option<&str>,
    today: &Result<String, String>,
) -> (r: Result<(usize, String), String>)
    ensures
        match r {
            Ok((i, line)) => record_plan(cases_view(cases@), id@, result@, opt_str_view(category), commit@, opt_str_view(note), result_view(today)) == Ok::<(nat, Seq<char>), Seq<char>>((i as nat, line@)) && i < cases.len(),
            Err(e) => record_plan(cases_view(cases@), id@, result@, opt_str_view(category), commit@, opt_str_view(note), result_view(today)) == Err::<(nat, Seq<char>), Seq<char>>(e@),
        },
{
    let i = match find_case_exec(cases, id) {
        Some(i) => i,
        None => return Err(err_with_id("no case with id '", id, "'")),
    };
    let c = &cases[i];
    assert(cases_view(cases@)[i as int] == c@);
    if !field_is(c, "status", "reviewed") {
        return Err(gate_refusal(id));
    }
    if !field_is(c, "mode", "manual") {
        return Err(
            err_with_id(
                "'",
                id,
                "' is scripted \u{2014} scripted results live in CI, opencase only records manual runs",
            ),
        );
    }
    let is_pass = crate::text::str_eq(result, "pass");
    let is_fail = crate::text::str_eq(result, "fail");
    if !is_pass && !is_fail {
        return Err(err_with_id("--result must be pass or fail, got '", result, "'"));
    }
    proof {
        reveal_strlit("pass");
        reveal_strlit("fail");
        assert("pass"@[0] != "fail"@[0]);
    }
    if is_fail {
        let known = match category {
            Some(k) => {
                let kv = chars_of(k);
                crate::text::chars_eq_str(&kv, "product-bug") || crate::text::chars_eq_str(&kv, "test-bug")
                    || crate::text::chars_eq_str(&kv, "environment")
            },
            None => false,
        };
        if !known {
            let mut out: Vec<char> = Vec::new();
            push_str(&mut out, "failed run needs --category: ");
            push_str(&mut out, "[\"product-bug\", \"test-bug\", \"environment\"]");
            return Err(string_of(&out));
        }
    } else if category.is_some() {
        return Err(string_of(&chars_of("--category is only for failed runs")));
    }
    match note {
        Some(n) => {
            if crate::text::contains_char(&chars_of(n), '|') {
                return Err(string_of(&chars_of("--note must not contain '|'")));
            }
        },
        None => {},
    }
    let date = match today {
        Ok(d) => d,
        Err(e) => return Err(e.clone()),
    };
    let mut out: Vec<char> = Vec::new();
    push_str(&mut out, date.as_str());
    push_str(&mut out, " | ");
    push_str(&mut out, commit);
    push_str(&mut out, " | ");
    push_str(&mut out, result);
    push_opt_str(&mut out, category);
    push_opt_str(&mut out, note);
    Ok((i, string_of(&out)))
}

/// `record`: appends a dated execution record to the case `id`. Gates:
/// reviewed and manual; a failed run needs a category, a pass forbids one.
/// The returned case is the one to write back, with the message to print.
pub fn cmd_record(
    cases: Vec<Case>,
    id: &str,
    result: &str,
    category: Option<&str>,
    commit: &str,
    note: Option<&str>,
    today: &Result<String, String>,
) -> (r: Result<(Case, String), String>)
    ensures
        match record_plan(cases_view(cases@), id@, result@, opt_str_view(category), commit@, opt_str_view(note), result_view(today)) {
            Ok((i, line)) => r matches Ok((c, msg)) && c@ == (CaseView { body: add_record_spec(cases@[i as int]@.body, line), ..cases@[i as int]@ }) && msg@ == id@ + ": recorded "@ + result@,
            Err(e) => r matches Err(e2) && e2@ == e,
        },
{
    match record_entry(&cases, id, result, category, commit, note, today) {
        Err(e) => Err(e),
        Ok((i, line)) => {
            let mut cases = cases;
            let mut c = cases.remove(i);
            c.add_record(line.as_str());
            let msg = recorded_message(id, result);
            Ok((c, msg))
        },
    }
}

fn recorded_message(id: &str, result: &str) -> (r: String)
    ensures
        r@ == id@ + ": recorded "@ + result@,
{
    let mut out: Vec<char> = Vec::new();
    push_str(&mut out, id);
    push_str(&mut out, ": recorded ");
    push_str(&mut out, result);
    string_of(&out)
}

} // verus!
