//! The markdown report: totals, one row per case, the drafts to review, the
//! failed runs to triage and the latest runs.
use vstd::prelude::*;
use crate::case::{lookup, Case, CaseView, RecordView};
use crate::commands::{cases_view, field, field_is, field_chars};
use crate::validate::{text_lt, text_lt_exec};
use crate::text::{decimal, decimal_exec, esc, esc_exec, push_chars, push_str, string_of};

verus! {

/// Number of cases whose `key` field is `value`.
pub open spec fn count_field(cs: Seq<CaseView>, key: Seq<char>, value: Seq<char>) -> nat
    decreases cs.len(),
{
    if cs.len() == 0 {
        0
    } else {
        count_field(cs.drop_last(), key, value) + if lookup(cs.last().front, key) == Some(value) {
            1nat
        } else {
            0nat
        }
    }
}

/// Number of cases that have a `covered-by` field.
pub open spec fn count_covered(cs: Seq<CaseView>) -> nat
    decreases cs.len(),
{
    if cs.len() == 0 {
        0
    } else {
        count_covered(cs.drop_last()) + if lookup(cs.last().front, "covered-by"@) is Some {
            1nat
        } else {
            0nat
        }
    }
}

/// The latest run as `<result> <date>`, or a dash.
pub open spec fn last_run(c: CaseView) -> Seq<char> {
    if c.records.len() > 0 {
        c.records.last().result + " "@ + c.records.last().date
    } else {
        "\u{2014}"@
    }
}

pub open spec fn covered_or_dash(c: CaseView) -> Seq<char> {
    match lookup(c.front, "covered-by"@) {
        Some(v) => v,
        None => "\u{2014}"@,
    }
}

pub open spec fn report_row(c: CaseView) -> Seq<char> {
    "| "@ + esc(field(c, "id"@)) + " | "@ + esc(field(c, "title"@)) + " | "@ + field(c, "status"@)
        + " | "@ + field(c, "mode"@) + " | "@ + esc(covered_or_dash(c)) + " | "@ + last_run(c)
        + " |\n"@
}

pub open spec fn report_rows(cs: Seq<CaseView>) -> Seq<char>
    decreases cs.len(),
{
    if cs.len() == 0 {
        seq![]
    } else {
        report_rows(cs.drop_last()) + report_row(cs.last())
    }
}

pub open spec fn draft_items(cs: Seq<CaseView>) -> Seq<char>
    decreases cs.len(),
{
    if cs.len() == 0 {
        seq![]
    } else {
        draft_items(cs.drop_last()) + if lookup(cs.last().front, "status"@) == Some("draft"@) {
            "- "@ + esc(field(cs.last(), "id"@)) + " \u{2014} "@ + esc(field(cs.last(), "title"@))
                + "\n"@
        } else {
            seq![]
        }
    }
}

/// A run of a case: the case's id and the record.
pub type RunItem = (Seq<char>, RecordView);

/// The runs of one case, in the order of its records.
pub open spec fn case_runs(c: CaseView) -> Seq<RunItem> {
    c.records.map_values(|r: RecordView| (field(c, "id"@), r))
}

/// Every run, case by case.
pub open spec fn all_runs(cs: Seq<CaseView>) -> Seq<RunItem>
    decreases cs.len(),
{
    if cs.len() == 0 {
        seq![]
    } else {
        all_runs(cs.drop_last()) + case_runs(cs.last())
    }
}

/// Number of failed runs.
pub open spec fn fail_count(items: Seq<RunItem>) -> nat
    decreases items.len(),
{
    if items.len() == 0 {
        0
    } else {
        fail_count(items.drop_last()) + if items.last().1.result == "fail"@ {
            1nat
        } else {
            0nat
        }
    }
}

pub open spec fn opt_field(o: Option<Seq<char>>) -> Seq<char> {
    match o {
        Some(v) => " | "@ + v,
        None => seq![],
    }
}

/// A failed run to triage: case, date, category and note.
pub open spec fn failure_line(it: RunItem) -> Seq<char> {
    "- "@ + it.0 + " \u{2014} "@ + it.1.date + opt_field(it.1.category) + opt_field(it.1.note) + "\n"@
}

pub open spec fn failure_lines(items: Seq<RunItem>) -> Seq<char>
    decreases items.len(),
{
    if items.len() == 0 {
        seq![]
    } else {
        failure_lines(items.drop_last()) + if items.last().1.result == "fail"@ {
            failure_line(items.last())
        } else {
            seq![]
        }
    }
}

/// `x` put into runs ordered latest first: before the first run whose date
/// is not later than its own.
pub open spec fn insert_recent(s: Seq<RunItem>, x: RunItem) -> Seq<RunItem>
    decreases s.len(),
{
    if s.len() == 0 {
        seq![x]
    } else if !text_lt(x.1.date, s[0].1.date) {
        seq![x] + s
    } else {
        seq![s[0]] + insert_recent(s.drop_first(), x)
    }
}

/// The runs ordered latest date first; of runs on one date, the one recorded
/// later (further down, or in a later case) comes first.
pub open spec fn by_recency(items: Seq<RunItem>) -> Seq<RunItem>
    decreases items.len(),
{
    if items.len() == 0 {
        seq![]
    } else {
        insert_recent(by_recency(items.drop_last()), items.last())
    }
}

/// The ten latest runs (or all, when there are fewer).
pub open spec fn recent_runs(items: Seq<RunItem>) -> Seq<RunItem> {
    let b = by_recency(items);
    if b.len() <= 10 {
        b
    } else {
        b.take(10)
    }
}

pub open spec fn recent_line(it: RunItem) -> Seq<char> {
    "- "@ + it.1.date + " | "@ + it.0 + " | "@ + it.1.result + opt_field(it.1.category) + opt_field(it.1.note) + "\n"@
}

pub open spec fn recent_lines(items: Seq<RunItem>) -> Seq<char>
    decreases items.len(),
{
    if items.len() == 0 {
        seq![]
    } else {
        recent_lines(items.drop_last()) + recent_line(items.last())
    }
}

/// The report of `cs` dated `today`: totals by status and mode with the
/// number of failed runs, the number of cases with a script, a table row
/// per case (cells escaped for `|`), the list of drafts, the failed runs to
/// triage, and the ten latest runs across cases.
pub open spec fn report_spec(cs: Seq<CaseView>, today: Seq<char>) -> Seq<char> {
    let header = "# Opencase Report \u{2014} "@ + today + "\n"@;
    if cs.len() == 0 {
        header + "\nno cases\n"@
    } else {
        let total = cs.len();
        let reviewed = count_field(cs, "status"@, "reviewed"@);
        let manual = count_field(cs, "mode"@, "manual"@);
        header + "\nTotal: "@ + decimal(total) + " | reviewed: "@ + decimal(reviewed)
            + " | draft: "@ + decimal((total - reviewed) as nat) + " | failures: "@
            + decimal(fail_count(all_runs(cs))) + "\nManual: "@ + decimal(manual)
            + " | scripted: "@ + decimal((total - manual) as nat) + " | automated coverage: "@
            + decimal(count_covered(cs)) + "\n\n"@
            + "| case | title | status | mode | covered-by | last run |\n"@
            + "|------|-------|--------|------|------------|----------|\n"@ + report_rows(cs)
            + if count_field(cs, "status"@, "draft"@) > 0 {
            "\n## Draft (need review)\n"@ + draft_items(cs)
        } else {
            seq![]
        } + if fail_count(all_runs(cs)) > 0 {
            "\n## Failures (need triage)\n"@ + failure_lines(all_runs(cs))
        } else {
            seq![]
        } + if all_runs(cs).len() > 0 {
            "\n## Recent executions\n"@ + recent_lines(recent_runs(all_runs(cs)))
        } else {
            seq![]
        }
    }
}

pub proof fn lemma_counts_bounded(cs: Seq<CaseView>, key: Seq<char>, value: Seq<char>)
    ensures
        count_field(cs, key, value) <= cs.len(),
        count_covered(cs) <= cs.len(),
    decreases cs.len(),
{
    if cs.len() > 0 {
        lemma_counts_bounded(cs.drop_last(), key, value);
    }
}

fn count_field_exec(cases: &Vec<Case>, key: &str, value: &str) -> (r: usize)
    ensures
        r == count_field(cases_view(cases@), key@, value@),
{
    let ghost cv = cases_view(cases@);
    let mut n: usize = 0;
    let mut i: usize = 0;
    while i < cases.len()
        invariant
            i <= cases.len(),
            cv == cases_view(cases@),
            n == count_field(cv.subrange(0, i as int), key@, value@),
            n <= i,
        decreases cases.len() - i,
    {
        assert(cv.subrange(0, i + 1).drop_last() =~= cv.subrange(0, i as int));
        assert(cv[i as int] == cases@[i as int]@);
        if field_is(&cases[i], key, value) {
            n += 1;
        }
        i += 1;
    }
    assert(cv.subrange(0, cases.len() as int) =~= cv);
    n
}

fn count_covered_exec(cases: &Vec<Case>) -> (r: usize)
    ensures
        r == count_covered(cases_view(cases@)),
{
    let ghost cv = cases_view(cases@);
    let mut n: usize = 0;
    let mut i: usize = 0;
    while i < cases.len()
        invariant
            i <= cases.len(),
            cv == cases_view(cases@),
            n == count_covered(cv.subrange(0, i as int)),
            n <= i,
        decreases cases.len() - i,
    {
        assert(cv.subrange(0, i + 1).drop_last() =~= cv.subrange(0, i as int));
        assert(cv[i as int] == cases@[i as int]@);
        if cases[i].get("covered-by").is_some() {
            n += 1;
        }
        i += 1;
    }
    assert(cv.subrange(0, cases.len() as int) =~= cv);
    n
}

#[verifier::rlimit(40)]
#[verifier::spinoff_prover]
fn push_row(out: &mut Vec<char>, c: &Case)
    ensures
        final(out)@ == old(out)@ + report_row(c@),
{
    let ghost start = out@;
    push_str(out, "| ");
    push_chars(out, &esc_exec(&field_chars(c, "id")));
    push_str(out, " | ");
    push_chars(out, &esc_exec(&field_chars(c, "title")));
    push_str(out, " | ");
    push_chars(out, &field_chars(c, "status"));
    push_str(out, " | ");
    push_chars(out, &field_chars(c, "mode"));
    push_str(out, " | ");
    let cb = match c.get("covered-by") {
        Some(v) => crate::text::chars_of(v),
        None => crate::text::chars_of("\u{2014}"),
    };
    assert(cb@ == covered_or_dash(c@));
    push_chars(out, &esc_exec(&cb));
    push_str(out, " | ");
    if c.records.len() > 0 {
        let r = &c.records[c.records.len() - 1];
        push_str(out, r.result.as_str());
        push_str(out, " ");
        push_str(out, r.date.as_str());
        assert(crate::case::records_view(c.records@).last() == r@);
    } else {
        push_str(out, "\u{2014}");
    }
    push_str(out, " |\n");
    assert(out@ =~= start + report_row(c@));
}

/// A run held for the report: the case's id and the record's fields.
struct Run {
    id: Vec<char>,
    date: Vec<char>,
    commit: Vec<char>,
    result: Vec<char>,
    category: Option<Vec<char>>,
    note: Option<Vec<char>>,
}

spec fn opt_chars_view(o: Option<Vec<char>>) -> Option<Seq<char>> {
    match o {
        Some(v) => Some(v@),
        None => None,
    }
}

impl View for Run {
    type V = RunItem;

    closed spec fn view(&self) -> RunItem {
        (
            self.id@,
            RecordView {
                date: self.date@,
                commit: self.commit@,
                result: self.result@,
                category: opt_chars_view(self.category),
                note: opt_chars_view(self.note),
            },
        )
    }
}

spec fn runs_view(v: Seq<Run>) -> Seq<RunItem> {
    v.map_values(|r: Run| r@)
}

fn opt_chars(o: &Option<String>) -> (r: Option<Vec<char>>)
    ensures
        opt_chars_view(r) == crate::case::opt_view(*o),
{
    match o {
        Some(s) => Some(crate::text::chars_of(s.as_str())),
        None => None,
    }
}

/// Every run of the cases, case by case.
fn collect_runs(cases: &Vec<Case>) -> (r: Vec<Run>)
    ensures
        runs_view(r@) == all_runs(cases_view(cases@)),
{
    let ghost cv = cases_view(cases@);
    let mut out: Vec<Run> = Vec::new();
    let mut i: usize = 0;
    while i < cases.len()
        invariant
            i <= cases.len(),
            cv == cases_view(cases@),
            runs_view(out@) == all_runs(cv.subrange(0, i as int)),
        decreases cases.len() - i,
    {
        let c = &cases[i];
        assert(cv[i as int] == c@);
        let id = field_chars(c, "id");
        let ghost before = runs_view(out@);
        let mut j: usize = 0;
        while j < c.records.len()
            invariant
                j <= c.records.len(),
                id@ == field(c@, "id"@),
                runs_view(out@) == before + case_runs(c@).subrange(0, j as int),
            decreases c.records.len() - j,
        {
            let r = &c.records[j];
            assert(c@.records[j as int] == r@);
            let run = Run {
                id: crate::text::chars_of(string_of(&id).as_str()),
                date: crate::text::chars_of(r.date.as_str()),
                commit: crate::text::chars_of(r.commit.as_str()),
                result: crate::text::chars_of(r.result.as_str()),
                category: opt_chars(&r.category),
                note: opt_chars(&r.note),
            };
            let ghost prev = out@;
            out.push(run);
            assert(runs_view(out@) =~= runs_view(prev).push(run@));
            assert(case_runs(c@).subrange(0, j + 1) =~= case_runs(c@).subrange(0, j as int).push(run@));
            j += 1;
        }
        assert(case_runs(c@).subrange(0, c.records.len() as int) =~= case_runs(c@));
        assert(cv.subrange(0, i + 1).drop_last() =~= cv.subrange(0, i as int));
        i += 1;
    }
    assert(cv.subrange(0, cases.len() as int) =~= cv);
    out
}

fn push_opt_field(out: &mut Vec<char>, o: &Option<Vec<char>>)
    ensures
        final(out)@ == old(out)@ + opt_field(opt_chars_view(*o)),
{
    match o {
        Some(v) => {
            push_str(out, " | ");
            push_chars(out, v);
        },
        None => {
            assert(old(out)@ + Seq::<char>::empty() =~= old(out)@);
        },
    }
}

fn is_fail(r: &Run) -> (b: bool)
    ensures
        b == (r@.1.result == "fail"@),
{
    crate::text::chars_eq_str(&r.result, "fail")
}

fn fail_count_exec(runs: &Vec<Run>) -> (n: usize)
    ensures
        n == fail_count(runs_view(runs@)),
        n <= runs.len(),
{
    let ghost all = runs_view(runs@);
    let mut n: usize = 0;
    let mut k: usize = 0;
    while k < runs.len()
        invariant
            k <= runs.len(),
            all == runs_view(runs@),
            n == fail_count(all.subrange(0, k as int)),
            n <= k,
        decreases runs.len() - k,
    {
        assert(all.subrange(0, k + 1).drop_last() =~= all.subrange(0, k as int));
        assert(all[k as int] == runs@[k as int]@);
        if is_fail(&runs[k]) {
            n += 1;
        }
        k += 1;
    }
    assert(all.subrange(0, runs.len() as int) =~= all);
    n
}

fn push_failures(out: &mut Vec<char>, runs: &Vec<Run>)
    ensures
        final(out)@ == old(out)@ + failure_lines(runs_view(runs@)),
{
    let ghost all = runs_view(runs@);
    let ghost start = out@;
    let mut k: usize = 0;
    while k < runs.len()
        invariant
            k <= runs.len(),
            all == runs_view(runs@),
            out@ == start + failure_lines(all.subrange(0, k as int)),
        decreases runs.len() - k,
    {
        assert(all.subrange(0, k + 1).drop_last() =~= all.subrange(0, k as int));
        let r = &runs[k];
        assert(all[k as int] == r@);
        let ghost before = out@;
        if is_fail(r) {
            push_str(out, "- ");
            push_chars(out, &r.id);
            push_str(out, " \u{2014} ");
            push_chars(out, &r.date);
            push_opt_field(out, &r.category);
            push_opt_field(out, &r.note);
            push_str(out, "\n");
            assert(out@ =~= before + failure_line(r@));
        }
        k += 1;
        assert(out@ =~= start + failure_lines(all.subrange(0, k as int)));
    }
    assert(all.subrange(0, runs.len() as int) =~= all);
}

proof fn lemma_insert_recent(s: Seq<RunItem>, x: RunItem, j: int)
    requires
        0 <= j <= s.len(),
        forall|i: int| 0 <= i < j ==> text_lt(x.1.date, #[trigger] s[i].1.date),
        j < s.len() ==> !text_lt(x.1.date, s[j].1.date),
    ensures
        insert_recent(s, x) == s.insert(j, x),
    decreases s.len(),
{
    if s.len() == 0 {
        assert(s.insert(0, x) =~= seq![x]);
    } else if j == 0 {
        assert(s.insert(0, x) =~= seq![x] + s);
    } else {
        let t = s.drop_first();
        assert forall|i: int| 0 <= i < j - 1 implies text_lt(x.1.date, #[trigger] t[i].1.date) by {
            assert(t[i] == s[i + 1]);
        }
        if j - 1 < t.len() {
            assert(t[j - 1] == s[j]);
        }
        lemma_insert_recent(t, x, j - 1);
        assert(seq![s[0]] + t.insert(j - 1, x) =~= s.insert(j, x));
    }
}

/// The runs ordered latest first.
fn sort_by_recency(runs: Vec<Run>) -> (r: Vec<Run>)
    ensures
        runs_view(r@) == by_recency(runs_view(runs@)),
{
    let ghost all = runs_view(runs@);
    let total = runs.len();
    let mut rest = runs;
    let mut sorted: Vec<Run> = Vec::new();
    let mut k: usize = 0;
    while rest.len() > 0
        invariant
            k + rest.len() == all.len(),
            all.len() == total,
            runs_view(rest@) == all.subrange(k as int, all.len() as int),
            runs_view(sorted@) == by_recency(all.subrange(0, k as int)),
        decreases rest.len(),
    {
        let ghost rv = rest@;
        let x = rest.remove(0);
        assert(runs_view(rest@) =~= runs_view(rv).drop_first());
        assert(x@ == all[k as int]) by {
            assert(runs_view(rv)[0] == rv[0]@);
        }
        let mut j: usize = 0;
        while j < sorted.len() && text_lt_exec(&x.date, &sorted[j].date)
            invariant
                j <= sorted.len(),
                forall|i: int| 0 <= i < j ==> text_lt(x@.1.date, #[trigger] runs_view(sorted@)[i].1.date),
            decreases sorted.len() - j,
        {
            assert(runs_view(sorted@)[j as int] == sorted@[j as int]@);
            j += 1;
        }
        if j < sorted.len() {
            assert(runs_view(sorted@)[j as int] == sorted@[j as int]@);
        }
        let ghost sv = runs_view(sorted@);
        proof {
            lemma_insert_recent(sv, x@, j as int);
        }
        let ghost xv = x@;
        let ghost so = sorted@;
        sorted.insert(j, x);
        assert(runs_view(sorted@) =~= sv.insert(j as int, xv));
        assert(all.subrange(0, k + 1).drop_last() =~= all.subrange(0, k as int));
        assert(all.subrange(0, k + 1).last() == xv);
        k += 1;
        assert(runs_view(rest@) =~= all.subrange(k as int, all.len() as int));
    }
    assert(all.subrange(0, k as int) =~= all);
    sorted
}

fn push_recent(out: &mut Vec<char>, runs: &Vec<Run>, n: usize)
    requires
        n <= runs.len(),
    ensures
        final(out)@ == old(out)@ + recent_lines(runs_view(runs@).take(n as int)),
{
    let ghost all = runs_view(runs@);
    let ghost start = out@;
    let mut k: usize = 0;
    while k < n
        invariant
            k <= n <= runs.len(),
            all == runs_view(runs@),
            out@ == start + recent_lines(all.take(k as int)),
        decreases n - k,
    {
        assert(all.take(k + 1).drop_last() =~= all.take(k as int));
        let r = &runs[k];
        assert(all.take(k + 1).last() == r@);
        let ghost before = out@;
        push_str(out, "- ");
        push_chars(out, &r.date);
        push_str(out, " | ");
        push_chars(out, &r.id);
        push_str(out, " | ");
        push_chars(out, &r.result);
        push_opt_field(out, &r.category);
        push_opt_field(out, &r.note);
        push_str(out, "\n");
        assert(out@ =~= before + recent_line(r@));
        k += 1;
    }
}

proof fn lemma_insert_len(s: Seq<RunItem>, x: RunItem)
    ensures
        insert_recent(s, x).len() == s.len() + 1,
    decreases s.len(),
{
    if s.len() > 0 && text_lt(x.1.date, s[0].1.date) {
        lemma_insert_len(s.drop_first(), x);
    }
}

proof fn lemma_by_recency_len(items: Seq<RunItem>)
    ensures
        by_recency(items).len() == items.len(),
    decreases items.len(),
{
    if items.len() > 0 {
        lemma_by_recency_len(items.drop_last());
        lemma_insert_len(by_recency(items.drop_last()), items.last());
    }
}

/// The failed runs to triage and the latest runs, as the report ends.
fn push_runs(out: &mut Vec<char>, cases: &Vec<Case>)
    ensures
        final(out)@ == old(out)@ + (if fail_count(all_runs(cases_view(cases@))) > 0 {
            "\n## Failures (need triage)\n"@ + failure_lines(all_runs(cases_view(cases@)))
        } else {
            seq![]
        }) + (if all_runs(cases_view(cases@)).len() > 0 {
            "\n## Recent executions\n"@ + recent_lines(recent_runs(all_runs(cases_view(cases@))))
        } else {
            seq![]
        }),
{
    let ghost all = all_runs(cases_view(cases@));
    let ghost start = out@;
    let runs = collect_runs(cases);
    let fails = fail_count_exec(&runs);
    if fails > 0 {
        push_str(out, "\n## Failures (need triage)\n");
        push_failures(out, &runs);
    }
    let ghost mid = out@;
    assert(mid =~= start + (if fail_count(all) > 0 {
        "\n## Failures (need triage)\n"@ + failure_lines(all)
    } else {
        seq![]
    }));
    if runs.len() > 0 {
        push_str(out, "\n## Recent executions\n");
        let sorted = sort_by_recency(runs);
        proof {
            lemma_by_recency_len(all);
        }
        let n = if sorted.len() <= 10 {
            sorted.len()
        } else {
            10
        };
        assert(runs_view(sorted@).len() == sorted.len());
        push_recent(out, &sorted, n);
        assert(runs_view(sorted@).take(n as int) =~= recent_runs(all));
    } else {
        assert(mid + Seq::<char>::empty() =~= mid);
    }
}

/// `report`: the markdown summary of the loaded cases, dated `today`.
pub fn cmd_report(cases: &Vec<Case>, today: &str) -> (r: String)
    ensures
        r@ == report_spec(cases_view(cases@), today@),
{
    let ghost cv = cases_view(cases@);
    let mut out: Vec<char> = Vec::new();
    push_str(&mut out, "# Opencase Report \u{2014} ");
    push_str(&mut out, today);
    push_str(&mut out, "\n");
    if cases.len() == 0 {
        push_str(&mut out, "\nno cases\n");
        return string_of(&out);
    }
    let total = cases.len();
    let reviewed = count_field_exec(cases, "status", "reviewed");
    let manual = count_field_exec(cases, "mode", "manual");
    let covered = count_covered_exec(cases);
    proof {
        lemma_counts_bounded(cv, "status"@, "reviewed"@);
        lemma_counts_bounded(cv, "mode"@, "manual"@);
    }
    let ghost h = out@;
    push_str(&mut out, "\nTotal: ");
    push_chars(&mut out, &decimal_exec(total));
    push_str(&mut out, " | reviewed: ");
    push_chars(&mut out, &decimal_exec(reviewed));
    push_str(&mut out, " | draft: ");
    push_chars(&mut out, &decimal_exec(total - reviewed));
    push_str(&mut out, " | failures: ");
    let fails = fail_count_exec(&collect_runs(cases));
    push_chars(&mut out, &decimal_exec(fails));
    push_str(&mut out, "\nManual: ");
    push_chars(&mut out, &decimal_exec(manual));
    push_str(&mut out, " | scripted: ");
    push_chars(&mut out, &decimal_exec(total - manual));
    push_str(&mut out, " | automated coverage: ");
    push_chars(&mut out, &decimal_exec(covered));
    push_str(&mut out, "\n\n");
    push_str(&mut out, "| case | title | status | mode | covered-by | last run |\n");
    push_str(&mut out, "|------|-------|--------|------|------------|----------|\n");
    let ghost table = out@;
    let mut i: usize = 0;
    while i < cases.len()
        invariant
            i <= cases.len(),
            cv == cases_view(cases@),
            out@ == table + report_rows(cv.subrange(0, i as int)),
        decreases cases.len() - i,
    {
        assert(cv.subrange(0, i + 1).drop_last() =~= cv.subrange(0, i as int));
        assert(cv[i as int] == cases@[i as int]@);
        push_row(&mut out, &cases[i]);
        i += 1;
        assert(out@ =~= table + report_rows(cv.subrange(0, i as int)));
    }
    assert(cv.subrange(0, cases.len() as int) =~= cv);
    let ghost rows_end = out@;
    let drafts = count_field_exec(cases, "status", "draft");
    if drafts > 0 {
        push_str(&mut out, "\n## Draft (need review)\n");
        let ghost dstart = out@;
        let mut k: usize = 0;
        while k < cases.len()
            invariant
                k <= cases.len(),
                cv == cases_view(cases@),
                out@ == dstart + draft_items(cv.subrange(0, k as int)),
            decreases cases.len() - k,
        {
            assert(cv.subrange(0, k + 1).drop_last() =~= cv.subrange(0, k as int));
            assert(cv[k as int] == cases@[k as int]@);
            let c = &cases[k];
            if field_is(c, "status", "draft") {
                push_str(&mut out, "- ");
                push_chars(&mut out, &esc_exec(&field_chars(c, "id")));
                push_str(&mut out, " \u{2014} ");
                push_chars(&mut out, &esc_exec(&field_chars(c, "title")));
                push_str(&mut out, "\n");
            }
            k += 1;
            assert(out@ =~= dstart + draft_items(cv.subrange(0, k as int)));
        }
    }
    let ghost before_runs = out@;
    push_runs(&mut out, cases);
    assert(out@ =~= report_spec(cv, today@));
    string_of(&out)
}

} // verus!
