//! Laws that say which parts of their input the listings, the report, the
//! conversion context and the record parser take into account.
use vstd::prelude::*;
use crate::case::{is_date, lookup, parse_record, CaseView, RecordView};
use crate::commands::{field, prefixed_lines, record_text, records_text, run_prompt, scriptify_context_of};
use crate::report::{
    all_runs, case_runs, count_covered, count_field, fail_count, failure_line, failure_lines, recent_line,
    recent_lines, report_row, report_rows, RunItem, by_recency, insert_recent, recent_runs,
};
use crate::validate::{lemma_text_lt_irrefl, lemma_text_lt_trans, text_lt};
use crate::case::section_of;
use crate::report::draft_items;
use crate::review::draft_entries;
use crate::text::{esc, pad_right};

verus! {

broadcast use {vstd::seq_lib::group_to_multiset_ensures, vstd::multiset::group_multiset_axioms};

/// Texts joined one after the other.
pub open spec fn concat_all(ts: Seq<Seq<char>>) -> Seq<char>
    decreases ts.len(),
{
    if ts.len() == 0 {
        seq![]
    } else {
        concat_all(ts.drop_last()) + ts.last()
    }
}

/// Whether a case is a draft, whatever its mode.
pub open spec fn has_draft_status(c: CaseView) -> bool {
    lookup(c.front, "status"@) == Some("draft"@)
}

/// A draft's entry in the review listing: id and title padded to their
/// columns, then the source.
pub open spec fn listing_entry(c: CaseView) -> Seq<char> {
    pad_right(field(c, "id"@), 28) + " "@ + pad_right(field(c, "title"@), 32) + " "@ + field(c, "source"@)
}

/// A draft's line in the report: `- <id> — <title>`, escaped for `|`.
pub open spec fn report_draft_line(c: CaseView) -> Seq<char> {
    "- "@ + esc(field(c, "id"@)) + " \u{2014} "@ + esc(field(c, "title"@)) + "\n"@
}

/// The review listing has one entry per case whose status is `draft`,
/// whatever its mode, in the order of the cases.
pub proof fn law_review_lists_every_draft(cs: Seq<CaseView>)
    ensures
        draft_entries(cs) == cs.filter(|c: CaseView| has_draft_status(c)).map_values(|c: CaseView| listing_entry(c)),
        draft_entries(cs).len() == cs.filter(|c: CaseView| has_draft_status(c)).len(),
    decreases cs.len(),
{
    let p = |c: CaseView| has_draft_status(c);
    let f = |c: CaseView| listing_entry(c);
    if cs.len() > 0 {
        law_review_lists_every_draft(cs.drop_last());
        let sub = cs.drop_last().filter(p);
        assert(cs.filter(p) == (if p(cs.last()) { sub.push(cs.last()) } else { sub })) by {
            reveal(Seq::filter);
        }
        if p(cs.last()) {
            assert(sub.push(cs.last()).map_values(f) =~= sub.map_values(f) + seq![f(cs.last())]);
        } else {
            assert(draft_entries(cs) =~= draft_entries(cs.drop_last()));
        }
    } else {
        assert(cs.filter(p) =~= Seq::<CaseView>::empty()) by {
            reveal(Seq::filter);
        }
        assert(cs.filter(p).map_values(f) =~= Seq::<Seq<char>>::empty());
    }
}

/// The report's draft list has one line per case whose status is `draft`,
/// whatever its mode, in the order of the cases.
pub proof fn law_report_lists_every_draft(cs: Seq<CaseView>)
    ensures
        draft_items(cs) == concat_all(cs.filter(|c: CaseView| has_draft_status(c)).map_values(|c: CaseView| report_draft_line(c))),
    decreases cs.len(),
{
    let p = |c: CaseView| has_draft_status(c);
    let f = |c: CaseView| report_draft_line(c);
    if cs.len() > 0 {
        law_report_lists_every_draft(cs.drop_last());
        let sub = cs.drop_last().filter(p);
        assert(cs.filter(p) == (if p(cs.last()) { sub.push(cs.last()) } else { sub })) by {
            reveal(Seq::filter);
        }
        if p(cs.last()) {
            let m = sub.push(cs.last()).map_values(f);
            assert(m.drop_last() =~= sub.map_values(f));
            assert(m.last() == f(cs.last()));
        } else {
            assert(draft_items(cs) =~= draft_items(cs.drop_last()));
        }
    } else {
        assert(cs.filter(p) =~= Seq::<CaseView>::empty()) by {
            reveal(Seq::filter);
        }
        assert(cs.filter(p).map_values(f) =~= Seq::<Seq<char>>::empty());
    }
}

proof fn lemma_records_text_all(rs: Seq<RecordView>)
    ensures
        records_text(rs) == concat_all(rs.map_values(|r: RecordView| "\n- "@ + r.date + " | "@ + r.commit + " | "@ + r.result
            + match r.category {
            Some(k) => " | "@ + k,
            None => seq![],
        } + match r.note {
            Some(n) => " | "@ + n,
            None => seq![],
        })),
    decreases rs.len(),
{
    let f = |r: RecordView| "\n- "@ + r.date + " | "@ + r.commit + " | "@ + r.result + match r.category {
        Some(k) => " | "@ + k,
        None => seq![],
    } + match r.note {
        Some(n) => " | "@ + n,
        None => seq![],
    };
    if rs.len() > 0 {
        lemma_records_text_all(rs.drop_last());
        assert(rs.map_values(f).drop_last() =~= rs.drop_last().map_values(f));
        assert(rs.map_values(f).last() == f(rs.last()));
        assert(record_text(rs.last()) == f(rs.last()));
    } else {
        assert(rs.map_values(f) =~= Seq::<Seq<char>>::empty());
    }
}

/// The scriptify context ends with the `## Executions` heading followed by
/// every execution record of the case, in order, one line each.
pub proof fn law_scriptify_context_lists_every_record(c: CaseView)
    ensures
        exists|head: Seq<char>| scriptify_context_of(c) == head + "\n\n## Executions\n"@ + concat_all(
            c.records.map_values(|r: RecordView| "\n- "@ + r.date + " | "@ + r.commit + " | "@ + r.result + match r.category {
                Some(k) => " | "@ + k,
                None => seq![],
            } + match r.note {
                Some(n) => " | "@ + n,
                None => seq![],
            }),
        ),
{
    lemma_records_text_all(c.records);
    let head = "# Scriptify: "@ + field(c, "title"@) + " (mode: "@ + field(c, "mode"@) + ")\nSource: "@ + field(c, "source"@)
        + "\n\n## Steps\n"@ + crate::commands::prefixed_lines(crate::case::section_of(c.body, "Steps"@));
    assert(scriptify_context_of(c) == head + "\n\n## Executions\n"@ + records_text(c.records));
}

/// A record read from a line has a date of the form `YYYY-MM-DD`: ten
/// characters, dashes at the fifth and eighth, ASCII digits elsewhere.
pub proof fn law_record_date_shape(line: Seq<char>)
    ensures
        parse_record(line) matches Ok(r) ==> {
            &&& r.date.len() == 10
            &&& r.date[4] == '-'
            &&& r.date[7] == '-'
            &&& forall|i: int| 0 <= i < 10 && i != 4 && i != 7 ==> '0' as u32 <= #[trigger] (r.date[i] as u32) <= '9' as u32
        },
{
    if let Ok(r) = parse_record(line) {
        assert(is_date(r.date));
    }
}

/// Lines each preceded by a line break, all of them in order.
pub proof fn law_prefixed_lines_keep_all(ls: Seq<Seq<char>>)
    ensures
        prefixed_lines(ls) == concat_all(ls.map_values(|l: Seq<char>| seq!['\n'] + l)),
    decreases ls.len(),
{
    let f = |l: Seq<char>| seq!['\n'] + l;
    if ls.len() > 0 {
        law_prefixed_lines_keep_all(ls.drop_last());
        assert(ls.map_values(f).drop_last() =~= ls.drop_last().map_values(f));
        assert(ls.map_values(f).last() == f(ls.last()));
        assert(prefixed_lines(ls) =~= prefixed_lines(ls.drop_last()) + f(ls.last()));
    } else {
        assert(ls.map_values(f) =~= Seq::<Seq<char>>::empty());
    }
}

/// The execution prompt shows every Steps line and then every Expected
/// line of the case, in order.
pub proof fn law_run_prompt_shows_all_steps(c: CaseView, id: Seq<char>)
    ensures
        exists|head: Seq<char>| run_prompt(c, id) == head + "\n\n## Steps\n"@ + concat_all(
            section_of(c.body, "Steps"@).map_values(|l: Seq<char>| seq!['\n'] + l),
        ) + "\n\n## Expected\n"@ + concat_all(section_of(c.body, "Expected"@).map_values(|l: Seq<char>| seq!['\n'] + l))
            + "\n\nThen record:\n  opencase record "@ + id
            + " --result pass|fail [--category product-bug|test-bug|environment] [--note ...]"@,
{
    law_prefixed_lines_keep_all(section_of(c.body, "Steps"@));
    law_prefixed_lines_keep_all(section_of(c.body, "Expected"@));
    let head = "# Execute: "@ + field(c, "title"@) + " (mode: "@ + field(c, "mode"@) + ")\nSource: "@ + field(c, "source"@);
    let tail = "\n\nThen record:\n  opencase record "@ + id
        + " --result pass|fail [--category product-bug|test-bug|environment] [--note ...]"@;
    assert(run_prompt(c, id) == head + "\n\n## Steps\n"@ + prefixed_lines(section_of(c.body, "Steps"@)) + "\n\n## Expected\n"@
        + prefixed_lines(section_of(c.body, "Expected"@)) + tail);
}

/// The scriptify context shows every Steps line of the case, in order,
/// under its `## Steps` heading.
pub proof fn law_scriptify_context_shows_all_steps(c: CaseView)
    ensures
        exists|head: Seq<char>| scriptify_context_of(c) == head + "\n\n## Steps\n"@ + concat_all(
            section_of(c.body, "Steps"@).map_values(|l: Seq<char>| seq!['\n'] + l),
        ) + "\n\n## Executions\n"@ + records_text(c.records),
{
    law_prefixed_lines_keep_all(section_of(c.body, "Steps"@));
    let head = "# Scriptify: "@ + field(c, "title"@) + " (mode: "@ + field(c, "mode"@) + ")\nSource: "@ + field(c, "source"@);
    assert(scriptify_context_of(c) == head + "\n\n## Steps\n"@ + prefixed_lines(section_of(c.body, "Steps"@))
        + "\n\n## Executions\n"@ + records_text(c.records));
}

/// The report's counts are the numbers of cases with the field value
/// counted.
pub proof fn law_report_counts(cs: Seq<CaseView>, key: Seq<char>, value: Seq<char>)
    ensures
        count_field(cs, key, value) == cs.filter(|c: CaseView| lookup(c.front, key) == Some(value)).len(),
        count_covered(cs) == cs.filter(|c: CaseView| lookup(c.front, "covered-by"@) is Some).len(),
    decreases cs.len(),
{
    let p = |c: CaseView| lookup(c.front, key) == Some(value);
    let q = |c: CaseView| lookup(c.front, "covered-by"@) is Some;
    reveal(Seq::filter);
    if cs.len() > 0 {
        law_report_counts(cs.drop_last(), key, value);
    }
}

/// The report's table has one row per case, in order.
pub proof fn law_report_row_per_case(cs: Seq<CaseView>)
    ensures
        report_rows(cs) == concat_all(cs.map_values(|c: CaseView| report_row(c))),
    decreases cs.len(),
{
    let f = |c: CaseView| report_row(c);
    if cs.len() > 0 {
        law_report_row_per_case(cs.drop_last());
        assert(cs.map_values(f).drop_last() =~= cs.drop_last().map_values(f));
        assert(cs.map_values(f).last() == f(cs.last()));
    } else {
        assert(cs.map_values(f) =~= Seq::<Seq<char>>::empty());
    }
}

/// The runs the report reads are every record of every case, case by case.
pub proof fn law_report_reads_every_record(cs: Seq<CaseView>)
    ensures
        all_runs(cs).len() == concat_counts(cs),
        forall|i: int, j: int| 0 <= i < cs.len() && 0 <= j < cs[i].records.len() ==> #[trigger] all_runs(cs)[run_index(cs, i) + j]
            == (field(cs[i], "id"@), cs[i].records[j]),
    decreases cs.len(),
{
    if cs.len() > 0 {
        let c0 = cs.drop_last();
        law_report_reads_every_record(c0);
        assert forall|i: int, j: int| 0 <= i < cs.len() && 0 <= j < cs[i].records.len() implies #[trigger] all_runs(cs)[run_index(cs, i) + j]
            == (field(cs[i], "id"@), cs[i].records[j]) by {
            lemma_run_index_prefix(cs, i);
            if i < cs.len() - 1 {
                assert(cs[i] == c0[i]);
                lemma_run_index_bound(c0, i);
                assert(all_runs(cs)[run_index(cs, i) + j] == all_runs(c0)[run_index(c0, i) + j]);
            } else {
                assert(run_index(cs, i) == all_runs(c0).len());
            }
        }
    }
}

/// Number of records of all cases.
pub open spec fn concat_counts(cs: Seq<CaseView>) -> nat
    decreases cs.len(),
{
    if cs.len() == 0 {
        0
    } else {
        concat_counts(cs.drop_last()) + cs.last().records.len()
    }
}

/// Index of the first run of case `i`: the number of records before it.
pub open spec fn run_index(cs: Seq<CaseView>, i: int) -> int {
    concat_counts(cs.subrange(0, i)) as int
}

proof fn lemma_run_index_prefix(cs: Seq<CaseView>, i: int)
    requires
        0 <= i < cs.len(),
    ensures
        run_index(cs, i) == run_index(cs.drop_last(), i) || i == cs.len() - 1,
        i < cs.len() - 1 ==> run_index(cs, i) == run_index(cs.drop_last(), i),
{
    if i < cs.len() - 1 {
        assert(cs.subrange(0, i) =~= cs.drop_last().subrange(0, i));
    }
}

proof fn lemma_run_index_bound(cs: Seq<CaseView>, i: int)
    requires
        0 <= i < cs.len(),
    ensures
        run_index(cs, i) + cs[i].records.len() <= all_runs(cs).len(),
    decreases cs.len(),
{
    law_report_reads_every_record_len(cs);
    if i < cs.len() - 1 {
        lemma_run_index_bound(cs.drop_last(), i);
        assert(cs.subrange(0, i) =~= cs.drop_last().subrange(0, i));
        law_report_reads_every_record_len(cs.drop_last());
    } else {
        assert(cs.subrange(0, i) =~= cs.drop_last());
    }
}

proof fn law_report_reads_every_record_len(cs: Seq<CaseView>)
    ensures
        all_runs(cs).len() == concat_counts(cs),
    decreases cs.len(),
{
    if cs.len() > 0 {
        law_report_reads_every_record_len(cs.drop_last());
    }
}

/// The failures count and the failures list take every failed run, in
/// order.
pub proof fn law_report_takes_every_failure(items: Seq<RunItem>)
    ensures
        fail_count(items) == items.filter(|it: RunItem| it.1.result == "fail"@).len(),
        failure_lines(items) == concat_all(items.filter(|it: RunItem| it.1.result == "fail"@).map_values(|it: RunItem| failure_line(it))),
    decreases items.len(),
{
    let p = |it: RunItem| it.1.result == "fail"@;
    let f = |it: RunItem| failure_line(it);
    if items.len() > 0 {
        law_report_takes_every_failure(items.drop_last());
        let sub = items.drop_last().filter(p);
        assert(items.filter(p) == (if p(items.last()) { sub.push(items.last()) } else { sub })) by {
            reveal(Seq::filter);
        }
        if p(items.last()) {
            let m = sub.push(items.last()).map_values(f);
            assert(m.drop_last() =~= sub.map_values(f));
            assert(m.last() == f(items.last()));
        } else {
            assert(failure_lines(items) =~= failure_lines(items.drop_last()));
        }
    } else {
        assert(items.filter(p) =~= Seq::<RunItem>::empty()) by {
            reveal(Seq::filter);
        }
        assert(items.filter(p).map_values(f) =~= Seq::<Seq<char>>::empty());
    }
}

/// The recent list shows each run it takes, one line each, in order.
pub proof fn law_recent_lines_each(items: Seq<RunItem>)
    ensures
        recent_lines(items) == concat_all(items.map_values(|it: RunItem| recent_line(it))),
    decreases items.len(),
{
    let f = |it: RunItem| recent_line(it);
    if items.len() > 0 {
        law_recent_lines_each(items.drop_last());
        assert(items.map_values(f).drop_last() =~= items.drop_last().map_values(f));
        assert(items.map_values(f).last() == f(items.last()));
    } else {
        assert(items.map_values(f) =~= Seq::<Seq<char>>::empty());
    }
}

proof fn lemma_text_lt_total(a: Seq<char>, b: Seq<char>)
    requires
        a != b,
    ensures
        text_lt(a, b) || text_lt(b, a),
    decreases a.len(),
{
    if a.len() == 0 || b.len() == 0 {
        if a.len() == 0 && b.len() == 0 {
            assert(a =~= b);
        }
    } else if a[0] == b[0] {
        if a.drop_first() == b.drop_first() {
            assert(a =~= seq![a[0]] + a.drop_first());
            assert(b =~= seq![b[0]] + b.drop_first());
        }
        lemma_text_lt_total(a.drop_first(), b.drop_first());
        assert(text_lt(a, b) == text_lt(a.drop_first(), b.drop_first()));
        assert(text_lt(b, a) == text_lt(b.drop_first(), a.drop_first()));
    } else {
        assert(text_lt(a, b) == (a[0] < b[0]));
        assert(text_lt(b, a) == (b[0] < a[0]));
    }
}

/// Runs ordered latest date first: no run has an earlier date than a run
/// after it.
pub open spec fn latest_first(s: Seq<RunItem>) -> bool {
    forall|i: int, j: int| 0 <= i < j < s.len() ==> !text_lt(#[trigger] s[i].1.date, #[trigger] s[j].1.date)
}

proof fn lemma_insert_recent(s: Seq<RunItem>, x: RunItem)
    requires
        latest_first(s),
    ensures
        latest_first(insert_recent(s, x)),
        insert_recent(s, x).to_multiset() == s.to_multiset().insert(x),
    decreases s.len(),
{
    if s.len() == 0 {
        assert(seq![x] =~= s.insert(0, x));
    } else if !text_lt(x.1.date, s[0].1.date) {
        let r = seq![x] + s;
        assert forall|i: int, j: int| 0 <= i < j < r.len() implies !text_lt(#[trigger] r[i].1.date, #[trigger] r[j].1.date) by {
            if i == 0 {
                assert(r[j] == s[j - 1]);
                if text_lt(x.1.date, s[j - 1].1.date) {
                    if j - 1 > 0 {
                        assert(!text_lt(s[0].1.date, s[j - 1].1.date));
                    }
                    if x.1.date != s[0].1.date {
                        lemma_text_lt_total(x.1.date, s[0].1.date);
                        if j - 1 > 0 {
                            lemma_text_lt_trans(s[0].1.date, x.1.date, s[j - 1].1.date);
                        }
                    }
                }
            } else {
                assert(r[i] == s[i - 1] && r[j] == s[j - 1]);
            }
        }
        assert(r =~= s.insert(0, x));
    } else {
        let t = s.drop_first();
        assert forall|i: int, j: int| 0 <= i < j < t.len() implies !text_lt(#[trigger] t[i].1.date, #[trigger] t[j].1.date) by {
            assert(t[i] == s[i + 1] && t[j] == s[j + 1]);
        }
        lemma_insert_recent(t, x);
        let u = insert_recent(t, x);
        let r = seq![s[0]] + u;
        assert forall|i: int, j: int| 0 <= i < j < r.len() implies !text_lt(#[trigger] r[i].1.date, #[trigger] r[j].1.date) by {
            if i == 0 {
                assert(r[j] == u[j - 1]);
                assert(u.contains(u[j - 1]));
                assert(u.to_multiset().count(u[j - 1]) > 0);
                assert(t.to_multiset().insert(x).count(u[j - 1]) > 0);
                if u[j - 1] == x {
                    if text_lt(s[0].1.date, x.1.date) {
                        lemma_text_lt_trans(s[0].1.date, x.1.date, s[0].1.date);
                        lemma_text_lt_irrefl(s[0].1.date);
                    }
                } else {
                    assert(t.to_multiset().count(u[j - 1]) > 0);
                    assert(t.contains(u[j - 1]));
                    let k = choose|k: int| 0 <= k < t.len() && t[k] == u[j - 1];
                    assert(t[k] == s[k + 1]);
                }
            } else {
                assert(r[i] == u[i - 1] && r[j] == u[j - 1]);
            }
        }
        assert(r =~= u.insert(0, s[0]));
        assert(s =~= t.insert(0, s[0]));
        assert(r.to_multiset() =~= s.to_multiset().insert(x));
    }
}

/// The runs ordered by recency are all the runs, each once, latest date
/// first; the recent list is the first ten of them (or all, when there are
/// fewer), so no run left out is later than one listed.
pub proof fn law_recent_runs_are_the_latest(items: Seq<RunItem>)
    ensures
        by_recency(items).to_multiset() == items.to_multiset(),
        latest_first(by_recency(items)),
        recent_runs(items) == by_recency(items).take(if items.len() <= 10 { items.len() as int } else { 10 }),
    decreases items.len(),
{
    if items.len() == 0 {
        assert(by_recency(items) =~= items);
        assert(by_recency(items).take(0) =~= by_recency(items));
    } else {
        law_recent_runs_are_the_latest(items.drop_last());
        lemma_insert_recent(by_recency(items.drop_last()), items.last());
        assert(items =~= items.drop_last().push(items.last()));
        assert(items.to_multiset() =~= items.drop_last().to_multiset().insert(items.last()));
        let b = by_recency(items);
        assert(b.to_multiset().len() == items.to_multiset().len());
        assert(b.len() == items.len());
        if b.len() <= 10 {
            assert(b.take(b.len() as int) =~= b);
        }
    }
}

} // verus!
