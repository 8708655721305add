//! Recording an execution and reading the case file back.
use vstd::prelude::*;
use crate::append_law::{new_errors, new_records, one_line};
use crate::case::{
    add_record_spec, errors_in, exec_heading, exec_heading_from, is_category, is_date,
    parse_case_spec, records_in, render, CaseView, RecordView,
};
use crate::commands::record_line_text;
use crate::record_laws::{law_recorded_line_reads_back, lemma_word_facts, no_ws, trim_opt};
use crate::roundtrip::{canonical_front, law_parse_render_roundtrip};
use crate::section_law::{blank_section_unindented, law_append_record};
use crate::text::{ends_with_char, lines, trim};

verus! {

/// Text without a line break.
pub open spec fn no_break(s: Seq<char>) -> bool {
    !s.contains('\n')
}

proof fn lemma_no_break_concat(a: Seq<char>, b: Seq<char>)
    requires
        no_break(a),
        no_break(b),
    ensures
        no_break(a + b),
{
    let s = a + b;
    assert forall|i: int| 0 <= i < s.len() implies s[i] != '\n' by {
        if i < a.len() {
            assert(s[i] == a[i]);
            assert(a.contains(a[i]));
        } else {
            assert(s[i] == b[i - a.len()]);
            assert(b.contains(b[i - a.len()]));
        }
    }
}

proof fn lemma_no_ws_word(s: Seq<char>)
    requires
        no_ws(s),
    ensures
        no_break(s),
        s.len() > 0 ==> s.last() != '\r',
{
    assert forall|i: int| 0 <= i < s.len() implies s[i] != '\n' && s[i] != '\r' by {
        assert(!crate::text::is_ws(s[i]));
    }
}

proof fn lemma_date_no_break(d: Seq<char>)
    requires
        is_date(d),
    ensures
        no_break(d),
{
    assert forall|i: int| 0 <= i < d.len() implies d[i] != '\n' by {
        if i != 4 && i != 7 {
            assert('0' as u32 <= (d[i] as u32) <= '9' as u32);
        }
    }
}

/// The line `record` writes stays one line when the commit and the note
/// have no line break and the note does not end with a carriage return.
proof fn lemma_record_line_one_line(
    date: Seq<char>,
    commit: Seq<char>,
    result: Seq<char>,
    category: Option<Seq<char>>,
    note: Option<Seq<char>>,
)
    requires
        is_date(date),
        no_break(commit),
        note matches Some(n) ==> no_break(n) && !ends_with_char(n, '\r'),
        result == "pass"@ || result == "fail"@,
        category matches Some(k) ==> is_category(k),
    ensures
        one_line(record_line_text(date, commit, result, category, note)),
{
    lemma_word_facts();
    reveal_strlit("pass");
    reveal_strlit("fail");
    reveal_strlit("product-bug");
    reveal_strlit("test-bug");
    reveal_strlit("environment");
    let sep = " | "@;
    assert(no_break(sep)) by {
        assert forall|i: int| 0 <= i < sep.len() implies sep[i] != '\n' by {
            assert(sep[i] == seq![' ', '|', ' '][i]);
        }
    }
    lemma_date_no_break(date);
    lemma_no_ws_word(result);
    let c = match category {
        Some(k) => sep + k,
        None => Seq::<char>::empty(),
    };
    let n = match note {
        Some(v) => sep + v,
        None => Seq::<char>::empty(),
    };
    if let Some(k) = category {
        lemma_no_ws_word(k);
        lemma_no_break_concat(sep, k);
    }
    if let Some(v) = note {
        lemma_no_break_concat(sep, v);
    }
    lemma_no_break_concat(date, sep);
    lemma_no_break_concat(date + sep, commit);
    lemma_no_break_concat(date + sep + commit, sep);
    lemma_no_break_concat(date + sep + commit + sep, result);
    lemma_no_break_concat(date + sep + commit + sep + result, c);
    lemma_no_break_concat(date + sep + commit + sep + result + c, n);
    let pre = date + sep + commit + sep + result;
    let l = record_line_text(date, commit, result, category, note);
    assert(l == pre + c + n);
    match note {
        Some(v) => {
            if v.len() > 0 {
                assert(l.last() == v.last());
            } else {
                assert(l.last() == sep.last());
            }
        },
        None => {
            assert(l =~= pre + c);
            match category {
                Some(k) => {
                    assert(l.last() == k.last());
                },
                None => {
                    assert(l =~= pre);
                    assert(l.last() == result.last());
                },
            }
        },
    }
}

/// Recording an execution on a case and reading the written file back: the
/// case has the same fields and the new body, and its executions are the
/// ones it had followed by the recorded one. The body has at most one
/// `## Executions` heading line (and, when its section has no records, no
/// indented text right after the heading) and does not end with a bare
/// carriage return; the commit and the note have no line break, and the note does
/// not end with a carriage return.
pub proof fn law_record_then_reload(
    path: Seq<char>,
    front: Seq<(Seq<char>, Seq<char>)>,
    body: Seq<char>,
    date: Seq<char>,
    commit: Seq<char>,
    result: Seq<char>,
    category: Option<Seq<char>>,
    note: Option<Seq<char>>,
)
    requires
        canonical_front(front),
        exec_heading(lines(body)) matches Some(h) ==> exec_heading_from(lines(body), h + 1) is None
            && blank_section_unindented(lines(body), h),
        !ends_with_char(body, '\r'),
        is_date(date),
        no_break(commit),
        !commit.contains('|'),
        note matches Some(n) ==> no_break(n) && !ends_with_char(n, '\r') && !n.contains('|'),
        (result == "pass"@ && category is None) || (result == "fail"@ && (category matches Some(k)
            && is_category(k))),
    ensures
        ({
            let after = add_record_spec(body, record_line_text(date, commit, result, category, note));
            parse_case_spec(path, render(front, after)) == Ok::<CaseView, Seq<char>>(
                CaseView {
                    path,
                    front,
                    body: after,
                    records: records_in(lines(body), false).push(
                        RecordView { date, commit: trim(commit), result, category, note: trim_opt(note) },
                    ),
                    errors: errors_in(lines(body), false, path),
                },
            )
        }),
{
    let line = record_line_text(date, commit, result, category, note);
    lemma_record_line_one_line(date, commit, result, category, note);
    law_recorded_line_reads_back(date, commit, result, category, note);
    law_append_record(body, line, path);
    let after = add_record_spec(body, line);
    law_parse_render_roundtrip(path, front, after);
    let r = RecordView { date, commit: trim(commit), result, category, note: trim_opt(note) };
    assert(new_records(line) == seq![r]);
    assert(new_errors(line, path) =~= Seq::<Seq<char>>::empty());
    assert(records_in(lines(body), false) + seq![r] =~= records_in(lines(body), false).push(r));
    assert(errors_in(lines(body), false, path) + Seq::<Seq<char>>::empty() =~= errors_in(lines(body), false, path));
}

} // verus!
