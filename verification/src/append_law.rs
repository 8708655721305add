//! Appending a record and reading the body back: the records read are the
//! ones before plus the new one.
use vstd::prelude::*;
use crate::case::{
    add_record_spec, errors_in, exec_heading, exec_heading_from, is_exec_heading, is_heading,
    is_record_line, marker, newline_if_missing, parse_record, records_in, RecordView,
};
use crate::roundtrip::{lemma_index_of_absent, lemma_lines_concat, lemma_lines_one};
use crate::text::{
    ends_with_char, index_of, is_ws, lemma_index_of, lemma_index_of_props, lines, strip_cr, trim,
};

verus! {

/// Whether the record scan is inside `## Executions` after `ls`.
pub open spec fn rec_state_after(ls: Seq<Seq<char>>, s: bool) -> bool
    decreases ls.len(),
{
    if ls.len() == 0 {
        s
    } else {
        rec_state_after(
            ls.drop_first(),
            if is_heading(ls[0]) {
                trim(ls[0]) == "## Executions"@
            } else {
                s
            },
        )
    }
}

pub proof fn lemma_records_concat(a: Seq<Seq<char>>, b: Seq<Seq<char>>, s: bool, path: Seq<char>)
    ensures
        records_in(a + b, s) == records_in(a, s) + records_in(b, rec_state_after(a, s)),
        errors_in(a + b, s, path) == errors_in(a, s, path) + errors_in(b, rec_state_after(a, s), path),
    decreases a.len(),
{
    if a.len() == 0 {
        assert(a + b =~= b);
        assert(records_in(a, s) + records_in(b, s) =~= records_in(b, s));
        assert(errors_in(a, s, path) + errors_in(b, s, path) =~= errors_in(b, s, path));
    } else {
        let l = a[0];
        let s2 = if is_heading(l) {
            trim(l) == "## Executions"@
        } else {
            s
        };
        assert((a + b)[0] == l);
        assert((a + b).drop_first() =~= a.drop_first() + b);
        lemma_records_concat(a.drop_first(), b, s2, path);
        if is_heading(l) {
        } else if s && is_record_line(l) {
            match parse_record(l) {
                Ok(r) => {
                    assert(records_in(a + b, s) =~= records_in(a, s) + records_in(b, rec_state_after(a, s)));
                },
                Err(e) => {
                    assert(errors_in(a + b, s, path) =~= errors_in(a, s, path) + errors_in(b, rec_state_after(a, s), path));
                },
            }
        }
    }
}

/// The scan state after `a + b` is the state after `b`, started from the
/// state after `a`.
pub proof fn lemma_state_concat(a: Seq<Seq<char>>, b: Seq<Seq<char>>, s: bool)
    ensures
        rec_state_after(a + b, s) == rec_state_after(b, rec_state_after(a, s)),
    decreases a.len(),
{
    if a.len() == 0 {
        assert(a + b =~= b);
    } else {
        let s2 = if is_heading(a[0]) {
            trim(a[0]) == "## Executions"@
        } else {
            s
        };
        assert((a + b)[0] == a[0]);
        assert((a + b).drop_first() =~= a.drop_first() + b);
        lemma_state_concat(a.drop_first(), b, s2);
    }
}

/// No line of `ls` is the `## Executions` heading.
pub open spec fn no_exec_heading(ls: Seq<Seq<char>>) -> bool {
    forall|i: int| 0 <= i < ls.len() ==> !is_exec_heading(#[trigger] ls[i])
}

/// Where `exec_heading_from` finds a heading, and that there is none before.
pub proof fn lemma_exec_heading_from(ls: Seq<Seq<char>>, from: nat)
    ensures
        exec_heading_from(ls, from) matches Some(h) ==> from <= h < ls.len() && is_exec_heading(ls[h as int]) && forall|i: int| from <= i < h ==> !is_exec_heading(#[trigger] ls[i]),
        exec_heading_from(ls, from) is None ==> forall|i: int| from <= i < ls.len() ==> !is_exec_heading(#[trigger] ls[i]),
    decreases ls.len() - from,
{
    if from < ls.len() && !is_exec_heading(ls[from as int]) {
        lemma_exec_heading_from(ls, from + 1);
    }
}

/// Lines without an `## Executions` heading read as nothing from outside
/// the section, and leave the scan outside it.
pub proof fn lemma_outside_records(ls: Seq<Seq<char>>, path: Seq<char>)
    requires
        no_exec_heading(ls),
    ensures
        records_in(ls, false) == Seq::<RecordView>::empty(),
        errors_in(ls, false, path) == Seq::<Seq<char>>::empty(),
        rec_state_after(ls, false) == false,
    decreases ls.len(),
{
    if ls.len() > 0 {
        let t = ls.drop_first();
        assert forall|i: int| 0 <= i < t.len() implies !is_exec_heading(#[trigger] t[i]) by {
            assert(t[i] == ls[i + 1]);
        }
        assert(!is_exec_heading(ls[0]));
        assert(marker() == "## Executions"@);
        lemma_outside_records(t, path);
    }
}

pub open spec fn new_records(line: Seq<char>) -> Seq<RecordView> {
    match parse_record("- "@ + line) {
        Ok(r) => seq![r],
        Err(_) => seq![],
    }
}

pub open spec fn new_errors(line: Seq<char>, path: Seq<char>) -> Seq<Seq<char>> {
    match parse_record("- "@ + line) {
        Ok(_) => seq![],
        Err(e) => seq![path + ": "@ + e],
    }
}

/// A record line that stays one line: no line break in it, and no
/// carriage return at its end.
pub open spec fn one_line(line: Seq<char>) -> bool {
    !line.contains('\n') && !ends_with_char(line, '\r')
}

pub proof fn lemma_record_line_shape(line: Seq<char>)
    requires
        one_line(line),
    ensures
        !("- "@ + line).contains('\n'),
        strip_cr("- "@ + line) == "- "@ + line,
        !is_heading("- "@ + line),
        is_record_line("- "@ + line),
{
    reveal_strlit("- ");
    reveal_strlit("## ");
    let l = "- "@ + line;
    if l.contains('\n') {
        let j = choose|j: int| 0 <= j < l.len() && l[j] == '\n';
        assert(l[j] == line[j - 2]);
        assert(line.contains('\n'));
    }
    if line.len() > 0 {
        assert(l.last() == line.last());
    }
    assert(l.subrange(0, 2) =~= "- "@);
    if l.len() >= 3 {
        assert(l.subrange(0, 3)[0] == l[0]);
        assert("## "@[0] == '#');
    }
}

/// The lines of the section that `add_record` creates.
proof fn lemma_new_section_lines(line: Seq<char>)
    requires
        one_line(line),
    ensures
        lines("\n## Executions\n\n- "@ + line + seq!['\n']) == seq![seq![], "## Executions"@, seq![], "- "@ + line],
{
    reveal_strlit("\n## Executions\n\n- ");
    reveal_strlit("## Executions");
    reveal_strlit("- ");
    let m = "## Executions"@;
    let rl = "- "@ + line;
    let t = "\n## Executions\n\n- "@ + line + seq!['\n'];
    assert(t =~= seq!['\n'] + ((m + seq!['\n']) + (seq!['\n'] + (rl + seq!['\n']))));
    lemma_record_line_shape(line);
    lemma_lines_one(Seq::<char>::empty());
    assert(Seq::<char>::empty() + seq!['\n'] =~= seq!['\n']);
    assert(!m.contains('\n'));
    lemma_lines_one(m);
    assert(strip_cr(m) == m);
    lemma_lines_one(rl);
    assert(strip_cr(Seq::<char>::empty()) == Seq::<char>::empty());
    lemma_lines_concat(seq!['\n'], rl + seq!['\n']);
    lemma_lines_concat(m + seq!['\n'], seq!['\n'] + (rl + seq!['\n']));
    lemma_lines_concat(seq!['\n'], (m + seq!['\n']) + (seq!['\n'] + (rl + seq!['\n'])));
    assert(lines(t) =~= seq![seq![], m, seq![], rl]);
}

proof fn lemma_new_section_records(line: Seq<char>, s: bool, path: Seq<char>)
    requires
        one_line(line),
    ensures
        records_in(seq![seq![], "## Executions"@, seq![], "- "@ + line], s) == new_records(line),
        errors_in(seq![seq![], "## Executions"@, seq![], "- "@ + line], s, path) == new_errors(line, path),
{
    reveal_strlit("## Executions");
    reveal_strlit("## ");
    reveal_strlit("- ");
    lemma_record_line_shape(line);
    let ls = seq![seq![], "## Executions"@, seq![], "- "@ + line];
    let e: Seq<char> = seq![];
    assert(!is_heading(e));
    assert(!is_record_line(e));
    assert("## Executions"@.subrange(0, 3) =~= "## "@);
    assert(is_heading("## Executions"@));
    assert(trim("## Executions"@) == "## Executions"@) by {
        assert(!is_ws("## Executions"@[0]));
        assert(!is_ws("## Executions"@.last()));
    }
    assert(ls.drop_first() =~= seq!["## Executions"@, seq![], "- "@ + line]);
    assert(ls.drop_first().drop_first() =~= seq![seq![], "- "@ + line]);
    assert(ls.drop_first().drop_first().drop_first() =~= seq!["- "@ + line]);
    assert(seq!["- "@ + line].drop_first() =~= Seq::<Seq<char>>::empty());
    let one = seq!["- "@ + line];
    assert(one[0] == "- "@ + line);
    assert(records_in(Seq::<Seq<char>>::empty(), true) == Seq::<RecordView>::empty());
    assert(errors_in(Seq::<Seq<char>>::empty(), true, path) == Seq::<Seq<char>>::empty());
    let ls1 = ls.drop_first();
    let ls2 = ls1.drop_first();
    assert(ls2.drop_first() =~= one);
    assert(ls[0] == e && ls1[0] == "## Executions"@ && ls2[0] == e);
    assert(records_in(ls, s) == records_in(ls1, s));
    assert(records_in(ls1, s) == records_in(ls2, true));
    assert(records_in(ls2, true) == records_in(one, true));
    assert(errors_in(ls, s, path) == errors_in(ls1, s, path));
    assert(errors_in(ls1, s, path) == errors_in(ls2, true, path));
    assert(errors_in(ls2, true, path) == errors_in(one, true, path));
    match parse_record("- "@ + line) {
        Ok(r) => {
            assert(records_in(one, true) == seq![r] + records_in(one.drop_first(), true));
            assert(records_in(one, true) =~= seq![r]);
            assert(errors_in(one, true, path) == errors_in(one.drop_first(), true, path));
        },
        Err(er) => {
            assert(errors_in(one, true, path) == seq![path + ": "@ + er] + errors_in(one.drop_first(), true, path));
            assert(errors_in(one, true, path) =~= seq![path + ": "@ + er]);
            assert(records_in(one, true) == records_in(one.drop_first(), true));
        },
    }
}

/// `lines` ignores a final line break added after a last line.
pub proof fn lemma_lines_add_newline(s: Seq<char>)
    requires
        s.len() > 0,
        !ends_with_char(s, '\n'),
        !ends_with_char(s, '\r'),
    ensures
        lines(s + seq!['\n']) == lines(s),
    decreases s.len(),
{
    lemma_index_of_props(s, '\n');
    let k = index_of(s, '\n');
    let t = s + seq!['\n'];
    assert forall|j: int| 0 <= j < k implies t[j] != '\n' by {
        assert(t[j] == s[j]);
    }
    if k < s.len() {
        assert(t[k as int] == s[k as int]);
        lemma_index_of(t, '\n', k);
        assert(k + 1 < s.len());
        let s2 = s.subrange((k + 1) as int, s.len() as int);
        assert(t.subrange(0, k as int) =~= s.subrange(0, k as int));
        assert(t.subrange((k + 1) as int, t.len() as int) =~= s2 + seq!['\n']);
        assert(s2.last() == s.last());
        lemma_lines_add_newline(s2);
        assert(lines(t) == seq![strip_cr(t.subrange(0, k as int))] + lines(t.subrange((k + 1) as int, t.len() as int)));
        assert(lines(s) == seq![strip_cr(s.subrange(0, k as int))] + lines(s2));
    } else {
        lemma_index_of(t, '\n', s.len());
        assert(t.subrange(0, s.len() as int) =~= s);
        assert(t.subrange((s.len() + 1) as int, t.len() as int) =~= Seq::<char>::empty());
        lemma_index_of_absent(s, '\n');
        assert(lines(Seq::<char>::empty()) == Seq::<Seq<char>>::empty());
        assert(lines(t) == seq![strip_cr(s)] + lines(Seq::<char>::empty()));
        assert(strip_cr(s) == s);
        assert(lines(s) == seq![s]);
        assert(lines(t) =~= lines(s));
    }
}

/// Appending a record to a case without an `## Executions` heading line: the
/// section is created at the end, and reading the body back gives the
/// records before (there are none) followed by the new one.
pub proof fn law_append_creates_section(body: Seq<char>, line: Seq<char>, path: Seq<char>)
    requires
        exec_heading(lines(body)) is None,
        !ends_with_char(body, '\r'),
        one_line(line),
    ensures
        records_in(lines(add_record_spec(body, line)), false) == records_in(lines(body), false) + new_records(line),
        errors_in(lines(add_record_spec(body, line)), false, path) == errors_in(lines(body), false, path) + new_errors(line, path),
{
    reveal_strlit("## Executions");
    let b1 = body + newline_if_missing(body);
    let t = "\n## Executions\n\n- "@ + line + seq!['\n'];
    assert(add_record_spec(body, line) =~= b1 + t);
    assert(ends_with_char(b1, '\n'));
    lemma_lines_concat(b1, t);
    lemma_new_section_lines(line);
    lemma_exec_heading_from(lines(body), 0);
    lemma_outside_records(lines(body), path);
    if body.len() == 0 {
        lemma_lines_one(Seq::<char>::empty());
        assert(b1 =~= Seq::<char>::empty() + seq!['\n']);
        reveal_strlit("## ");
        assert(!is_heading(Seq::<char>::empty()));
        assert(no_exec_heading(lines(b1)));
    } else if ends_with_char(body, '\n') {
        assert(b1 =~= body);
    } else {
        lemma_lines_add_newline(body);
    }
    lemma_outside_records(lines(b1), path);
    lemma_records_concat(lines(b1), lines(t), false, path);
    lemma_new_section_records(line, false, path);
    assert(records_in(lines(b1), false) + new_records(line) =~= records_in(lines(body), false) + new_records(line));
    assert(errors_in(lines(b1), false, path) + new_errors(line, path) =~= errors_in(lines(body), false, path) + new_errors(line, path));
}

} // verus!
