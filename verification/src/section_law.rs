//! Appending a record to a body that has an `## Executions` heading line:
//! the new line lands in that section, right after its last record line,
//! and reading the body back gives the records before followed by the new
//! one.
use vstd::prelude::*;
use crate::append_law::{
    lemma_exec_heading_from, lemma_lines_add_newline, lemma_outside_records, lemma_records_concat,
    lemma_state_concat, new_errors, new_records, no_exec_heading, one_line, rec_state_after,
};
use crate::case::{
    add_record_spec, errors_in, exec_heading, exec_heading_from, first_nonblank, first_non_ws,
    is_exec_heading, is_heading, is_record_line, last_record_before, lemma_line_raw, line_start,
    marker, newline_if_missing, parse_record, record_line_index, record_pos, records_in,
    section_end, RecordView,
};
use crate::roundtrip::{lemma_index_of_absent, lemma_lines_concat, lemma_lines_one};
use crate::text::{
    ends_with_char, index_of, is_ws, lemma_index_of_props, lines, strip_cr, trim, trim_end,
    trim_start,
};

verus! {

/// The text up to where line `m` starts splits into the first `m` lines,
/// and the rest into the others. The first part ends with a line break,
/// unless it is empty or is the whole text.
proof fn lemma_line_start(s: Seq<char>, m: nat)
    requires
        m <= lines(s).len(),
    ensures
        line_start(s, m) <= s.len(),
        lines(s.subrange(0, line_start(s, m) as int)) == lines(s).subrange(0, m as int),
        lines(s.subrange(line_start(s, m) as int, s.len() as int)) == lines(s).subrange(m as int, lines(s).len() as int),
        m == 0 ==> line_start(s, m) == 0,
        m == 0 || ends_with_char(s.subrange(0, line_start(s, m) as int), '\n') || (line_start(s, m) == s.len() && m == lines(s).len()),
    decreases s.len(),
{
    if m == 0 {
        assert(s.subrange(0, 0) =~= Seq::<char>::empty());
        assert(s.subrange(0, s.len() as int) =~= s);
        assert(lines(s).subrange(0, 0) =~= Seq::<Seq<char>>::empty());
        assert(lines(s).subrange(0, lines(s).len() as int) =~= lines(s));
    } else {
        lemma_index_of_props(s, '\n');
        let k = index_of(s, '\n');
        if k < s.len() {
            let first = s.subrange(0, k as int);
            let s2 = s.subrange((k + 1) as int, s.len() as int);
            assert(lines(s) == seq![strip_cr(first)] + lines(s2));
            lemma_line_start(s2, (m - 1) as nat);
            let q2 = line_start(s2, (m - 1) as nat);
            let q = k + 1 + q2;
            assert(q == line_start(s, m));
            let a = s.subrange(0, (k + 1) as int);
            assert(a =~= first + seq!['\n']);
            assert(s.subrange(0, q as int) =~= a + s2.subrange(0, q2 as int));
            assert(s.subrange(q as int, s.len() as int) =~= s2.subrange(q2 as int, s2.len() as int));
            lemma_lines_concat(a, s2.subrange(0, q2 as int));
            assert(!first.contains('\n')) by {
                if first.contains('\n') {
                    let j = choose|j: int| 0 <= j < first.len() && first[j] == '\n';
                    assert(s[j] == '\n');
                }
            }
            lemma_lines_one(first);
            assert(lines(s.subrange(0, q as int)) =~= lines(s).subrange(0, m as int));
            assert(lines(s.subrange(q as int, s.len() as int)) =~= lines(s).subrange(m as int, lines(s).len() as int));
            if q2 > 0 {
                assert(s.subrange(0, q as int).last() == s2.subrange(0, q2 as int).last());
            } else {
                assert(s.subrange(0, q as int) =~= a);
            }
        } else {
            lemma_index_of_absent(s, '\n');
            assert(s.len() > 0);
            assert(lines(s) == seq![s]);
            assert(m == 1);
            assert(s.subrange(0, s.len() as int) =~= s);
            assert(s.subrange(s.len() as int, s.len() as int) =~= Seq::<char>::empty());
            assert(lines(s).subrange(0, 1) =~= lines(s));
            assert(lines(s).subrange(1, 1) =~= Seq::<Seq<char>>::empty());
        }
    }
}

proof fn lemma_section_end(ls: Seq<Seq<char>>, i: nat)
    requires
        i <= ls.len(),
    ensures
        i <= section_end(ls, i) <= ls.len(),
        forall|j: int| i <= j < section_end(ls, i) ==> !is_heading(#[trigger] ls[j]),
        section_end(ls, i) < ls.len() ==> is_heading(ls[section_end(ls, i) as int]),
    decreases ls.len() - i,
{
    if i < ls.len() && !is_heading(ls[i as int]) {
        lemma_section_end(ls, i + 1);
    }
}

proof fn lemma_last_record_before(ls: Seq<Seq<char>>, from: nat, to: nat)
    requires
        to <= ls.len(),
    ensures
        last_record_before(ls, from, to) matches Some(j) ==> from <= j < to && is_record_line(ls[j as int]) && forall|k: int| j < k < to ==> !is_record_line(#[trigger] ls[k]),
        last_record_before(ls, from, to) is None ==> forall|k: int| from <= k < to ==> !is_record_line(#[trigger] ls[k]),
    decreases to,
{
    if to > from && !is_record_line(ls[to - 1]) {
        lemma_last_record_before(ls, from, (to - 1) as nat);
    }
}

proof fn lemma_first_nonblank(ls: Seq<Seq<char>>, i: nat)
    requires
        i <= ls.len(),
    ensures
        i <= first_nonblank(ls, i) <= ls.len(),
        forall|k: int| i <= k < first_nonblank(ls, i) ==> trim(#[trigger] ls[k]).len() == 0,
        first_nonblank(ls, i) < ls.len() ==> trim(ls[first_nonblank(ls, i) as int]).len() > 0,
    decreases ls.len() - i,
{
    if i < ls.len() && trim(ls[i as int]).len() == 0 {
        lemma_first_nonblank(ls, i + 1);
    }
}

proof fn lemma_trim_end_keeps_first(s: Seq<char>)
    requires
        s.len() > 0,
        !is_ws(s[0]),
    ensures
        trim_end(s).len() > 0,
    decreases s.len(),
{
    if is_ws(s.last()) {
        assert(s.len() > 1);
        assert(s.drop_last()[0] == s[0]);
        lemma_trim_end_keeps_first(s.drop_last());
    }
}

/// A blank line is neither a heading nor a record line.
proof fn lemma_blank_plain(l: Seq<char>)
    requires
        trim(l).len() == 0,
    ensures
        !is_heading(l),
        !is_record_line(l),
{
    reveal_strlit("## ");
    reveal_strlit("- ");
    if is_heading(l) || is_record_line(l) {
        if is_heading(l) {
            assert(l.subrange(0, 3)[0] == l[0]);
        } else {
            assert(l.subrange(0, 2)[0] == l[0]);
        }
        assert(!is_ws(l[0]));
        assert(trim_start(l) == l);
        lemma_trim_end_keeps_first(l);
    }
}

pub open spec fn no_heading(ls: Seq<Seq<char>>) -> bool {
    forall|i: int| 0 <= i < ls.len() ==> !is_heading(#[trigger] ls[i])
}

pub open spec fn no_record_line(ls: Seq<Seq<char>>) -> bool {
    forall|i: int| 0 <= i < ls.len() ==> !is_record_line(#[trigger] ls[i])
}

proof fn lemma_plain_lines(ls: Seq<Seq<char>>, s: bool, path: Seq<char>)
    requires
        no_heading(ls),
    ensures
        rec_state_after(ls, s) == s,
        no_record_line(ls) ==> records_in(ls, s) == Seq::<RecordView>::empty(),
        no_record_line(ls) ==> errors_in(ls, s, path) == Seq::<Seq<char>>::empty(),
    decreases ls.len(),
{
    if ls.len() > 0 {
        let t = ls.drop_first();
        assert forall|i: int| 0 <= i < t.len() implies !is_heading(#[trigger] t[i]) by {
            assert(t[i] == ls[i + 1]);
        }
        assert(!is_heading(ls[0]));
        lemma_plain_lines(t, s, path);
        if no_record_line(ls) {
            assert forall|i: int| 0 <= i < t.len() implies !is_record_line(#[trigger] t[i]) by {
                assert(t[i] == ls[i + 1]);
            }
            assert(!is_record_line(ls[0]));
        }
    }
}

/// Lines that hold neither record lines nor headings read as nothing,
/// whatever the state.
proof fn lemma_no_records(ls: Seq<Seq<char>>, s: bool, path: Seq<char>)
    requires
        no_record_line(ls),
    ensures
        records_in(ls, s) == Seq::<RecordView>::empty(),
        errors_in(ls, s, path) == Seq::<Seq<char>>::empty(),
    decreases ls.len(),
{
    if ls.len() > 0 {
        let t = ls.drop_first();
        assert forall|i: int| 0 <= i < t.len() implies !is_record_line(#[trigger] t[i]) by {
            assert(t[i] == ls[i + 1]);
        }
        assert(!is_record_line(ls[0]));
        lemma_no_records(t, true, path);
        lemma_no_records(t, false, path);
    }
}

/// What the scan reads from a record line followed by lines without record
/// lines.
proof fn lemma_new_line_read(line: Seq<char>, zl: Seq<Seq<char>>, path: Seq<char>)
    requires
        one_line(line),
        no_record_line(zl),
    ensures
        records_in(seq!["- "@ + line] + zl, true) == new_records(line),
        errors_in(seq!["- "@ + line] + zl, true, path) == new_errors(line, path),
{
    let x = "- "@ + line;
    crate::append_law::lemma_record_line_shape(line);
    lemma_no_records(zl, true, path);
    assert((seq![x] + zl)[0] == x);
    assert((seq![x] + zl).drop_first() =~= zl);
    match parse_record(x) {
        Ok(r) => {
            assert(records_in(seq![x] + zl, true) == seq![r] + records_in(zl, true));
            assert(errors_in(seq![x] + zl, true, path) == errors_in(zl, true, path));
        },
        Err(e) => {
            assert(records_in(seq![x] + zl, true) == records_in(zl, true));
            assert(errors_in(seq![x] + zl, true, path) == seq![path + ": "@ + e] + errors_in(zl, true, path));
        },
    }
    assert(records_in(seq![x] + zl, true) =~= new_records(line));
    assert(errors_in(seq![x] + zl, true, path) =~= new_errors(line, path));
}

/// Where the new record goes, among the body's lines: after the heading,
/// with no heading between, and with neither headings nor record lines
/// from there to the end of the section.
proof fn lemma_slot_lines(ls: Seq<Seq<char>>, h: nat)
    requires
        exec_heading(ls) == Some(h),
    ensures
        h < ls.len(),
        is_exec_heading(ls[h as int]),
        h + 1 <= record_line_index(ls, h) <= section_end(ls, h + 1) <= ls.len(),
        forall|k: int| h + 1 <= k < record_line_index(ls, h) ==> !is_heading(#[trigger] ls[k]),
        forall|k: int| record_line_index(ls, h) <= k < section_end(ls, h + 1) ==> !is_heading(#[trigger] ls[k]) && !is_record_line(ls[k]),
        section_end(ls, h + 1) < ls.len() ==> is_heading(ls[section_end(ls, h + 1) as int]),
{
    lemma_exec_heading_from(ls, 0);
    let e = section_end(ls, h + 1);
    lemma_section_end(ls, h + 1);
    lemma_last_record_before(ls, h + 1, e);
    match last_record_before(ls, h + 1, e) {
        Some(j) => {},
        None => {
            let f = first_nonblank(ls, h + 1);
            lemma_first_nonblank(ls, h + 1);
            assert forall|k: int| h + 1 <= k < f implies !is_heading(#[trigger] ls[k]) by {
                lemma_blank_plain(ls[k]);
            }
            if f > e {
                assert(e < ls.len());
                assert(trim(ls[e as int]).len() == 0);
                lemma_blank_plain(ls[e as int]);
            }
        },
    }
}

/// In a section without record lines, the first non-blank line after the
/// heading (if any) does not start with whitespace, so a new record put
/// before its text leaves that line whole.
pub open spec fn blank_section_unindented(ls: Seq<Seq<char>>, h: nat) -> bool {
    last_record_before(ls, h + 1, section_end(ls, h + 1)) is None && first_nonblank(ls, h + 1) < ls.len()
        ==> !is_ws(ls[first_nonblank(ls, h + 1) as int][0])
}

proof fn lemma_trim_end_split(l: Seq<char>)
    ensures
        trim_end(l).len() <= l.len(),
        l.subrange(0, trim_end(l).len() as int) == trim_end(l),
        forall|k: int| trim_end(l).len() <= k < l.len() ==> is_ws(#[trigger] l[k]),
    decreases l.len(),
{
    if l.len() > 0 && is_ws(l.last()) {
        lemma_trim_end_split(l.drop_last());
        assert(l.subrange(0, trim_end(l).len() as int) =~= l.drop_last().subrange(0, trim_end(l).len() as int));
        assert forall|k: int| trim_end(l).len() <= k < l.len() implies is_ws(#[trigger] l[k]) by {
            if k < l.len() - 1 {
                assert(l[k] == l.drop_last()[k]);
            }
        }
    } else {
        assert(l.subrange(0, l.len() as int) =~= l);
    }
}

proof fn lemma_trim_start_empty(l: Seq<char>)
    requires
        trim_start(l).len() == 0,
    ensures
        forall|k: int| 0 <= k < l.len() ==> is_ws(#[trigger] l[k]),
    decreases l.len(),
{
    if l.len() > 0 {
        assert(is_ws(l[0]));
        lemma_trim_start_empty(l.drop_first());
        assert forall|k: int| 0 <= k < l.len() implies is_ws(#[trigger] l[k]) by {
            if k > 0 {
                assert(l[k] == l.drop_first()[k - 1]);
            }
        }
    }
}

/// A blank line is whitespace only.
proof fn lemma_blank_ws(l: Seq<char>)
    requires
        trim(l).len() == 0,
    ensures
        forall|k: int| 0 <= k < l.len() ==> is_ws(#[trigger] l[k]),
{
    let t = trim_start(l);
    if t.len() > 0 {
        lemma_trim_start_ws_first(l);
        lemma_trim_end_keeps_first(t);
    }
    lemma_trim_start_empty(l);
}

proof fn lemma_trim_start_ws_first(l: Seq<char>)
    requires
        trim_start(l).len() > 0,
    ensures
        !is_ws(trim_start(l)[0]),
    decreases l.len(),
{
    if l.len() > 0 && is_ws(l[0]) {
        lemma_trim_start_ws_first(l.drop_first());
    }
}

/// The heading line is the marker followed by whitespace only.
proof fn lemma_heading_suffix(l: Seq<char>)
    requires
        is_exec_heading(l),
    ensures
        forall|k: int| marker().len() <= k < l.len() ==> is_ws(#[trigger] l[k]),
{
    reveal_strlit("## ");
    reveal_strlit("## Executions");
    assert(l.subrange(0, 3)[0] == l[0]);
    assert(!is_ws(l[0]));
    assert(trim_start(l) == l);
    lemma_trim_end_split(l);
}

proof fn lemma_first_non_ws_at(t: Seq<char>, q: nat)
    requires
        q <= t.len(),
        forall|k: int| 0 <= k < q ==> is_ws(#[trigger] t[k]),
        q < t.len() ==> !is_ws(t[q as int]),
    ensures
        first_non_ws(t) == q,
    decreases q,
{
    if q > 0 {
        let u = t.drop_first();
        assert forall|k: int| 0 <= k < q - 1 implies is_ws(#[trigger] u[k]) by {
            assert(u[k] == t[k + 1]);
        }
        if q - 1 < u.len() {
            assert(u[q - 1] == t[q as int]);
        }
        lemma_first_non_ws_at(u, (q - 1) as nat);
    }
}

/// Text without lines is empty.
proof fn lemma_no_lines(s: Seq<char>)
    requires
        lines(s).len() == 0,
    ensures
        s.len() == 0,
{
    if s.len() > 0 {
        let k = index_of(s, '\n');
        if k < s.len() {
            assert(lines(s).len() >= 1);
        } else {
            assert(lines(s).len() == 1);
        }
    }
}

/// Without record lines in the section and with the text after the heading
/// unindented, the new record goes at the start of the first non-blank line
/// after the heading (the end of the body when there is none).
proof fn lemma_record_pos(body: Seq<char>, h: nat)
    requires
        exec_heading(lines(body)) == Some(h),
        blank_section_unindented(lines(body), h),
    ensures
        record_pos(body, h) == line_start(body, record_line_index(lines(body), h)),
{
    let ls = lines(body);
    lemma_slot_lines(ls, h);
    let e = section_end(ls, h + 1);
    if last_record_before(ls, h + 1, e) is None {
        let f = first_nonblank(ls, h + 1);
        lemma_first_nonblank(ls, h + 1);
        reveal_strlit("## Executions");
        lemma_line_raw(body, h);
        lemma_heading_suffix(ls[h as int]);
        let p = line_start(body, h) + 13;
        // everything from the end of the heading text to the start of line m is whitespace
        assert forall|m: nat| h + 1 <= m <= f implies line_start(body, m) <= body.len() && p <= line_start(body, m)
            && forall|k: int| p <= k < line_start(body, m) ==> is_ws(#[trigger] body[k]) by {
            lemma_ws_up_to(body, h, m, f);
        }
        let q = line_start(body, f);
        lemma_line_start(body, f);
        if f < ls.len() {
            lemma_line_raw(body, f);
            assert(trim(ls[f as int]).len() > 0);
            if ls[f as int].len() == 0 {
                assert(trim(ls[f as int]) =~= Seq::<char>::empty());
            }
            assert(body.subrange(q as int, (q + ls[f as int].len()) as int)[0] == body[q as int]);
        } else {
            assert(ls.subrange(f as int, ls.len() as int) =~= Seq::<Seq<char>>::empty());
            lemma_no_lines(body.subrange(q as int, body.len() as int));
        }
        let t = body.subrange(p as int, body.len() as int);
        assert forall|k: int| 0 <= k < q - p implies is_ws(#[trigger] t[k]) by {
            assert(t[k] == body[p + k]);
        }
        if q < body.len() {
            assert(t[q - p] == body[q as int]);
        }
        lemma_first_non_ws_at(t, (q - p) as nat);
    }
}

proof fn lemma_ws_up_to(body: Seq<char>, h: nat, m: nat, f: nat)
    requires
        exec_heading(lines(body)) == Some(h),
        h + 1 <= m <= f <= lines(body).len(),
        forall|k: int| h + 1 <= k < f ==> trim(#[trigger] lines(body)[k]).len() == 0,
    ensures
        line_start(body, m) <= body.len(),
        line_start(body, h) + 13 <= line_start(body, m),
        forall|k: int| line_start(body, h) + 13 <= k < line_start(body, m) ==> is_ws(#[trigger] body[k]),
    decreases m,
{
    let ls = lines(body);
    lemma_slot_lines(ls, h);
    reveal_strlit("## Executions");
    assert('\r' == '\r' && is_ws('\r') && is_ws('\n'));
    if m == h + 1 {
        lemma_line_raw(body, h);
        lemma_heading_suffix(ls[h as int]);
        crate::case::lemma_exec_heading_len(ls[h as int]);
        let a = line_start(body, h);
        assert forall|k: int| a + 13 <= k < line_start(body, m) implies is_ws(#[trigger] body[k]) by {
            if k < a + ls[h as int].len() {
                assert(body[k] == body.subrange(a as int, (a + ls[h as int].len()) as int)[k - a]);
                assert(is_ws(ls[h as int][k - a]));
            }
        }
    } else {
        let m1 = (m - 1) as nat;
        lemma_ws_up_to(body, h, m1, f);
        lemma_line_raw(body, m1);
        lemma_blank_ws(ls[m1 as int]);
        let a = line_start(body, m1);
        assert forall|k: int| line_start(body, h) + 13 <= k < line_start(body, m) implies is_ws(#[trigger] body[k]) by {
            if a <= k < a + ls[m1 as int].len() {
                assert(body[k] == body.subrange(a as int, (a + ls[m1 as int].len()) as int)[k - a]);
                assert(is_ws(ls[m1 as int][k - a]));
            }
        }
    }
}

/// The body after the new line, split into lines.
#[verifier::spinoff_prover]
proof fn lemma_inserted_lines(body: Seq<char>, line: Seq<char>, h: nat)
    requires
        exec_heading(lines(body)) == Some(h),
        blank_section_unindented(lines(body), h),
        !ends_with_char(body, '\r'),
        one_line(line),
    ensures
        lines(add_record_spec(body, line)) == lines(body).subrange(0, record_line_index(lines(body), h) as int) + (seq!["- "@ + line] + lines(body).subrange(record_line_index(lines(body), h) as int, lines(body).len() as int)),
{
    let ls = lines(body);
    lemma_slot_lines(ls, h);
    let ins = record_line_index(ls, h);
    lemma_line_start(body, ins);
    lemma_record_pos(body, h);
    let at = line_start(body, ins) as int;
    let head = body.subrange(0, at);
    let z = body.subrange(at, body.len() as int);
    let x = "- "@ + line;
    let xl = x + seq!['\n'];
    crate::append_law::lemma_record_line_shape(line);
    lemma_lines_one(x);
    let after = add_record_spec(body, line);
    assert(after == head + newline_if_missing(head) + "- "@ + line + seq!['\n'] + z);
    lemma_lines_concat(xl, z);
    if ends_with_char(head, '\n') {
        assert(newline_if_missing(head) =~= Seq::<char>::empty());
        assert(after =~= head + (xl + z));
        lemma_lines_concat(head, xl + z);
    } else {
        assert(at == body.len() && ins == ls.len());
        assert(head =~= body);
        assert(z =~= Seq::<char>::empty());
        assert(newline_if_missing(head) =~= seq!['\n']);
        assert(after =~= (body + seq!['\n']) + (xl + z));
        assert(body.len() > 0);
        lemma_lines_add_newline(body);
        lemma_lines_concat(body + seq!['\n'], xl + z);
        assert(ls.subrange(0, ins as int) =~= ls);
    }
}

/// What the scan reads when a record line is put into the lines of an
/// `## Executions` section: the records read before it, the new one, then
/// the records read after it.
#[verifier::spinoff_prover]
proof fn lemma_inserted_read(ls: Seq<Seq<char>>, h: nat, ins: nat, line: Seq<char>, path: Seq<char>)
    requires
        h < ins <= ls.len(),
        is_exec_heading(ls[h as int]),
        forall|k: int| h + 1 <= k < ins ==> !is_heading(#[trigger] ls[k]),
        one_line(line),
    ensures
        records_in(ls, false) == records_in(ls.subrange(0, ins as int), false) + records_in(ls.subrange(ins as int, ls.len() as int), true),
        errors_in(ls, false, path) == errors_in(ls.subrange(0, ins as int), false, path) + errors_in(ls.subrange(ins as int, ls.len() as int), true, path),
        records_in(ls.subrange(0, ins as int) + (seq!["- "@ + line] + ls.subrange(ins as int, ls.len() as int)), false)
            == records_in(ls.subrange(0, ins as int), false) + new_records(line) + records_in(ls.subrange(ins as int, ls.len() as int), true),
        errors_in(ls.subrange(0, ins as int) + (seq!["- "@ + line] + ls.subrange(ins as int, ls.len() as int)), false, path)
            == errors_in(ls.subrange(0, ins as int), false, path) + new_errors(line, path) + errors_in(ls.subrange(ins as int, ls.len() as int), true, path),
{
    let pre = ls.subrange(0, ins as int);
    let rest = ls.subrange(ins as int, ls.len() as int);
    let a = ls.subrange(0, h as int);
    let hd = seq![ls[h as int]];
    let mid = ls.subrange((h + 1) as int, ins as int);
    assert(pre =~= a + (hd + mid));
    assert(ls =~= pre + rest);
    assert(marker() == "## Executions"@);
    assert(hd.drop_first() =~= Seq::<Seq<char>>::empty());
    assert(rec_state_after(hd, rec_state_after(a, false)) == rec_state_after(Seq::<Seq<char>>::empty(), true));
    assert(no_heading(mid)) by {
        assert forall|i: int| 0 <= i < mid.len() implies !is_heading(#[trigger] mid[i]) by {
            assert(mid[i] == ls[h + 1 + i]);
        }
    }
    lemma_plain_lines(mid, true, path);
    lemma_state_concat(hd, mid, rec_state_after(a, false));
    lemma_state_concat(a, hd + mid, false);
    assert(rec_state_after(pre, false));
    lemma_records_concat(pre, rest, false, path);
    let x = "- "@ + line;
    lemma_records_concat(pre, seq![x] + rest, false, path);
    crate::append_law::lemma_record_line_shape(line);
    lemma_records_concat(seq![x], rest, true, path);
    assert(seq![x].drop_first() =~= Seq::<Seq<char>>::empty());
    assert(rec_state_after(seq![x], true) == rec_state_after(Seq::<Seq<char>>::empty(), true));
    assert(no_record_line(Seq::<Seq<char>>::empty()));
    lemma_new_line_read(line, Seq::<Seq<char>>::empty(), path);
    assert(seq![x] + Seq::<Seq<char>>::empty() =~= seq![x]);
    assert(records_in(pre + (seq![x] + rest), false) =~= records_in(pre, false) + new_records(line) + records_in(rest, true));
    assert(errors_in(pre + (seq![x] + rest), false, path) =~= errors_in(pre, false, path) + new_errors(line, path) + errors_in(rest, true, path));
}

/// Lines that hold no `## Executions` heading, and neither records nor
/// headings up to their first heading, read as nothing from inside the
/// section.
proof fn lemma_tail_reads_nothing(ms: Seq<Seq<char>>, e: nat, path: Seq<char>)
    requires
        e <= ms.len(),
        forall|k: int| 0 <= k < e ==> !is_heading(#[trigger] ms[k]) && !is_record_line(ms[k]),
        e < ms.len() ==> is_heading(ms[e as int]),
        no_exec_heading(ms),
    ensures
        records_in(ms, true) == Seq::<RecordView>::empty(),
        errors_in(ms, true, path) == Seq::<Seq<char>>::empty(),
{
    let a = ms.subrange(0, e as int);
    let b = ms.subrange(e as int, ms.len() as int);
    assert(ms =~= a + b);
    assert(no_heading(a) && no_record_line(a)) by {
        assert forall|i: int| 0 <= i < a.len() implies !is_heading(#[trigger] a[i]) && !is_record_line(a[i]) by {
            assert(a[i] == ms[i]);
        }
    }
    lemma_plain_lines(a, true, path);
    lemma_records_concat(a, b, true, path);
    if b.len() > 0 {
        let b1 = b.drop_first();
        assert(b[0] == ms[e as int]);
        assert(!is_exec_heading(ms[e as int]));
        assert(marker() == "## Executions"@);
        assert(no_exec_heading(b1)) by {
            assert forall|i: int| 0 <= i < b1.len() implies !is_exec_heading(#[trigger] b1[i]) by {
                assert(b1[i] == ms[e + 1 + i]);
            }
        }
        lemma_outside_records(b1, path);
    }
    assert(records_in(ms, true) =~= Seq::<RecordView>::empty());
    assert(errors_in(ms, true, path) =~= Seq::<Seq<char>>::empty());
}

/// Appending a record to a body with an `## Executions` heading line: the
/// new line goes into the lines right after the section's last record line
/// (or, in a section without records, before its first non-blank line),
/// and the scan reads the records before that point, then the new one, then
/// those after it.
pub proof fn law_append_in_section(body: Seq<char>, line: Seq<char>, path: Seq<char>)
    requires
        exec_heading(lines(body)) is Some,
        blank_section_unindented(lines(body), exec_heading(lines(body)).unwrap()),
        !ends_with_char(body, '\r'),
        one_line(line),
    ensures
        ({
            let ls = lines(body);
            let ins = record_line_index(ls, exec_heading(ls).unwrap()) as int;
            let pre = ls.subrange(0, ins);
            let rest = ls.subrange(ins, ls.len() as int);
            &&& lines(add_record_spec(body, line)) == pre + (seq!["- "@ + line] + rest)
            &&& records_in(ls, false) == records_in(pre, false) + records_in(rest, true)
            &&& records_in(lines(add_record_spec(body, line)), false) == records_in(pre, false) + new_records(line) + records_in(rest, true)
            &&& errors_in(ls, false, path) == errors_in(pre, false, path) + errors_in(rest, true, path)
            &&& errors_in(lines(add_record_spec(body, line)), false, path) == errors_in(pre, false, path) + new_errors(line, path) + errors_in(rest, true, path)
        }),
{
    let ls = lines(body);
    let h = exec_heading(ls).unwrap();
    lemma_slot_lines(ls, h);
    lemma_inserted_lines(body, line, h);
    lemma_inserted_read(ls, h, record_line_index(ls, h), line, path);
}

/// Appending a record to a body with at most one `## Executions` heading
/// line (whose section, when it has no records, is not followed by indented
/// text): reading the body back gives the records it had, in order,
/// followed by the new one, and the problems it had followed by the new
/// line's problem if it has one.
pub proof fn law_append_record(body: Seq<char>, line: Seq<char>, path: Seq<char>)
    requires
        exec_heading(lines(body)) matches Some(h) ==> exec_heading_from(lines(body), h + 1) is None
            && blank_section_unindented(lines(body), h),
        !ends_with_char(body, '\r'),
        one_line(line),
    ensures
        records_in(lines(add_record_spec(body, line)), false) == records_in(lines(body), false) + new_records(line),
        errors_in(lines(add_record_spec(body, line)), false, path) == errors_in(lines(body), false, path) + new_errors(line, path),
{
    let ls = lines(body);
    match exec_heading(ls) {
        None => {
            crate::append_law::law_append_creates_section(body, line, path);
        },
        Some(h) => {
            law_append_in_section(body, line, path);
            lemma_slot_lines(ls, h);
            lemma_exec_heading_from(ls, h + 1);
            let ins = record_line_index(ls, h);
            let e = section_end(ls, h + 1);
            let rest = ls.subrange(ins as int, ls.len() as int);
            assert(no_exec_heading(rest)) by {
                assert forall|i: int| 0 <= i < rest.len() implies !is_exec_heading(#[trigger] rest[i]) by {
                    assert(rest[i] == ls[ins + i]);
                }
            }
            assert forall|k: int| 0 <= k < e - ins implies !is_heading(#[trigger] rest[k]) && !is_record_line(rest[k]) by {
                assert(rest[k] == ls[ins + k]);
            }
            if e < ls.len() {
                assert(rest[e - ins] == ls[e as int]);
            }
            lemma_tail_reads_nothing(rest, (e - ins) as nat, path);
            let pre = ls.subrange(0, ins as int);
            assert(records_in(pre, false) + Seq::<RecordView>::empty() =~= records_in(pre, false));
            assert(errors_in(pre, false, path) + Seq::<Seq<char>>::empty() =~= errors_in(pre, false, path));
        },
    }
}

} // verus!
