//! Properties of the library as a whole, proved over the specifications the
//! functions' contracts use.
use vstd::prelude::*;
use crate::case::{lookup, set_front, is_category, CaseView};
use crate::commands::{
    field, find_case, is_reviewed, record_line_text, record_plan, run_spec, scriptify_spec,
    with_field,
};
use crate::drift::{drift_hash_of, drift_hint_of, drift_message};
use crate::review::{
    any_drift, draft_entries, drift_items, finish_edit_spec, is_draft, join_lines, review_spec,
    ReviewView,
};

verus! {

/// Reading a frontmatter field after setting it gives the value set.
pub proof fn law_get_after_set(front: Seq<(Seq<char>, Seq<char>)>, key: Seq<char>, value: Seq<char>)
    ensures
        lookup(set_front(front, key, value), key) == Some(value),
    decreases front.len(),
{
    if front.len() > 0 && front[0].0 != key {
        law_get_after_set(front.drop_first(), key, value);
        assert((seq![front[0]] + set_front(front.drop_first(), key, value)).drop_first() =~= set_front(front.drop_first(), key, value));
    } else if front.len() > 0 {
        assert((seq![(front[0].0, value)] + front.drop_first())[0] == (front[0].0, value));
    }
}

/// Setting a frontmatter field leaves every other field as it was.
pub proof fn law_set_keeps_other_fields(
    front: Seq<(Seq<char>, Seq<char>)>,
    key: Seq<char>,
    value: Seq<char>,
    other: Seq<char>,
)
    requires
        other != key,
    ensures
        lookup(set_front(front, key, value), other) == lookup(front, other),
    decreases front.len(),
{
    if front.len() == 0 {
        assert(seq![(key, value)].drop_first() =~= Seq::<(Seq<char>, Seq<char>)>::empty());
        assert(lookup(Seq::<(Seq<char>, Seq<char>)>::empty(), other) is None);
        assert(lookup(seq![(key, value)], other) == lookup(seq![(key, value)].drop_first(), other));
    } else {
        if front[0].0 == key {
            assert((seq![(front[0].0, value)] + front.drop_first()).drop_first() =~= front.drop_first());
            assert((seq![(front[0].0, value)] + front.drop_first())[0] == (front[0].0, value));
        } else {
            law_set_keeps_other_fields(front.drop_first(), key, value, other);
            assert((seq![front[0]] + set_front(front.drop_first(), key, value)).drop_first() =~= set_front(front.drop_first(), key, value));
            assert((seq![front[0]] + set_front(front.drop_first(), key, value))[0] == front[0]);
        }
    }
}

/// A case that is not reviewed cannot be run, recorded or scriptified: each
/// of these succeeds only on a reviewed case.
pub proof fn law_review_gate(
    cs: Seq<CaseView>,
    id: Seq<char>,
    result: Seq<char>,
    category: Option<Seq<char>>,
    commit: Seq<char>,
    note: Option<Seq<char>>,
    today: Result<Seq<char>, Seq<char>>,
    covered_by: Option<Seq<char>>,
    rebaseline: bool,
)
    ensures
        run_spec(cs, id) is Ok ==> (find_case(cs, id) matches Some(i) && is_reviewed(cs[i as int])),
        record_plan(cs, id, result, category, commit, note, today) matches Ok((i, _)) ==> is_reviewed(cs[i as int]),
        scriptify_spec(cs, id, covered_by, rebaseline) is Ok ==> (find_case(cs, id) matches Some(i) && is_reviewed(cs[i as int])),
{
}

/// Records are kept only for manual cases, and a record states its
/// attribution exactly when the run failed: a failed run carries one of the
/// three categories, a passed run none.
pub proof fn law_record_attribution(
    cs: Seq<CaseView>,
    id: Seq<char>,
    result: Seq<char>,
    category: Option<Seq<char>>,
    commit: Seq<char>,
    note: Option<Seq<char>>,
    today: Result<Seq<char>, Seq<char>>,
)
    ensures
        record_plan(cs, id, result, category, commit, note, today) matches Ok((i, _)) ==> {
            &&& lookup(cs[i as int].front, "mode"@) == Some("manual"@)
            &&& (result == "fail"@ ==> (category matches Some(k) && is_category(k)))
            &&& (result == "pass"@ ==> category is None)
            &&& (result == "pass"@ || result == "fail"@)
            &&& (note matches Some(n) ==> !n.contains('|'))
        },
{
}

/// `record` refuses exactly when there is no case with the id, the case is
/// not reviewed or not manual, the result is neither pass nor fail, a
/// failure lacks a known category, a pass has a category, the note holds a
/// `|`, or today's date is unavailable; otherwise it appends to that case
/// the record line of today's date.
pub proof fn law_record_refusals(
    cs: Seq<CaseView>,
    id: Seq<char>,
    result: Seq<char>,
    category: Option<Seq<char>>,
    commit: Seq<char>,
    note: Option<Seq<char>>,
    today: Result<Seq<char>, Seq<char>>,
)
    ensures
        record_plan(cs, id, result, category, commit, note, today) is Err <==> {
            ||| find_case(cs, id) is None
            ||| !is_reviewed(cs[find_case(cs, id).unwrap() as int])
            ||| lookup(cs[find_case(cs, id).unwrap() as int].front, "mode"@) != Some("manual"@)
            ||| (result != "pass"@ && result != "fail"@)
            ||| (result == "fail"@ && !(category matches Some(k) && is_category(k)))
            ||| (result == "pass"@ && category is Some)
            ||| (note matches Some(n) && n.contains('|'))
            ||| today is Err
        },
        record_plan(cs, id, result, category, commit, note, today) matches Ok((i, line)) ==> (Some(i) == find_case(cs, id)
            && (today matches Ok(d) && line == record_line_text(d, commit, result, category, note))),
{
}

/// Right after `scriptify` (or a rebaseline), the case shows no drift: its
/// `drift-sha` is the hash of its current Steps and Expected.
pub proof fn law_scriptify_sets_baseline(
    cs: Seq<CaseView>,
    id: Seq<char>,
    covered_by: Option<Seq<char>>,
    rebaseline: bool,
)
    ensures
        scriptify_spec(cs, id, covered_by, rebaseline) matches Ok((c, _)) ==> drift_hint_of(c) is None,
{
    if let Ok((c, _)) = scriptify_spec(cs, id, covered_by, rebaseline) {
        let i = find_case(cs, id).unwrap();
        let old = cs[i as int];
        if rebaseline {
            law_get_after_set(old.front, "drift-sha"@, crate::drift::drift_hash_of(old.body));
        } else {
            let cb = match covered_by {
                Some(p) => p,
                None => "tests/"@ + id + ".spec.ts"@,
            };
            let f1 = set_front(old.front, "mode"@, "scripted"@);
            let f2 = set_front(f1, "covered-by"@, cb);
            law_get_after_set(f2, "drift-sha"@, crate::drift::drift_hash_of(old.body));
        }
    }
}

proof fn lemma_distinct_keys()
    ensures
        "mode"@ != "covered-by"@,
        "mode"@ != "drift-sha"@,
        "covered-by"@ != "drift-sha"@,
        "status"@ != "mode"@,
        "status"@ != "covered-by"@,
        "status"@ != "drift-sha"@,
{
    reveal_strlit("mode");
    reveal_strlit("covered-by");
    reveal_strlit("drift-sha");
    reveal_strlit("status");
    assert("mode"@.len() != "covered-by"@.len());
    assert("mode"@.len() != "drift-sha"@.len());
    assert("covered-by"@.len() != "drift-sha"@.len());
    assert("status"@.len() != "mode"@.len());
    assert("status"@.len() != "covered-by"@.len());
    assert("status"@.len() != "drift-sha"@.len());
}

/// `scriptify` turns a manual case into a scripted one that names its
/// script, so it passes the scripted-needs-`covered-by` rule; it stays
/// reviewed.
pub proof fn law_scriptify_links_script(
    cs: Seq<CaseView>,
    id: Seq<char>,
    covered_by: Option<Seq<char>>,
)
    ensures
        scriptify_spec(cs, id, covered_by, false) matches Ok((c, _)) ==> {
            &&& lookup(c.front, "mode"@) == Some("scripted"@)
            &&& lookup(c.front, "covered-by"@) is Some
            &&& lookup(c.front, "status"@) == Some("reviewed"@)
        },
{
    if let Ok((c, _)) = scriptify_spec(cs, id, covered_by, false) {
        let i = find_case(cs, id).unwrap();
        let old = cs[i as int];
        let cb = match covered_by {
            Some(p) => p,
            None => "tests/"@ + id + ".spec.ts"@,
        };
        let h = crate::drift::drift_hash_of(old.body);
        assert(c.front == set_front(set_front(set_front(old.front, "mode"@, "scripted"@), "covered-by"@, cb), "drift-sha"@, h));
        lemma_three_sets(old.front, cb, h);
    }
}

proof fn lemma_three_sets(f: Seq<(Seq<char>, Seq<char>)>, cb: Seq<char>, h: Seq<char>)
    ensures
        ({
            let g = set_front(set_front(set_front(f, "mode"@, "scripted"@), "covered-by"@, cb), "drift-sha"@, h);
            &&& lookup(g, "mode"@) == Some("scripted"@)
            &&& lookup(g, "covered-by"@) == Some(cb)
            &&& lookup(g, "status"@) == lookup(f, "status"@)
        }),
{
    lemma_distinct_keys();
    let f1 = set_front(f, "mode"@, "scripted"@);
    let f2 = set_front(f1, "covered-by"@, cb);
    law_get_after_set(f, "mode"@, "scripted"@);
    law_set_keeps_other_fields(f1, "covered-by"@, cb, "mode"@);
    law_set_keeps_other_fields(f2, "drift-sha"@, h, "mode"@);
    law_get_after_set(f1, "covered-by"@, cb);
    law_set_keeps_other_fields(f2, "drift-sha"@, h, "covered-by"@);
    law_set_keeps_other_fields(f, "mode"@, "scripted"@, "status"@);
    law_set_keeps_other_fields(f1, "covered-by"@, cb, "status"@);
    law_set_keeps_other_fields(f2, "drift-sha"@, h, "status"@);
}

/// Approval is the only way to `reviewed`: the only case `review` writes
/// back without an edit is a draft of the directory with its status set to
/// `reviewed`; and after an edit of a reviewed case, the edited case is
/// written back with its status reset to draft and every other field and
/// the body as the edit left them.
pub proof fn law_review_transitions(
    loaded: Result<(Seq<CaseView>, Seq<Seq<char>>), Seq<char>>,
    id: Option<Seq<char>>,
    approve: bool,
    edit: bool,
    before: CaseView,
    edited: CaseView,
    edited_id: Seq<char>,
)
    ensures
        review_spec(loaded, id, approve, edit) matches Ok(ReviewView::Write(c, _)) ==> approve && (
        loaded matches Ok((cs, _)) && exists|i: int|
            0 <= i < cs.len() && is_draft(cs[i]) && c == with_field(cs[i], "status"@, "reviewed"@)),
        field(before, "status"@) == "reviewed"@ ==> (finish_edit_spec(before, edited, edited_id) matches ReviewView::Write(c, _)
            && c.body == edited.body && lookup(c.front, "status"@) == Some("draft"@)
            && forall|k: Seq<char>| k != "status"@ ==> #[trigger] lookup(c.front, k) == lookup(edited.front, k)),
        field(before, "status"@) != "reviewed"@ ==> finish_edit_spec(before, edited, edited_id) is Done,
{
    if let Ok(ReviewView::Write(c, _)) = review_spec(loaded, id, approve, edit) {
        if let Ok((cs, _)) = loaded {
            let i = find_case(cs, id.unwrap()).unwrap();
            lemma_find_case_bound(cs, id.unwrap());
            assert(0 <= i < cs.len() && is_draft(cs[i as int]));
        }
    }
    if field(before, "status"@) == "reviewed"@ {
        law_get_after_set(edited.front, "status"@, "draft"@);
        assert forall|k: Seq<char>| k != "status"@ implies #[trigger] lookup(set_front(edited.front, "status"@, "draft"@), k) == lookup(edited.front, k) by {
            law_set_keeps_other_fields(edited.front, "status"@, "draft"@, k);
        }
    }
}

/// A case drifted when it has a `drift-sha` baseline that differs from the
/// hash of its current Steps and Expected.
pub open spec fn drifted(c: CaseView) -> bool {
    lookup(c.front, "drift-sha"@) matches Some(stored) && stored != drift_hash_of(c.body)
}

/// The drift lines of the listing: one line `- <id> — <hint>` per drifted
/// case, in order.
pub open spec fn drift_lines(cs: Seq<CaseView>) -> Seq<char>
    decreases cs.len(),
{
    if cs.len() == 0 {
        seq![]
    } else {
        drift_lines(cs.drop_last()) + if drifted(cs.last()) {
            "- "@ + field(cs.last(), "id"@) + " \u{2014} "@ + drift_message(crate::drift::id_or_empty(cs.last().front)) + "\n"@
        } else {
            seq![]
        }
    }
}

proof fn lemma_drift_lines(cs: Seq<CaseView>)
    ensures
        drift_items(cs) == drift_lines(cs),
        any_drift(cs) <==> exists|i: int| 0 <= i < cs.len() && drifted(#[trigger] cs[i]),
    decreases cs.len(),
{
    assert forall|i: int| 0 <= i < cs.len() implies (drift_hint_of(#[trigger] cs[i]) is Some <==> drifted(cs[i])) by {}
    if cs.len() > 0 {
        lemma_drift_lines(cs.drop_last());
    }
}

/// `review` without an id lists the drafts and then, exactly when some case
/// drifted, a `## Drift` section with one line per drifted case naming the
/// way to rebaseline; `review <id>` shows the case's status and mode, and
/// its drift hint when it drifted.
pub proof fn law_review_drift(cs: Seq<CaseView>, errs: Seq<Seq<char>>, id: Seq<char>)
    ensures
        (cs.len() > 0 || errs.len() == 0) ==> review_spec(Ok((cs, errs)), None, false, false) == Ok::<ReviewView, Seq<char>>(ReviewView::Done(
            (if draft_entries(cs).len() == 0 {
                "no draft cases \u{2014} everything reviewed"@
            } else {
                join_lines(draft_entries(cs))
            }) + if exists|i: int| 0 <= i < cs.len() && drifted(#[trigger] cs[i]) {
                "\n\n## Drift (Steps/Expected changed since scriptify)\n"@ + drift_lines(cs)
            } else {
                seq![]
            },
        )),
        find_case(cs, id) matches Some(i) ==> review_spec(Ok((cs, errs)), Some(id), false, false) == Ok::<ReviewView, Seq<char>>(ReviewView::Done(
            id + ": status="@ + field(cs[i as int], "status"@) + " mode="@ + field(cs[i as int], "mode"@) + if drifted(cs[i as int]) {
                "\n"@ + drift_message(crate::drift::id_or_empty(cs[i as int].front))
            } else {
                seq![]
            },
        )),
{
    lemma_drift_lines(cs);
}

pub proof fn lemma_find_case_bound(cs: Seq<CaseView>, id: Seq<char>)
    ensures
        find_case(cs, id) matches Some(i) ==> i < cs.len() && lookup(cs[i as int].front, "id"@) == Some(id),
    decreases cs.len(),
{
    if cs.len() > 0 && lookup(cs[0].front, "id"@) != Some(id) {
        lemma_find_case_bound(cs.drop_first(), id);
    }
}

} // verus!
