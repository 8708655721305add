//! The review gate: listing drafts and drift, approving a draft, and the
//! edit transition that resets a reviewed case to draft.
use vstd::prelude::*;
use crate::case::{lookup, strings_view, Case, CaseView};
use crate::commands::{cases_view, field, find_case, find_case_exec, no_case_message, with_field, field_chars};
use crate::drift::{drift_hint, drift_hint_of};
use crate::text::{chars_of, pad_right, push_chars, push_padded, push_str, string_of};
use crate::validate::loaded_view;

verus! {

/// What a `review` call leads to.
pub enum Review {
    /// Print the message; nothing changes.
    Done(String),
    /// Write the case back, then print the message.
    Write(Case, String),
    /// Open the editor on the case's file, then call `finish_edit`.
    Edit(Case),
}

pub enum ReviewView {
    Done(Seq<char>),
    Write(CaseView, Seq<char>),
    Edit(CaseView),
}

impl View for Review {
    type V = ReviewView;

    open spec fn view(&self) -> ReviewView {
        match self {
            Review::Done(m) => ReviewView::Done(m@),
            Review::Write(c, m) => ReviewView::Write(c@, m@),
            Review::Edit(c) => ReviewView::Edit(c@),
        }
    }
}

/// Lines joined by newlines.
pub open spec fn join_lines(ls: Seq<Seq<char>>) -> Seq<char>
    decreases ls.len(),
{
    if ls.len() == 0 {
        seq![]
    } else if ls.len() == 1 {
        ls[0]
    } else {
        join_lines(ls.drop_last()) + "\n"@ + ls.last()
    }
}

pub open spec fn is_draft(c: CaseView) -> bool {
    lookup(c.front, "status"@) == Some("draft"@)
}

/// One line per draft: id and title padded to columns, then the source.
pub open spec fn draft_entries(cs: Seq<CaseView>) -> Seq<Seq<char>>
    decreases cs.len(),
{
    if cs.len() == 0 {
        seq![]
    } else {
        draft_entries(cs.drop_last()) + if is_draft(cs.last()) {
            seq![
                pad_right(field(cs.last(), "id"@), 28) + " "@ + pad_right(field(cs.last(), "title"@), 32)
                    + " "@ + field(cs.last(), "source"@),
            ]
        } else {
            seq![]
        }
    }
}

pub open spec fn drift_items(cs: Seq<CaseView>) -> Seq<char>
    decreases cs.len(),
{
    if cs.len() == 0 {
        seq![]
    } else {
        drift_items(cs.drop_last()) + match drift_hint_of(cs.last()) {
            Some(h) => "- "@ + field(cs.last(), "id"@) + " \u{2014} "@ + h + "\n"@,
            None => seq![],
        }
    }
}

pub open spec fn any_drift(cs: Seq<CaseView>) -> bool {
    exists|i: int| 0 <= i < cs.len() && (#[trigger] drift_hint_of(cs[i])) is Some
}

/// The draft list (or a note that there is none), then the cases whose
/// Steps/Expected drifted since scriptify.
pub open spec fn review_listing(cs: Seq<CaseView>) -> Seq<char> {
    let entries = draft_entries(cs);
    (if entries.len() == 0 {
        "no draft cases \u{2014} everything reviewed"@
    } else {
        join_lines(entries)
    }) + if any_drift(cs) {
        "\n\n## Drift (Steps/Expected changed since scriptify)\n"@ + drift_items(cs)
    } else {
        seq![]
    }
}

/// `review`: with no id, the listing; with an id, `approve` turns a draft
/// into a reviewed case (the only way to `reviewed`), `edit` hands the case
/// to the editor, and neither shows its status, mode and drift hint.
pub open spec fn review_spec(
    loaded: Result<(Seq<CaseView>, Seq<Seq<char>>), Seq<char>>,
    id: Option<Seq<char>>,
    approve: bool,
    edit: bool,
) -> Result<ReviewView, Seq<char>> {
    if approve && edit {
        Err("use only one of --approve / --edit"@)
    } else {
        match loaded {
            Err(e) => Err(e),
            Ok((cs, errs)) => {
                if id is None && approve {
                    Err("review --approve needs a case id"@)
                } else if id is None && edit {
                    Err("review --edit needs a case id"@)
                } else {
                    match id {
                        None => if cs.len() == 0 && errs.len() > 0 {
                            Err(join_lines(errs))
                        } else {
                            Ok(ReviewView::Done(review_listing(cs)))
                        },
                        Some(id) => match find_case(cs, id) {
                            None => Err(no_case_message(id)),
                            Some(i) => {
                                let c = cs[i as int];
                                if approve {
                                    if is_draft(c) {
                                        Ok(
                                            ReviewView::Write(
                                                with_field(c, "status"@, "reviewed"@),
                                                id + ": approved (reviewed)"@,
                                            ),
                                        )
                                    } else {
                                        Ok(ReviewView::Done(id + ": already reviewed"@))
                                    }
                                } else if edit {
                                    Ok(ReviewView::Edit(c))
                                } else {
                                    Ok(
                                        ReviewView::Done(
                                            id + ": status="@ + field(c, "status"@) + " mode="@
                                                + field(c, "mode"@) + match drift_hint_of(c) {
                                                Some(h) => "\n"@ + h,
                                                None => seq![],
                                            },
                                        ),
                                    )
                                }
                            },
                        },
                    }
                }
            },
        }
    }
}

/// After the editor ran on a case: if the case was reviewed before the
/// edit, the edited case (as read back) is written with its status reset to
/// draft, every other field and the body as edited.
pub open spec fn finish_edit_spec(before: CaseView, edited: CaseView, id: Seq<char>) -> ReviewView {
    if field(before, "status"@) == "reviewed"@ {
        ReviewView::Write(with_field(edited, "status"@, "draft"@), id + ": edited \u{2014} status reset to draft"@)
    } else {
        ReviewView::Done(id + ": edited (still draft)"@)
    }
}

pub open spec fn opt_id_view(o: Option<&str>) -> Option<Seq<char>> {
    match o {
        Some(s) => Some(s@),
        None => None,
    }
}

fn msg2(a: &str, b: &str) -> (r: String)
    ensures
        r@ == a@ + b@,
{
    let mut out: Vec<char> = Vec::new();
    push_str(&mut out, a);
    push_str(&mut out, b);
    string_of(&out)
}

fn join_exec(ls: &Vec<String>) -> (r: String)
    ensures
        r@ == join_lines(strings_view(ls@)),
{
    let ghost all = strings_view(ls@);
    let mut out: Vec<char> = Vec::new();
    let mut i: usize = 0;
    while i < ls.len()
        invariant
            i <= ls.len(),
            all == strings_view(ls@),
            out@ == join_lines(all.subrange(0, i as int)),
        decreases ls.len() - i,
    {
        assert(all.subrange(0, i + 1).drop_last() =~= all.subrange(0, i as int));
        if i > 0 {
            push_str(&mut out, "\n");
        }
        push_str(&mut out, ls[i].as_str());
        i += 1;
        assert(out@ =~= join_lines(all.subrange(0, i as int)));
    }
    assert(all.subrange(0, ls.len() as int) =~= all);
    string_of(&out)
}

fn listing_exec(cases: &Vec<Case>) -> (r: String)
    ensures
        r@ == review_listing(cases_view(cases@)),
{
    let ghost cv = cases_view(cases@);
    let mut entries: Vec<String> = Vec::new();
    let mut i: usize = 0;
    while i < cases.len()
        invariant
            i <= cases.len(),
            cv == cases_view(cases@),
            strings_view(entries@) == draft_entries(cv.subrange(0, i as int)),
        decreases cases.len() - i,
    {
        assert(cv.subrange(0, i + 1).drop_last() =~= cv.subrange(0, i as int));
        assert(cv[i as int] == cases@[i as int]@);
        let c = &cases[i];
        let is_d = match c.get("status") {
            Some(s) => crate::text::str_eq(s, "draft"),
            None => false,
        };
        if is_d {
            let mut line: Vec<char> = Vec::new();
            push_padded(&mut line, &field_chars(c, "id"), 28);
            push_str(&mut line, " ");
            push_padded(&mut line, &field_chars(c, "title"), 32);
            push_str(&mut line, " ");
            push_chars(&mut line, &field_chars(c, "source"));
            let s = string_of(&line);
            let ghost before = entries@;
            entries.push(s);
            assert(strings_view(entries@) =~= strings_view(before).push(s@));
        }
        i += 1;
        assert(strings_view(entries@) =~= draft_entries(cv.subrange(0, i as int)));
    }
    assert(cv.subrange(0, cases.len() as int) =~= cv);
    let mut out = if entries.len() == 0 {
        chars_of("no draft cases \u{2014} everything reviewed")
    } else {
        chars_of(join_exec(&entries).as_str())
    };
    let ghost head = out@;
    let mut items: Vec<char> = Vec::new();
    let mut any = false;
    let mut k: usize = 0;
    while k < cases.len()
        invariant
            k <= cases.len(),
            cv == cases_view(cases@),
            items@ == drift_items(cv.subrange(0, k as int)),
            any == exists|j: int| 0 <= j < k && (#[trigger] drift_hint_of(cv[j])) is Some,
        decreases cases.len() - k,
    {
        assert(cv.subrange(0, k + 1).drop_last() =~= cv.subrange(0, k as int));
        assert(cv[k as int] == cases@[k as int]@);
        let c = &cases[k];
        match drift_hint(c) {
            Some(h) => {
                push_str(&mut items, "- ");
                push_chars(&mut items, &field_chars(c, "id"));
                push_str(&mut items, " \u{2014} ");
                push_str(&mut items, h.as_str());
                push_str(&mut items, "\n");
                any = true;
            },
            None => {},
        }
        k += 1;
        assert(items@ =~= drift_items(cv.subrange(0, k as int)));
    }
    assert(cv.subrange(0, cases.len() as int) =~= cv);
    if any {
        push_str(&mut out, "\n\n## Drift (Steps/Expected changed since scriptify)\n");
        push_chars(&mut out, &items);
    }
    assert(out@ =~= review_listing(cv));
    string_of(&out)
}

/// `review`: lists drafts and drift warnings, or acts on one case. The
/// loaded directory is passed as read, since a flag conflict is reported
/// before a read failure.
pub fn cmd_review(
    loaded: Result<(Vec<Case>, Vec<String>), String>,
    id: Option<&str>,
    approve: bool,
    edit: bool,
) -> (r: Result<Review, String>)
    ensures
        match r {
            Ok(v) => review_spec(loaded_view(loaded), opt_id_view(id), approve, edit) == Ok::<ReviewView, Seq<char>>(v@),
            Err(e) => review_spec(loaded_view(loaded), opt_id_view(id), approve, edit) == Err::<ReviewView, Seq<char>>(e@),
        },
{
    if approve && edit {
        return Err(string_of(&chars_of("use only one of --approve / --edit")));
    }
    let (mut cases, errs) = match loaded {
        Err(e) => return Err(e),
        Ok(x) => x,
    };
    let ghost cv = cases_view(cases@);
    if id.is_none() && approve {
        return Err(string_of(&chars_of("review --approve needs a case id")));
    }
    if id.is_none() && edit {
        return Err(string_of(&chars_of("review --edit needs a case id")));
    }
    let id = match id {
        None => {
            if cases.len() == 0 && errs.len() > 0 {
                return Err(join_exec(&errs));
            }
            return Ok(Review::Done(listing_exec(&cases)));
        },
        Some(id) => id,
    };
    let i = match find_case_exec(&cases, id) {
        Some(i) => i,
        None => {
            let mut out: Vec<char> = Vec::new();
            push_str(&mut out, "no case with id '");
            push_str(&mut out, id);
            push_str(&mut out, "'");
            return Err(string_of(&out));
        },
    };
    let mut c = cases.remove(i);
    assert(cv[i as int] == c@);
    if approve {
        let is_d = match c.get("status") {
            Some(s) => crate::text::str_eq(s, "draft"),
            None => false,
        };
        if is_d {
            c.set_status("reviewed");
            return Ok(Review::Write(c, msg2(id, ": approved (reviewed)")));
        } else {
            return Ok(Review::Done(msg2(id, ": already reviewed")));
        }
    }
    if edit {
        return Ok(Review::Edit(c));
    }
    let mut out: Vec<char> = Vec::new();
    push_str(&mut out, id);
    push_str(&mut out, ": status=");
    push_chars(&mut out, &field_chars(&c, "status"));
    push_str(&mut out, " mode=");
    push_chars(&mut out, &field_chars(&c, "mode"));
    match drift_hint(&c) {
        Some(h) => {
            push_str(&mut out, "\n");
            push_str(&mut out, h.as_str());
        },
        None => {},
    }
    assert(out@ =~= id@ + ": status="@ + field(c@, "status"@) + " mode="@ + field(c@, "mode"@) + match drift_hint_of(c@) {
        Some(h) => "\n"@ + h,
        None => seq![],
    });
    Ok(Review::Done(string_of(&out)))
}

/// Concludes `review --edit` once the editor exited successfully. `before`
/// is the case as it was loaded before the editor ran, `edited` the case
/// read back from its file afterwards: a case that was reviewed is written
/// back as edited, with its status reset to draft.
pub fn finish_edit(before: &Case, edited: Case, id: &str) -> (r: Review)
    ensures
        r@ == finish_edit_spec(before@, edited@, id@),
{
    let was_reviewed = crate::text::chars_eq_str(&field_chars(before, "status"), "reviewed");
    let mut c = edited;
    if was_reviewed {
        c.set_status("draft");
        Review::Write(c, msg2(id, ": edited \u{2014} status reset to draft"))
    } else {
        Review::Done(msg2(id, ": edited (still draft)"))
    }
}

} // verus!
