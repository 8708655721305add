//! Loading a directory of cases (in a fixed order) and the validation rules.
use vstd::prelude::*;
use crate::case::{lookup, parse_case, parse_case_spec, strings_view, Case, CaseView};
use crate::commands::{cases_view, field, field_chars};
use crate::text::{chars_of, push_str, string_of};
use vstd::multiset::Multiset;

verus! {

broadcast use vstd::seq_lib::group_to_multiset_ensures;

// ---------------------------------------------------------------------------
// Loading
// ---------------------------------------------------------------------------

/// Strict lexicographic order of character sequences (the order of `str`).
pub open spec fn text_lt(a: Seq<char>, b: Seq<char>) -> bool
    decreases a.len(),
{
    if b.len() == 0 {
        false
    } else if a.len() == 0 {
        true
    } else if a[0] != b[0] {
        a[0] < b[0]
    } else {
        text_lt(a.drop_first(), b.drop_first())
    }
}

/// Cases are ordered by id (a missing id counts as empty), then by path.
pub open spec fn case_lt(x: CaseView, y: CaseView) -> bool {
    text_lt(field(x, "id"@), field(y, "id"@)) || (field(x, "id"@) == field(y, "id"@) && text_lt(
        x.path,
        y.path,
    ))
}

pub open spec fn sorted_cases(cs: Seq<CaseView>) -> bool {
    forall|i: int, j: int| 0 <= i < j < cs.len() ==> !case_lt(#[trigger] cs[j], #[trigger] cs[i])
}

pub open spec fn entries_view(es: Seq<Result<(String, String), String>>) -> Seq<
    Result<(Seq<char>, Seq<char>), Seq<char>>,
> {
    es.map_values(
        |e: Result<(String, String), String>|
            match e {
                Ok((p, t)) => Ok((p@, t@)),
                Err(m) => Err(m@),
            },
    )
}

/// The cases that parse, in the order of the entries.
pub open spec fn parsed_cases(es: Seq<Result<(Seq<char>, Seq<char>), Seq<char>>>) -> Seq<CaseView>
    decreases es.len(),
{
    if es.len() == 0 {
        seq![]
    } else {
        parsed_cases(es.drop_last()) + match es.last() {
            Ok((p, t)) => match parse_case_spec(p, t) {
                Ok(c) => seq![c],
                Err(_) => seq![],
            },
            Err(_) => seq![],
        }
    }
}

/// The entries that could not be read or parsed, as messages, in order.
pub open spec fn load_errors(es: Seq<Result<(Seq<char>, Seq<char>), Seq<char>>>) -> Seq<Seq<char>>
    decreases es.len(),
{
    if es.len() == 0 {
        seq![]
    } else {
        load_errors(es.drop_last()) + match es.last() {
            Ok((p, t)) => match parse_case_spec(p, t) {
                Ok(_) => seq![],
                Err(e) => seq![e],
            },
            Err(m) => seq![m],
        }
    }
}

pub proof fn lemma_text_lt_trans(a: Seq<char>, b: Seq<char>, c: Seq<char>)
    requires
        text_lt(a, b),
        text_lt(b, c),
    ensures
        text_lt(a, c),
    decreases a.len(),
{
    if a.len() > 0 && a[0] == b[0] && b[0] == c[0] {
        lemma_text_lt_trans(a.drop_first(), b.drop_first(), c.drop_first());
    }
}

pub proof fn lemma_text_lt_irrefl(a: Seq<char>)
    ensures
        !text_lt(a, a),
    decreases a.len(),
{
    if a.len() > 0 {
        lemma_text_lt_irrefl(a.drop_first());
    }
}

pub proof fn lemma_case_lt_trans(x: CaseView, y: CaseView, z: CaseView)
    requires
        case_lt(x, y),
        case_lt(y, z),
    ensures
        case_lt(x, z),
{
    let (a, b, c) = (field(x, "id"@), field(y, "id"@), field(z, "id"@));
    if text_lt(a, b) && text_lt(b, c) {
        lemma_text_lt_trans(a, b, c);
    } else if text_lt(a, b) {
    } else if text_lt(b, c) {
    } else {
        lemma_text_lt_trans(x.path, y.path, z.path);
    }
}

pub(crate) fn text_lt_exec(a: &Vec<char>, b: &Vec<char>) -> (r: bool)
    ensures
        r == text_lt(a@, b@),
{
    let mut i: usize = 0;
    assert(a@.subrange(0, a.len() as int) =~= a@);
    assert(b@.subrange(0, b.len() as int) =~= b@);
    loop
        invariant
            i <= a.len(),
            i <= b.len(),
            text_lt(a@, b@) == text_lt(a@.subrange(i as int, a.len() as int), b@.subrange(i as int, b.len() as int)),
        decreases a.len() - i,
    {
        let ghost x = a@.subrange(i as int, a.len() as int);
        let ghost y = b@.subrange(i as int, b.len() as int);
        if i == b.len() {
            return false;
        }
        if i == a.len() {
            return true;
        }
        assert(x[0] == a@[i as int] && y[0] == b@[i as int]);
        if a[i] != b[i] {
            return a[i] < b[i];
        }
        assert(x.drop_first() =~= a@.subrange(i + 1, a.len() as int));
        assert(y.drop_first() =~= b@.subrange(i + 1, b.len() as int));
        i += 1;
    }
}

/// Reads the cases out of a directory's `*.md` entries: each entry is the
/// file's path and text, or the message of an entry or file that could not
/// be read. Files that do not parse add their message to the error list.
/// The cases come sorted by id, then path.
pub fn load_cases(entries: Vec<Result<(String, String), String>>) -> (r: (Vec<Case>, Vec<String>))
    ensures
        strings_view(r.1@) == load_errors(entries_view(entries@)),
        cases_view(r.0@).to_multiset() == parsed_cases(entries_view(entries@)).to_multiset(),
        sorted_cases(cases_view(r.0@)),
{
    let ghost ev = entries_view(entries@);
    let mut parsed: Vec<Case> = Vec::new();
    let mut errs: Vec<String> = Vec::new();
    let mut i: usize = 0;
    while i < entries.len()
        invariant
            i <= entries.len(),
            ev == entries_view(entries@),
            cases_view(parsed@) == parsed_cases(ev.subrange(0, i as int)),
            strings_view(errs@) == load_errors(ev.subrange(0, i as int)),
        decreases entries.len() - i,
    {
        let ghost pre = ev.subrange(0, i + 1);
        assert(pre.drop_last() =~= ev.subrange(0, i as int));
        let ghost old_parsed = parsed@;
        let ghost old_errs = errs@;
        match &entries[i] {
            Ok((p, t)) => {
                match parse_case(p.as_str(), t.as_str()) {
                    Ok(c) => {
                        parsed.push(c);
                        assert(cases_view(parsed@) =~= cases_view(old_parsed) + seq![c@]);
                        assert(strings_view(errs@) =~= strings_view(old_errs) + Seq::<Seq<char>>::empty());
                    },
                    Err(e) => {
                        errs.push(e);
                        assert(strings_view(errs@) =~= strings_view(old_errs) + seq![e@]);
                        assert(cases_view(parsed@) =~= cases_view(old_parsed) + Seq::<CaseView>::empty());
                    },
                }
            },
            Err(m) => {
                let m2 = m.clone();
                errs.push(m2);
                assert(strings_view(errs@) =~= strings_view(old_errs) + seq![m2@]);
                assert(cases_view(parsed@) =~= cases_view(old_parsed) + Seq::<CaseView>::empty());
            },
        }
        i += 1;
    }
    assert(ev.subrange(0, entries.len() as int) =~= ev);
    let ghost all = cases_view(parsed@);
    // Insertion sort, stable: a case goes after every case it is not
    // ordered before.
    let mut sorted: Vec<Case> = Vec::new();
    let mut keys: Vec<(Vec<char>, Vec<char>)> = Vec::new();
    while parsed.len() > 0
        invariant
            cases_view(sorted@).to_multiset().add(cases_view(parsed@).to_multiset()) == all.to_multiset(),
            sorted_cases(cases_view(sorted@)),
            keys.len() == sorted.len(),
            forall|k: int| 0 <= k < keys.len() ==> (#[trigger] keys@[k]).0@ == field(sorted@[k]@, "id"@) && keys@[k].1@ == sorted@[k]@.path,
        decreases parsed.len(),
    {
        let ghost before = cases_view(parsed@);
        let c = parsed.remove(0);
        assert(cases_view(parsed@) =~= before.remove(0));
        let kid = field_chars(&c, "id");
        let kpath = chars_of(c.path.as_str());
        let mut j: usize = 0;
        let mut stop = false;
        while j < sorted.len() && !stop
            invariant
                j <= sorted.len(),
                stop ==> j < sorted.len() && case_lt(c@, sorted@[j as int]@),
                keys.len() == sorted.len(),
                forall|k: int| 0 <= k < keys.len() ==> (#[trigger] keys@[k]).0@ == field(sorted@[k]@, "id"@) && keys@[k].1@ == sorted@[k]@.path,
                forall|k: int| 0 <= k < j ==> !case_lt(c@, #[trigger] sorted@[k]@),
                kid@ == field(c@, "id"@),
                kpath@ == c@.path,
            decreases sorted.len() - j + if stop { 0int } else { 1int },
        {
            let lt = text_lt_exec(&kid, &keys[j].0) || (crate::text::chars_eq(&kid, &keys[j].0)
                && text_lt_exec(&kpath, &keys[j].1));
            assert(lt == case_lt(c@, sorted@[j as int]@));
            if lt {
                stop = true;
            } else {
                j += 1;
            }
        }
        let ghost old_sorted = cases_view(sorted@);
        proof {
            assert forall|k: int| j <= k < old_sorted.len() implies !case_lt(old_sorted[k], c@) by {
                if case_lt(old_sorted[k], c@) {
                    assert(j < old_sorted.len());
                    assert(case_lt(c@, old_sorted[j as int]));
                    lemma_case_lt_trans(old_sorted[k], c@, old_sorted[j as int]);
                    if k > j {
                        assert(!case_lt(old_sorted[k], old_sorted[j as int]));
                    } else {
                        lemma_text_lt_irrefl(field(old_sorted[k], "id"@));
                        lemma_text_lt_irrefl(old_sorted[k].path);
                    }
                }
            }
        }
        let ghost cv = c@;
        sorted.insert(j, c);
        keys.insert(j, (kid, kpath));
        assert(cases_view(sorted@) =~= old_sorted.insert(j as int, cv));
        proof {
            let ns = cases_view(sorted@);
            assert forall|a: int, b: int| 0 <= a < b < ns.len() implies !case_lt(#[trigger] ns[b], #[trigger] ns[a]) by {
                if a < j && b < j {
                    assert(ns[a] == old_sorted[a] && ns[b] == old_sorted[b]);
                } else if a < j && b == j {
                } else if a < j {
                    assert(ns[a] == old_sorted[a] && ns[b] == old_sorted[b - 1]);
                } else if a == j {
                    assert(ns[b] == old_sorted[b - 1]);
                } else {
                    assert(ns[a] == old_sorted[a - 1] && ns[b] == old_sorted[b - 1]);
                }
            }
            assert forall|k: int| 0 <= k < keys.len() implies (#[trigger] keys@[k]).0@ == field(sorted@[k]@, "id"@) && keys@[k].1@ == sorted@[k]@.path by {
                assert(ns[k] == sorted@[k]@);
            }
            assert(before.to_multiset() =~= before.remove(0).to_multiset().insert(cv));
            assert(ns.to_multiset() =~= old_sorted.to_multiset().insert(cv));
        }
    }
    assert(cases_view(parsed@).to_multiset() =~= Multiset::<CaseView>::empty());
    assert(cases_view(sorted@).to_multiset() =~= cases_view(sorted@).to_multiset().add(cases_view(parsed@).to_multiset()));
    (sorted, errs)
}


// ---------------------------------------------------------------------------
// Validation rules
// ---------------------------------------------------------------------------

pub open spec fn missing_field(c: CaseView, key: Seq<char>) -> Seq<Seq<char>> {
    if lookup(c.front, key) is None {
        seq![c.path + ": missing '"@ + key + "'"@]
    } else {
        seq![]
    }
}

/// Every required field (`id`, `title`, `status`, `mode`, `source`) present.
pub open spec fn missing_fields(c: CaseView) -> Seq<Seq<char>> {
    missing_field(c, "id"@) + missing_field(c, "title"@) + missing_field(c, "status"@)
        + missing_field(c, "mode"@) + missing_field(c, "source"@)
}

/// `status` is `draft` or `reviewed` when present.
pub open spec fn status_problem(c: CaseView) -> Seq<Seq<char>> {
    match lookup(c.front, "status"@) {
        Some(s) => if s == "draft"@ || s == "reviewed"@ {
            seq![]
        } else {
            seq![c.path + ": bad status '"@ + s + "' (need [\"draft\", \"reviewed\"])"@]
        },
        None => seq![],
    }
}

/// `mode` is `manual` or `scripted` when present.
pub open spec fn mode_problem(c: CaseView) -> Seq<Seq<char>> {
    match lookup(c.front, "mode"@) {
        Some(m) => if m == "manual"@ || m == "scripted"@ {
            seq![]
        } else {
            seq![c.path + ": bad mode '"@ + m + "' (need [\"manual\", \"scripted\"])"@]
        },
        None => seq![],
    }
}

/// Path of the first case in `prev` with the id `id`.
pub open spec fn first_with_id(prev: Seq<CaseView>, id: Seq<char>) -> Option<Seq<char>>
    decreases prev.len(),
{
    if prev.len() == 0 {
        None
    } else if lookup(prev[0].front, "id"@) == Some(id) {
        Some(prev[0].path)
    } else {
        first_with_id(prev.drop_first(), id)
    }
}

/// Ids are unique: a case whose id an earlier case has is reported with the
/// path of the first case that has it.
pub open spec fn duplicate_problem(c: CaseView, prev: Seq<CaseView>) -> Seq<Seq<char>> {
    match lookup(c.front, "id"@) {
        Some(id) => match first_with_id(prev, id) {
            Some(p) => seq![c.path + ": duplicate id '"@ + id + "' (also "@ + p + ")"@],
            None => seq![],
        },
        None => seq![],
    }
}

/// The `covered-by` file exists (`found` says whether it does).
pub open spec fn covered_problem(c: CaseView, found: bool) -> Seq<Seq<char>> {
    match lookup(c.front, "covered-by"@) {
        Some(cb) => if found {
            seq![]
        } else {
            seq![c.path + ": covered-by file missing: "@ + cb]
        },
        None => seq![],
    }
}

/// A scripted case names its script.
pub open spec fn scripted_problem(c: CaseView) -> Seq<Seq<char>> {
    if lookup(c.front, "mode"@) == Some("scripted"@) && lookup(c.front, "covered-by"@) is None {
        seq![c.path + ": scripted case needs 'covered-by'"@]
    } else {
        seq![]
    }
}

/// Problems of one case, given the cases before it and whether its
/// `covered-by` file was found. Record-line problems come last.
#[verifier::opaque]
pub open spec fn case_problems(c: CaseView, prev: Seq<CaseView>, found: bool) -> Seq<Seq<char>> {
    missing_fields(c) + status_problem(c) + mode_problem(c) + duplicate_problem(c, prev)
        + covered_problem(c, found) + scripted_problem(c) + c.errors
}

pub open spec fn all_problems(cs: Seq<CaseView>, found: Seq<bool>, n: int) -> Seq<Seq<char>>
    decreases n,
{
    if n <= 0 || n > cs.len() {
        seq![]
    } else {
        all_problems(cs, found, n - 1) + case_problems(cs[n - 1], cs.subrange(0, n - 1), found[n - 1])
    }
}

/// The rules a case passes, given the cases before it and whether its
/// `covered-by` file was found.
pub open spec fn case_ok(c: CaseView, prev: Seq<CaseView>, found: bool) -> bool {
    &&& lookup(c.front, "id"@) is Some
    &&& lookup(c.front, "title"@) is Some
    &&& lookup(c.front, "status"@) is Some
    &&& lookup(c.front, "mode"@) is Some
    &&& lookup(c.front, "source"@) is Some
    &&& lookup(c.front, "status"@) matches Some(st) ==> st == "draft"@ || st == "reviewed"@
    &&& lookup(c.front, "mode"@) matches Some(m) ==> m == "manual"@ || m == "scripted"@
    &&& forall|j: int| 0 <= j < prev.len() ==> lookup(#[trigger] prev[j].front, "id"@) != lookup(c.front, "id"@)
    &&& lookup(c.front, "covered-by"@) is Some ==> found
    &&& lookup(c.front, "mode"@) == Some("scripted"@) ==> lookup(c.front, "covered-by"@) is Some
    &&& c.errors.len() == 0
}

proof fn lemma_first_with_id(prev: Seq<CaseView>, id: Seq<char>)
    ensures
        first_with_id(prev, id) is None <==> forall|j: int| 0 <= j < prev.len() ==> lookup(#[trigger] prev[j].front, "id"@) != Some(id),
    decreases prev.len(),
{
    if prev.len() > 0 {
        lemma_first_with_id(prev.drop_first(), id);
        if lookup(prev[0].front, "id"@) != Some(id) {
            assert forall|j: int| 0 < j < prev.len() implies #[trigger] prev[j] == prev.drop_first()[j - 1] by {}
        }
    }
}

proof fn lemma_case_problems_empty(c: CaseView, prev: Seq<CaseView>, found: bool)
    ensures
        case_problems(c, prev, found).len() == 0 <==> case_ok(c, prev, found),
{
    reveal(case_problems);
    if let Some(id) = lookup(c.front, "id"@) {
        lemma_first_with_id(prev, id);
    }
}

proof fn lemma_all_problems_empty(cs: Seq<CaseView>, found: Seq<bool>, n: int)
    requires
        0 <= n <= cs.len(),
    ensures
        all_problems(cs, found, n).len() == 0 <==> forall|i: int| 0 <= i < n ==> case_ok(#[trigger] cs[i], cs.subrange(0, i), found[i]),
    decreases n,
{
    if n > 0 {
        lemma_all_problems_empty(cs, found, n - 1);
        lemma_case_problems_empty(cs[n - 1], cs.subrange(0, n - 1), found[n - 1]);
    }
}

/// `validate` reports no problem exactly when the directory was read, every
/// file in it read and parsed, and every case has the required fields, a
/// known status and mode, an id no earlier case has, a `covered-by` file
/// that exists, a `covered-by` when scripted, and well-formed record lines.
pub proof fn law_validate_clean(cs: Seq<CaseView>, errs: Seq<Seq<char>>, found: Seq<bool>)
    ensures
        validate_spec(Ok((cs, errs)), found).0 == cs.len(),
        validate_spec(Ok((cs, errs)), found).1.len() == 0 <==> errs.len() == 0 && forall|i: int| 0 <= i < cs.len() ==> case_ok(#[trigger] cs[i], cs.subrange(0, i), found[i]),
{
    lemma_all_problems_empty(cs, found, cs.len() as int);
}

pub open spec fn loaded_view(l: Result<(Vec<Case>, Vec<String>), String>) -> Result<(Seq<CaseView>, Seq<Seq<char>>), Seq<char>> {
    match l {
        Ok((cs, es)) => Ok((cases_view(cs@), strings_view(es@))),
        Err(e) => Err(e@),
    }
}

/// `validate`: the number of cases and the problems found (none means
/// valid). A directory that could not be read is one problem.
pub open spec fn validate_spec(l: Result<(Seq<CaseView>, Seq<Seq<char>>), Seq<char>>, found: Seq<bool>) -> (nat, Seq<Seq<char>>) {
    match l {
        Err(e) => (0, seq![e]),
        Ok((cs, errs)) => (cs.len(), errs + all_problems(cs, found, cs.len() as int)),
    }
}

fn push_problem(out: &mut Vec<String>, path: &str, a: &str, mid: &str, b: &str)
    ensures
        strings_view(final(out)@) == strings_view(old(out)@).push(path@ + a@ + mid@ + b@),
{
    let mut m: Vec<char> = Vec::new();
    push_str(&mut m, path);
    push_str(&mut m, a);
    push_str(&mut m, mid);
    push_str(&mut m, b);
    let s = string_of(&m);
    let ghost before = out@;
    out.push(s);
    assert(strings_view(out@) =~= strings_view(before).push(s@));
}

fn first_with_id_exec(cases: &Vec<Case>, n: usize, id: &str) -> (r: Option<usize>)
    requires
        n <= cases.len(),
    ensures
        match r {
            Some(j) => j < n && first_with_id(cases_view(cases@).subrange(0, n as int), id@) == Some(cases@[j as int]@.path),
            None => first_with_id(cases_view(cases@).subrange(0, n as int), id@) is None,
        },
{
    let ghost all = cases_view(cases@).subrange(0, n as int);
    let mut j: usize = 0;
    assert(all.subrange(0, n as int) =~= all);
    while j < n
        invariant
            j <= n <= cases.len(),
            all == cases_view(cases@).subrange(0, n as int),
            first_with_id(all, id@) == first_with_id(all.subrange(j as int, n as int), id@),
        decreases n - j,
    {
        let ghost t = all.subrange(j as int, n as int);
        assert(t.drop_first() =~= all.subrange(j + 1, n as int));
        assert(t[0] == cases@[j as int]@);
        match cases[j].get("id") {
            Some(v) => {
                if crate::text::str_eq(v, id) {
                    return Some(j);
                }
            },
            None => {},
        }
        j += 1;
    }
    None
}

fn push_problem2(out: &mut Vec<String>, path: &str, a: &str, b: &str)
    ensures
        strings_view(final(out)@) == strings_view(old(out)@).push(path@ + a@ + b@),
{
    let mut m: Vec<char> = Vec::new();
    push_str(&mut m, path);
    push_str(&mut m, a);
    push_str(&mut m, b);
    let s = string_of(&m);
    let ghost before = out@;
    out.push(s);
    assert(strings_view(out@) =~= strings_view(before).push(s@));
}

fn push_problem1(out: &mut Vec<String>, path: &str, a: &str)
    ensures
        strings_view(final(out)@) == strings_view(old(out)@).push(path@ + a@),
{
    let mut m: Vec<char> = Vec::new();
    push_str(&mut m, path);
    push_str(&mut m, a);
    let s = string_of(&m);
    let ghost before = out@;
    out.push(s);
    assert(strings_view(out@) =~= strings_view(before).push(s@));
}

fn missing_field_exec(c: &Case, key: &str, out: &mut Vec<String>)
    ensures
        strings_view(final(out)@) == strings_view(old(out)@) + missing_field(c@, key@),
{
    let ghost start = strings_view(out@);
    if c.get(key).is_none() {
        push_problem(out, c.path.as_str(), ": missing '", key, "'");
    }
    assert(strings_view(out@) =~= start + missing_field(c@, key@));
}

fn missing_fields_exec(c: &Case, out: &mut Vec<String>)
    ensures
        strings_view(final(out)@) == strings_view(old(out)@) + missing_fields(c@),
{
    let ghost start = strings_view(out@);
    missing_field_exec(c, "id", out);
    missing_field_exec(c, "title", out);
    missing_field_exec(c, "status", out);
    missing_field_exec(c, "mode", out);
    missing_field_exec(c, "source", out);
    assert(strings_view(out@) =~= start + missing_fields(c@));
}

fn enum_problems_exec(c: &Case, out: &mut Vec<String>)
    ensures
        strings_view(final(out)@) == strings_view(old(out)@) + status_problem(c@) + mode_problem(c@),
{
    let path = c.path.as_str();
    let ghost start = strings_view(out@);
    match c.get("status") {
        Some(st) => {
            if !(crate::text::str_eq(st, "draft") || crate::text::str_eq(st, "reviewed")) {
                push_problem(out, path, ": bad status '", st, "' (need [\"draft\", \"reviewed\"])");
            }
        },
        None => {},
    }
    assert(strings_view(out@) =~= start + status_problem(c@));
    let ghost s6 = strings_view(out@);
    match c.get("mode") {
        Some(m) => {
            if !(crate::text::str_eq(m, "manual") || crate::text::str_eq(m, "scripted")) {
                push_problem(out, path, ": bad mode '", m, "' (need [\"manual\", \"scripted\"])");
            }
        },
        None => {},
    }
    assert(strings_view(out@) =~= s6 + mode_problem(c@));
}

fn duplicate_problem_exec(cases: &Vec<Case>, i: usize, out: &mut Vec<String>)
    requires
        i < cases.len(),
    ensures
        strings_view(final(out)@) == strings_view(old(out)@) + duplicate_problem(cases@[i as int]@, cases_view(cases@).subrange(0, i as int)),
{
    let c = &cases[i];
    let ghost start = strings_view(out@);
    match c.get("id") {
        Some(id) => {
            match first_with_id_exec(cases, i, id) {
                Some(j) => {
                    let mut m: Vec<char> = Vec::new();
                    push_str(&mut m, c.path.as_str());
                    push_str(&mut m, ": duplicate id '");
                    push_str(&mut m, id);
                    push_str(&mut m, "' (also ");
                    push_str(&mut m, cases[j].path.as_str());
                    push_str(&mut m, ")");
                    let s = string_of(&m);
                    let ghost before = out@;
                    out.push(s);
                    assert(strings_view(out@) =~= strings_view(before).push(s@));
                },
                None => {},
            }
        },
        None => {},
    }
    assert(strings_view(out@) =~= start + duplicate_problem(c@, cases_view(cases@).subrange(0, i as int)));
}

fn link_problems_exec(c: &Case, found: bool, out: &mut Vec<String>)
    ensures
        strings_view(final(out)@) == strings_view(old(out)@) + covered_problem(c@, found) + scripted_problem(c@),
{
    let path = c.path.as_str();
    let ghost start = strings_view(out@);
    let cb = c.get("covered-by");
    match cb {
        Some(p) => {
            if !found {
                push_problem2(out, path, ": covered-by file missing: ", p);
            }
        },
        None => {},
    }
    assert(strings_view(out@) =~= start + covered_problem(c@, found));
    let ghost s9 = strings_view(out@);
    let scripted = match c.get("mode") {
        Some(m) => crate::text::str_eq(m, "scripted"),
        None => false,
    };
    if scripted && cb.is_none() {
        push_problem1(out, path, ": scripted case needs 'covered-by'");
    }
    assert(strings_view(out@) =~= s9 + scripted_problem(c@));
}

fn push_all(out: &mut Vec<String>, es: &Vec<String>)
    ensures
        strings_view(final(out)@) == strings_view(old(out)@) + strings_view(es@),
{
    let ghost start = strings_view(out@);
    let mut k: usize = 0;
    while k < es.len()
        invariant
            k <= es.len(),
            strings_view(out@) == start + strings_view(es@).subrange(0, k as int),
        decreases es.len() - k,
    {
        let e = es[k].clone();
        let ghost before = out@;
        out.push(e);
        assert(strings_view(out@) =~= strings_view(before).push(e@));
        k += 1;
        assert(strings_view(out@) =~= start + strings_view(es@).subrange(0, k as int));
    }
    assert(strings_view(es@).subrange(0, es.len() as int) =~= strings_view(es@));
}

fn case_problems_exec(cases: &Vec<Case>, i: usize, found: bool, out: &mut Vec<String>)
    requires
        i < cases.len(),
    ensures
        strings_view(final(out)@) == strings_view(old(out)@) + case_problems(cases@[i as int]@, cases_view(cases@).subrange(0, i as int), found),
{
    let c = &cases[i];
    let ghost start = strings_view(out@);
    let ghost cv = c@;
    let ghost prev = cases_view(cases@).subrange(0, i as int);
    missing_fields_exec(c, out);
    let ghost a = strings_view(out@);
    enum_problems_exec(c, out);
    let ghost b = strings_view(out@);
    duplicate_problem_exec(cases, i, out);
    let ghost d = strings_view(out@);
    link_problems_exec(c, found, out);
    let ghost e = strings_view(out@);
    push_all(out, &c.errors);
    proof {
        reveal(case_problems);
        let m = missing_fields(cv);
        let sp = status_problem(cv);
        let mp = mode_problem(cv);
        let dp = duplicate_problem(cv, prev);
        let cp = covered_problem(cv, found);
        let xp = scripted_problem(cv);
        assert(a == start + m);
        assert(b == a + sp + mp);
        assert(d == b + dp);
        assert(e == d + cp + xp);
        assert(strings_view(out@) == e + cv.errors);
        assert(case_problems(cv, prev, found) == m + sp + mp + dp + cp + xp + cv.errors);
        assert(strings_view(out@) =~= start + (m + sp + mp + dp + cp + xp + cv.errors));
    }
}

/// Validates the loaded cases of a directory. `found[i]` says whether the
/// `covered-by` file of case `i` was found. Returns the number of cases and
/// the problems (empty means valid).
pub fn validate_dir(loaded: Result<(Vec<Case>, Vec<String>), String>, found: &Vec<bool>) -> (r: (usize, Vec<String>))
    requires
        loaded matches Ok((cs, _)) ==> found.len() == cs.len(),
    ensures
        (r.0 as nat, strings_view(r.1@)) == validate_spec(loaded_view(loaded), found@),
{
    match loaded {
        Err(e) => {
            let mut v: Vec<String> = Vec::new();
            v.push(e);
            assert(strings_view(v@) =~= seq![e@]);
            (0, v)
        },
        Ok((cases, errs)) => {
            let mut problems = errs;
            let ghost start = strings_view(problems@);
            let ghost cv = cases_view(cases@);
            let mut i: usize = 0;
            while i < cases.len()
                invariant
                    i <= cases.len(),
                    found.len() == cases.len(),
                    cv == cases_view(cases@),
                    strings_view(problems@) == start + all_problems(cv, found@, i as int),
                decreases cases.len() - i,
            {
                case_problems_exec(&cases, i, found[i], &mut problems);
                assert(cv[i as int] == cases@[i as int]@);
                i += 1;
                assert(strings_view(problems@) =~= start + all_problems(cv, found@, i as int));
            }
            (cases.len(), problems)
        },
    }
}

} // verus!
