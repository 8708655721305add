//! Decisions around the environment: the scaffolded example case, where
//! and which skills are installed, and the accepted shape of today's date.
use vstd::prelude::*;
use crate::case::is_date;
use crate::text::{chars_of, push_str, string_of, trim};

verus! {

/// The example case `init` scaffolds.
pub open spec fn example_case_spec() -> Seq<char> {
    "---\nid: example-happy-path\ntitle: Example happy path\nstatus: draft\nmode: manual\nsource: <your PRD doc + section>\n---\n\n## Steps\n\n1. <first step>\n2. <second step>\n\n## Expected\n\n- <verifiable expectation, one per bullet>\n"@
}

/// The text of the example case `init` writes to `cases/example-happy-path.md`.
pub fn example_case() -> (r: String)
    ensures
        r@ == example_case_spec(),
{
    string_of(
        &chars_of(
            "---\nid: example-happy-path\ntitle: Example happy path\nstatus: draft\nmode: manual\nsource: <your PRD doc + section>\n---\n\n## Steps\n\n1. <first step>\n2. <second step>\n\n## Expected\n\n- <verifiable expectation, one per bullet>\n",
        ),
    )
}

/// Where `skill install` puts the skills: `dir` when given, else the
/// agent's skills directory under `home` (`project` is relative to the
/// working directory).
pub open spec fn skill_base_spec(agent: Seq<char>, home: Seq<char>, dir: Option<Seq<char>>) -> Result<Seq<char>, Seq<char>> {
    match dir {
        Some(d) => Ok(d),
        None => if agent == "pi"@ {
            Ok(home + "/.agents/skills"@)
        } else if agent == "codex"@ {
            Ok(home + "/.codex/skills"@)
        } else if agent == "project"@ {
            Ok(".agents/skills"@)
        } else {
            Err("unknown agent '"@ + agent + "' \u{2014} valid: pi, codex, project"@)
        },
    }
}

pub fn skill_base_dir(agent: &str, home: &str, dir: Option<&str>) -> (r: Result<String, String>)
    ensures
        match r {
            Ok(d) => skill_base_spec(agent@, home@, crate::review::opt_id_view(dir)) == Ok::<Seq<char>, Seq<char>>(d@),
            Err(e) => skill_base_spec(agent@, home@, crate::review::opt_id_view(dir)) == Err::<Seq<char>, Seq<char>>(e@),
        },
{
    match dir {
        Some(d) => return Ok(string_of(&chars_of(d))),
        None => {},
    }
    let mut out: Vec<char> = Vec::new();
    if crate::text::str_eq(agent, "pi") {
        push_str(&mut out, home);
        push_str(&mut out, "/.agents/skills");
    } else if crate::text::str_eq(agent, "codex") {
        push_str(&mut out, home);
        push_str(&mut out, "/.codex/skills");
    } else if crate::text::str_eq(agent, "project") {
        push_str(&mut out, ".agents/skills");
    } else {
        push_str(&mut out, "unknown agent '");
        push_str(&mut out, agent);
        push_str(&mut out, "' \u{2014} valid: pi, codex, project");
        return Err(string_of(&out));
    }
    Ok(string_of(&out))
}

/// How many skills `skill install` writes, in order, before it stops: it
/// stops at the first skill whose file already exists, unless `force`.
pub open spec fn skills_to_write(exists: Seq<bool>, force: bool) -> nat
    decreases exists.len(),
{
    if exists.len() == 0 {
        0
    } else if skills_to_write(exists.drop_last(), force) < exists.len() - 1 {
        skills_to_write(exists.drop_last(), force)
    } else if exists.last() && !force {
        (exists.len() - 1) as nat
    } else {
        exists.len()
    }
}

/// `skill install`: given whether each skill's file already exists, the
/// number of skills to write; when it is less than the number of skills,
/// the next one is refused (its file exists and `force` is off).
pub fn skill_install_count(exists: &Vec<bool>, force: bool) -> (n: usize)
    ensures
        n == skills_to_write(exists@, force),
        n <= exists.len(),
        n < exists.len() ==> exists@[n as int] && !force,
{
    let mut i: usize = 0;
    while i < exists.len() && !(exists[i] && !force)
        invariant
            i <= exists.len(),
            skills_to_write(exists@.subrange(0, i as int), force) == i,
        decreases exists.len() - i,
    {
        assert(exists@.subrange(0, i + 1).drop_last() =~= exists@.subrange(0, i as int));
        i += 1;
    }
    if i < exists.len() {
        assert(exists@.subrange(0, i + 1).drop_last() =~= exists@.subrange(0, i as int));
        proof {
            lemma_skills_to_write_stops(exists@, force, (i + 1) as nat, i as nat);
        }
    } else {
        assert(exists@.subrange(0, i as int) =~= exists@);
    }
    i
}

proof fn lemma_skills_to_write_stops(exists: Seq<bool>, force: bool, k: nat, n: nat)
    requires
        n < k <= exists.len(),
        skills_to_write(exists.subrange(0, k as int), force) == n,
    ensures
        skills_to_write(exists, force) == n,
    decreases exists.len() - k,
{
    if k < exists.len() {
        let t = exists.subrange(0, (k + 1) as int);
        assert(t.drop_last() =~= exists.subrange(0, k as int));
        assert(skills_to_write(t, force) == skills_to_write(t.drop_last(), force));
        lemma_skills_to_write_stops(exists, force, k + 1, n);
    } else {
        assert(exists.subrange(0, k as int) =~= exists);
    }
}

/// The names joined by `", "`.
pub open spec fn join_names(names: Seq<Seq<char>>) -> Seq<char>
    decreases names.len(),
{
    if names.len() == 0 {
        seq![]
    } else if names.len() == 1 {
        names[0]
    } else {
        join_names(names.drop_last()) + ", "@ + names.last()
    }
}

/// What `skill install` prints after writing the skills `names` into `base`.
pub fn installed_message(names: &Vec<String>, base: &str) -> (r: String)
    ensures
        r@ == "Installed "@ + join_names(crate::case::strings_view(names@)) + " into "@ + base@
            + " \u{2014} restart your agent to pick them up"@,
{
    let ghost all = crate::case::strings_view(names@);
    let mut out: Vec<char> = Vec::new();
    push_str(&mut out, "Installed ");
    let ghost start = out@;
    let mut i: usize = 0;
    while i < names.len()
        invariant
            i <= names.len(),
            all == crate::case::strings_view(names@),
            out@ == start + join_names(all.subrange(0, i as int)),
        decreases names.len() - i,
    {
        assert(all.subrange(0, i + 1).drop_last() =~= all.subrange(0, i as int));
        assert(all[i as int] == names@[i as int]@);
        if i > 0 {
            push_str(&mut out, ", ");
        }
        push_str(&mut out, names[i].as_str());
        i += 1;
        assert(out@ =~= start + join_names(all.subrange(0, i as int)));
    }
    assert(all.subrange(0, names.len() as int) =~= all);
    push_str(&mut out, " into ");
    push_str(&mut out, base);
    push_str(&mut out, " \u{2014} restart your agent to pick them up");
    string_of(&out)
}

/// Today's date from what `date +%F` printed: trimmed, and refused unless it
/// is `YYYY-MM-DD`.
pub open spec fn today_spec(raw: Seq<char>) -> Result<Seq<char>, Seq<char>> {
    let s = trim(raw);
    if is_date(s) {
        Ok(s)
    } else {
        Err("'date +%F' returned unexpected value '"@ + s + "'"@)
    }
}

pub fn today_from(raw: &str) -> (r: Result<String, String>)
    ensures
        match r {
            Ok(d) => today_spec(raw@) == Ok::<Seq<char>, Seq<char>>(d@),
            Err(e) => today_spec(raw@) == Err::<Seq<char>, Seq<char>>(e@),
        },
{
    let s = crate::text::trim_exec(&chars_of(raw));
    if crate::case::is_date_exec(&s) {
        Ok(string_of(&s))
    } else {
        let mut out: Vec<char> = Vec::new();
        push_str(&mut out, "'date +%F' returned unexpected value '");
        crate::text::push_chars(&mut out, &s);
        push_str(&mut out, "'");
        Err(string_of(&out))
    }
}

} // verus!
