//! The case file: flat `key: value` frontmatter between `---` lines, then a
//! markdown body with `## Steps`, `## Expected` and `## Executions` sections.
use vstd::prelude::*;
use crate::text::{
    chars_eq_str, ends_with_char, find, index_of, lines, push_chars, push_str, split,
    split_exec, starts_with, starts_with_str, str_eq, string_of, subvec, trim, trim_exec, vv,
};

verus! {


/// One line of the `## Executions` section:
/// `- YYYY-MM-DD | <commit> | pass|fail [ | category ] [ | note ]`.
pub struct Record {
    pub date: String,
    pub commit: String,
    pub result: String,
    pub category: Option<String>,
    pub note: Option<String>,
}

pub struct RecordView {
    pub date: Seq<char>,
    pub commit: Seq<char>,
    pub result: Seq<char>,
    pub category: Option<Seq<char>>,
    pub note: Option<Seq<char>>,
}

pub open spec fn opt_view(o: Option<String>) -> Option<Seq<char>> {
    match o {
        Some(s) => Some(s@),
        None => None,
    }
}

impl View for Record {
    type V = RecordView;

    open spec fn view(&self) -> RecordView {
        RecordView {
            date: self.date@,
            commit: self.commit@,
            result: self.result@,
            category: opt_view(self.category),
            note: opt_view(self.note),
        }
    }
}

/// A parsed case file. `front` keeps the source order for write-back.
pub struct Case {
    pub path: String,
    pub front: Vec<(String, String)>,
    pub body: String,
    pub records: Vec<Record>,
    /// Record-line parse problems discovered in the body.
    pub errors: Vec<String>,
}

pub struct CaseView {
    pub path: Seq<char>,
    pub front: Seq<(Seq<char>, Seq<char>)>,
    pub body: Seq<char>,
    pub records: Seq<RecordView>,
    pub errors: Seq<Seq<char>>,
}

pub open spec fn front_view(f: Seq<(String, String)>) -> Seq<(Seq<char>, Seq<char>)> {
    f.map_values(|p: (String, String)| (p.0@, p.1@))
}

pub open spec fn records_view(r: Seq<Record>) -> Seq<RecordView> {
    r.map_values(|x: Record| x@)
}

pub open spec fn strings_view(r: Seq<String>) -> Seq<Seq<char>> {
    r.map_values(|x: String| x@)
}

impl View for Case {
    type V = CaseView;

    open spec fn view(&self) -> CaseView {
        CaseView {
            path: self.path@,
            front: front_view(self.front@),
            body: self.body@,
            records: records_view(self.records@),
            errors: strings_view(self.errors@),
        }
    }
}

// ---------------------------------------------------------------------------
// Frontmatter
// ---------------------------------------------------------------------------

/// The value of the first field named `key`.
pub open spec fn lookup(front: Seq<(Seq<char>, Seq<char>)>, key: Seq<char>) -> Option<Seq<char>>
    decreases front.len(),
{
    if front.len() == 0 {
        None
    } else if front[0].0 == key {
        Some(front[0].1)
    } else {
        lookup(front.drop_first(), key)
    }
}

/// `front` with the first field named `key` set to `value`, or with
/// `(key, value)` appended when there is no such field.
pub open spec fn set_front(front: Seq<(Seq<char>, Seq<char>)>, key: Seq<char>, value: Seq<char>) -> Seq<
    (Seq<char>, Seq<char>),
>
    decreases front.len(),
{
    if front.len() == 0 {
        seq![(key, value)]
    } else if front[0].0 == key {
        seq![(front[0].0, value)] + front.drop_first()
    } else {
        seq![front[0]] + set_front(front.drop_first(), key, value)
    }
}

pub open spec fn render_front(front: Seq<(Seq<char>, Seq<char>)>) -> Seq<char>
    decreases front.len(),
{
    if front.len() == 0 {
        seq![]
    } else {
        render_front(front.drop_last()) + front.last().0 + ": "@ + front.last().1 + "\n"@
    }
}

/// The file text a case is written back as.
pub open spec fn render(front: Seq<(Seq<char>, Seq<char>)>, body: Seq<char>) -> Seq<char> {
    "---\n"@ + render_front(front) + "---\n"@ + body
}

// ---------------------------------------------------------------------------
// Record lines
// ---------------------------------------------------------------------------

/// `YYYY-MM-DD`: ten ASCII characters, dashes at 4 and 7, digits elsewhere.
/// (The same strings as ten bytes of that shape.)
pub open spec fn is_date(s: Seq<char>) -> bool {
    &&& s.len() == 10
    &&& s[4] == '-'
    &&& s[7] == '-'
    &&& forall|i: int|
        0 <= i < 10 && i != 4 && i != 7 ==> '0' as u32 <= #[trigger] (s[i] as u32) <= '9' as u32
}

pub open spec fn is_category(c: Seq<char>) -> bool {
    c == "product-bug"@ || c == "test-bug"@ || c == "environment"@
}

pub open spec fn categories_text() -> Seq<char> {
    "[\"product-bug\", \"test-bug\", \"environment\"]"@
}

pub open spec fn record_fields(line: Seq<char>) -> Seq<Seq<char>> {
    split(line.subrange(2, line.len() as int), '|').map_values(|p: Seq<char>| trim(p))
}

/// What a record line (one starting with `"- "`) parses to. Field positions
/// follow the result: `date | commit | pass [| note]` and
/// `date | commit | fail | category [| note]`.
pub open spec fn parse_record(line: Seq<char>) -> Result<RecordView, Seq<char>> {
    let parts = record_fields(line);
    let n = parts.len();
    if n < 3 || n > 5 {
        Err("bad record line: "@ + line)
    } else if !is_date(parts[0]) {
        Err("bad record date '"@ + parts[0] + "': "@ + line)
    } else if parts[2] != "pass"@ && parts[2] != "fail"@ {
        Err("bad record result '"@ + parts[2] + "': "@ + line)
    } else if parts[2] == "pass"@ {
        if n == 5 {
            Err("pass record must not have a category: "@ + line)
        } else {
            Ok(
                RecordView {
                    date: parts[0],
                    commit: parts[1],
                    result: parts[2],
                    category: None,
                    note: if n == 4 {
                        Some(parts[3])
                    } else {
                        None
                    },
                },
            )
        }
    } else if !(n > 3 && is_category(parts[3])) {
        Err("failed record needs category "@ + categories_text() + ": "@ + line)
    } else {
        Ok(
            RecordView {
                date: parts[0],
                commit: parts[1],
                result: parts[2],
                category: Some(parts[3]),
                note: if n > 4 {
                    Some(parts[4])
                } else {
                    None
                },
            },
        )
    }
}


// ---------------------------------------------------------------------------
// Parsing a case file
// ---------------------------------------------------------------------------

/// Frontmatter fields read from the lines between the delimiters: a line with
/// a `:` gives its trimmed key and trimmed value; other lines are skipped.
pub open spec fn front_pairs(ls: Seq<Seq<char>>) -> Seq<(Seq<char>, Seq<char>)>
    decreases ls.len(),
{
    if ls.len() == 0 {
        seq![]
    } else {
        let l = ls[0];
        let k = index_of(l, ':');
        let rest = front_pairs(ls.drop_first());
        if k < l.len() {
            seq![(trim(l.subrange(0, k as int)), trim(l.subrange((k + 1) as int, l.len() as int)))] + rest
        } else {
            rest
        }
    }
}

pub open spec fn is_heading(l: Seq<char>) -> bool {
    starts_with(l, "## "@)
}

pub open spec fn is_record_line(l: Seq<char>) -> bool {
    starts_with(l, "- "@)
}

/// Records of the record lines that sit under an `## Executions` heading.
pub open spec fn records_in(ls: Seq<Seq<char>>, in_rec: bool) -> Seq<RecordView>
    decreases ls.len(),
{
    if ls.len() == 0 {
        seq![]
    } else {
        let l = ls[0];
        if is_heading(l) {
            records_in(ls.drop_first(), trim(l) == "## Executions"@)
        } else if in_rec && is_record_line(l) {
            match parse_record(l) {
                Ok(r) => seq![r] + records_in(ls.drop_first(), in_rec),
                Err(_) => records_in(ls.drop_first(), in_rec),
            }
        } else {
            records_in(ls.drop_first(), in_rec)
        }
    }
}

/// Problems with the record lines under an `## Executions` heading, each
/// prefixed with the file's path.
pub open spec fn errors_in(ls: Seq<Seq<char>>, in_rec: bool, path: Seq<char>) -> Seq<Seq<char>>
    decreases ls.len(),
{
    if ls.len() == 0 {
        seq![]
    } else {
        let l = ls[0];
        if is_heading(l) {
            errors_in(ls.drop_first(), trim(l) == "## Executions"@, path)
        } else if in_rec && is_record_line(l) {
            match parse_record(l) {
                Ok(_) => errors_in(ls.drop_first(), in_rec, path),
                Err(e) => seq![path + ": "@ + e] + errors_in(ls.drop_first(), in_rec, path),
            }
        } else {
            errors_in(ls.drop_first(), in_rec, path)
        }
    }
}

/// The text after the closing delimiter, without its first newline.
pub open spec fn body_after(rest: Seq<char>, end: nat) -> Seq<char> {
    let after = rest.subrange((end + 4) as int, rest.len() as int);
    if starts_with(after, "\n"@) {
        after.subrange(1, after.len() as int)
    } else {
        after
    }
}

/// What the file at `path` with content `text` parses to.
pub open spec fn parse_case_spec(path: Seq<char>, text: Seq<char>) -> Result<CaseView, Seq<char>> {
    if !starts_with(text, "---\n"@) {
        Err(path + ": missing frontmatter"@)
    } else {
        let rest = text.subrange(4, text.len() as int);
        match find(rest, "\n---"@) {
            None => Err(path + ": unterminated frontmatter"@),
            Some(end) => {
                let body = body_after(rest, end);
                Ok(
                    CaseView {
                        path,
                        front: front_pairs(lines(rest.subrange(0, end as int))),
                        body,
                        records: records_in(lines(body), false),
                        errors: errors_in(lines(body), false, path),
                    },
                )
            },
        }
    }
}

/// Non-empty lines under the heading `## <name>`, as they stand.
pub open spec fn section_lines(ls: Seq<Seq<char>>, name: Seq<char>, in_sec: bool) -> Seq<Seq<char>>
    decreases ls.len(),
{
    if ls.len() == 0 {
        seq![]
    } else {
        let l = ls[0];
        if is_heading(l) {
            section_lines(ls.drop_first(), name, trim(l) == "## "@ + name)
        } else if in_sec && trim(l).len() > 0 {
            seq![l] + section_lines(ls.drop_first(), name, in_sec)
        } else {
            section_lines(ls.drop_first(), name, in_sec)
        }
    }
}

pub open spec fn section_of(body: Seq<char>, name: Seq<char>) -> Seq<Seq<char>> {
    section_lines(lines(body), name, false)
}


// ---------------------------------------------------------------------------
// Where a new execution record goes
// ---------------------------------------------------------------------------

pub open spec fn marker() -> Seq<char> {
    "## Executions"@
}

/// The `## Executions` heading line: a `## ` heading whose trimmed text is
/// exactly `## Executions` (so a mention of it inside another line is none).
pub open spec fn is_exec_heading(l: Seq<char>) -> bool {
    is_heading(l) && trim(l) == marker()
}

/// Index of the first `## Executions` heading line at or after `from`.
pub open spec fn exec_heading_from(ls: Seq<Seq<char>>, from: nat) -> Option<nat>
    decreases ls.len() - from,
{
    if from >= ls.len() {
        None
    } else if is_exec_heading(ls[from as int]) {
        Some(from)
    } else {
        exec_heading_from(ls, from + 1)
    }
}

/// Index of the first `## Executions` heading line.
pub open spec fn exec_heading(ls: Seq<Seq<char>>) -> Option<nat> {
    exec_heading_from(ls, 0)
}

/// Index of the first heading line at or after `i` (the end of a section),
/// or the number of lines.
pub open spec fn section_end(ls: Seq<Seq<char>>, i: nat) -> nat
    decreases ls.len() - i,
{
    if i >= ls.len() {
        ls.len()
    } else if is_heading(ls[i as int]) {
        i
    } else {
        section_end(ls, i + 1)
    }
}

/// Index of the last record line among the lines `from .. to`.
pub open spec fn last_record_before(ls: Seq<Seq<char>>, from: nat, to: nat) -> Option<nat>
    decreases to,
{
    if to <= from {
        None
    } else if is_record_line(ls[to - 1]) {
        Some((to - 1) as nat)
    } else {
        last_record_before(ls, from, (to - 1) as nat)
    }
}

/// Index of the first non-blank line at or after `i`, or the number of lines.
pub open spec fn first_nonblank(ls: Seq<Seq<char>>, i: nat) -> nat
    decreases ls.len() - i,
{
    if i >= ls.len() {
        ls.len()
    } else if trim(ls[i as int]).len() > 0 {
        i
    } else {
        first_nonblank(ls, i + 1)
    }
}

/// Index of the line before which a new record goes, in the section whose
/// heading is line `h`: right after the section's last record line, or,
/// when the section has none, before the first non-blank line after the
/// heading (the end of the text when there is none).
pub open spec fn record_line_index(ls: Seq<Seq<char>>, h: nat) -> nat {
    match last_record_before(ls, h + 1, section_end(ls, h + 1)) {
        Some(j) => j + 1,
        None => first_nonblank(ls, h + 1),
    }
}

/// Character index at which line `i` of `s` starts (`s.len()` past the
/// last line).
pub open spec fn line_start(s: Seq<char>, i: nat) -> nat
    decreases s.len(),
{
    if i == 0 {
        0
    } else {
        let k = index_of(s, '\n');
        if k < s.len() {
            k + 1 + line_start(s.subrange((k + 1) as int, s.len() as int), (i - 1) as nat)
        } else {
            s.len()
        }
    }
}

/// Index of the first non-whitespace character of `s`, or `s.len()`.
pub open spec fn first_non_ws(s: Seq<char>) -> nat
    decreases s.len(),
{
    if s.len() == 0 {
        0
    } else if !crate::text::is_ws(s[0]) {
        0
    } else {
        1 + first_non_ws(s.drop_first())
    }
}

/// Character index at which a new record line goes, in the section whose
/// heading is line `h`: at the start of the line after the section's last
/// record line; when the section has none, after all the whitespace that
/// follows the heading text (the end of the body when there is only
/// whitespace).
pub open spec fn record_pos(body: Seq<char>, h: nat) -> nat {
    let ls = lines(body);
    match last_record_before(ls, h + 1, section_end(ls, h + 1)) {
        Some(j) => line_start(body, j + 1),
        None => {
            let p = line_start(body, h) + marker().len();
            p + first_non_ws(body.subrange(p as int, body.len() as int))
        },
    }
}

/// Where line `i` sits in `s`: from `line_start(s, i)` come its characters,
/// then only carriage returns and line feeds up to the next line's start.
pub proof fn lemma_line_raw(s: Seq<char>, i: nat)
    requires
        i < lines(s).len(),
    ensures
        line_start(s, i) + lines(s)[i as int].len() <= line_start(s, i + 1) <= s.len(),
        s.subrange(line_start(s, i) as int, (line_start(s, i) + lines(s)[i as int].len()) as int) == lines(s)[i as int],
        forall|k: int| line_start(s, i) + lines(s)[i as int].len() <= k < line_start(s, i + 1) ==> #[trigger] s[k] == '\r' || s[k] == '\n',
    decreases s.len(),
{
    crate::text::lemma_index_of_props(s, '\n');
    let k0 = index_of(s, '\n');
    if k0 < s.len() {
        let first = s.subrange(0, k0 as int);
        let s2 = s.subrange((k0 + 1) as int, s.len() as int);
        assert(lines(s) == seq![crate::text::strip_cr(first)] + lines(s2));
        if i == 0 {
            assert(line_start(s, 1) == k0 + 1 + line_start(s2, 0));
            let l0 = crate::text::strip_cr(first);
            assert(lines(s)[0] == l0);
            if ends_with_char(first, '\r') {
                assert(s.subrange(0, l0.len() as int) =~= l0);
                assert(s[k0 - 1] == first.last());
            } else {
                assert(s.subrange(0, l0.len() as int) =~= l0);
            }
        } else {
            lemma_line_raw(s2, (i - 1) as nat);
            assert(lines(s)[i as int] == lines(s2)[i - 1]);
            let a = line_start(s2, (i - 1) as nat);
            let li = lines(s2)[i - 1];
            assert(s.subrange((k0 + 1 + a) as int, (k0 + 1 + a + li.len()) as int) =~= s2.subrange(a as int, (a + li.len()) as int));
            assert forall|k: int| line_start(s, i) + lines(s)[i as int].len() <= k < line_start(s, i + 1) implies #[trigger] s[k] == '\r' || s[k] == '\n' by {
                assert(s[k] == s2[k - k0 - 1]);
            }
        }
    } else {
        crate::roundtrip::lemma_index_of_absent(s, '\n');
        assert(lines(s) == seq![s]);
        assert(s.subrange(0, s.len() as int) =~= s);
    }
}

/// An `## Executions` heading line is at least as long as the marker.
pub proof fn lemma_exec_heading_len(l: Seq<char>)
    requires
        is_exec_heading(l),
    ensures
        l.len() >= marker().len(),
{
    crate::roundtrip::lemma_trim_lens(l);
    crate::roundtrip::lemma_trim_lens(crate::text::trim_start(l));
    reveal_strlit("## Executions");
}

pub open spec fn newline_if_missing(s: Seq<char>) -> Seq<char> {
    if ends_with_char(s, '\n') {
        seq![]
    } else {
        seq!['\n']
    }
}

/// The body after appending the record line `- <line>`: into the first
/// `## Executions` section, at `record_pos`; without such a section, a new
/// one at the end of the body.
pub open spec fn add_record_spec(body: Seq<char>, line: Seq<char>) -> Seq<char> {
    let ls = lines(body);
    match exec_heading(ls) {
        Some(h) => {
            let at = record_pos(body, h) as int;
            let head = body.subrange(0, at);
            head + newline_if_missing(head) + "- "@ + line + seq!['\n'] + body.subrange(at, body.len() as int)
        },
        None => body + newline_if_missing(body) + "\n## Executions\n\n- "@ + line + seq!['\n'],
    }
}

// ---------------------------------------------------------------------------
// Executable parts
// ---------------------------------------------------------------------------

pub fn is_date_exec(s: &Vec<char>) -> (r: bool)
    ensures
        r == is_date(s@),
{
    if s.len() != 10 || s[4] != '-' || s[7] != '-' {
        return false;
    }
    let mut i: usize = 0;
    while i < 10
        invariant
            i <= 10,
            s.len() == 10,
            forall|j: int|
                0 <= j < i && j != 4 && j != 7 ==> '0' as u32 <= #[trigger] (s@[j] as u32)
                    <= '9' as u32,
        decreases 10 - i,
    {
        if i != 4 && i != 7 {
            let u = s[i] as u32;
            if u < '0' as u32 || u > '9' as u32 {
                return false;
            }
        }
        i += 1;
    }
    true
}

fn is_category_exec(c: &Vec<char>) -> (r: bool)
    ensures
        r == is_category(c@),
{
    chars_eq_str(c, "product-bug") || chars_eq_str(c, "test-bug") || chars_eq_str(
        c,
        "environment",
    )
}

fn trim_all(parts: &Vec<Vec<char>>) -> (r: Vec<Vec<char>>)
    ensures
        vv(r@) == vv(parts@).map_values(|p: Seq<char>| trim(p)),
{
    let mut r: Vec<Vec<char>> = Vec::new();
    let mut i: usize = 0;
    while i < parts.len()
        invariant
            i <= parts.len(),
            vv(r@) == vv(parts@).subrange(0, i as int).map_values(|p: Seq<char>| trim(p)),
        decreases parts.len() - i,
    {
        let t = trim_exec(&parts[i]);
        let ghost old_r = r@;
        r.push(t);
        assert(vv(r@) =~= vv(parts@).subrange(0, i + 1).map_values(|p: Seq<char>| trim(p))) by {
            assert(vv(r@) =~= vv(old_r).push(t@));
        }
        i += 1;
    }
    assert(vv(parts@).subrange(0, parts.len() as int) =~= vv(parts@));
    r
}

fn message(prefix: &str, middle: &Vec<char>, sep: &str, line: &Vec<char>) -> (r: String)
    ensures
        r@ == prefix@ + middle@ + sep@ + line@,
{
    let mut out: Vec<char> = Vec::new();
    push_str(&mut out, prefix);
    push_chars(&mut out, middle);
    push_str(&mut out, sep);
    push_chars(&mut out, line);
    assert(out@ =~= prefix@ + middle@ + sep@ + line@);
    string_of(&out)
}

/// Parses a record line. The line must start with `"- "`.
pub fn parse_record_line(line: &Vec<char>) -> (r: Result<Record, String>)
    requires
        line.len() >= 2,
    ensures
        match r {
            Ok(rec) => parse_record(line@) == Ok::<RecordView, Seq<char>>(rec@),
            Err(e) => parse_record(line@) == Err::<RecordView, Seq<char>>(e@),
        },
{
    let rest = subvec(line, 2, line.len());
    let raw = split_exec(&rest, '|');
    let parts = trim_all(&raw);
    let ghost pv = vv(parts@);
    assert(pv == record_fields(line@));
    let n = parts.len();
    let empty: Vec<char> = Vec::new();
    if n < 3 || n > 5 {
        let mut out: Vec<char> = Vec::new();
        push_str(&mut out, "bad record line: ");
        push_chars(&mut out, line);
        return Err(string_of(&out));
    }
    assert(pv[0] == parts@[0]@ && pv[1] == parts@[1]@ && pv[2] == parts@[2]@);
    if !is_date_exec(&parts[0]) {
        return Err(message("bad record date '", &parts[0], "': ", line));
    }
    let is_pass = chars_eq_str(&parts[2], "pass");
    let is_fail = chars_eq_str(&parts[2], "fail");
    if !is_pass && !is_fail {
        return Err(message("bad record result '", &parts[2], "': ", line));
    }
    let mut category: Option<String> = None;
    let mut note: Option<String> = None;
    proof {
        reveal_strlit("pass");
        reveal_strlit("fail");
        assert("pass"@[0] != "fail"@[0]);
        if n > 3 {
            assert(pv[3] == parts@[3]@);
        }
    }
    if is_fail {
        let ok_cat = if n > 3 {
            is_category_exec(&parts[3])
        } else {
            false
        };
        if !ok_cat {
            let mut out: Vec<char> = Vec::new();
            push_str(&mut out, "failed record needs category ");
            push_str(&mut out, "[\"product-bug\", \"test-bug\", \"environment\"]");
            push_str(&mut out, ": ");
            push_chars(&mut out, line);
            assert(out@ =~= "failed record needs category "@ + categories_text() + ": "@ + line@);
            return Err(string_of(&out));
        }
        assert(pv[3] == parts@[3]@);
        category = Some(string_of(&parts[3]));
        if n > 4 {
            assert(pv[4] == parts@[4]@);
            note = Some(string_of(&parts[4]));
        }
    } else {
        if n == 5 {
            let mut out: Vec<char> = Vec::new();
            push_str(&mut out, "pass record must not have a category: ");
            push_chars(&mut out, line);
            return Err(string_of(&out));
        }
        if n == 4 {
            assert(pv[3] == parts@[3]@);
            note = Some(string_of(&parts[3]));
        }
    }
    let rec = Record {
        date: string_of(&parts[0]),
        commit: string_of(&parts[1]),
        result: string_of(&parts[2]),
        category,
        note,
    };
    proof {
        reveal_strlit("pass");
        reveal_strlit("fail");
        assert("pass"@[0] != "fail"@[0]);
    }
    Ok(rec)
}


fn front_pairs_exec(ls: &Vec<Vec<char>>) -> (r: Vec<(String, String)>)
    ensures
        front_view(r@) == front_pairs(vv(ls@)),
{
    let mut r: Vec<(String, String)> = Vec::new();
    let mut i: usize = 0;
    let ghost all = vv(ls@);
    assert(all.subrange(0, all.len() as int) =~= all);
    assert(front_view(r@) + front_pairs(all) =~= front_pairs(all));
    while i < ls.len()
        invariant
            i <= ls.len(),
            all == vv(ls@),
            front_pairs(all) == front_view(r@) + front_pairs(all.subrange(i as int, all.len() as int)),
        decreases ls.len() - i,
    {
        let ghost t = all.subrange(i as int, all.len() as int);
        assert(t.drop_first() =~= all.subrange(i + 1, all.len() as int));
        assert(t[0] == ls@[i as int]@);
        let l = &ls[i];
        let k = crate::text::index_of_from(l, ':', 0);
        assert(l@.subrange(0, l.len() as int) =~= l@);
        if k < l.len() {
            let key = trim_exec(&subvec(l, 0, k));
            let value = trim_exec(&subvec(l, k + 1, l.len()));
            let ghost old_r = r@;
            r.push((string_of(&key), string_of(&value)));
            assert(front_view(r@) =~= front_view(old_r).push((key@, value@)));
            assert(front_view(r@) + front_pairs(all.subrange(i + 1, all.len() as int)) =~= front_view(old_r) + front_pairs(t));
        }
        i += 1;
    }
    assert(all.subrange(i as int, all.len() as int) =~= Seq::<Seq<char>>::empty());
    assert(front_view(r@) + Seq::<(Seq<char>, Seq<char>)>::empty() =~= front_view(r@));
    r
}

fn scan_records(ls: &Vec<Vec<char>>, path: &Vec<char>) -> (r: (Vec<Record>, Vec<String>))
    ensures
        records_view(r.0@) == records_in(vv(ls@), false),
        strings_view(r.1@) == errors_in(vv(ls@), false, path@),
{
    let mut recs: Vec<Record> = Vec::new();
    let mut errs: Vec<String> = Vec::new();
    let mut in_rec = false;
    let mut i: usize = 0;
    let ghost all = vv(ls@);
    assert(all.subrange(0, all.len() as int) =~= all);
    assert(records_view(recs@) + records_in(all, false) =~= records_in(all, false));
    assert(strings_view(errs@) + errors_in(all, false, path@) =~= errors_in(all, false, path@));
    while i < ls.len()
        invariant
            i <= ls.len(),
            all == vv(ls@),
            records_in(all, false) == records_view(recs@) + records_in(all.subrange(i as int, all.len() as int), in_rec),
            errors_in(all, false, path@) == strings_view(errs@) + errors_in(all.subrange(i as int, all.len() as int), in_rec, path@),
        decreases ls.len() - i,
    {
        let ghost t = all.subrange(i as int, all.len() as int);
        let ghost rest = all.subrange(i + 1, all.len() as int);
        assert(t.drop_first() =~= rest);
        let l = &ls[i];
        assert(t[0] == l@);
        let ghost old_recs = recs@;
        let ghost old_errs = errs@;
        if starts_with_str(l, "## ") {
            let tl = trim_exec(l);
            in_rec = chars_eq_str(&tl, "## Executions");
        } else if in_rec && starts_with_str(l, "- ") {
            proof { reveal_strlit("- "); }
            match parse_record_line(l) {
                Ok(rec) => {
                    recs.push(rec);
                    assert(records_view(recs@) =~= records_view(old_recs).push(rec@));
                    assert(records_view(recs@) + records_in(rest, in_rec) =~= records_view(old_recs) + records_in(t, in_rec));
                },
                Err(e) => {
                    let mut m: Vec<char> = Vec::new();
                    push_chars(&mut m, path);
                    push_str(&mut m, ": ");
                    let ev = crate::text::chars_of(e.as_str());
                    push_chars(&mut m, &ev);
                    let ms = string_of(&m);
                    errs.push(ms);
                    assert(strings_view(errs@) =~= strings_view(old_errs).push(ms@));
                    assert(strings_view(errs@) + errors_in(rest, in_rec, path@) =~= strings_view(old_errs) + errors_in(t, in_rec, path@));
                },
            }
        }
        i += 1;
    }
    assert(all.subrange(i as int, all.len() as int) =~= Seq::<Seq<char>>::empty());
    assert(records_view(recs@) + Seq::<RecordView>::empty() =~= records_view(recs@));
    assert(strings_view(errs@) + Seq::<Seq<char>>::empty() =~= strings_view(errs@));
    (recs, errs)
}

/// Parses the text of the case file at `path`.
pub fn parse_case(path: &str, text: &str) -> (r: Result<Case, String>)
    ensures
        match r {
            Ok(c) => parse_case_spec(path@, text@) == Ok::<CaseView, Seq<char>>(c@),
            Err(e) => parse_case_spec(path@, text@) == Err::<CaseView, Seq<char>>(e@),
        },
{
    let p = crate::text::chars_of(path);
    let t = crate::text::chars_of(text);
    if !starts_with_str(&t, "---\n") {
        let mut m = crate::text::copy_chars(&p);
        push_str(&mut m, ": missing frontmatter");
        return Err(string_of(&m));
    }
    proof { reveal_strlit("---\n"); }
    let rest = subvec(&t, 4, t.len());
    let delim = crate::text::chars_of("\n---");
    match crate::text::find_exec(&rest, &delim) {
        None => {
            let mut m = crate::text::copy_chars(&p);
            push_str(&mut m, ": unterminated frontmatter");
            Err(string_of(&m))
        },
        Some(end) => {
            proof { reveal_strlit("\n---"); }
            let head = subvec(&rest, 0, end);
            let front_lines = crate::text::lines_exec(&head);
            let front = front_pairs_exec(&front_lines);
            let after = subvec(&rest, end + 4, rest.len());
            proof { reveal_strlit("\n"); }
            let body = if starts_with_str(&after, "\n") {
                subvec(&after, 1, after.len())
            } else {
                after
            };
            proof { reveal_strlit("\n"); }
            assert(body@ == body_after(rest@, end as nat));
            let body_lines = crate::text::lines_exec(&body);
            let (records, errors) = scan_records(&body_lines, &p);
            let c = Case {
                path: string_of(&p),
                front,
                body: string_of(&body),
                records,
                errors,
            };
            assert(starts_with(text@, "---\n"@));
            assert(rest@ == text@.subrange(4, text@.len() as int));
            assert(find(rest@, "\n---"@) == Some(end as nat));
            assert(head@ == rest@.subrange(0, end as int));
            assert(c@.front == front_pairs(lines(rest@.subrange(0, end as int))));
            assert(c@.records == records_in(lines(body@), false));
            Ok(c)
        },
    }
}

fn section_exec(body: &Vec<char>, name: &str) -> (r: Vec<String>)
    ensures
        strings_view(r@) == section_of(body@, name@),
{
    let ls = crate::text::lines_exec(body);
    let mut heading: Vec<char> = Vec::new();
    push_str(&mut heading, "## ");
    push_str(&mut heading, name);
    let mut out: Vec<String> = Vec::new();
    let mut in_sec = false;
    let mut i: usize = 0;
    let ghost all = vv(ls@);
    assert(all.subrange(0, all.len() as int) =~= all);
    assert(strings_view(out@) + section_lines(all, name@, false) =~= section_lines(all, name@, false));
    while i < ls.len()
        invariant
            i <= ls.len(),
            all == vv(ls@),
            all == lines(body@),
            heading@ == "## "@ + name@,
            section_lines(all, name@, false) == strings_view(out@) + section_lines(all.subrange(i as int, all.len() as int), name@, in_sec),
        decreases ls.len() - i,
    {
        let ghost t = all.subrange(i as int, all.len() as int);
        let ghost rest = all.subrange(i + 1, all.len() as int);
        assert(t.drop_first() =~= rest);
        let l = &ls[i];
        assert(t[0] == l@);
        let ghost old_out = out@;
        if starts_with_str(l, "## ") {
            let tl = trim_exec(l);
            in_sec = crate::text::chars_eq(&tl, &heading);
        } else if in_sec && trim_exec(l).len() > 0 {
            let s = string_of(l);
            out.push(s);
            assert(strings_view(out@) =~= strings_view(old_out).push(s@));
            assert(strings_view(out@) + section_lines(rest, name@, in_sec) =~= strings_view(old_out) + section_lines(t, name@, in_sec));
        }
        i += 1;
    }
    assert(all.subrange(i as int, all.len() as int) =~= Seq::<Seq<char>>::empty());
    assert(strings_view(out@) + Seq::<Seq<char>>::empty() =~= strings_view(out@));
    out
}


/// Whether `l` is the `## Executions` heading line.
fn is_exec_heading_exec(l: &Vec<char>) -> (r: bool)
    ensures
        r == is_exec_heading(l@),
{
    starts_with_str(l, "## ") && chars_eq_str(&trim_exec(l), "## Executions")
}

fn exec_heading_exec(ls: &Vec<Vec<char>>) -> (r: Option<usize>)
    ensures
        match r {
            Some(h) => exec_heading(vv(ls@)) == Some(h as nat) && h < ls.len(),
            None => exec_heading(vv(ls@)) is None,
        },
{
    let ghost all = vv(ls@);
    let mut i: usize = 0;
    while i < ls.len()
        invariant
            i <= ls.len(),
            all == vv(ls@),
            exec_heading(all) == exec_heading_from(all, i as nat),
        decreases ls.len() - i,
    {
        assert(all[i as int] == ls@[i as int]@);
        if is_exec_heading_exec(&ls[i]) {
            return Some(i);
        }
        i += 1;
    }
    None
}

fn section_end_exec(ls: &Vec<Vec<char>>, from: usize) -> (r: usize)
    requires
        from <= ls.len(),
    ensures
        r == section_end(vv(ls@), from as nat),
        from <= r <= ls.len(),
{
    let ghost all = vv(ls@);
    let mut i = from;
    while i < ls.len() && !starts_with_str(&ls[i], "## ")
        invariant
            from <= i <= ls.len(),
            all == vv(ls@),
            section_end(all, from as nat) == section_end(all, i as nat),
        decreases ls.len() - i,
    {
        assert(all[i as int] == ls@[i as int]@);
        i += 1;
    }
    if i < ls.len() {
        assert(all[i as int] == ls@[i as int]@);
    }
    i
}

/// The character index at which a new record goes in the section headed by
/// line `h`.
fn record_pos_exec(b: &Vec<char>, ls: &Vec<Vec<char>>, h: usize) -> (r: usize)
    requires
        vv(ls@) == lines(b@),
        h < ls.len(),
        is_exec_heading(lines(b@)[h as int]),
    ensures
        r == record_pos(b@, h as nat),
        r <= b.len(),
{
    let ghost all = vv(ls@);
    let e = section_end_exec(ls, h + 1);
    let mut last: Option<usize> = None;
    let mut k = h + 1;
    while k < e
        invariant
            h + 1 <= k <= e <= ls.len(),
            all == vv(ls@),
            match last {
                Some(j) => last_record_before(all, (h + 1) as nat, k as nat) == Some(j as nat) && j < k,
                None => last_record_before(all, (h + 1) as nat, k as nat) is None,
            },
        decreases e - k,
    {
        assert(all[k as int] == ls@[k as int]@);
        if starts_with_str(&ls[k], "- ") {
            last = Some(k);
        }
        k += 1;
    }
    match last {
        Some(j) => line_start_exec(b, j + 1),
        None => {
            let start = line_start_exec(b, h);
            proof {
                lemma_line_raw(b@, h as nat);
                lemma_exec_heading_len(lines(b@)[h as int]);
                reveal_strlit("## Executions");
            }
            let p = start + 13;
            let tail = subvec(b, p, b.len());
            p + first_non_ws_exec(&tail)
        },
    }
}

fn first_non_ws_exec(s: &Vec<char>) -> (r: usize)
    ensures
        r == first_non_ws(s@),
        r <= s.len(),
{
    let mut i: usize = 0;
    assert(s@.subrange(0, s.len() as int) =~= s@);
    while i < s.len() && crate::text::is_ws_exec(s[i])
        invariant
            i <= s.len(),
            first_non_ws(s@) == i + first_non_ws(s@.subrange(i as int, s.len() as int)),
        decreases s.len() - i,
    {
        assert(s@.subrange(i as int, s.len() as int).drop_first() =~= s@.subrange(i + 1, s.len() as int));
        i += 1;
    }
    i
}

/// Character index at which line `i` of `s` starts.
fn line_start_exec(s: &Vec<char>, i: usize) -> (r: usize)
    ensures
        r == line_start(s@, i as nat),
        r <= s.len(),
{
    let mut pos: usize = 0;
    let mut n: usize = 0;
    assert(s@.subrange(0, s.len() as int) =~= s@);
    while n < i
        invariant
            pos <= s.len(),
            n <= i,
            line_start(s@, i as nat) == pos + line_start(s@.subrange(pos as int, s.len() as int), (i - n) as nat),
        decreases i - n,
    {
        let ghost t = s@.subrange(pos as int, s.len() as int);
        let k = crate::text::index_of_from(s, '\n', pos);
        if k < s.len() {
            assert(t.subrange((k - pos + 1) as int, t.len() as int) =~= s@.subrange(k + 1, s.len() as int));
            pos = k + 1;
            n += 1;
        } else {
            return s.len();
        }
    }
    pos
}

impl Case {

    /// Appends the record line `- <line>` to the first `## Executions`
    /// section, right after its last record line so that records stay
    /// together in their section, creating the section at the end of the
    /// body when there is none.
    pub fn add_record(&mut self, line: &str)
        ensures
            final(self)@ == (CaseView { body: add_record_spec(old(self)@.body, line@), ..old(self)@ }),
    {
        let b = crate::text::chars_of(self.body.as_str());
        let ls = crate::text::lines_exec(&b);
        let mut out: Vec<char> = Vec::new();
        match exec_heading_exec(&ls) {
            None => {
                push_chars(&mut out, &b);
                if !(b.len() > 0 && b[b.len() - 1] == '\n') {
                    out.push('\n');
                }
                push_str(&mut out, "\n## Executions\n\n- ");
                push_str(&mut out, line);
                out.push('\n');
                assert(out@ =~= add_record_spec(b@, line@));
            },
            Some(h) => {
                proof {
                    crate::append_law::lemma_exec_heading_from(vv(ls@), 0);
                }
                let at = record_pos_exec(&b, &ls, h);
                let head = subvec(&b, 0, at);
                push_chars(&mut out, &head);
                if !(head.len() > 0 && head[head.len() - 1] == '\n') {
                    out.push('\n');
                }
                push_str(&mut out, "- ");
                push_str(&mut out, line);
                out.push('\n');
                let rest = subvec(&b, at, b.len());
                push_chars(&mut out, &rest);
                assert(out@ =~= add_record_spec(b@, line@));
            },
        }
        self.body = string_of(&out);
    }

    /// Replaces (or appends) a frontmatter field. Writing the file back is
    /// the caller's part: the text to write is `render`.
    pub fn set_field(&mut self, key: &str, value: &str)
        ensures
            final(self)@ == (CaseView { front: set_front(old(self)@.front, key@, value@), ..old(self)@ }),
    {
        let mut nf: Vec<(String, String)> = Vec::new();
        let mut i: usize = 0;
        let mut done = false;
        let ghost f = self@.front;
        assert(f.subrange(0, f.len() as int) =~= f);
        assert(front_view(nf@) + set_front(f, key@, value@) =~= set_front(f, key@, value@));
        while i < self.front.len()
            invariant
                i <= self.front.len(),
                f == front_view(self.front@),
                !done ==> set_front(f, key@, value@) == front_view(nf@) + set_front(f.subrange(i as int, f.len() as int), key@, value@),
                done ==> set_front(f, key@, value@) == front_view(nf@) + f.subrange(i as int, f.len() as int),
            decreases self.front.len() - i,
        {
            let ghost t = f.subrange(i as int, f.len() as int);
            let ghost rest = f.subrange(i + 1, f.len() as int);
            assert(t.drop_first() =~= rest);
            assert(t[0] == (self.front@[i as int].0@, self.front@[i as int].1@));
            let ghost old_nf = nf@;
            let k = self.front[i].0.clone();
            if !done && str_eq(k.as_str(), key) {
                let v = crate::text::string_of(&crate::text::chars_of(value));
                nf.push((k, v));
                done = true;
                assert(front_view(nf@) =~= front_view(old_nf).push((t[0].0, value@)));
                assert(front_view(nf@) + rest =~= front_view(old_nf) + set_front(t, key@, value@));
            } else {
                let v = self.front[i].1.clone();
                nf.push((k, v));
                assert(front_view(nf@) =~= front_view(old_nf).push(t[0]));
                if done {
                    assert(front_view(nf@) + rest =~= front_view(old_nf) + t);
                } else {
                    assert(front_view(nf@) + set_front(rest, key@, value@) =~= front_view(old_nf) + set_front(t, key@, value@));
                }
            }
            i += 1;
        }
        if !done {
            let ghost old_nf = nf@;
            let kk = crate::text::string_of(&crate::text::chars_of(key));
            let v = crate::text::string_of(&crate::text::chars_of(value));
            nf.push((kk, v));
            assert(front_view(nf@) =~= front_view(old_nf).push((key@, value@)));
            assert(f.subrange(i as int, f.len() as int) =~= Seq::<(Seq<char>, Seq<char>)>::empty());
            assert(set_front(Seq::<(Seq<char>, Seq<char>)>::empty(), key@, value@) == seq![(key@, value@)]);
            assert(front_view(nf@) =~= set_front(f, key@, value@));
        } else {
            assert(f.subrange(i as int, f.len() as int) =~= Seq::<(Seq<char>, Seq<char>)>::empty());
            assert(front_view(nf@) + Seq::<(Seq<char>, Seq<char>)>::empty() =~= front_view(nf@));
        }
        assert(front_view(nf@) =~= set_front(f, key@, value@));
        self.front = nf;
    }

    /// Replaces (or appends) the `status` field.
    pub fn set_status(&mut self, status: &str)
        ensures
            final(self)@ == (CaseView { front: set_front(old(self)@.front, "status"@, status@), ..old(self)@ }),
    {
        self.set_field("status", status)
    }

    /// Non-empty lines under `## <name>` in the body.
    pub fn section(&self, name: &str) -> (r: Vec<String>)
        ensures
            strings_view(r@) == section_of(self@.body, name@),
    {
        let b = crate::text::chars_of(self.body.as_str());
        section_exec(&b, name)
    }

    /// The text this case is written back as: the frontmatter fields in
    /// order, each as `key: value`, between `---` lines, then the body.
    pub fn render(&self) -> (r: String)
        ensures
            r@ == render(self@.front, self@.body),
    {
        let mut out: Vec<char> = Vec::new();
        push_str(&mut out, "---\n");
        let mut i: usize = 0;
        let ghost f = self@.front;
        while i < self.front.len()
            invariant
                i <= self.front.len(),
                f == front_view(self.front@),
                out@ == "---\n"@ + render_front(f.subrange(0, i as int)),
            decreases self.front.len() - i,
        {
            let ghost before = out@;
            push_str(&mut out, self.front[i].0.as_str());
            push_str(&mut out, ": ");
            push_str(&mut out, self.front[i].1.as_str());
            push_str(&mut out, "\n");
            assert(f.subrange(0, i + 1).drop_last() =~= f.subrange(0, i as int));
            assert(out@ =~= "---\n"@ + render_front(f.subrange(0, i + 1)));
            i += 1;
        }
        assert(f.subrange(0, f.len() as int) =~= f);
        push_str(&mut out, "---\n");
        push_str(&mut out, self.body.as_str());
        assert(out@ =~= render(f, self@.body));
        string_of(&out)
    }
    /// The value of the first frontmatter field named `key`.
    pub fn get(&self, key: &str) -> (r: Option<&str>)
        ensures
            match r {
                Some(v) => lookup(self@.front, key@) == Some(v@),
                None => lookup(self@.front, key@) is None,
            },
    {
        let mut i: usize = 0;
        assert(self@.front.subrange(0, self.front.len() as int) =~= self@.front);
        while i < self.front.len()
            invariant
                i <= self.front.len(),
                lookup(self@.front, key@) == lookup(self@.front.subrange(i as int, self.front.len() as int), key@),
            decreases self.front.len() - i,
        {
            let ghost t = self@.front.subrange(i as int, self.front.len() as int);
            assert(t.drop_first() =~= self@.front.subrange(i + 1, self.front.len() as int));
            if str_eq(self.front[i].0.as_str(), key) {
                return Some(self.front[i].1.as_str());
            }
            i += 1;
        }
        None
    }
}

} // verus!
