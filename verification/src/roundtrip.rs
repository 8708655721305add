//! Reading back what was written: a case rendered as text parses to the same
//! frontmatter and body.
use vstd::prelude::*;
use crate::case::{
    body_after, errors_in, front_pairs, lookup, parse_case_spec, records_in, render,
    render_front, set_front, CaseView,
};
use crate::text::{
    ends_with_char, find, index_of, is_ws, lemma_index_of, lemma_index_of_props, lines,
    starts_with, strip_cr, trim, trim_end, trim_start,
};

verus! {

// ---------------------------------------------------------------------------
// Lemmas on the text primitives
// ---------------------------------------------------------------------------

pub proof fn lemma_index_of_absent(s: Seq<char>, c: char)
    requires
        !s.contains(c),
    ensures
        index_of(s, c) == s.len(),
{
    assert forall|j: int| 0 <= j < s.len() implies s[j] != c by {
        if s[j] == c {
            assert(s.contains(c));
        }
    }
    lemma_index_of(s, c, s.len());
}

/// Splitting into lines distributes over a break after a full line.
pub proof fn lemma_lines_concat(a: Seq<char>, b: Seq<char>)
    requires
        a.len() == 0 || ends_with_char(a, '\n'),
    ensures
        lines(a + b) == lines(a) + lines(b),
    decreases a.len(),
{
    if a.len() == 0 {
        assert(a + b =~= b);
        assert(lines(a) + lines(b) =~= lines(b));
    } else {
        lemma_index_of_props(a, '\n');
        let k = index_of(a, '\n');
        if k >= a.len() {
            assert(a[a.len() - 1] == '\n');
            assert(false);
        }
        let ab = a + b;
        assert forall|j: int| 0 <= j < k implies ab[j] != '\n' by {
            assert(ab[j] == a[j]);
        }
        assert(ab[k as int] == a[k as int]);
        lemma_index_of(ab, '\n', k);
        let a2 = a.subrange((k + 1) as int, a.len() as int);
        assert(ab.subrange(0, k as int) =~= a.subrange(0, k as int));
        assert(ab.subrange((k + 1) as int, ab.len() as int) =~= a2 + b);
        if a2.len() > 0 {
            assert(a2.last() == a.last());
        }
        lemma_lines_concat(a2, b);
        assert(lines(ab) == seq![strip_cr(a.subrange(0, k as int))] + lines(a2 + b));
        assert(lines(a) == seq![strip_cr(a.subrange(0, k as int))] + lines(a2));
        assert(lines(ab) =~= lines(a) + lines(b));
    }
}

/// A piece without line breaks is one line.
pub proof fn lemma_lines_one(l: Seq<char>)
    requires
        !l.contains('\n'),
    ensures
        lines(l + seq!['\n']) == seq![strip_cr(l)],
        l.len() > 0 ==> lines(l) == seq![l],
{
    let s = l + seq!['\n'];
    assert forall|j: int| 0 <= j < l.len() implies s[j] != '\n' by {
        assert(s[j] == l[j]);
        if l[j] == '\n' {
            assert(l.contains('\n'));
        }
    }
    lemma_index_of(s, '\n', l.len());
    assert(s.subrange(0, l.len() as int) =~= l);
    assert(s.subrange((l.len() + 1) as int, s.len() as int) =~= Seq::<char>::empty());
    assert(lines(Seq::<char>::empty()) == Seq::<Seq<char>>::empty());
    assert(lines(s) =~= seq![strip_cr(l)]);
    if l.len() > 0 {
        lemma_index_of_absent(l, '\n');
    }
}

pub proof fn lemma_trim_lens(s: Seq<char>)
    ensures
        trim_start(s).len() <= s.len(),
        trim_end(s).len() <= s.len(),
        s.len() > 0 && is_ws(s.last()) ==> trim_end(s).len() < s.len(),
        s.len() > 0 && is_ws(s[0]) ==> trim_start(s).len() < s.len(),
    decreases s.len(),
{
    if s.len() > 0 {
        lemma_trim_lens(s.drop_first());
        lemma_trim_lens(s.drop_last());
    }
}

/// A trimmed text neither starts nor ends with whitespace.
pub proof fn lemma_trimmed_ends(v: Seq<char>)
    requires
        trim(v) == v,
        v.len() > 0,
    ensures
        !is_ws(v.last()),
        !is_ws(v[0]),
{
    let t = trim_start(v);
    lemma_trim_lens(v);
    lemma_trim_lens(t);
    if is_ws(v[0]) {
        assert(t.len() < v.len());
        assert(trim_end(t).len() <= t.len());
        assert(false);
    }
    assert(t == v);
    if is_ws(v.last()) {
        assert(trim_end(v).len() < v.len());
        assert(false);
    }
}

/// Trimming `" " + v` gives `v` when `v` is already trimmed.
pub proof fn lemma_trim_after_space(v: Seq<char>)
    requires
        trim(v) == v,
    ensures
        trim(seq![' '] + v) == v,
{
    let s = seq![' '] + v;
    assert(is_ws(' '));
    assert(s.drop_first() =~= v);
    assert(trim_start(s) == trim_start(v));
}

pub open spec fn occurs_at(s: Seq<char>, p: Seq<char>, j: int) -> bool {
    0 <= j && j + p.len() <= s.len() && s.subrange(j, (j + p.len()) as int) == p
}

/// What `find` returns is an occurrence.
pub proof fn lemma_find_occurs(s: Seq<char>, p: Seq<char>)
    ensures
        find(s, p) matches Some(k) ==> occurs_at(s, p, k as int),
    decreases s.len(),
{
    if p.len() <= s.len() && s.subrange(0, p.len() as int) != p && s.len() > 0 {
        let t = s.drop_first();
        lemma_find_occurs(t, p);
        if let Some(k) = find(t, p) {
            assert(t.subrange(k as int, (k + p.len()) as int) =~= s.subrange((k + 1) as int, (k + 1 + p.len()) as int));
        }
    }
}

/// `find` gives the first occurrence.
pub proof fn lemma_find_first(s: Seq<char>, p: Seq<char>, k: nat)
    requires
        occurs_at(s, p, k as int),
        forall|j: int| 0 <= j < k ==> !occurs_at(s, p, j),
    ensures
        find(s, p) == Some(k),
    decreases k,
{
    if k > 0 {
        assert(!occurs_at(s, p, 0));
        let t = s.drop_first();
        assert forall|j: int| 0 <= j < k - 1 implies !occurs_at(t, p, j) by {
            assert(t.subrange(j, (j + p.len()) as int) =~= s.subrange(j + 1, (j + 1 + p.len()) as int));
            assert(!occurs_at(s, p, j + 1));
        }
        assert(t.subrange(k - 1, (k - 1 + p.len()) as int) =~= s.subrange(k as int, (k + p.len()) as int));
        lemma_find_first(t, p, (k - 1) as nat);
    }
}

// ---------------------------------------------------------------------------
// The shape of rendered frontmatter
// ---------------------------------------------------------------------------

pub open spec fn front_line(p: (Seq<char>, Seq<char>)) -> Seq<char> {
    p.0 + ": "@ + p.1
}

pub open spec fn front_lines(front: Seq<(Seq<char>, Seq<char>)>) -> Seq<Seq<char>> {
    front.map_values(|p: (Seq<char>, Seq<char>)| front_line(p))
}

/// A field that is written and read back unchanged: the key has no `:`,
/// neither key nor value has a line break, and both are already trimmed.
pub open spec fn canonical_field(k: Seq<char>, v: Seq<char>) -> bool {
    &&& !k.contains(':')
    &&& !k.contains('\n')
    &&& trim(k) == k
    &&& !v.contains('\n')
    &&& trim(v) == v
}

/// Frontmatter that survives a write and a read: at least one field, every
/// field canonical, and no key after the first starting with `---` (it would
/// read as the closing delimiter).
pub open spec fn canonical_front(front: Seq<(Seq<char>, Seq<char>)>) -> bool {
    &&& front.len() > 0
    &&& forall|i: int|
        0 <= i < front.len() ==> canonical_field(#[trigger] front[i].0, front[i].1) && (i > 0
            ==> !starts_with(front[i].0, "---"@))
}

proof fn lemma_line_shape(k: Seq<char>, v: Seq<char>)
    requires
        canonical_field(k, v),
    ensures
        !front_line((k, v)).contains('\n'),
        !ends_with_char(front_line((k, v)), '\r'),
        front_line((k, v)).len() >= 2,
        front_line((k, v)).len() == k.len() + 2 + v.len(),
        front_line((k, v))[k.len() as int] == ':',
        index_of(front_line((k, v)), ':') == k.len(),
        front_line((k, v)).subrange(0, k.len() as int) == k,
        front_line((k, v)).subrange((k.len() + 1) as int, front_line((k, v)).len() as int) == seq![' '] + v,
{
    reveal_strlit(": ");
    let l = front_line((k, v));
    assert(l =~= k + seq![':', ' '] + v);
    assert forall|j: int| 0 <= j < l.len() implies l[j] != '\n' by {
        if j < k.len() {
            assert(l[j] == k[j]);
            if k[j] == '\n' {
                assert(k.contains('\n'));
            }
        } else if j >= k.len() + 2 {
            assert(l[j] == v[j - k.len() - 2]);
            if v[j - k.len() - 2] == '\n' {
                assert(v.contains('\n'));
            }
        }
    }
    if l.contains('\n') {
        let j = choose|j: int| 0 <= j < l.len() && l[j] == '\n';
        assert(false);
    }
    if v.len() > 0 {
        lemma_trimmed_ends(v);
        assert(l.last() == v.last());
        assert(is_ws('\r'));
    } else {
        assert(l.last() == ' ');
    }
    assert forall|j: int| 0 <= j < k.len() implies l[j] != ':' by {
        assert(l[j] == k[j]);
        if k[j] == ':' {
            assert(k.contains(':'));
        }
    }
    lemma_index_of(l, ':', k.len());
    assert(l.subrange(0, k.len() as int) =~= k);
    assert(l.subrange((k.len() + 1) as int, l.len() as int) =~= seq![' '] + v);
}

proof fn lemma_render_front_shape(front: Seq<(Seq<char>, Seq<char>)>)
    requires
        front.len() > 0,
    ensures
        render_front(front) == render_front(front.drop_last()) + front_line(front.last()) + seq!['\n'],
        ends_with_char(render_front(front), '\n'),
{
    reveal_strlit("\n");
    assert(render_front(front) =~= render_front(front.drop_last()) + front_line(front.last()) + seq!['\n']);
}

pub proof fn lemma_lines_render_front(front: Seq<(Seq<char>, Seq<char>)>)
    requires
        forall|i: int| 0 <= i < front.len() ==> canonical_field(#[trigger] front[i].0, front[i].1),
    ensures
        lines(render_front(front)) == front_lines(front),
        front.len() > 0 ==> lines(render_front(front).drop_last()) == front_lines(front),
    decreases front.len(),
{
    if front.len() == 0 {
        assert(render_front(front) == Seq::<char>::empty());
        assert(front_lines(front) =~= Seq::<Seq<char>>::empty());
    } else {
        let f2 = front.drop_last();
        assert forall|i: int| 0 <= i < f2.len() implies canonical_field(#[trigger] f2[i].0, f2[i].1) by {
            assert(f2[i] == front[i]);
        }
        lemma_lines_render_front(f2);
        let g = render_front(f2);
        let l = front_line(front.last());
        assert(canonical_field(front[front.len() - 1].0, front[front.len() - 1].1));
        lemma_line_shape(front.last().0, front.last().1);
        lemma_render_front_shape(front);
        if f2.len() > 0 {
            lemma_render_front_shape(f2);
        }
        lemma_lines_one(l);
        lemma_lines_concat(g, l + seq!['\n']);
        assert(g + (l + seq!['\n']) =~= render_front(front));
        assert(strip_cr(l) == l);
        assert(front_lines(front) =~= front_lines(f2) + seq![l]);
        lemma_lines_concat(g, l);
        assert(render_front(front).drop_last() =~= g + l);
    }
}

pub proof fn lemma_front_pairs_of_lines(front: Seq<(Seq<char>, Seq<char>)>)
    requires
        forall|i: int| 0 <= i < front.len() ==> canonical_field(#[trigger] front[i].0, front[i].1),
    ensures
        front_pairs(front_lines(front)) == front,
    decreases front.len(),
{
    if front.len() > 0 {
        let f2 = front.drop_first();
        assert forall|i: int| 0 <= i < f2.len() implies canonical_field(#[trigger] f2[i].0, f2[i].1) by {
            assert(f2[i] == front[i + 1]);
        }
        lemma_front_pairs_of_lines(f2);
        assert(front_lines(front).drop_first() =~= front_lines(f2));
        let (k, v) = front[0];
        assert(canonical_field(front[0].0, front[0].1));
        lemma_line_shape(k, v);
        lemma_trim_after_space(v);
        let ls = front_lines(front);
        let l = front_line((k, v));
        assert(ls[0] == l);
        assert(l =~= k + ": "@ + v);
        assert(l.len() == k.len() + 2 + v.len()) by {
            reveal_strlit(": ");
        }
        assert(index_of(ls[0], ':') < ls[0].len());
        assert(front_pairs(ls) == seq![(trim(l.subrange(0, k.len() as int)), trim(l.subrange((k.len() + 1) as int, l.len() as int)))] + front_pairs(ls.drop_first()));
        assert(front_pairs(front_lines(front)) =~= seq![(k, v)] + f2);
        assert(seq![(k, v)] + f2 =~= front);
    }
}

/// No `"\n---"` starts before the last line break of the rendered fields.
proof fn lemma_no_early_delimiter(front: Seq<(Seq<char>, Seq<char>)>, x: Seq<char>)
    requires
        forall|i: int|
            0 <= i < front.len() ==> canonical_field(#[trigger] front[i].0, front[i].1) && (i > 0
                ==> !starts_with(front[i].0, "---"@)),
    ensures
        forall|j: int| 0 <= j < render_front(front).len() - 1 ==> !occurs_at(render_front(front) + x, "\n---"@, j),
    decreases front.len(),
{
    reveal_strlit("\n---");
    reveal_strlit("---");
    if front.len() > 0 {
        let f2 = front.drop_last();
        let n = front.len();
        assert forall|i: int|
            0 <= i < f2.len() implies canonical_field(#[trigger] f2[i].0, f2[i].1) && (i > 0
                ==> !starts_with(f2[i].0, "---"@)) by {
            assert(f2[i] == front[i]);
        }
        let g = render_front(f2);
        let (k, v) = front.last();
        let l = front_line((k, v));
        assert(canonical_field(front[n - 1].0, front[n - 1].1));
        lemma_line_shape(k, v);
        lemma_render_front_shape(front);
        let full = render_front(front) + x;
        let y = l + seq!['\n'] + x;
        lemma_no_early_delimiter(f2, y);
        assert(g + y =~= full);
        assert forall|q: int| 0 <= q < l.len() implies full[g.len() + q] == l[q] by {
            assert(full[g.len() + q] == y[q]);
        }
        assert forall|j: int| 0 <= j < render_front(front).len() - 1 implies !occurs_at(full, "\n---"@, j) by {
            if j < g.len() - 1 {
            } else if j == g.len() - 1 {
                if occurs_at(full, "\n---"@, j) {
                    assert(n >= 2);
                    assert(!starts_with(front[n - 1].0, "---"@));
                    assert(full.subrange(j, j + 4)[1] == full[g.len() as int]);
                    if k.len() >= 3 {
                        assert(k.subrange(0, 3) =~= full.subrange(g.len() as int, (g.len() + 3) as int)) by {
                            assert forall|q: int| 0 <= q < 3 implies k.subrange(0, 3)[q] == full.subrange(g.len() as int, (g.len() + 3) as int)[q] by {
                                assert(full[g.len() + q] == l[q]);
                                assert(l[q] == k[q]);
                            }
                        }
                        assert(full.subrange(g.len() as int, (g.len() + 3) as int) =~= full.subrange(j, j + 4).subrange(1, 4));
                        assert("\n---"@.subrange(1, 4) =~= "---"@);
                        assert(starts_with(k, "---"@));
                    } else {
                        let q = k.len() as int;
                        assert(full[g.len() + q] == l[q]);
                        assert(full.subrange(j, j + 4)[1 + q] == full[g.len() + q]);
                        assert("\n---"@[1 + q] == '-');
                    }
                }
            } else {
                let q = j - g.len();
                assert(0 <= q < l.len());
                assert(full[j] == l[q]);
                if occurs_at(full, "\n---"@, j) {
                    assert(full.subrange(j, j + 4)[0] == full[j]);
                    assert(l[q] == '\n');
                    assert(l.contains('\n'));
                }
            }
        }
    }
}

/// The pieces of parsing a rendered case: the opening delimiter is there,
/// the closing one is found right after the fields, and what lies between
/// and after reads back as the fields and the body.
proof fn lemma_rendered_parts(front: Seq<(Seq<char>, Seq<char>)>, body: Seq<char>)
    requires
        canonical_front(front),
    ensures
        ({
            let text = render(front, body);
            let rest = text.subrange(4, text.len() as int);
            let end = (render_front(front).len() - 1) as nat;
            &&& starts_with(text, "---\n"@)
            &&& find(rest, "\n---"@) == Some(end)
            &&& body_after(rest, end) == body
            &&& front_pairs(lines(rest.subrange(0, end as int))) == front
        }),
{
    reveal_strlit("---\n");
    reveal_strlit("\n---");
    reveal_strlit("\n");
    let f = render_front(front);
    let text = render(front, body);
    assert(forall|i: int| 0 <= i < front.len() ==> canonical_field(#[trigger] front[i].0, front[i].1));
    lemma_render_front_shape(front);
    assert(text.subrange(0, 4) =~= "---\n"@);
    let rest = text.subrange(4, text.len() as int);
    assert(rest =~= f + "---\n"@ + body);
    let end = (f.len() - 1) as nat;
    lemma_no_early_delimiter(front, "---\n"@ + body);
    assert(f + ("---\n"@ + body) =~= rest);
    assert(rest.subrange(end as int, (end + 4) as int) =~= "\n---"@) by {
        assert(rest[end as int] == f[end as int]);
    }
    lemma_find_first(rest, "\n---"@, end);
    assert(rest.subrange(0, end as int) =~= f.drop_last());
    lemma_lines_render_front(front);
    lemma_front_pairs_of_lines(front);
    let after = rest.subrange((end + 4) as int, rest.len() as int);
    assert(after =~= seq!['\n'] + body);
    assert(after.subrange(0, 1) =~= "\n"@);
    assert(starts_with(after, "\n"@));
    assert(after.subrange(1, after.len() as int) =~= body);
}

/// A case written with canonical frontmatter reads back with the same
/// fields, in order, and the same body (so also the same records and
/// record problems).
pub proof fn law_parse_render_roundtrip(path: Seq<char>, front: Seq<(Seq<char>, Seq<char>)>, body: Seq<char>)
    requires
        canonical_front(front),
    ensures
        parse_case_spec(path, render(front, body)) == Ok::<CaseView, Seq<char>>(
            CaseView {
                path,
                front,
                body,
                records: records_in(lines(body), false),
                errors: errors_in(lines(body), false, path),
            },
        ),
{
    lemma_rendered_parts(front, body);
}

/// A file with canonical frontmatter is written back unchanged when it is
/// read and written again without changes.
pub proof fn law_write_back_preserves_file(path: Seq<char>, front: Seq<(Seq<char>, Seq<char>)>, body: Seq<char>)
    requires
        canonical_front(front),
    ensures
        parse_case_spec(path, render(front, body)) matches Ok(c) && render(c.front, c.body) == render(front, body),
{
    law_parse_render_roundtrip(path, front, body);
}

/// Field `i` of `set_front(front, key, value)`: the field of `front` there,
/// possibly with the new value, or the appended field.
spec fn set_entry_ok(front: Seq<(Seq<char>, Seq<char>)>, key: Seq<char>, value: Seq<char>, e: (Seq<char>, Seq<char>), i: int) -> bool {
    ||| (0 <= i < front.len() && e.0 == front[i].0 && (e.1 == front[i].1 || e.1 == value))
    ||| (i == front.len() && e == (key, value))
}

proof fn lemma_set_front_shape(front: Seq<(Seq<char>, Seq<char>)>, key: Seq<char>, value: Seq<char>)
    ensures
        front.len() <= set_front(front, key, value).len() <= front.len() + 1,
        forall|i: int| 0 <= i < set_front(front, key, value).len() ==> set_entry_ok(front, key, value, #[trigger] set_front(front, key, value)[i], i),
    decreases front.len(),
{
    let sf = set_front(front, key, value);
    if front.len() > 0 {
        if front[0].0 == key {
            assert forall|i: int| 0 <= i < sf.len() implies set_entry_ok(front, key, value, #[trigger] sf[i], i) by {
                if i > 0 {
                    assert(sf[i] == front.drop_first()[i - 1]);
                }
            }
        } else {
            let f1 = front.drop_first();
            let rest = set_front(f1, key, value);
            lemma_set_front_shape(f1, key, value);
            assert forall|i: int| 0 <= i < sf.len() implies set_entry_ok(front, key, value, #[trigger] sf[i], i) by {
                if i > 0 {
                    assert(sf[i] == rest[i - 1]);
                    assert(set_entry_ok(f1, key, value, rest[i - 1], i - 1));
                    if i - 1 < f1.len() {
                        assert(f1[i - 1] == front[i]);
                    }
                }
            }
        }
    } else {
        assert(sf[0] == (key, value));
    }
}

proof fn lemma_set_front_canonical(front: Seq<(Seq<char>, Seq<char>)>, key: Seq<char>, value: Seq<char>)
    requires
        canonical_front(front),
        canonical_field(key, value),
        !starts_with(key, "---"@),
    ensures
        canonical_front(set_front(front, key, value)),
{
    lemma_set_front_shape(front, key, value);
    let sf = set_front(front, key, value);
    assert forall|i: int| 0 <= i < sf.len() implies canonical_field(#[trigger] sf[i].0, sf[i].1) && (i > 0 ==> !starts_with(sf[i].0, "---"@)) by {
        assert(set_entry_ok(front, key, value, sf[i], i));
        if i < front.len() {
            assert(canonical_field(front[i].0, front[i].1));
        }
    }
}

/// Setting a frontmatter field and writing the case back: reading the file
/// gives every field as set, the field set to its new value, every other
/// field as it was, and the same body.
pub proof fn law_set_field_then_reload(
    path: Seq<char>,
    front: Seq<(Seq<char>, Seq<char>)>,
    body: Seq<char>,
    key: Seq<char>,
    value: Seq<char>,
)
    requires
        canonical_front(front),
        canonical_field(key, value),
        !starts_with(key, "---"@),
    ensures
        parse_case_spec(path, render(set_front(front, key, value), body)) == Ok::<CaseView, Seq<char>>(
            CaseView {
                path,
                front: set_front(front, key, value),
                body,
                records: records_in(lines(body), false),
                errors: errors_in(lines(body), false, path),
            },
        ),
        lookup(set_front(front, key, value), key) == Some(value),
        forall|other: Seq<char>| other != key ==> #[trigger] lookup(set_front(front, key, value), other) == lookup(front, other),
{
    lemma_set_front_canonical(front, key, value);
    law_parse_render_roundtrip(path, set_front(front, key, value), body);
    crate::laws::law_get_after_set(front, key, value);
    assert forall|other: Seq<char>| other != key implies #[trigger] lookup(set_front(front, key, value), other) == lookup(front, other) by {
        crate::laws::law_set_keeps_other_fields(front, key, value, other);
    }
}

} // verus!
