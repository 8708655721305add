//! The drift baseline covers every Steps and Expected line: an edit to any
//! of them shows as drift, unless FNV-1a maps the two texts to one hash.
use vstd::prelude::*;
use crate::case::{lookup, section_lines, section_of, CaseView};
use crate::drift::{drift_hash_of, drift_hint_of, drift_source, fnv1a, hex16, hex_digit, hex_digits, joined_lines};
use crate::text::{index_of, lemma_index_of, lemma_index_of_props, lines};
use vstd::utf8::{decode_utf8, encode_utf8, encode_utf8_decode_utf8};

verus! {

/// No text of `ls` holds the character `c`.
pub open spec fn none_holds(ls: Seq<Seq<char>>, c: char) -> bool {
    forall|i: int| 0 <= i < ls.len() ==> !(#[trigger] ls[i]).contains(c)
}

proof fn lemma_lines_no_newline(s: Seq<char>)
    ensures
        none_holds(lines(s), '\n'),
    decreases s.len(),
{
    if s.len() > 0 {
        lemma_index_of_props(s, '\n');
        let k = index_of(s, '\n');
        if k < s.len() {
            let first = s.subrange(0, k as int);
            let rest = s.subrange((k + 1) as int, s.len() as int);
            lemma_lines_no_newline(rest);
            let l0 = crate::text::strip_cr(first);
            assert(!l0.contains('\n')) by {
                if l0.contains('\n') {
                    let j = choose|j: int| 0 <= j < l0.len() && l0[j] == '\n';
                    assert(l0[j] == s[j]);
                }
            }
            assert forall|i: int| 0 <= i < lines(s).len() implies !(#[trigger] lines(s)[i]).contains('\n') by {
                if i > 0 {
                    assert(lines(s)[i] == lines(rest)[i - 1]);
                }
            }
        } else {
            assert(!s.contains('\n')) by {
                if s.contains('\n') {
                    let j = choose|j: int| 0 <= j < s.len() && s[j] == '\n';
                }
            }
        }
    }
}

proof fn lemma_section_lines_from(ls: Seq<Seq<char>>, name: Seq<char>, in_sec: bool, c: char)
    requires
        none_holds(ls, c),
    ensures
        none_holds(section_lines(ls, name, in_sec), c),
    decreases ls.len(),
{
    if ls.len() > 0 {
        let t = ls.drop_first();
        assert forall|i: int| 0 <= i < t.len() implies !(#[trigger] t[i]).contains(c) by {
            assert(t[i] == ls[i + 1]);
        }
        lemma_section_lines_from(t, name, true, c);
        lemma_section_lines_from(t, name, false, c);
        lemma_section_lines_from(t, name, crate::text::trim(ls[0]) == "## "@ + name, c);
        let r = section_lines(ls, name, in_sec);
        assert(!ls[0].contains(c));
        assert forall|i: int| 0 <= i < r.len() implies !(#[trigger] r[i]).contains(c) by {
            if !crate::case::is_heading(ls[0]) && in_sec && crate::text::trim(ls[0]).len() > 0 && i > 0 {
                assert(r[i] == section_lines(t, name, in_sec)[i - 1]);
            }
        }
    }
}

proof fn lemma_joined_ends(ls: Seq<Seq<char>>)
    ensures
        ls.len() > 0 ==> joined_lines(ls).len() > 0 && joined_lines(ls).last() == '\n',
        ls.len() == 0 ==> joined_lines(ls).len() == 0,
{
}

proof fn lemma_joined_lacks(ls: Seq<Seq<char>>, c: char)
    requires
        none_holds(ls, c),
        c != '\n',
    ensures
        !joined_lines(ls).contains(c),
    decreases ls.len(),
{
    if ls.len() > 0 {
        let a = ls.drop_last();
        assert forall|i: int| 0 <= i < a.len() implies !(#[trigger] a[i]).contains(c) by {
            assert(a[i] == ls[i]);
        }
        lemma_joined_lacks(a, c);
        let j = joined_lines(ls);
        let ja = joined_lines(a);
        let l = ls.last();
        assert(!l.contains(c));
        if j.contains(c) {
            let k = choose|k: int| 0 <= k < j.len() && j[k] == c;
            if k < ja.len() {
                assert(j[k] == ja[k]);
                assert(ja.contains(c));
            } else if k < ja.len() + l.len() {
                assert(j[k] == l[k - ja.len()]);
                assert(l.contains(c));
            }
        }
    }
}

/// Lines without line breaks joined with a line break after each are the
/// same text only when they are the same lines.
proof fn lemma_joined_inj(a: Seq<Seq<char>>, b: Seq<Seq<char>>)
    requires
        none_holds(a, '\n'),
        none_holds(b, '\n'),
        joined_lines(a) == joined_lines(b),
    ensures
        a == b,
    decreases a.len() + b.len(),
{
    lemma_joined_ends(a);
    lemma_joined_ends(b);
    if a.len() == 0 || b.len() == 0 {
        assert(a.len() == 0 && b.len() == 0);
        assert(a =~= b);
    } else {
        let a1 = a.drop_last();
        let b1 = b.drop_last();
        let la = a.last();
        let lb = b.last();
        let ja = joined_lines(a1);
        let jb = joined_lines(b1);
        let u = ja + la;
        let v = jb + lb;
        assert(u == joined_lines(a).drop_last()) by {
            assert(joined_lines(a).drop_last() =~= u);
        }
        assert(v == joined_lines(b).drop_last()) by {
            assert(joined_lines(b).drop_last() =~= v);
        }
        assert(u == v);
        assert(!la.contains('\n') && !lb.contains('\n'));
        lemma_joined_ends(a1);
        lemma_joined_ends(b1);
        if la.len() < lb.len() {
            let q = u.len() - la.len() - 1;
            assert(ja.len() > 0);
            assert(u[q] == ja.last());
            assert(v[q] == lb[q - jb.len()]);
            assert(lb.contains(lb[q - jb.len()]));
        } else if lb.len() < la.len() {
            let q = v.len() - lb.len() - 1;
            assert(jb.len() > 0);
            assert(v[q] == jb.last());
            assert(u[q] == la[q - ja.len()]);
            assert(la.contains(la[q - ja.len()]));
        }
        assert(la == lb) by {
            assert(la =~= u.subrange(ja.len() as int, u.len() as int));
            assert(lb =~= v.subrange(jb.len() as int, v.len() as int));
        }
        assert(ja == jb) by {
            assert(ja =~= u.subrange(0, ja.len() as int));
            assert(jb =~= v.subrange(0, jb.len() as int));
        }
        assert forall|i: int| 0 <= i < a1.len() implies !(#[trigger] a1[i]).contains('\n') by {
            assert(a1[i] == a[i]);
        }
        assert forall|i: int| 0 <= i < b1.len() implies !(#[trigger] b1[i]).contains('\n') by {
            assert(b1[i] == b[i]);
        }
        lemma_joined_inj(a1, b1);
        assert(a =~= a1.push(la));
        assert(b =~= b1.push(lb));
    }
}

/// The text the drift hash is taken of determines both sections, when no
/// Steps line holds a NUL.
pub proof fn lemma_drift_source_inj(b1: Seq<char>, b2: Seq<char>)
    requires
        none_holds(section_of(b1, "Steps"@), '\0'),
        none_holds(section_of(b2, "Steps"@), '\0'),
        drift_source(b1) == drift_source(b2),
    ensures
        section_of(b1, "Steps"@) == section_of(b2, "Steps"@),
        section_of(b1, "Expected"@) == section_of(b2, "Expected"@),
{
    let s1 = section_of(b1, "Steps"@);
    let s2 = section_of(b2, "Steps"@);
    let e1 = section_of(b1, "Expected"@);
    let e2 = section_of(b2, "Expected"@);
    lemma_lines_no_newline(b1);
    lemma_lines_no_newline(b2);
    lemma_section_lines_from(lines(b1), "Steps"@, false, '\n');
    lemma_section_lines_from(lines(b2), "Steps"@, false, '\n');
    lemma_section_lines_from(lines(b1), "Expected"@, false, '\n');
    lemma_section_lines_from(lines(b2), "Expected"@, false, '\n');
    lemma_joined_lacks(s1, '\0');
    lemma_joined_lacks(s2, '\0');
    let j1 = joined_lines(s1);
    let j2 = joined_lines(s2);
    let src = drift_source(b1);
    assert(src == j1 + seq!['\0'] + joined_lines(e1));
    assert(src == j2 + seq!['\0'] + joined_lines(e2));
    assert forall|j: int| 0 <= j < j1.len() implies src[j] != '\0' by {
        assert(src[j] == j1[j]);
        if j1[j] == '\0' {
            assert(j1.contains('\0'));
        }
    }
    assert(src[j1.len() as int] == '\0');
    lemma_index_of(src, '\0', j1.len());
    assert forall|j: int| 0 <= j < j2.len() implies src[j] != '\0' by {
        assert(src[j] == j2[j]);
        if j2[j] == '\0' {
            assert(j2.contains('\0'));
        }
    }
    assert(src[j2.len() as int] == '\0');
    lemma_index_of(src, '\0', j2.len());
    assert(j1 =~= src.subrange(0, j1.len() as int));
    assert(j2 =~= src.subrange(0, j2.len() as int));
    assert(joined_lines(e1) =~= src.subrange((j1.len() + 1) as int, src.len() as int));
    assert(joined_lines(e2) =~= src.subrange((j2.len() + 1) as int, src.len() as int));
    lemma_joined_inj(s1, s2);
    lemma_joined_inj(e1, e2);
}

pub open spec fn pow16(k: nat) -> nat
    decreases k,
{
    if k == 0 {
        1
    } else {
        16 * pow16((k - 1) as nat)
    }
}

proof fn lemma_hex_digit_inj(a: nat, b: nat)
    requires
        a < 16,
        b < 16,
        hex_digit(a) == hex_digit(b),
    ensures
        a == b,
{
}

/// `k` hexadecimal digits determine a number below `16^k`.
proof fn lemma_hex_digits_inj(a: nat, b: nat, k: nat)
    requires
        hex_digits(a, k) == hex_digits(b, k),
    ensures
        a % pow16(k) == b % pow16(k),
    decreases k,
{
    if k == 0 {
        assert(a % 1 == 0 && b % 1 == 0);
    } else {
        let x = hex_digits(a / 16, (k - 1) as nat);
        let y = hex_digits(b / 16, (k - 1) as nat);
        assert(hex_digits(a, k) == x.push(hex_digit(a % 16)));
        assert(hex_digits(b, k) == y.push(hex_digit(b % 16)));
        assert(x == hex_digits(a, k).drop_last());
        assert(y == hex_digits(b, k).drop_last());
        assert(hex_digit(a % 16) == hex_digits(a, k).last());
        lemma_hex_digit_inj(a % 16, b % 16);
        lemma_hex_digits_inj(a / 16, b / 16, (k - 1) as nat);
        lemma_pow16_pos((k - 1) as nat);
        vstd::arithmetic::div_mod::lemma_mod_breakdown(a as int, 16, pow16((k - 1) as nat) as int);
        vstd::arithmetic::div_mod::lemma_mod_breakdown(b as int, 16, pow16((k - 1) as nat) as int);
    }
}

proof fn lemma_pow16_pos(k: nat)
    ensures
        pow16(k) > 0,
    decreases k,
{
    if k > 0 {
        lemma_pow16_pos((k - 1) as nat);
    }
}

/// Two hashes print as the same sixteen hexadecimal digits only when they
/// are equal.
pub proof fn lemma_hex16_inj(a: u64, b: u64)
    requires
        hex16(a) == hex16(b),
    ensures
        a == b,
{
    lemma_hex_digits_inj(a as nat, b as nat, 16);
    assert(pow16(16) == 0x1_0000_0000_0000_0000) by {
        reveal_with_fuel(pow16, 17);
    }
    assert((a as nat) % pow16(16) == a as nat);
    assert((b as nat) % pow16(16) == b as nat);
}

/// The drift baseline covers every Steps and Expected line. If a case's
/// `drift-sha` is the hash of another body, and the two bodies differ in
/// any Steps or Expected line, the case shows drift, unless FNV-1a gives
/// the same hash for the two different UTF-8 texts it is taken of. (A Steps
/// line holding a NUL could shift the boundary between the two sections, so
/// such lines are left out.)
pub proof fn law_drift_detects_any_edit(old_body: Seq<char>, c: CaseView)
    requires
        lookup(c.front, "drift-sha"@) == Some(drift_hash_of(old_body)),
        section_of(old_body, "Steps"@) != section_of(c.body, "Steps"@) || section_of(old_body, "Expected"@)
            != section_of(c.body, "Expected"@),
        none_holds(section_of(old_body, "Steps"@), '\0'),
        none_holds(section_of(c.body, "Steps"@), '\0'),
    ensures
        drift_hint_of(c) is Some || ({
            let e1 = encode_utf8(drift_source(old_body));
            let e2 = encode_utf8(drift_source(c.body));
            e1 != e2 && fnv1a(e1) == fnv1a(e2)
        }),
{
    let e1 = encode_utf8(drift_source(old_body));
    let e2 = encode_utf8(drift_source(c.body));
    if drift_hint_of(c) is None {
        assert(drift_hash_of(c.body) == drift_hash_of(old_body));
        lemma_hex16_inj(fnv1a(e1), fnv1a(e2));
        if e1 == e2 {
            encode_utf8_decode_utf8(drift_source(old_body));
            encode_utf8_decode_utf8(drift_source(c.body));
            assert(drift_source(old_body) == drift_source(c.body));
            lemma_drift_source_inj(old_body, c.body);
        }
    }
}

/// Without an edit to any Steps or Expected line, the baseline still
/// matches: no drift shows.
pub proof fn law_no_drift_without_edits(old_body: Seq<char>, c: CaseView)
    requires
        lookup(c.front, "drift-sha"@) == Some(drift_hash_of(old_body)),
        section_of(old_body, "Steps"@) == section_of(c.body, "Steps"@),
        section_of(old_body, "Expected"@) == section_of(c.body, "Expected"@),
    ensures
        drift_hint_of(c) is None,
{
}

} // verus!
