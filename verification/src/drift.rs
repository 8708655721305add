//! Drift detection: a hash of a case's Steps and Expected sections, recorded
//! as `drift-sha` when the case is scriptified and compared later.
use vstd::prelude::*;
use crate::case::{lookup, section_of, Case, CaseView};
use crate::text::{push_str, string_of};
use vstd::utf8::encode_utf8;

verus! {

/// Each line followed by a newline.
pub open spec fn joined_lines(ls: Seq<Seq<char>>) -> Seq<char>
    decreases ls.len(),
{
    if ls.len() == 0 {
        seq![]
    } else {
        joined_lines(ls.drop_last()) + ls.last() + seq!['\n']
    }
}

/// The text the drift hash is taken of: the Steps lines, a NUL, then the
/// Expected lines, each line followed by a newline.
pub open spec fn drift_source(body: Seq<char>) -> Seq<char> {
    joined_lines(section_of(body, "Steps"@)) + seq!['\0'] + joined_lines(section_of(body, "Expected"@))
}

pub open spec fn fnv_offset() -> u64 {
    0xcbf2_9ce4_8422_2325
}

pub open spec fn fnv_prime() -> u64 {
    0x0000_0100_0000_01b3
}

/// 64-bit FNV-1a of `bytes`: for each byte, xor it in, then multiply by the
/// FNV prime modulo 2^64.
pub open spec fn fnv1a(bytes: Seq<u8>) -> u64
    decreases bytes.len(),
{
    if bytes.len() == 0 {
        fnv_offset()
    } else {
        let h = fnv1a(bytes.drop_last()) ^ (bytes.last() as u64);
        ((h as nat * fnv_prime() as nat) % 0x1_0000_0000_0000_0000) as u64
    }
}

pub open spec fn hex_digit(d: nat) -> char {
    if d < 10 {
        crate::text::digit(d)
    } else if d == 10 {
        'a'
    } else if d == 11 {
        'b'
    } else if d == 12 {
        'c'
    } else if d == 13 {
        'd'
    } else if d == 14 {
        'e'
    } else {
        'f'
    }
}

/// The last `k` hexadecimal digits of `n`, most significant first.
pub open spec fn hex_digits(n: nat, k: nat) -> Seq<char>
    decreases k,
{
    if k == 0 {
        seq![]
    } else {
        hex_digits(n / 16, (k - 1) as nat).push(hex_digit(n % 16))
    }
}

/// `format!("{:016x}", h)`.
pub open spec fn hex16(h: u64) -> Seq<char> {
    hex_digits(h as nat, 16)
}

/// The drift hash of a case body.
pub open spec fn drift_hash_of(body: Seq<char>) -> Seq<char> {
    hex16(fnv1a(encode_utf8(drift_source(body))))
}

pub open spec fn drift_message(id: Seq<char>) -> Seq<char> {
    "\u{26a0} drift: Steps/Expected changed since scriptify \u{2014} covered-by script may be stale (run `opencase scriptify "@
        + id + " --rebaseline` after updating it)"@
}

pub open spec fn id_or_empty(front: Seq<(Seq<char>, Seq<char>)>) -> Seq<char> {
    match lookup(front, "id"@) {
        Some(v) => v,
        None => seq![],
    }
}

/// The drift hint of a case: none without a `drift-sha` baseline or when
/// the baseline matches the current Steps/Expected.
pub open spec fn drift_hint_of(c: CaseView) -> Option<Seq<char>> {
    match lookup(c.front, "drift-sha"@) {
        None => None,
        Some(stored) => if drift_hash_of(c.body) == stored {
            None
        } else {
            Some(drift_message(id_or_empty(c.front)))
        },
    }
}

fn hex_digit_exec(d: u64) -> (c: char)
    requires
        d < 16,
    ensures
        c == hex_digit(d as nat),
{
    if d < 10 {
        crate::text::digit_exec(d as usize)
    } else if d == 10 {
        'a'
    } else if d == 11 {
        'b'
    } else if d == 12 {
        'c'
    } else if d == 13 {
        'd'
    } else if d == 14 {
        'e'
    } else {
        'f'
    }
}

fn hex_digits_exec(n: u64, k: usize) -> (r: Vec<char>)
    ensures
        r@ == hex_digits(n as nat, k as nat),
    decreases k,
{
    if k == 0 {
        Vec::new()
    } else {
        let mut r = hex_digits_exec(n / 16, k - 1);
        r.push(hex_digit_exec(n % 16));
        r
    }
}

fn fnv1a_exec(b: &[u8]) -> (h: u64)
    ensures
        h == fnv1a(b@),
{
    let mut h: u64 = 0xcbf2_9ce4_8422_2325;
    let mut i: usize = 0;
    while i < b.len()
        invariant
            i <= b.len(),
            h == fnv1a(b@.subrange(0, i as int)),
        decreases b.len() - i,
    {
        assert(b@.subrange(0, i + 1).drop_last() =~= b@.subrange(0, i as int));
        h = h ^ (b[i] as u64);
        h = h.wrapping_mul(0x0000_0100_0000_01b3);
        i += 1;
    }
    assert(b@.subrange(0, b.len() as int) =~= b@);
    h
}

fn push_joined(out: &mut Vec<char>, ls: &Vec<String>)
    ensures
        final(out)@ == old(out)@ + joined_lines(crate::case::strings_view(ls@)),
{
    let ghost start = out@;
    let ghost all = crate::case::strings_view(ls@);
    let mut i: usize = 0;
    while i < ls.len()
        invariant
            i <= ls.len(),
            all == crate::case::strings_view(ls@),
            out@ == start + joined_lines(all.subrange(0, i as int)),
        decreases ls.len() - i,
    {
        assert(all.subrange(0, i + 1).drop_last() =~= all.subrange(0, i as int));
        push_str(out, ls[i].as_str());
        out.push('\n');
        i += 1;
        assert(out@ =~= start + joined_lines(all.subrange(0, i as int)));
    }
    assert(all.subrange(0, ls.len() as int) =~= all);
}

/// FNV-1a 64-bit hash of a case's Steps and Expected lines, hex-encoded.
/// Deterministic and dependency-free; meant for drift detection, not security.
pub fn drift_hash(case: &Case) -> (r: String)
    ensures
        r@ == drift_hash_of(case@.body),
{
    let steps = case.section("Steps");
    let expected = case.section("Expected");
    let mut src: Vec<char> = Vec::new();
    push_joined(&mut src, &steps);
    src.push('\0');
    push_joined(&mut src, &expected);
    assert(src@ =~= drift_source(case@.body));
    let s = string_of(&src);
    let bytes = s.as_str().as_bytes();
    let h = fnv1a_exec(bytes);
    let digits = hex_digits_exec(h, 16);
    string_of(&digits)
}

/// `Some(message)` when the case's Steps/Expected changed since the
/// `drift-sha` baseline recorded at scriptify time.
pub fn drift_hint(case: &Case) -> (r: Option<String>)
    ensures
        opt_string_view(r) == drift_hint_of(case@),
{
    let stored = match case.get("drift-sha") {
        Some(v) => v,
        None => return None,
    };
    let h = drift_hash(case);
    if crate::text::str_eq(h.as_str(), stored) {
        return None;
    }
    let mut out: Vec<char> = Vec::new();
    push_str(
        &mut out,
        "\u{26a0} drift: Steps/Expected changed since scriptify \u{2014} covered-by script may be stale (run `opencase scriptify ",
    );
    match case.get("id") {
        Some(id) => push_str(&mut out, id),
        None => {},
    }
    push_str(&mut out, " --rebaseline` after updating it)");
    assert(out@ =~= drift_message(id_or_empty(case@.front)));
    Some(string_of(&out))
}

pub open spec fn opt_string_view(o: Option<String>) -> Option<Seq<char>> {
    match o {
        Some(s) => Some(s@),
        None => None,
    }
}

} // verus!
