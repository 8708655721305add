//! Laws about execution records: what `record` writes is what the parser
//! reads back.
use vstd::prelude::*;
use crate::case::{is_category, is_date, parse_record, record_fields, RecordView};
use crate::commands::record_line_text;
use crate::text::{is_ws, lemma_index_of, split, trim, trim_end, trim_start};

verus! {

pub open spec fn trim_opt(o: Option<Seq<char>>) -> Option<Seq<char>> {
    match o {
        Some(s) => Some(trim(s)),
        None => None,
    }
}

pub open spec fn no_ws(s: Seq<char>) -> bool {
    forall|i: int| 0 <= i < s.len() ==> !is_ws(#[trigger] s[i])
}

proof fn lemma_split_cons(a: Seq<char>, b: Seq<char>)
    requires
        !a.contains('|'),
    ensures
        split(a + seq!['|'] + b, '|') == seq![a] + split(b, '|'),
{
    let s = a + seq!['|'] + b;
    assert forall|j: int| 0 <= j < a.len() implies s[j] != '|' by {
        assert(s[j] == a[j]);
        if a[j] == '|' {
            assert(a.contains('|'));
        }
    }
    lemma_index_of(s, '|', a.len());
    assert(s.subrange(0, a.len() as int) =~= a);
    assert(s.subrange((a.len() + 1) as int, s.len() as int) =~= b);
}

proof fn lemma_split_single(a: Seq<char>)
    requires
        !a.contains('|'),
    ensures
        split(a, '|') == seq![a],
{
    assert forall|j: int| 0 <= j < a.len() implies a[j] != '|' by {
        if a[j] == '|' {
            assert(a.contains('|'));
        }
    }
    lemma_index_of(a, '|', a.len());
}

proof fn lemma_trim_start_concat(s: Seq<char>, t: Seq<char>)
    ensures
        trim_start(s + t) == if trim_start(s).len() == 0 {
            trim_start(t)
        } else {
            trim_start(s) + t
        },
    decreases s.len(),
{
    if s.len() == 0 {
        assert(s + t =~= t);
    } else if is_ws(s[0]) {
        assert((s + t).drop_first() =~= s.drop_first() + t);
        lemma_trim_start_concat(s.drop_first(), t);
    } else {
        assert((s + t)[0] == s[0]);
    }
}

proof fn lemma_trim_end_space(s: Seq<char>)
    ensures
        trim_end(s + seq![' ']) == trim_end(s),
{
    assert((s + seq![' ']).drop_last() =~= s);
    assert(is_ws(' '));
}

/// Spaces around a field do not change what it trims to.
proof fn lemma_trim_spaced(s: Seq<char>)
    ensures
        trim(seq![' '] + s) == trim(s),
        trim(s + seq![' ']) == trim(s),
        trim(seq![' '] + s + seq![' ']) == trim(s),
{
    assert(is_ws(' '));
    assert((seq![' '] + s).drop_first() =~= s);
    assert((seq![' '] + s + seq![' ']).drop_first() =~= s + seq![' ']);
    lemma_trim_start_concat(s, seq![' ']);
    if trim_start(s).len() == 0 {
        assert(trim_start(seq![' ']) == trim_start(Seq::<char>::empty())) by {
            assert(seq![' '].drop_first() =~= Seq::<char>::empty());
        }
    } else {
        lemma_trim_end_space(trim_start(s));
    }
}

proof fn lemma_trim_no_ws(s: Seq<char>)
    requires
        no_ws(s),
    ensures
        trim(s) == s,
{
    if s.len() > 0 {
        assert(!is_ws(s[0]));
        assert(!is_ws(s[s.len() - 1]));
    }
}

proof fn lemma_date_no_ws(d: Seq<char>)
    requires
        is_date(d),
    ensures
        no_ws(d),
        !d.contains('|'),
{
    assert forall|i: int| 0 <= i < d.len() implies !is_ws(#[trigger] d[i]) by {
        if i != 4 && i != 7 {
            assert('0' as u32 <= (d[i] as u32) <= '9' as u32);
        }
    }
    if d.contains('|') {
        let i = choose|i: int| 0 <= i < d.len() && d[i] == '|';
        if i != 4 && i != 7 {
            assert('0' as u32 <= (d[i] as u32) <= '9' as u32);
        }
        assert(false);
    }
}

pub proof fn lemma_word_facts()
    ensures
        no_ws("pass"@) && !"pass"@.contains('|'),
        no_ws("fail"@) && !"fail"@.contains('|'),
        no_ws("product-bug"@) && !"product-bug"@.contains('|'),
        no_ws("test-bug"@) && !"test-bug"@.contains('|'),
        no_ws("environment"@) && !"environment"@.contains('|'),
        " | "@ == seq![' ', '|', ' '],
        "- "@ == seq!['-', ' '],
{
    reveal_strlit("pass");
    reveal_strlit("fail");
    reveal_strlit("product-bug");
    reveal_strlit("test-bug");
    reveal_strlit("environment");
    reveal_strlit(" | ");
    reveal_strlit("- ");
    assert(" | "@ =~= seq![' ', '|', ' ']);
    assert("- "@ =~= seq!['-', ' ']);
    assert(!"pass"@.contains('|'));
    assert(!"fail"@.contains('|'));
    assert(!"product-bug"@.contains('|'));
    assert(!"test-bug"@.contains('|'));
    assert(!"environment"@.contains('|'));
}

proof fn lemma_spaced_no_bar(s: Seq<char>)
    requires
        !s.contains('|'),
    ensures
        !(seq![' '] + s + seq![' ']).contains('|'),
        !(seq![' '] + s).contains('|'),
        !(s + seq![' ']).contains('|'),
{
    let a = seq![' '] + s + seq![' '];
    if a.contains('|') {
        let i = choose|i: int| 0 <= i < a.len() && a[i] == '|';
        assert(a[i] == s[i - 1]);
        assert(s.contains('|'));
    }
    let b = seq![' '] + s;
    if b.contains('|') {
        let i = choose|i: int| 0 <= i < b.len() && b[i] == '|';
        assert(b[i] == s[i - 1]);
        assert(s.contains('|'));
    }
    let c = s + seq![' '];
    if c.contains('|') {
        let i = choose|i: int| 0 <= i < c.len() && c[i] == '|';
        assert(c[i] == s[i]);
        assert(s.contains('|'));
    }
}

proof fn lemma_fields_three(date: Seq<char>, commit: Seq<char>, result: Seq<char>)
    requires
        is_date(date),
        !commit.contains('|'),
        no_ws(result),
        !result.contains('|'),
    ensures
        record_fields("- "@ + (date + " | "@ + commit + " | "@ + result)) == seq![date, trim(commit), result],
{
    lemma_word_facts();
    lemma_date_no_ws(date);
    lemma_trim_no_ws(date);
    lemma_trim_no_ws(result);
    let sp = seq![' '];
    let bar = seq!['|'];
    let line = date + " | "@ + commit + " | "@ + result;
    let full = "- "@ + line;
    assert(full.subrange(2, full.len() as int) =~= line);
    lemma_spaced_no_bar(commit);
    lemma_spaced_no_bar(date);
    lemma_spaced_no_bar(result);
    lemma_trim_spaced(date);
    lemma_trim_spaced(commit);
    lemma_trim_spaced(result);
    assert(line =~= (date + sp) + bar + ((sp + commit + sp) + bar + (sp + result)));
    lemma_split_cons(date + sp, (sp + commit + sp) + bar + (sp + result));
    lemma_split_cons(sp + commit + sp, sp + result);
    lemma_split_single(sp + result);
    assert(split(line, '|') =~= seq![date + sp, sp + commit + sp, sp + result]);
    assert(record_fields(full) =~= seq![date, trim(commit), result]);
}

proof fn lemma_fields_more(date: Seq<char>, commit: Seq<char>, result: Seq<char>, rest: Seq<char>)
    requires
        is_date(date),
        !commit.contains('|'),
        no_ws(result),
        !result.contains('|'),
    ensures
        record_fields("- "@ + (date + " | "@ + commit + " | "@ + result + " | "@ + rest)) == seq![date, trim(commit), result] + split(seq![' '] + rest, '|').map_values(|p: Seq<char>| trim(p)),
{
    lemma_word_facts();
    lemma_date_no_ws(date);
    lemma_trim_no_ws(date);
    lemma_trim_no_ws(result);
    let sp = seq![' '];
    let bar = seq!['|'];
    let line = date + " | "@ + commit + " | "@ + result + " | "@ + rest;
    let full = "- "@ + line;
    assert(full.subrange(2, full.len() as int) =~= line);
    lemma_spaced_no_bar(commit);
    lemma_spaced_no_bar(date);
    lemma_spaced_no_bar(result);
    lemma_trim_spaced(date);
    lemma_trim_spaced(commit);
    lemma_trim_spaced(result);
    assert(line =~= (date + sp) + bar + ((sp + commit + sp) + bar + ((sp + result + sp) + bar + (sp + rest))));
    lemma_split_cons(date + sp, (sp + commit + sp) + bar + ((sp + result + sp) + bar + (sp + rest)));
    lemma_split_cons(sp + commit + sp, (sp + result + sp) + bar + (sp + rest));
    lemma_split_cons(sp + result + sp, sp + rest);
    assert(split(line, '|') =~= seq![date + sp, sp + commit + sp, sp + result + sp] + split(sp + rest, '|'));
    assert(record_fields(full) =~= seq![date, trim(commit), result] + split(sp + rest, '|').map_values(|p: Seq<char>| trim(p)));
}

proof fn lemma_rest_one(k: Seq<char>)
    requires
        no_ws(k),
        !k.contains('|'),
    ensures
        split(seq![' '] + k, '|').map_values(|p: Seq<char>| trim(p)) == seq![k],
{
    lemma_spaced_no_bar(k);
    lemma_split_single(seq![' '] + k);
    lemma_trim_spaced(k);
    lemma_trim_no_ws(k);
    assert(split(seq![' '] + k, '|').map_values(|p: Seq<char>| trim(p)) =~= seq![k]);
}

proof fn lemma_rest_two(k: Seq<char>, n: Seq<char>)
    requires
        no_ws(k),
        !k.contains('|'),
        !n.contains('|'),
    ensures
        split(seq![' '] + (k + " | "@ + n), '|').map_values(|p: Seq<char>| trim(p)) == seq![k, trim(n)],
{
    lemma_word_facts();
    let sp = seq![' '];
    lemma_spaced_no_bar(k);
    lemma_spaced_no_bar(n);
    lemma_trim_spaced(k);
    lemma_trim_spaced(n);
    lemma_trim_no_ws(k);
    assert(sp + (k + " | "@ + n) =~= (sp + k + sp) + seq!['|'] + (sp + n));
    lemma_split_cons(sp + k + sp, sp + n);
    lemma_split_single(sp + n);
    assert(split(sp + (k + " | "@ + n), '|') =~= seq![sp + k + sp, sp + n]);
    assert(split(sp + (k + " | "@ + n), '|').map_values(|p: Seq<char>| trim(p)) =~= seq![k, trim(n)]);
}

proof fn lemma_category_words(k: Seq<char>)
    requires
        is_category(k),
    ensures
        no_ws(k),
        !k.contains('|'),
{
    lemma_word_facts();
}

proof fn lemma_rest_note(n: Seq<char>)
    requires
        !n.contains('|'),
    ensures
        split(seq![' '] + n, '|').map_values(|p: Seq<char>| trim(p)) == seq![trim(n)],
{
    lemma_spaced_no_bar(n);
    lemma_split_single(seq![' '] + n);
    lemma_trim_spaced(n);
    assert(split(seq![' '] + n, '|').map_values(|p: Seq<char>| trim(p)) =~= seq![trim(n)]);
}

/// A record line written by `record` reads back as the record it was made
/// from (fields trimmed as the parser trims them): a pass, with or without a
/// note, and a failure with its category, with or without a note.
pub proof fn law_recorded_line_reads_back(
    date: Seq<char>,
    commit: Seq<char>,
    result: Seq<char>,
    category: Option<Seq<char>>,
    note: Option<Seq<char>>,
)
    requires
        is_date(date),
        !commit.contains('|'),
        note matches Some(n) ==> !n.contains('|'),
        (result == "pass"@ && category is None) || (result == "fail"@ && (category matches Some(k)
            && is_category(k))),
    ensures
        parse_record("- "@ + record_line_text(date, commit, result, category, note)) == Ok::<
            RecordView,
            Seq<char>,
        >(RecordView { date, commit: trim(commit), result, category, note: trim_opt(note) }),
{
    lemma_word_facts();
    reveal_strlit("pass");
    reveal_strlit("fail");
    assert("pass"@[0] != "fail"@[0]);
    let line = record_line_text(date, commit, result, category, note);
    if result == "pass"@ {
        match note {
            None => {
                assert(line =~= date + " | "@ + commit + " | "@ + result);
                lemma_fields_three(date, commit, result);
            },
            Some(n) => {
                assert(line =~= date + " | "@ + commit + " | "@ + result + " | "@ + n);
                lemma_fields_more(date, commit, result, n);
                lemma_rest_note(n);
                assert(record_fields("- "@ + line) =~= seq![date, trim(commit), result, trim(n)]);
            },
        }
    } else {
        let k = category.unwrap();
        lemma_category_words(k);
        match note {
            None => {
                assert(line =~= date + " | "@ + commit + " | "@ + result + " | "@ + k);
                lemma_fields_more(date, commit, result, k);
                lemma_rest_one(k);
                assert(record_fields("- "@ + line) =~= seq![date, trim(commit), result, k]);
            },
            Some(n) => {
                assert(line =~= date + " | "@ + commit + " | "@ + result + " | "@ + (k + " | "@ + n));
                lemma_fields_more(date, commit, result, k + " | "@ + n);
                lemma_rest_two(k, n);
                assert(record_fields("- "@ + line) =~= seq![date, trim(commit), result, k, trim(n)]);
            },
        }
    }
}

} // verus!
