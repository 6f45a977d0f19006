//! The pipeline's cross-component guarantees, proved once and for all:
//! every faithfully rendered corpus resolves back to exactly the pids of
//! the records that entered it.

use vstd::prelude::*;
use crate::render::{
    cells_match, green_prefix, lemma_lines_of_table, lemma_style_seqs, lines_of, nl_free,
    red_prefix, rendered, row_body, style_reset, style_wrapped, table_text_spec,
};
use crate::resolve::{resolve_line_spec, resolve_spec, sel_pids};
use crate::snapshot::ProcessRecord;
use crate::text::{
    all_spaces, digits_of, esc_free, is_space, lemma_digits_of, lemma_parse_digits_round_trip,
    lemma_strip_plain, lemma_strip_wrapped, lemma_tokens_nonempty, lemma_tokens_space_prefix,
    lemma_trailing_token, no_spaces, space_run, strip_codes_spec, tokens,
};

verus! {

/// A name the corpus can carry faithfully: free of ESC and newline, with at
/// least one non-whitespace character.
pub open spec fn clean_name(n: Seq<char>) -> bool {
    esc_free(n) && nl_free(n) && !all_spaces(n)
}

/// Every resolved name in the snapshot is one the corpus carries faithfully.
pub open spec fn all_names_clean(recs: Seq<ProcessRecord>) -> bool {
    forall|i: int|
        0 <= i < recs.len() ==> ((#[trigger] recs[i]).name matches Some(n) ==> clean_name(n@))
}

pub proof fn lemma_no_spaces_concat(a: Seq<char>, b: Seq<char>)
    requires
        no_spaces(a),
        no_spaces(b),
    ensures
        no_spaces(a + b),
{
    assert forall|i: int| 0 <= i < (a + b).len() implies !is_space(#[trigger] (a + b)[i]) by {
        if i < a.len() {
            assert((a + b)[i] == a[i]);
        } else {
            assert((a + b)[i] == b[i - a.len()]);
        }
    }
}

pub proof fn lemma_nl_free_concat(a: Seq<char>, b: Seq<char>)
    requires
        nl_free(a),
        nl_free(b),
    ensures
        nl_free(a + b),
{
    assert forall|i: int| 0 <= i < (a + b).len() implies #[trigger] (a + b)[i] != '\n' by {
        if i < a.len() {
            assert((a + b)[i] == a[i]);
        } else {
            assert((a + b)[i] == b[i - a.len()]);
        }
    }
}

/// Whitespace-free text holds no newline.
pub proof fn lemma_no_spaces_nl_free(s: Seq<char>)
    requires
        no_spaces(s),
    ensures
        nl_free(s),
{
    assert forall|i: int| 0 <= i < s.len() implies #[trigger] s[i] != '\n' by {
        assert(!is_space(s[i]));
    }
}

/// The style prefixes and the reset hold neither whitespace nor newline.
pub proof fn lemma_style_chars()
    ensures
        no_spaces(red_prefix()),
        no_spaces(green_prefix()),
        no_spaces(style_reset()),
{
    assert(red_prefix()[0] == '\u{1b}' && red_prefix()[1] == '[' && red_prefix()[2] == '3'
        && red_prefix()[3] == '1' && red_prefix()[4] == 'm');
    assert(green_prefix()[0] == '\u{1b}' && green_prefix()[1] == '[' && green_prefix()[2] == '3'
        && green_prefix()[3] == '2' && green_prefix()[4] == 'm');
    assert(style_reset()[0] == '\u{1b}' && style_reset()[1] == '[' && style_reset()[2] == '0'
        && style_reset()[3] == 'm');
}

/// One faithfully rendered line resolves, and to its record's pid: the pid
/// survives styling, padding, and any whitespace inside the name.
pub proof fn lemma_line_resolves(
    l: Seq<char>,
    name: Seq<char>,
    pid: u64,
    w1: Seq<char>,
    w2: Seq<char>,
    k1: nat,
    k2: nat,
)
    requires
        l == space_run(k1) + w1 + space_run(2) + space_run(k2) + w2,
        style_wrapped(w1, name, red_prefix()),
        style_wrapped(w2, digits_of(pid as nat), green_prefix()),
        clean_name(name),
    ensures
        resolve_line_spec(l) matches Some(p) && p.1 == pid,
{
    lemma_style_seqs();
    lemma_style_chars();
    lemma_digits_of(pid as nat);
    let digits = digits_of(pid as nat);
    // the trailing cell is nonempty and whitespace-free
    if w2 == digits {
    } else {
        lemma_no_spaces_concat(green_prefix(), digits);
        lemma_no_spaces_concat(green_prefix() + digits, style_reset());
    }
    assert(no_spaces(w2));
    assert(w2.len() > 0);
    // the leading cell has a non-whitespace character
    if w1 == name {
        assert(!all_spaces(w1));
    } else {
        assert(w1[0] == '\u{1b}');
        assert(!is_space(w1[0]));
        assert(!all_spaces(w1));
    }
    // token structure of the whole line
    let sp1 = space_run(k1);
    let gap = space_run((2 + k2) as nat);
    assert(space_run(2) + space_run(k2) =~= gap);
    assert(l =~= (sp1 + w1) + gap + w2);
    lemma_trailing_token(sp1 + w1, (2 + k2) as nat, w2);
    assert(all_spaces(sp1));
    lemma_tokens_space_prefix(sp1, w1);
    lemma_tokens_nonempty(w1, Seq::empty());
    assert(tokens(sp1 + w1).len() >= 1);
    let ts = tokens(l);
    assert(ts == tokens(sp1 + w1).push(w2));
    assert(ts.len() >= 2);
    assert(ts.last() == w2);
    // the trailing token strips to the digits and parses to the pid
    if w2 == digits {
        lemma_strip_plain(digits, Seq::empty());
        assert(digits + Seq::<char>::empty() =~= digits);
        assert(strip_codes_spec(w2) == digits);
    } else {
        lemma_strip_wrapped(green_prefix(), digits, style_reset());
    }
    lemma_parse_digits_round_trip(pid);
}

/// The records that enter the corpus all carry a resolved name, each drawn
/// from the snapshot.
pub proof fn lemma_rendered_elems(recs: Seq<ProcessRecord>)
    ensures
        forall|i: int|
            0 <= i < rendered(recs).len() ==> ((#[trigger] rendered(recs)[i]).name is Some
                && exists|j: int| 0 <= j < recs.len() && recs[j] == rendered(recs)[i]),
    decreases recs.len(),
{
    if recs.len() == 0 {
    } else {
        lemma_rendered_elems(recs.drop_last());
        assert forall|i: int| 0 <= i < rendered(recs).len() implies ((
        #[trigger] rendered(recs)[i]).name is Some && exists|j: int|
            0 <= j < recs.len() && recs[j] == rendered(recs)[i]) by {
            let prev = rendered(recs.drop_last());
            if i < prev.len() {
                assert(rendered(recs)[i] == prev[i]);
                let j = choose|j: int|
                    0 <= j < recs.drop_last().len() && recs.drop_last()[j] == prev[i];
                assert(recs[j] == rendered(recs)[i]);
            } else {
                assert(rendered(recs)[i] == recs.last());
                assert(recs[recs.len() - 1] == rendered(recs)[i]);
            }
        }
    }
}

/// Resolution of a batch where every line resolves keeps length and order.
pub proof fn lemma_resolve_all_some(ls: Seq<Seq<char>>)
    requires
        forall|i: int| 0 <= i < ls.len() ==> resolve_line_spec(#[trigger] ls[i]) is Some,
    ensures
        resolve_spec(ls).len() == ls.len(),
        forall|i: int|
            0 <= i < ls.len() ==> Some(#[trigger] resolve_spec(ls)[i]) == resolve_line_spec(ls[i]),
    decreases ls.len(),
{
    if ls.len() == 0 {
    } else {
        assert(forall|i: int|
            0 <= i < ls.drop_last().len() ==> resolve_line_spec(#[trigger] ls.drop_last()[i])
                is Some);
        lemma_resolve_all_some(ls.drop_last());
        assert(resolve_line_spec(ls.last()) is Some);
        assert forall|i: int| 0 <= i < ls.len() implies Some(#[trigger] resolve_spec(ls)[i])
            == resolve_line_spec(ls[i]) by {
            if i < ls.len() - 1 {
                assert(resolve_spec(ls)[i] == resolve_spec(ls.drop_last())[i]);
                assert(ls.drop_last()[i] == ls[i]);
            } else {
                assert(ls[i] == ls.last());
            }
        }
    }
}

/// Round trip: rendering a snapshot and then resolving every corpus line
/// recovers exactly the pids of the records whose name resolved — as the
/// same sequence, hence the same set.
pub proof fn lemma_render_resolve_round_trip(
    recs: Seq<ProcessRecord>,
    rows: Seq<(Seq<char>, Seq<char>)>,
    pads: Seq<(nat, nat)>,
)
    requires
        all_names_clean(recs),
        cells_match(recs, rows),
        pads.len() == rows.len(),
    ensures
        sel_pids(resolve_spec(lines_of(table_text_spec(rows, pads)))) == rendered(
            recs,
        ).map_values(|r: ProcessRecord| r.pid),
        sel_pids(resolve_spec(lines_of(table_text_spec(rows, pads)))).to_set() == rendered(
            recs,
        ).map_values(|r: ProcessRecord| r.pid).to_set(),
{
    lemma_style_chars();
    lemma_rendered_elems(recs);
    // every cell is newline-free
    assert forall|i: int| 0 <= i < rows.len() implies nl_free((#[trigger] rows[i]).0) && nl_free(
        rows[i].1,
    ) by {
        let rec = rendered(recs)[i];
        let n = rec.name.unwrap();
        let j = choose|j: int| 0 <= j < recs.len() && recs[j] == rec;
        assert(clean_name(n@));
        lemma_digits_of(rec.pid as nat);
        lemma_no_spaces_nl_free(digits_of(rec.pid as nat));
        if rows[i].1 == digits_of(rec.pid as nat) {
        } else {
            lemma_no_spaces_concat(green_prefix(), digits_of(rec.pid as nat));
            lemma_no_spaces_concat(green_prefix() + digits_of(rec.pid as nat), style_reset());
            lemma_no_spaces_nl_free(
                green_prefix() + digits_of(rec.pid as nat) + style_reset(),
            );
        }
        if rows[i].0 == n@ {
        } else {
            lemma_no_spaces_nl_free(red_prefix());
            lemma_no_spaces_nl_free(style_reset());
            lemma_nl_free_concat(red_prefix(), n@);
            lemma_nl_free_concat(red_prefix() + n@, style_reset());
        }
    }
    lemma_lines_of_table(rows, pads);
    let lines = lines_of(table_text_spec(rows, pads));
    assert(lines.len() == rows.len());
    // each line resolves to its record's pid
    assert forall|i: int| 0 <= i < lines.len() implies resolve_line_spec(#[trigger] lines[i])
        is Some && resolve_line_spec(lines[i]).unwrap().1 == rendered(recs)[i].pid by {
        let rec = rendered(recs)[i];
        let n = rec.name.unwrap();
        let j = choose|j: int| 0 <= j < recs.len() && recs[j] == rec;
        assert(clean_name(n@));
        assert(lines[i] == row_body(rows[i], pads[i]));
        lemma_line_resolves(
            lines[i],
            n@,
            rec.pid,
            rows[i].0,
            rows[i].1,
            pads[i].0,
            pads[i].1,
        );
    }
    lemma_resolve_all_some(lines);
    assert(sel_pids(resolve_spec(lines)) =~= rendered(recs).map_values(
        |r: ProcessRecord| r.pid,
    ));
}

} // verus!
