//! The corpus renderer: each record whose name resolved becomes one
//! column-aligned, colorized line whose trailing token is its pid.

use vstd::prelude::*;
use crate::snapshot::{ProcessRecord, ProcessSnapshot};
use crate::text::{digits_of, esc_free, is_style_seq, lemma_digits_of, space_run, u64_to_string};

verus! {

pub open spec fn red_prefix() -> Seq<char> {
    seq!['\u{1b}', '[', '3', '1', 'm']
}

pub open spec fn green_prefix() -> Seq<char> {
    seq!['\u{1b}', '[', '3', '2', 'm']
}

pub open spec fn style_reset() -> Seq<char> {
    seq!['\u{1b}', '[', '0', 'm']
}

/// The style prefixes and the reset are complete style sequences.
pub proof fn lemma_style_seqs()
    ensures
        is_style_seq(red_prefix()),
        is_style_seq(green_prefix()),
        is_style_seq(style_reset()),
{
    assert(red_prefix()[1] == '[' && red_prefix()[2] == '3' && red_prefix()[3] == '1');
    assert(green_prefix()[1] == '[' && green_prefix()[2] == '3' && green_prefix()[3] == '2');
    assert(style_reset()[1] == '[' && style_reset()[2] == '0');
}

/// `styled` is `plain` either bare or wrapped in one style prefix and the
/// reset sequence.
pub open spec fn style_wrapped(styled: Seq<char>, plain: Seq<char>, pre: Seq<char>) -> bool {
    styled == plain || styled == pre + plain + style_reset()
}

/// Relies on colored's Colorize::red and ColoredString's Display: when the
/// input holds no ESC character, the result is the input itself or the input
/// wrapped in the red style prefix and the reset sequence, depending on
/// whether color output is enabled for this process.
#[verifier::external_body]
fn paint_red(s: &str) -> (r: String)
    ensures
        esc_free(s@) ==> style_wrapped(r@, s@, red_prefix()),
{
    colored::Colorize::red(s).to_string()
}

/// Relies on colored's Colorize::green and ColoredString's Display, as for
/// the red variant.
#[verifier::external_body]
fn paint_green(s: &str) -> (r: String)
    ensures
        esc_free(s@) ==> style_wrapped(r@, s@, green_prefix()),
{
    colored::Colorize::green(s).to_string()
}

#[verifier::external_type_specification]
#[verifier::external_body]
pub struct ExTable(tabular::Table);

/// The rows a table holds: one pair of cell texts per row.
pub uninterp spec fn table_rows(t: tabular::Table) -> Seq<(Seq<char>, Seq<char>)>;

/// Relies on tabular's Table::new: a fresh table holds no rows. The row
/// template asks for two right-aligned columns separated by two spaces.
#[verifier::external_body]
fn new_two_column_table() -> (t: tabular::Table)
    ensures
        table_rows(t) == Seq::<(Seq<char>, Seq<char>)>::empty(),
{
    tabular::Table::new("{:>}  {:>}")
}

/// Relies on tabular's Table::add_row, with Row::new and Row::with_cell
/// converting the two cells into a row: appends exactly that row.
#[verifier::external_body]
fn table_push_row(t: &mut tabular::Table, left: String, right: String)
    ensures
        table_rows(*final(t)) == table_rows(*old(t)).push((left@, right@)),
{
    t.add_row(tabular::Row::new().with_cell(left).with_cell(right));
}

/// One rendered row without its newline: left padding, the first cell, the
/// two-space separator, more left padding, the second cell.
pub open spec fn row_body(row: (Seq<char>, Seq<char>), pads: (nat, nat)) -> Seq<char> {
    space_run(pads.0) + row.0 + space_run(2) + space_run(pads.1) + row.1
}

pub open spec fn row_text(row: (Seq<char>, Seq<char>), pads: (nat, nat)) -> Seq<char> {
    row_body(row, pads) + seq!['\n']
}

/// The rendered table: one newline-terminated line per row.
pub open spec fn table_text_spec(
    rows: Seq<(Seq<char>, Seq<char>)>,
    pads: Seq<(nat, nat)>,
) -> Seq<char>
    decreases rows.len(),
{
    if rows.len() == 0 {
        Seq::empty()
    } else {
        row_text(rows[0], pads[0]) + table_text_spec(rows.drop_first(), pads.drop_first())
    }
}

/// `r` renders `rows` under the two-column template, for some choice of
/// per-row padding widths.
pub open spec fn is_table_text(r: Seq<char>, rows: Seq<(Seq<char>, Seq<char>)>) -> bool {
    exists|pads: Seq<(nat, nat)>| pads.len() == rows.len() && r == table_text_spec(rows, pads)
}

/// Relies on tabular's Display for Table: under the two-column right-aligned
/// template every cell row prints as left padding, the first cell, the
/// literal two-space separator, more left padding, the second cell and a
/// newline, with padding runs chosen from the table's column widths.
#[verifier::external_body]
fn table_text(t: &tabular::Table) -> (r: String)
    ensures
        is_table_text(r@, table_rows(*t)),
{
    t.to_string()
}

/// The records that enter the corpus: exactly those whose name resolved, in
/// snapshot order.
pub open spec fn rendered(recs: Seq<ProcessRecord>) -> Seq<ProcessRecord>
    decreases recs.len(),
{
    if recs.len() == 0 {
        Seq::empty()
    } else {
        let rest = rendered(recs.drop_last());
        if recs.last().name is Some {
            rest.push(recs.last())
        } else {
            rest
        }
    }
}

/// The corpus rows stand for the rendered records: a styled pid in the
/// trailing cell, and — for a name free of ESC — a styled name in the
/// leading cell.
pub open spec fn cells_match(recs: Seq<ProcessRecord>, rows: Seq<(Seq<char>, Seq<char>)>) -> bool {
    &&& rows.len() == rendered(recs).len()
    &&& forall|i: int|
        0 <= i < rows.len() ==> style_wrapped(
            (#[trigger] rows[i]).1,
            digits_of(rendered(recs)[i].pid as nat),
            green_prefix(),
        )
    &&& forall|i: int|
        0 <= i < rows.len() ==> (rendered(recs)[i].name matches Some(n) ==> (esc_free(n@)
            ==> style_wrapped((#[trigger] rows[i]).0, n@, red_prefix())))
}

/// Render the snapshot as the selection corpus: one line per record whose
/// name resolved, colorized and column-aligned, pid last on each line.
pub fn render_corpus(snap: &ProcessSnapshot) -> (corpus: String)
    ensures
        exists|rows: Seq<(Seq<char>, Seq<char>)>, pads: Seq<(nat, nat)>|
            cells_match(snap.records@, rows) && pads.len() == rows.len() && corpus@
                == table_text_spec(rows, pads),
{
    let mut t = new_two_column_table();
    let mut i: usize = 0;
    proof {
        assert(rendered(snap.records@.take(0)) =~= Seq::<ProcessRecord>::empty());
    }
    while i < snap.records.len()
        invariant
            i <= snap.records@.len(),
            cells_match(snap.records@.take(i as int), table_rows(t)),
        decreases snap.records@.len() - i,
    {
        proof {
            assert(snap.records@.take(i as int + 1).drop_last() =~= snap.records@.take(i as int));
            assert(snap.records@.take(i as int + 1).last() == snap.records@[i as int]);
        }
        let rec = &snap.records[i];
        match &rec.name {
            Some(name) => {
                let left = paint_red(name.as_str());
                let digits = u64_to_string(rec.pid);
                proof {
                    lemma_digits_of(rec.pid as nat);
                }
                let right = paint_green(digits.as_str());
                table_push_row(&mut t, left, right);
            },
            None => {},
        }
        i = i + 1;
    }
    proof {
        assert(snap.records@.take(snap.records@.len() as int) =~= snap.records@);
    }
    table_text(&t)
}

// --- line structure of the rendered corpus ---

pub open spec fn nl_free(s: Seq<char>) -> bool {
    forall|i: int| 0 <= i < s.len() ==> #[trigger] s[i] != '\n'
}

/// Line splitting, carrying the line in progress; a trailing unterminated
/// chunk counts only when nonempty.
pub open spec fn lines_from(s: Seq<char>, cur: Seq<char>) -> Seq<Seq<char>>
    decreases s.len(),
{
    if s.len() == 0 {
        if cur.len() == 0 {
            Seq::empty()
        } else {
            seq![cur]
        }
    } else if s[0] == '\n' {
        seq![cur] + lines_from(s.drop_first(), Seq::empty())
    } else {
        lines_from(s.drop_first(), cur.push(s[0]))
    }
}

/// The newline-separated lines of `s`.
pub open spec fn lines_of(s: Seq<char>) -> Seq<Seq<char>> {
    lines_from(s, Seq::empty())
}

/// A newline-free body followed by a newline contributes exactly one line.
pub proof fn lemma_lines_chunk(body: Seq<char>, rest: Seq<char>, cur: Seq<char>)
    requires
        nl_free(body),
    ensures
        lines_from(body + seq!['\n'] + rest, cur) == seq![cur + body] + lines_from(
            rest,
            Seq::empty(),
        ),
    decreases body.len(),
{
    let s = body + seq!['\n'] + rest;
    if body.len() == 0 {
        assert(s[0] == '\n');
        assert(s.drop_first() =~= rest);
        assert(cur + body =~= cur);
    } else {
        assert(s[0] == body[0]);
        assert(s.drop_first() =~= body.drop_first() + seq!['\n'] + rest);
        assert(nl_free(body.drop_first()));
        lemma_lines_chunk(body.drop_first(), rest, cur.push(body[0]));
        assert(cur.push(body[0]) + body.drop_first() =~= cur + body);
    }
}

/// The rendered table splits back into its rows' line bodies.
pub proof fn lemma_lines_of_table(rows: Seq<(Seq<char>, Seq<char>)>, pads: Seq<(nat, nat)>)
    requires
        pads.len() == rows.len(),
        forall|i: int| 0 <= i < rows.len() ==> nl_free((#[trigger] rows[i]).0) && nl_free(
            rows[i].1,
        ),
    ensures
        lines_of(table_text_spec(rows, pads)) == Seq::new(
            rows.len(),
            |i: int| row_body(rows[i], pads[i]),
        ),
    decreases rows.len(),
{
    if rows.len() == 0 {
        assert(lines_of(table_text_spec(rows, pads)) =~= Seq::new(
            rows.len(),
            |i: int| row_body(rows[i], pads[i]),
        ));
    } else {
        let body = row_body(rows[0], pads[0]);
        let rest = table_text_spec(rows.drop_first(), pads.drop_first());
        assert(nl_free(space_run(pads[0].0)) && nl_free(space_run(2)) && nl_free(
            space_run(pads[0].1),
        ));
        assert(nl_free(body));
        assert(table_text_spec(rows, pads) =~= body + seq!['\n'] + rest);
        lemma_lines_chunk(body, rest, Seq::empty());
        assert(forall|i: int|
            0 <= i < rows.drop_first().len() ==> nl_free((#[trigger] rows.drop_first()[i]).0)
                && nl_free(rows.drop_first()[i].1));
        lemma_lines_of_table(rows.drop_first(), pads.drop_first());
        assert(Seq::<char>::empty() + body =~= body);
        assert(lines_of(table_text_spec(rows, pads)) =~~= Seq::new(
            rows.len(),
            |i: int| row_body(rows[i], pads[i]),
        ));
    }
}

} // verus!
