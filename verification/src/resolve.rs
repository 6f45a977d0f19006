//! The selection resolver: maps lines the operator chose back to process
//! identifiers, trusting only each line's trailing whitespace token.

use vstd::prelude::*;
use crate::config::views_of;
use crate::text::{
    all_spaces, is_space, lemma_tokens_all_spaces, lemma_tokens_nonspace, lemma_tokens_space_prefix,
    lemma_tokens_split_left, no_spaces, parse_pid, parse_pid_spec, pending, space_char,
    strip_codes, strip_codes_spec, tokens, tokens_from,
};

verus! {

/// One resolved selection: the display name (the line's first token, styling
/// stripped) and the pid (the line's trailing token, styling stripped).
pub struct SelectedProc {
    pub name: String,
    pub pid: u64,
}

pub open spec fn sel_view(p: SelectedProc) -> (Seq<char>, u64) {
    (p.name@, p.pid)
}

pub open spec fn sel_views(ps: Seq<SelectedProc>) -> Seq<(Seq<char>, u64)> {
    ps.map_values(|p: SelectedProc| sel_view(p))
}

/// What resolving one selected line yields: `None` for a line with fewer
/// than two tokens or whose trailing token is no pid; otherwise the stripped
/// first token and the pid parsed from the stripped trailing token.
pub open spec fn resolve_line_spec(l: Seq<char>) -> Option<(Seq<char>, u64)> {
    let ts = tokens(l);
    if ts.len() < 2 {
        None
    } else {
        match parse_pid_spec(strip_codes_spec(ts.last())) {
            Some(pid) => Some((strip_codes_spec(ts[0]), pid)),
            None => None,
        }
    }
}

/// Resolve one selected line.
pub fn resolve_line(line: &str) -> (r: Option<SelectedProc>)
    ensures
        r is Some <==> resolve_line_spec(line@) is Some,
        r matches Some(p) ==> resolve_line_spec(line@) == Some((p.name@, p.pid)),
{
    let l = line;
    let n: usize = l.unicode_len();
    let mut b: usize = n;
    while b > 0 && space_char(l.get_char(b - 1))
        invariant
            b <= n,
            n == l@.len(),
            forall|j: int| b <= j < n ==> is_space(#[trigger] l@[j]),
        decreases b,
    {
        b = b - 1;
    }
    if b == 0 {
        proof {
            assert(all_spaces(l@));
            lemma_tokens_all_spaces(l@, Seq::empty());
        }
        return None;
    }
    let mut a: usize = b;
    while a > 0 && !space_char(l.get_char(a - 1))
        invariant
            a <= b,
            b <= n,
            n == l@.len(),
            forall|j: int| a <= j < b ==> !is_space(#[trigger] l@[j]),
        decreases a,
    {
        a = a - 1;
    }
    proof {
        assert(!is_space(l@[b - 1]));
        assert(a < b);
    }
    let ghost bb = l@.subrange(a as int, b as int);
    let ghost cc = l@.skip(b as int);
    proof {
        assert(no_spaces(bb));
        assert(all_spaces(cc));
        assert(bb.len() > 0);
        lemma_tokens_nonspace(bb, cc, Seq::empty());
        lemma_tokens_all_spaces(cc, Seq::<char>::empty() + bb);
        assert((Seq::<char>::empty() + bb).len() > 0);
        assert(pending(Seq::<char>::empty() + bb) =~~= seq![bb]);
        assert(tokens_from(bb + cc, Seq::empty()) == seq![bb]);
    }
    if a == 0 {
        proof {
            assert(l@ =~= bb + cc);
            assert(tokens(l@).len() == 1);
        }
        return None;
    }
    let ghost aa = l@.take(a as int);
    proof {
        assert(is_space(l@[a - 1]));
        assert(aa.len() > 0 && is_space(aa.last()));
        lemma_tokens_split_left(aa, bb + cc, Seq::empty());
        assert(aa + (bb + cc) =~= l@);
        assert(tokens(l@) == tokens(aa) + seq![bb]);
    }
    // the first token, for the display name
    let mut f: usize = 0;
    while f < a && space_char(l.get_char(f))
        invariant
            f <= a,
            a <= n,
            n == l@.len(),
            forall|j: int| 0 <= j < f ==> is_space(#[trigger] l@[j]),
        decreases a - f,
    {
        f = f + 1;
    }
    if f == a {
        proof {
            assert(forall|j: int| 0 <= j < aa.len() ==> is_space(#[trigger] aa[j]));
            lemma_tokens_all_spaces(aa, Seq::empty());
            assert(tokens(l@) =~~= seq![bb]);
        }
        return None;
    }
    let mut e: usize = f;
    while e < a && !space_char(l.get_char(e))
        invariant
            f <= e <= a,
            a <= n,
            n == l@.len(),
            forall|j: int| f <= j < e ==> !is_space(#[trigger] l@[j]),
        decreases a - e,
    {
        e = e + 1;
    }
    proof {
        assert(!is_space(l@[f as int]));
        assert(f < e);
        assert(is_space(l@[a - 1]));
        assert(e <= a - 1);
        assert(is_space(l@[e as int]));
    }
    let ghost a1 = l@.take(f as int);
    let ghost tt = l@.subrange(f as int, e as int);
    let ghost rr = l@.subrange(e as int, a as int);
    proof {
        assert(all_spaces(a1));
        assert(no_spaces(tt) && tt.len() > 0);
        assert(rr.len() > 0 && is_space(rr[0]));
        assert(aa =~= a1 + (tt + rr));
        lemma_tokens_space_prefix(a1, tt + rr);
        lemma_tokens_nonspace(tt, rr, Seq::empty());
        assert((Seq::<char>::empty() + tt) =~= tt);
        assert(tokens_from(rr, tt) == pending(tt) + tokens_from(rr.drop_first(), Seq::empty()));
        assert(pending(tt) =~~= seq![tt]);
        assert(tokens(aa) == seq![tt] + tokens_from(rr.drop_first(), Seq::empty()));
        assert(tokens(aa)[0] == tt);
        assert(tokens(l@).len() >= 2);
        assert(tokens(l@)[0] == tt);
        assert(tokens(l@).last() == bb);
    }
    let pid_tok = l.substring_char(a, b);
    let pid_plain = strip_codes(pid_tok);
    match parse_pid(pid_plain.as_str()) {
        Some(pid) => {
            let name_tok = l.substring_char(f, e);
            let name = strip_codes(name_tok);
            Some(SelectedProc { name, pid })
        },
        None => None,
    }
}

/// What resolving a batch of selected lines yields: resolvable lines in
/// order, malformed ones dropped individually.
pub open spec fn resolve_spec(ls: Seq<Seq<char>>) -> Seq<(Seq<char>, u64)>
    decreases ls.len(),
{
    if ls.len() == 0 {
        Seq::empty()
    } else {
        let rest = resolve_spec(ls.drop_last());
        match resolve_line_spec(ls.last()) {
            Some(p) => rest.push(p),
            None => rest,
        }
    }
}

/// The pids of a resolved selection, in selection order.
pub open spec fn sel_pids(rs: Seq<(Seq<char>, u64)>) -> Seq<u64> {
    rs.map_values(|p: (Seq<char>, u64)| p.1)
}

/// Resolve every selected line; an empty input yields an empty selection.
pub fn resolve_selection(lines: &Vec<String>) -> (r: Vec<SelectedProc>)
    ensures
        sel_views(r@) == resolve_spec(views_of(lines@)),
{
    let ghost vs = views_of(lines@);
    let mut out: Vec<SelectedProc> = Vec::new();
    let mut i: usize = 0;
    proof {
        assert(sel_views(out@) =~= Seq::<(Seq<char>, u64)>::empty());
        assert(vs.take(0) =~= Seq::<Seq<char>>::empty());
    }
    while i < lines.len()
        invariant
            i <= lines@.len(),
            vs == views_of(lines@),
            vs.len() == lines@.len(),
            sel_views(out@) == resolve_spec(vs.take(i as int)),
        decreases lines@.len() - i,
    {
        proof {
            assert(vs.take(i as int + 1).drop_last() =~= vs.take(i as int));
            assert(vs.take(i as int + 1).last() == vs[i as int]);
            assert(vs[i as int] == lines@[i as int]@);
        }
        let ghost prev = out@;
        match resolve_line(lines[i].as_str()) {
            Some(p) => {
                let ghost pv = sel_view(p);
                out.push(p);
                proof {
                    assert(sel_views(out@) =~= sel_views(prev).push(pv));
                }
            },
            None => {},
        }
        i = i + 1;
    }
    proof {
        assert(vs.take(vs.len() as int) =~= vs);
    }
    out
}

/// The pids of the resolved selection, in selection order.
pub fn selection_pids(sel: &Vec<SelectedProc>) -> (r: Vec<u64>)
    ensures
        r@ == sel_pids(sel_views(sel@)),
{
    let mut out: Vec<u64> = Vec::new();
    let mut i: usize = 0;
    proof {
        assert(out@ =~= sel_pids(sel_views(sel@)).take(0));
    }
    while i < sel.len()
        invariant
            i <= sel@.len(),
            out@ == sel_pids(sel_views(sel@)).take(i as int),
        decreases sel@.len() - i,
    {
        let p = sel[i].pid;
        out.push(p);
        proof {
            assert(out@ =~= sel_pids(sel_views(sel@)).take(i as int + 1));
        }
        i = i + 1;
    }
    proof {
        assert(sel_pids(sel_views(sel@)).take(sel@.len() as int) =~= sel_pids(sel_views(sel@)));
    }
    out
}

} // verus!
