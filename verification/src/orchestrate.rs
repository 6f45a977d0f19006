//! The termination orchestrator's decisions: which processes to attempt,
//! in what order, and how to report a per-process failure.

use vstd::prelude::*;
use crate::snapshot::{ProcessRecord, ProcessSnapshot};
use crate::text::{digits_of, push_u64};

verus! {

/// Per-process result of one termination attempt.
pub enum TerminationOutcome {
    Succeeded(u64),
    Failed(u64, String),
}

/// The pids termination is attempted on: exactly the snapshot records whose
/// pid is selected, in snapshot order.
pub open spec fn targets_spec(recs: Seq<ProcessRecord>, sel: Seq<u64>) -> Seq<u64>
    decreases recs.len(),
{
    if recs.len() == 0 {
        Seq::empty()
    } else {
        let rest = targets_spec(recs.drop_last(), sel);
        if sel.contains(recs.last().pid) {
            rest.push(recs.last().pid)
        } else {
            rest
        }
    }
}

/// Termination is attempted on a pid exactly when some snapshot record
/// carries it and it is selected — and on no other, whatever any single
/// attempt's outcome.
pub proof fn lemma_targets_exactly_selected(recs: Seq<ProcessRecord>, sel: Seq<u64>, p: u64)
    ensures
        targets_spec(recs, sel).contains(p) <==> (sel.contains(p) && exists|i: int|
            0 <= i < recs.len() && (#[trigger] recs[i]).pid == p),
    decreases recs.len(),
{
    if recs.len() == 0 {
    } else {
        lemma_targets_exactly_selected(recs.drop_last(), sel, p);
        let rest = targets_spec(recs.drop_last(), sel);
        if sel.contains(recs.last().pid) {
            assert(forall|q: u64| rest.push(recs.last().pid).contains(q) <==> (rest.contains(q)
                || q == recs.last().pid)) by {
                assert(forall|q: u64|
                    #![auto]
                    rest.push(recs.last().pid).contains(q) ==> (rest.contains(q) || q
                        == recs.last().pid)) by {
                    assert forall|q: u64|
                        #![auto]
                        rest.push(recs.last().pid).contains(q) implies (rest.contains(q) || q
                        == recs.last().pid) by {
                        let k = choose|k: int|
                            0 <= k < rest.push(recs.last().pid).len() && rest.push(
                                recs.last().pid,
                            )[k] == q;
                        if k < rest.len() {
                            assert(rest[k] == q);
                        }
                    }
                }
                assert(forall|q: u64|
                    #![auto]
                    (rest.contains(q) || q == recs.last().pid) ==> rest.push(
                        recs.last().pid,
                    ).contains(q)) by {
                    assert forall|q: u64|
                        #![auto]
                        (rest.contains(q) || q == recs.last().pid) implies rest.push(
                        recs.last().pid,
                    ).contains(q) by {
                        if rest.contains(q) {
                            let k = choose|k: int| 0 <= k < rest.len() && rest[k] == q;
                            assert(rest.push(recs.last().pid)[k] == q);
                        } else {
                            assert(rest.push(recs.last().pid)[rest.len() as int] == q);
                        }
                    }
                }
            }
        }
        if targets_spec(recs, sel).contains(p) {
            if !(exists|i: int| 0 <= i < recs.drop_last().len() && (#[trigger] recs.drop_last()[i]).pid == p)
                && p == recs.last().pid {
                assert(recs[recs.len() - 1].pid == p);
            }
        }
        if sel.contains(p) && exists|i: int| 0 <= i < recs.len() && (#[trigger] recs[i]).pid == p {
            let i = choose|i: int| 0 <= i < recs.len() && (#[trigger] recs[i]).pid == p;
            if i < recs.len() - 1 {
                assert(recs.drop_last()[i].pid == p);
            }
        }
    }
}

/// Whether `p` is among the selected pids.
fn pid_selected(sel: &Vec<u64>, p: u64) -> (r: bool)
    ensures
        r == sel@.contains(p),
{
    let mut i: usize = 0;
    while i < sel.len()
        invariant
            i <= sel@.len(),
            forall|j: int| 0 <= j < i ==> sel@[j] != p,
        decreases sel@.len() - i,
    {
        if sel[i] == p {
            return true;
        }
        i = i + 1;
    }
    false
}

/// The termination plan: every snapshot record whose pid is selected, in
/// snapshot order; selected pids absent from the snapshot are not acted on.
pub fn termination_targets(snap: &ProcessSnapshot, sel: &Vec<u64>) -> (r: Vec<u64>)
    ensures
        r@ == targets_spec(snap.records@, sel@),
{
    let recs = &snap.records;
    let mut out: Vec<u64> = Vec::new();
    let mut i: usize = 0;
    proof {
        assert(recs@.take(0) =~= Seq::<ProcessRecord>::empty());
    }
    while i < recs.len()
        invariant
            i <= recs@.len(),
            out@ == targets_spec(recs@.take(i as int), sel@),
        decreases recs@.len() - i,
    {
        proof {
            assert(recs@.take(i as int + 1).drop_last() =~= recs@.take(i as int));
            assert(recs@.take(i as int + 1).last() == recs@[i as int]);
        }
        let p = recs[i].pid;
        if pid_selected(sel, p) {
            out.push(p);
        }
        i = i + 1;
    }
    proof {
        assert(recs@.take(recs@.len() as int) =~= recs@);
    }
    out
}

/// The error-stream report for one attempt: nothing for a success, and for
/// a failure the offending pid followed by the failure's description —
/// reported per process, never batched.
pub fn outcome_report(outcome: &TerminationOutcome) -> (r: Option<String>)
    ensures
        outcome is Succeeded <==> r is None,
        outcome matches TerminationOutcome::Failed(pid, msg) ==> (r matches Some(line) && line@
            == digits_of(pid as nat) + ": "@ + msg@),
{
    match outcome {
        TerminationOutcome::Succeeded(_) => None,
        TerminationOutcome::Failed(pid, message) => {
            let mut r = String::new();
            push_u64(&mut r, *pid);
            r.append(": ");
            r.append(message.as_str());
            proof {
                assert(Seq::<char>::empty() + digits_of(*pid as nat) =~= digits_of(*pid as nat));
            }
            Some(r)
        },
    }
}

} // verus!
