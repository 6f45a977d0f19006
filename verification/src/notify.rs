//! The outcome notifier's content: one summary of the selected processes,
//! produced only when something was selected.

use vstd::prelude::*;
use crate::resolve::{sel_views, SelectedProc};

verus! {

/// Everything one notification dispatch needs.
pub struct NotificationPlan {
    pub appname: String,
    pub summary: String,
    pub body: String,
    pub icon: String,
    pub timeout_ms: u32,
}

/// The selected names joined by a comma and a space, no trailing separator.
pub open spec fn joined_names(names: Seq<Seq<char>>) -> Seq<char>
    decreases names.len(),
{
    if names.len() == 0 {
        Seq::empty()
    } else if names.len() == 1 {
        names[0]
    } else {
        joined_names(names.drop_last()) + ", "@ + names.last()
    }
}

/// The names of a resolved selection, in selection order.
pub open spec fn sel_names(rs: Seq<(Seq<char>, u64)>) -> Seq<Seq<char>> {
    rs.map_values(|p: (Seq<char>, u64)| p.0)
}

/// Join the selected names for the notification body.
fn join_names(sel: &Vec<SelectedProc>) -> (r: String)
    ensures
        r@ == joined_names(sel_names(sel_views(sel@))),
{
    let ghost names = sel_names(sel_views(sel@));
    let mut r = String::new();
    let mut i: usize = 0;
    proof {
        assert(names.take(0) =~= Seq::<Seq<char>>::empty());
    }
    while i < sel.len()
        invariant
            i <= sel@.len(),
            names == sel_names(sel_views(sel@)),
            names.len() == sel@.len(),
            r@ == joined_names(names.take(i as int)),
        decreases sel@.len() - i,
    {
        proof {
            assert(names.take(i as int + 1).drop_last() =~= names.take(i as int));
            assert(names.take(i as int + 1).last() == names[i as int]);
            assert(names[i as int] == sel@[i as int].name@);
        }
        if i > 0 {
            r.append(", ");
        }
        r.append(sel[i].name.as_str());
        proof {
            if i == 0 {
                assert(Seq::<char>::empty() + names[0] =~= names[0]);
                assert(names.take(1) =~= seq![names[0]]);
                assert(joined_names(names.take(1)) == names.take(1)[0]);
            }
        }
        i = i + 1;
    }
    proof {
        assert(names.take(names.len() as int) =~= names);
    }
    r
}

/// The notification for a run: `None` exactly when nothing was selected —
/// an aborted or empty selection never notifies. The summary reflects the
/// attempted selections, whatever each attempt's outcome.
pub fn notification_plan(sel: &Vec<SelectedProc>) -> (r: Option<NotificationPlan>)
    ensures
        r is Some <==> sel@.len() > 0,
        r matches Some(p) ==> {
            &&& p.appname@ == "ikill"@
            &&& p.summary@ == "Killed processes"@
            &&& p.body@ == joined_names(sel_names(sel_views(sel@)))
            &&& p.icon@ == "lock"@
            &&& p.timeout_ms == 3000
        },
{
    if sel.len() == 0 {
        return None;
    }
    let body = join_names(sel);
    Some(
        NotificationPlan {
            appname: "ikill".to_owned(),
            summary: "Killed processes".to_owned(),
            body,
            icon: "lock".to_owned(),
            timeout_ms: 3000,
        },
    )
}

} // verus!
