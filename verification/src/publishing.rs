//! Putting a complete set of pages in place of an older one, so that no good copy is
//! ever lost: the old one is set aside, the new one moved in, and where that fails the
//! old one is moved back.

use vstd::prelude::*;

verus! {

/// What is done next. Each is one act on the file system, and its outcome decides what
/// follows.
#[derive(Clone, Copy, Debug, PartialEq, Eq, Structural)]
pub enum PublishStep {
    /// Remove what an earlier round left aside.
    ClearAside,
    /// Move the pages in place aside.
    SetAside,
    /// Move the new pages in.
    MoveIn { set_aside: bool },
    /// Move the pages set aside back.
    MoveBack,
    /// Remove the pages set aside.
    DropAside,
    /// The new pages are in place.
    Done,
    /// They are not.
    Failed,
}

/// What follows a step, by whether it went well.
pub open spec fn step_after(step: PublishStep, ok: bool) -> PublishStep {
    match step {
        PublishStep::ClearAside => PublishStep::SetAside,
        PublishStep::SetAside => PublishStep::MoveIn { set_aside: ok },
        PublishStep::MoveIn { set_aside } => if ok {
            PublishStep::DropAside
        } else if set_aside {
            PublishStep::MoveBack
        } else {
            PublishStep::Failed
        },
        PublishStep::MoveBack => PublishStep::Failed,
        PublishStep::DropAside => PublishStep::Done,
        PublishStep::Done => PublishStep::Done,
        PublishStep::Failed => PublishStep::Failed,
    }
}

impl PublishStep {
    /// Where publishing starts.
    pub fn first() -> (r: PublishStep)
        ensures
            r == PublishStep::ClearAside,
    {
        PublishStep::ClearAside
    }

    /// Decides what follows, by whether the step went well.
    pub fn next(self, ok: bool) -> (r: PublishStep)
        ensures
            r == step_after(self, ok),
    {
        match self {
            PublishStep::ClearAside => PublishStep::SetAside,
            PublishStep::SetAside => PublishStep::MoveIn { set_aside: ok },
            PublishStep::MoveIn { set_aside } => {
                if ok {
                    PublishStep::DropAside
                } else if set_aside {
                    PublishStep::MoveBack
                } else {
                    PublishStep::Failed
                }
            },
            PublishStep::MoveBack => PublishStep::Failed,
            PublishStep::DropAside => PublishStep::Done,
            PublishStep::Done => PublishStep::Done,
            PublishStep::Failed => PublishStep::Failed,
        }
    }
}

/// What lies in the three places: in place, aside, and waiting to move in. A copy is
/// known by a number; a place may also hold remains of a copy, which are none.
pub struct Places {
    pub target: Option<int>,
    pub aside: Option<int>,
    pub waiting: Option<int>,
}

/// What may lie in the places after a step. A move that went well had something to move,
/// and moved it; one that did not left all as it was. A removal that did not go well may
/// have removed a part.
pub open spec fn may_leave(before: Places, step: PublishStep, ok: bool, after: Places) -> bool {
    match step {
        PublishStep::ClearAside => after.target == before.target && after.waiting == before.waiting,
        PublishStep::DropAside => after.target == before.target && after.waiting == before.waiting,
        PublishStep::SetAside => if ok {
            before.target is Some && after == (Places { target: None, aside: before.target, ..before })
        } else {
            after == before
        },
        PublishStep::MoveIn { .. } => if ok {
            before.waiting is Some && after == (Places {
                target: before.waiting,
                waiting: None,
                ..before
            })
        } else {
            after == before
        },
        PublishStep::MoveBack => if ok {
            before.aside is Some && after == (Places { target: before.aside, aside: None, ..before })
        } else {
            after == before
        },
        PublishStep::Done => after == before,
        PublishStep::Failed => after == before,
    }
}

/// The steps that were taken, what each left, and how each went.
pub open spec fn is_run(steps: Seq<PublishStep>, oks: Seq<bool>, places: Seq<Places>) -> bool {
    &&& steps.len() == oks.len() + 1
    &&& places.len() == steps.len()
    &&& steps[0] == PublishStep::ClearAside
    &&& forall|i: int|
        0 <= i < oks.len() ==> #[trigger] steps[i + 1] == step_after(steps[i], oks[i]) && may_leave(
            places[i],
            steps[i],
            oks[i],
            places[i + 1],
        )
}

/// How things stand before a step, for an old copy and a new one.
pub open spec fn stands(p: Places, step: PublishStep, old_copy: int, new_copy: int) -> bool {
    match step {
        PublishStep::ClearAside => p.target == Some(old_copy) && p.waiting == Some(new_copy),
        PublishStep::SetAside => p.target == Some(old_copy) && p.waiting == Some(new_copy),
        PublishStep::MoveIn { set_aside } => {
            &&& p.waiting == Some(new_copy)
            &&& if set_aside {
                p.target is None && p.aside == Some(old_copy)
            } else {
                p.target == Some(old_copy)
            }
        },
        PublishStep::MoveBack => p.target is None && p.aside == Some(old_copy),
        PublishStep::DropAside => p.target == Some(new_copy),
        PublishStep::Done => p.target == Some(new_copy),
        PublishStep::Failed => p.target == Some(old_copy) || (p.target is None && p.aside == Some(old_copy)),
    }
}

/// However the steps go, and wherever they are broken off, a complete copy is in place or
/// aside; where publishing says it is done, the new copy is in place; and where it fails
/// the old copy is still there.
pub proof fn law_no_copy_is_lost(
    steps: Seq<PublishStep>,
    oks: Seq<bool>,
    places: Seq<Places>,
    old_copy: int,
    new_copy: int,
    n: int,
)
    requires
        is_run(steps, oks, places),
        places[0].target == Some(old_copy),
        places[0].waiting == Some(new_copy),
        0 <= n < steps.len(),
    ensures
        places[n].target == Some(old_copy) || places[n].target == Some(new_copy) || (
        places[n].target is None && places[n].aside == Some(old_copy)),
        steps[n] == PublishStep::Done ==> places[n].target == Some(new_copy),
        steps[n] == PublishStep::Failed ==> places[n].target == Some(old_copy) || places[n].aside == Some(
            old_copy,
        ),
{
    lemma_stands(steps, oks, places, old_copy, new_copy, n);
}

proof fn lemma_stands(
    steps: Seq<PublishStep>,
    oks: Seq<bool>,
    places: Seq<Places>,
    old_copy: int,
    new_copy: int,
    n: int,
)
    requires
        is_run(steps, oks, places),
        places[0].target == Some(old_copy),
        places[0].waiting == Some(new_copy),
        0 <= n < steps.len(),
    ensures
        stands(places[n], steps[n], old_copy, new_copy),
    decreases n,
{
    if n > 0 {
        lemma_stands(steps, oks, places, old_copy, new_copy, n - 1);
        assert(steps[n - 1 + 1] == step_after(steps[n - 1], oks[n - 1]));
    }
}

/// Publishing ends: after five steps it is done or has failed. Where it has failed and the old
/// pages could be moved back, or never left, they are in place; and where all went well, it is
/// done with the new pages in place.
pub proof fn law_publishing_ends_with_pages_in_place(
    steps: Seq<PublishStep>,
    oks: Seq<bool>,
    places: Seq<Places>,
    old_copy: int,
    new_copy: int,
)
    requires
        is_run(steps, oks, places),
        places[0].target == Some(old_copy),
        places[0].waiting == Some(new_copy),
        oks.len() == 5,
    ensures
        steps[5] == PublishStep::Done || steps[5] == PublishStep::Failed,
        steps[5] == PublishStep::Done ==> places[5].target == Some(new_copy),
        steps[5] == PublishStep::Done <==> oks[2],
        steps[5] == PublishStep::Failed && (oks[3] || !oks[1]) ==> places[5].target == Some(old_copy),
        (forall|i: int| 0 <= i < 5 ==> oks[i]) ==> steps[5] == PublishStep::Done,
{
    assert(steps[0int + 1] == step_after(steps[0], oks[0]));
    assert(steps[1int + 1] == step_after(steps[1], oks[1]));
    assert(steps[2int + 1] == step_after(steps[2], oks[2]));
    assert(steps[3int + 1] == step_after(steps[3], oks[3]));
    assert(steps[4int + 1] == step_after(steps[4], oks[4]));
    lemma_stands(steps, oks, places, old_copy, new_copy, 5);
    lemma_stands(steps, oks, places, old_copy, new_copy, 4);
    lemma_stands(steps, oks, places, old_copy, new_copy, 3);
}

/// What is done when the server or the app starts again: pages aside without any in
/// place are moved back, and pages aside beside others removed.
#[derive(Clone, Copy, Debug, PartialEq, Eq, Structural)]
pub enum Recovery {
    MoveBack,
    DropAside,
    Nothing,
}

/// What has to be done about pages aside.
pub open spec fn recovery(target_there: bool, aside_there: bool) -> Recovery {
    if !aside_there {
        Recovery::Nothing
    } else if target_there {
        Recovery::DropAside
    } else {
        Recovery::MoveBack
    }
}

/// Decides what has to be done about pages aside.
pub fn recover(target_there: bool, aside_there: bool) -> (r: Recovery)
    ensures
        r == recovery(target_there, aside_there),
{
    if !aside_there {
        Recovery::Nothing
    } else if target_there {
        Recovery::DropAside
    } else {
        Recovery::MoveBack
    }
}

/// What lies in place after recovery went well.
pub open spec fn recovered_target(p: Places) -> Option<int> {
    match recovery(p.target is Some, p.aside is Some) {
        Recovery::MoveBack => p.aside,
        _ => p.target,
    }
}

/// Publishing that was broken off at any point is recovered from: there is a complete
/// copy in place, the old one or the new one. To recover again changes nothing.
pub proof fn law_interrupted_publishing_is_recovered(
    steps: Seq<PublishStep>,
    oks: Seq<bool>,
    places: Seq<Places>,
    old_copy: int,
    new_copy: int,
    n: int,
)
    requires
        is_run(steps, oks, places),
        places[0].target == Some(old_copy),
        places[0].waiting == Some(new_copy),
        0 <= n < steps.len(),
    ensures
        recovered_target(places[n]) == Some(old_copy) || recovered_target(places[n]) == Some(new_copy),
        recovery(true, false) == Recovery::Nothing,
{
    lemma_stands(steps, oks, places, old_copy, new_copy, n);
}

/// Pages aside come back where none are in place; pages in place stay, and nothing is done
/// where none are aside.
pub proof fn law_recovery_keeps_what_is_in_place(p: Places)
    ensures
        p.target is Some ==> recovered_target(p) == p.target,
        p.target is None ==> recovered_target(p) == p.aside,
        recovery(p.target is Some, p.aside is Some) == Recovery::Nothing <==> p.aside is None,
        recovery(p.target is Some, p.aside is Some) == Recovery::DropAside <==> p.aside is Some
            && p.target is Some,
{
}

}
