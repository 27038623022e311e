use vstd::prelude::*;
use crate::event::Opcode;
use crate::guid::Guid;

verus! {

/// An event to be written, as the activity bookkeeping sees it.
#[derive(Clone, Copy, Debug)]
pub enum Write {
    /// A plain event, outside any activity.
    Plain,
    /// The start of a new activity, whose freshly created id is carried.
    Start(Guid),
    /// The stop of the innermost open activity.
    Stop,
    /// A plain event tagged with the innermost open activity.
    Tagged,
}

/// What to write for an event: its opcode and the activity id it carries.
#[derive(Clone, Copy, Debug)]
pub struct Step {
    pub opcode: Opcode,
    pub activity: Option<Guid>,
}

/// The ids of the activities that have been started and not yet stopped,
/// innermost last.
pub struct ActivityStack {
    ids: Vec<Guid>,
}

impl View for ActivityStack {
    type V = Seq<Guid>;

    closed spec fn view(&self) -> Seq<Guid> {
        self.ids@
    }
}

/// Whether `w` can be written while `open` are the open activities: a stop
/// or a tagged event needs an open activity.
pub open spec fn can_step(open: Seq<Guid>, w: Write) -> bool {
    (w is Stop || w is Tagged) ==> open.len() > 0
}

/// The open activities after `w`, and what to write for it.
pub open spec fn spec_step(open: Seq<Guid>, w: Write) -> (Seq<Guid>, Step)
    recommends
        can_step(open, w),
{
    match w {
        Write::Plain => (open, Step { opcode: Opcode::Info, activity: None }),
        Write::Start(id) => (open.push(id), Step { opcode: Opcode::Start, activity: Some(id) }),
        Write::Stop => (open.drop_last(), Step { opcode: Opcode::Stop, activity: Some(open.last()) }),
        Write::Tagged => (open, Step { opcode: Opcode::Info, activity: Some(open.last()) }),
    }
}

impl ActivityStack {
    /// No activity open.
    pub fn new() -> (s: ActivityStack)
        ensures
            s@ == Seq::<Guid>::empty(),
    {
        ActivityStack { ids: Vec::new() }
    }

    /// Whether some activity is open, so that a stop or a tagged event can
    /// be written.
    pub fn has_open_activity(&self) -> (b: bool)
        ensures
            b == (self@.len() > 0),
    {
        self.ids.len() > 0
    }

    /// Records `w` and says what to write for it: a start opens its
    /// activity and carries its id; a stop closes the innermost activity and
    /// carries its id; a tagged event carries the innermost id; a plain
    /// event carries none.
    pub fn step(&mut self, w: Write) -> (r: Step)
        requires
            can_step(old(self)@, w),
        ensures
            (final(self)@, r) == spec_step(old(self)@, w),
    {
        match w {
            Write::Plain => Step { opcode: Opcode::Info, activity: None },
            Write::Start(id) => {
                self.ids.push(id);
                Step { opcode: Opcode::Start, activity: Some(id) }
            },
            Write::Stop => {
                let id = self.ids.pop().unwrap();
                Step { opcode: Opcode::Stop, activity: Some(id) }
            },
            Write::Tagged => {
                let n = self.ids.len();
                Step { opcode: Opcode::Info, activity: Some(self.ids[n - 1]) }
            },
        }
    }
}

/// Stopping right after a start closes the activity just started: the stop
/// carries its id and the open activities are as before the start.
pub proof fn lemma_stop_undoes_start(open: Seq<Guid>, id: Guid)
    ensures
        can_step(spec_step(open, Write::Start(id)).0, Write::Stop),
        spec_step(spec_step(open, Write::Start(id)).0, Write::Stop) == (
            open,
            Step { opcode: Opcode::Stop, activity: Some(id) },
        ),
{
    assert(open.push(id).drop_last() =~= open);
}

/// A tagged event carries the id of the innermost open activity and leaves
/// the open activities as they are.
pub proof fn lemma_tagged_names_innermost(open: Seq<Guid>, id: Guid)
    ensures
        can_step(open.push(id), Write::Tagged),
        spec_step(open.push(id), Write::Tagged) == (
            open.push(id),
            Step { opcode: Opcode::Info, activity: Some(id) },
        ),
{
}

/// Plain and tagged events leave the open activities as they are, and a
/// stop closes exactly the innermost one.
pub proof fn lemma_step_frame(open: Seq<Guid>, w: Write)
    requires
        can_step(open, w),
    ensures
        w is Plain || w is Tagged ==> spec_step(open, w).0 == open,
        w is Stop ==> spec_step(open, w).0 == open.take(open.len() - 1),
{
}

/// Starting activities in turn and then stopping as many times closes them
/// in reverse order and leaves the open activities as they were.
pub proof fn lemma_nested_activities_close_in_reverse(open: Seq<Guid>, ids: Seq<Guid>)
    ensures
        run_stops(run_starts(open, ids), ids.len()) == (open, ids.reverse()),
    decreases ids.len(),
{
    if ids.len() > 0 {
        let last = ids.last();
        let rest = ids.drop_last();
        assert(ids =~= rest.push(last));
        assert(run_starts(open, ids) == run_starts(open, rest).push(last));
        let inner = run_starts(open, rest);
        assert(inner.push(last).drop_last() =~= inner);
        lemma_nested_activities_close_in_reverse(open, rest);
        assert(ids.reverse() =~= seq![last] + rest.reverse());
    }
}

/// The open activities after starting each of `ids` in turn.
pub open spec fn run_starts(open: Seq<Guid>, ids: Seq<Guid>) -> Seq<Guid>
    decreases ids.len(),
{
    if ids.len() == 0 {
        open
    } else {
        spec_step(run_starts(open, ids.drop_last()), Write::Start(ids.last())).0
    }
}

/// The open activities after `n` stops, and the ids that the stops carry in
/// turn; stopping stops once no activity is open.
pub open spec fn run_stops(open: Seq<Guid>, n: nat) -> (Seq<Guid>, Seq<Guid>)
    decreases n,
{
    if n == 0 || open.len() == 0 {
        (open, seq![])
    } else {
        let (after, s) = spec_step(open, Write::Stop);
        let (rest, carried) = run_stops(after, (n - 1) as nat);
        (rest, seq![s.activity.unwrap()] + carried)
    }
}

/// A start carries the very id it starts, whatever activities are already
/// open: the same id is carried by a tagged event and by the stop that
/// follow it, and the start's id becomes the innermost open activity.
pub proof fn lemma_start_carries_its_id(open: Seq<Guid>, id: Guid)
    ensures
        spec_step(open, Write::Start(id)).1.opcode == Opcode::Start,
        spec_step(open, Write::Start(id)).1.activity == Some(id),
        spec_step(open, Write::Start(id)).0.len() == open.len() + 1,
        spec_step(open, Write::Start(id)).0.last() == id,
        spec_step(open, Write::Start(id)).0.take(open.len() as int) == open,
        spec_step(spec_step(open, Write::Start(id)).0, Write::Tagged).1.activity == spec_step(
            open,
            Write::Start(id),
        ).1.activity,
        spec_step(spec_step(open, Write::Start(id)).0, Write::Stop).1.activity == spec_step(
            open,
            Write::Start(id),
        ).1.activity,
{
    assert(open.push(id).take(open.len() as int) =~= open);
}

} // verus!
