//! The core that runs guests: what it works on, and what it does when.

use vstd::prelude::*;

use crate::delay::{DelayCtx, DelayView};
use crate::strip_table::{ActiveStrip, StripTable};
use crate::ws2812::{Ws2812Ctx, Ws2812View};

verus! {

/// All that the host keeps for a guest.
pub struct HostState<D> {
    pub ws2812_ctx: Ws2812Ctx<D>,
    pub delay_ctx: DelayCtx,
}

impl<D> HostState<D> {
    /// The state for a new guest, and the handle to the strip that the guest is given.
    pub fn new(driver: D) -> (r: (HostState<D>, u32))
        ensures
            r.0.ws2812_ctx.driver == driver,
            r.0.ws2812_ctx.table@ == set![r.1],
            r.0.ws2812_ctx.table.limit() == 1_000_000,
    {
        let mut table: StripTable = StripTable::new();
        let ghost before = table;
        let pushed = table.push(ActiveStrip);
        assert(before@.len() == 0);
        let rep: u32 = match pushed {
            Ok(rep) => rep,
            Err(_) => {
                assert(false);
                0
            },
        };
        assert(table@ =~= set![rep]);
        (HostState { ws2812_ctx: Ws2812Ctx { table, driver }, delay_ctx: DelayCtx }, rep)
    }
}

impl<D> Ws2812View<D> for HostState<D> {
    fn ws2812_ctx(&mut self) -> (r: &mut Ws2812Ctx<D>)
        ensures
            *r == old(self).ws2812_ctx,
            final(self).ws2812_ctx == *final(r),
            final(self).delay_ctx == old(self).delay_ctx,
    {
        &mut self.ws2812_ctx
    }
}

impl<D> DelayView for HostState<D> {
    fn delay_ctx(&mut self) -> (r: &mut DelayCtx)
        ensures
            *r == old(self).delay_ctx,
            final(self).delay_ctx == *final(r),
            final(self).ws2812_ctx == old(self).ws2812_ctx,
    {
        &mut self.delay_ctx
    }
}

/// How far the core has come.
#[derive(Clone, Copy, Debug, PartialEq, Eq, Structural)]
pub enum WorkerState {
    /// No image is there yet.
    Waiting,
    /// An image is there and is being read.
    Loading,
    /// The guest runs.
    Running,
    /// There is nothing more to do.
    Halted,
}

/// What the core learns.
#[derive(Clone, Copy, Debug, PartialEq, Eq, Structural)]
pub enum WorkerEvent {
    /// The other core announces an image of this length; 0 while there is none.
    Announced { len: usize },
    /// The image was read, and is or is not a component.
    Read { valid: bool },
    /// The guest came to its end.
    Finished,
}

/// What the core does next.
#[derive(Clone, Copy, Debug, PartialEq, Eq, Structural)]
pub enum WorkerAction {
    /// Sleep until the other core has something to say.
    Sleep,
    /// Read the image of this length.
    Load { len: usize },
    /// Run the guest.
    Run,
    /// Rest for good.
    Halt,
}

/// What the core does in a state when it learns of an event, and the state after that. It
/// takes no notice of an event that does not belong to its state.
pub open spec fn worker_spec(state: WorkerState, event: WorkerEvent) -> (WorkerState, WorkerAction) {
    match (state, event) {
        (WorkerState::Waiting, WorkerEvent::Announced { len }) => if len == 0 {
            (WorkerState::Waiting, WorkerAction::Sleep)
        } else {
            (WorkerState::Loading, WorkerAction::Load { len })
        },
        (WorkerState::Loading, WorkerEvent::Read { valid }) => if valid {
            (WorkerState::Running, WorkerAction::Run)
        } else {
            (WorkerState::Halted, WorkerAction::Halt)
        },
        (WorkerState::Running, WorkerEvent::Finished) => (WorkerState::Halted, WorkerAction::Halt),
        (WorkerState::Halted, _) => (WorkerState::Halted, WorkerAction::Halt),
        _ => (state, WorkerAction::Sleep),
    }
}

/// Decides what the core does next.
pub fn worker_step(state: WorkerState, event: WorkerEvent) -> (r: (WorkerState, WorkerAction))
    ensures
        r == worker_spec(state, event),
{
    match (state, event) {
        (WorkerState::Waiting, WorkerEvent::Announced { len }) => if len == 0 {
            (WorkerState::Waiting, WorkerAction::Sleep)
        } else {
            (WorkerState::Loading, WorkerAction::Load { len })
        },
        (WorkerState::Loading, WorkerEvent::Read { valid }) => if valid {
            (WorkerState::Running, WorkerAction::Run)
        } else {
            (WorkerState::Halted, WorkerAction::Halt)
        },
        (WorkerState::Running, WorkerEvent::Finished) => (WorkerState::Halted, WorkerAction::Halt),
        (WorkerState::Halted, _) => (WorkerState::Halted, WorkerAction::Halt),
        _ => (state, WorkerAction::Sleep),
    }
}

/// The state of the core after these events, from the start.
pub open spec fn worker_after(events: Seq<WorkerEvent>) -> WorkerState
    decreases events.len(),
{
    if events.len() == 0 {
        WorkerState::Waiting
    } else {
        worker_spec(worker_after(events.drop_last()), events.last()).0
    }
}

/// How often the core was told to run a guest in the course of these events.
pub open spec fn runs(events: Seq<WorkerEvent>) -> int
    decreases events.len(),
{
    if events.len() == 0 {
        0
    } else {
        runs(events.drop_last()) + (if worker_spec(
            worker_after(events.drop_last()),
            events.last(),
        ).1 == WorkerAction::Run {
            1int
        } else {
            0int
        })
    }
}

/// The event announces an image that is not empty.
pub open spec fn announces_image(event: WorkerEvent) -> bool {
    event matches WorkerEvent::Announced { len } && len != 0
}

/// The event tells that the image is a component.
pub open spec fn tells_valid(event: WorkerEvent) -> bool {
    event == (WorkerEvent::Read { valid: true })
}

/// Whatever happens, the core runs at most one guest, and only after an image that is not
/// empty was announced and was then found valid.
pub proof fn worker_runs_at_most_once(events: Seq<WorkerEvent>)
    ensures
        0 <= runs(events) <= 1,
        runs(events) == 1 ==> exists|i: int, j: int|
            0 <= i < j < events.len() && #[trigger] announces_image(events[i])
                && #[trigger] tells_valid(events[j]),
        worker_after(events) == WorkerState::Waiting ==> runs(events) == 0,
        worker_after(events) == WorkerState::Loading ==> runs(events) == 0 && exists|i: int|
            0 <= i < events.len() && #[trigger] announces_image(events[i]),
        worker_after(events) == WorkerState::Running ==> runs(events) == 1,
    decreases events.len(),
{
    if events.len() > 0 {
        let before = events.drop_last();
        worker_runs_at_most_once(before);
        let n = events.len() - 1;
        assert forall|i: int| 0 <= i < n implies before[i] == events[i] by {}
        if runs(before) == 1 {
            let (i, j) = choose|i: int, j: int|
                0 <= i < j < before.len() && #[trigger] announces_image(before[i])
                    && #[trigger] tells_valid(before[j]);
            assert(announces_image(events[i]) && tells_valid(events[j]));
        } else if worker_after(before) == WorkerState::Loading {
            let i = choose|i: int| 0 <= i < before.len() && #[trigger] announces_image(before[i]);
            assert(announces_image(events[i]));
            assert(runs(events) == 1 ==> tells_valid(events[n]));
        } else if worker_after(events) == WorkerState::Loading {
            assert(announces_image(events[n]));
        }
    }
}

/// While no image is announced, or only an empty one, the core waits.
pub proof fn worker_waits_for_image(events: Seq<WorkerEvent>)
    requires
        forall|i: int| 0 <= i < events.len() ==> !#[trigger] announces_image(events[i]),
    ensures
        worker_after(events) == WorkerState::Waiting,
        runs(events) == 0,
    decreases events.len(),
{
    if events.len() > 0 {
        let before = events.drop_last();
        assert forall|i: int| 0 <= i < before.len() implies !#[trigger] announces_image(
            before[i],
        ) by {
            assert(!announces_image(events[i]));
        }
        worker_waits_for_image(before);
        assert(!announces_image(events[events.len() - 1]));
    }
}

/// Once the core rests, it rests for good.
pub proof fn worker_rests_for_good(event: WorkerEvent)
    ensures
        worker_spec(WorkerState::Halted, event) == (WorkerState::Halted, WorkerAction::Halt),
{
}

/// What leads to each action, and to each state: the core reads an image when it waits and one
/// of some length is announced, runs the guest when the image that it reads is a component,
/// rests when it is none or when the guest has ended, and sleeps and stays as it is otherwise.
pub proof fn each_action_has_its_cause(state: WorkerState, event: WorkerEvent)
    ensures
        ({
            let (next, action) = worker_spec(state, event);
            let announces = event matches WorkerEvent::Announced { len } && len > 0;
            let loads = state is Waiting && announces;
            let starts = state is Loading && event == (WorkerEvent::Read { valid: true });
            let fails = state is Loading && event == (WorkerEvent::Read { valid: false });
            let ends = state is Running && event is Finished;
            &&& loads ==> next is Loading && action is Load && action->len == event->len
            &&& starts ==> next is Running && action is Run
            &&& fails || ends || state is Halted ==> next is Halted && action is Halt
            &&& !(loads || starts || fails || ends || state is Halted) ==> next == state && action is Sleep
        }),
{
}

} // verus!
