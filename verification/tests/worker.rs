use pulley_leds::worker::{worker_step, WorkerAction, WorkerEvent, WorkerState};

#[test]
fn guest_runs_once_an_image_is_there() {
    let state = WorkerState::Waiting;
    let (state, action) = worker_step(state, WorkerEvent::Announced { len: 0 });
    assert_eq!((state, action), (WorkerState::Waiting, WorkerAction::Sleep));
    let (state, action) = worker_step(state, WorkerEvent::Announced { len: 9 });
    assert_eq!((state, action), (WorkerState::Loading, WorkerAction::Load { len: 9 }));
    let (state, action) = worker_step(state, WorkerEvent::Read { valid: true });
    assert_eq!((state, action), (WorkerState::Running, WorkerAction::Run));
    let (state, action) = worker_step(state, WorkerEvent::Finished);
    assert_eq!((state, action), (WorkerState::Halted, WorkerAction::Halt));
    let (state, action) = worker_step(state, WorkerEvent::Announced { len: 9 });
    assert_eq!((state, action), (WorkerState::Halted, WorkerAction::Halt));
}

#[test]
fn image_that_is_no_component_halts_the_core() {
    assert_eq!(
        worker_step(WorkerState::Loading, WorkerEvent::Read { valid: false }),
        (WorkerState::Halted, WorkerAction::Halt)
    );
}

#[test]
fn event_out_of_place_changes_nothing() {
    assert_eq!(
        worker_step(WorkerState::Waiting, WorkerEvent::Finished),
        (WorkerState::Waiting, WorkerAction::Sleep)
    );
    assert_eq!(
        worker_step(WorkerState::Running, WorkerEvent::Announced { len: 3 }),
        (WorkerState::Running, WorkerAction::Sleep)
    );
}
