use night_gamma::color::Config;
use night_gamma::events::{Event, Orchestrator, QUEUE_CAPACITY, UPDATE_INTERVAL};
use night_gamma::schedule::TimeOfDay;
use night_gamma::wayland::{BindingState, GammaControl, OutputAction, OutputEvent, OutputMonitor};
use std::sync::mpsc::sync_channel;

fn at(hour: u8, minute: u8, second: u8) -> TimeOfDay {
    TimeOfDay::from_hms(hour, minute, second).unwrap()
}

fn added(name: u32, ramp_size: usize) -> Event {
    Event::AddOutput(GammaControl::new(name, None, ramp_size))
}

fn names(orchestrator: &Orchestrator) -> Vec<u32> {
    orchestrator.outputs().iter().map(|control| control.output_registry_name()).collect()
}

#[test]
fn starts_undimmed_and_empty() {
    let orchestrator = Orchestrator::new();
    assert!(!orchestrator.dimmed());
    assert!(orchestrator.outputs().is_empty());
    assert!(orchestrator.output(1).is_none());
}

#[test]
fn events_without_outputs_send_nothing() {
    let mut orchestrator = Orchestrator::new();
    assert!(orchestrator.handle(Event::Update, at(12, 0, 0)).is_empty());
    assert!(orchestrator.handle(Event::SetDimmed(true), at(12, 0, 0)).is_empty());
    assert!(orchestrator.dimmed());
    assert!(orchestrator
        .handle(Event::RemoveOutput { output_registry_name: 5 }, at(12, 0, 0))
        .is_empty());
}

#[test]
fn a_new_output_gets_its_ramps_at_once() {
    let mut orchestrator = Orchestrator::new();
    let sent = orchestrator.handle(added(7, 4), at(12, 0, 0));
    assert_eq!(sent, vec![7]);
    let control = orchestrator.output(7).unwrap();
    assert_eq!(control.last_config(), Some(Config::new(6500, 1_000_000).unwrap()));
    let (red, green, blue) = control.ramps().channels();
    assert_eq!(red, [0u16, 16_384, 32_768, 49_152].as_slice());
    assert_eq!(green, red);
    assert_eq!(blue, red);
}

#[test]
fn an_update_at_the_same_time_sends_nothing() {
    let mut orchestrator = Orchestrator::new();
    orchestrator.handle(added(7, 4), at(12, 0, 0));
    assert!(orchestrator.handle(Event::Update, at(12, 0, 0)).is_empty());
    assert!(orchestrator.handle(Event::Update, at(15, 0, 0)).is_empty());
    assert!(orchestrator.handle(Event::SetDimmed(false), at(15, 0, 0)).is_empty());
}

#[test]
fn dimming_sends_to_every_output() {
    let mut orchestrator = Orchestrator::new();
    orchestrator.handle(added(7, 4), at(12, 0, 0));
    orchestrator.handle(added(9, 8), at(12, 0, 0));
    let sent = orchestrator.handle(Event::SetDimmed(true), at(12, 0, 0));
    assert_eq!(sent, vec![7, 9]);
    assert!(orchestrator.dimmed());
    let dim = Config::new(6500, 400_000).unwrap();
    assert_eq!(orchestrator.output(7).unwrap().last_config(), Some(dim));
    assert_eq!(orchestrator.output(9).unwrap().last_config(), Some(dim));
    let sent = orchestrator.handle(Event::SetDimmed(false), at(12, 0, 0));
    assert_eq!(sent, vec![7, 9]);
    assert!(!orchestrator.dimmed());
}

#[test]
fn small_drift_is_suppressed_until_it_adds_up() {
    let mut orchestrator = Orchestrator::new();
    orchestrator.handle(added(7, 4), at(7, 45, 0));
    let night = Config::new(3500, 1_000_000).unwrap();
    assert_eq!(orchestrator.output(7).unwrap().last_config(), Some(night));
    // Six seconds into the fade the temperature has risen by ten kelvins.
    assert!(orchestrator.handle(Event::Update, at(7, 45, 6)).is_empty());
    assert_eq!(orchestrator.output(7).unwrap().last_config(), Some(night));
    // One kelvin more and the ramps are sent.
    assert_eq!(orchestrator.handle(Event::Update, at(7, 45, 7)), vec![7]);
    assert_eq!(
        orchestrator.output(7).unwrap().last_config(),
        Some(Config::new(3511, 1_000_000).unwrap())
    );
}

#[test]
fn a_minute_into_a_fade_is_enough_to_send() {
    let mut orchestrator = Orchestrator::new();
    orchestrator.handle(added(7, 4), at(7, 45, 0));
    assert_eq!(orchestrator.handle(Event::Update, at(7, 46, 0)), vec![7]);
    assert_eq!(
        orchestrator.output(7).unwrap().last_config(),
        Some(Config::new(3600, 1_000_000).unwrap())
    );
}

#[test]
fn outputs_are_suppressed_each_on_its_own() {
    let mut orchestrator = Orchestrator::new();
    // The first output is set at the start of the fade, the second somewhat later.
    assert_eq!(orchestrator.handle(added(1, 256), at(7, 45, 0)), vec![1]);
    assert_eq!(orchestrator.handle(added(2, 1024), at(7, 45, 6)), vec![2]);
    assert_eq!(
        orchestrator.output(1).unwrap().last_config(),
        Some(Config::new(3500, 1_000_000).unwrap())
    );
    assert_eq!(
        orchestrator.output(2).unwrap().last_config(),
        Some(Config::new(3510, 1_000_000).unwrap())
    );
    // 3511 K is far enough from the first output's 3500 K, not from the second's 3510 K.
    assert_eq!(orchestrator.handle(Event::Update, at(7, 45, 7)), vec![1]);
    // 3521 K is far enough from the second's 3510 K, not from the first's 3511 K.
    assert_eq!(orchestrator.handle(Event::Update, at(7, 45, 13)), vec![2]);
    // The buffers keep their own sizes throughout.
    assert_eq!(orchestrator.output(1).unwrap().ramps().ramp_size(), 256);
    assert_eq!(orchestrator.output(2).unwrap().ramps().ramp_size(), 1024);
    assert_eq!(orchestrator.output(1).unwrap().ramps().as_bytes().len(), 1536);
    assert_eq!(orchestrator.output(2).unwrap().ramps().as_bytes().len(), 6144);
}

#[test]
fn removal_alone_sends_nothing() {
    let mut orchestrator = Orchestrator::new();
    orchestrator.handle(added(1, 4), at(12, 0, 0));
    orchestrator.handle(added(2, 4), at(12, 0, 0));
    orchestrator.handle(added(3, 4), at(12, 0, 0));
    let sent = orchestrator.handle(Event::RemoveOutput { output_registry_name: 2 }, at(12, 0, 0));
    assert!(sent.is_empty());
    assert_eq!(names(&orchestrator), vec![1, 3]);
    assert!(orchestrator.output(2).is_none());
    // Removing what is not there changes nothing.
    let sent = orchestrator.handle(Event::RemoveOutput { output_registry_name: 2 }, at(12, 0, 0));
    assert!(sent.is_empty());
    assert_eq!(names(&orchestrator), vec![1, 3]);
}

#[test]
fn removal_still_recomputes_the_config() {
    let mut orchestrator = Orchestrator::new();
    orchestrator.handle(added(1, 4), at(3, 0, 0));
    orchestrator.handle(added(2, 4), at(3, 0, 0));
    // By noon the remaining output is due for new ramps.
    let sent = orchestrator.handle(Event::RemoveOutput { output_registry_name: 1 }, at(12, 0, 0));
    assert_eq!(sent, vec![2]);
    assert_eq!(names(&orchestrator), vec![2]);
}

#[test]
fn an_output_added_twice_is_held_once() {
    let mut orchestrator = Orchestrator::new();
    orchestrator.handle(added(1, 4), at(12, 0, 0));
    orchestrator.handle(added(2, 4), at(12, 0, 0));
    let sent = orchestrator.handle(added(1, 16), at(12, 0, 0));
    assert_eq!(sent, vec![1]);
    assert_eq!(names(&orchestrator), vec![2, 1]);
    assert_eq!(orchestrator.output(1).unwrap().ramps().ramp_size(), 16);
}

#[test]
fn a_day_of_updates_follows_the_schedule() {
    let mut orchestrator = Orchestrator::new();
    orchestrator.handle(added(1, 4), at(0, 0, 0));
    let expect = |orchestrator: &Orchestrator, temperature: u32, brightness: u32| {
        assert_eq!(
            orchestrator.output(1).unwrap().last_config(),
            Some(Config::new(temperature, brightness).unwrap())
        );
    };
    expect(&orchestrator, 3500, 1_000_000);
    assert!(orchestrator.handle(Event::Update, at(7, 45, 0)).is_empty());
    assert_eq!(orchestrator.handle(Event::Update, at(8, 0, 0)), vec![1]);
    expect(&orchestrator, 5000, 1_000_000);
    assert_eq!(orchestrator.handle(Event::Update, at(8, 15, 0)), vec![1]);
    expect(&orchestrator, 6500, 1_000_000);
    assert!(orchestrator.handle(Event::Update, at(12, 0, 0)).is_empty());
    assert_eq!(orchestrator.handle(Event::SetDimmed(true), at(12, 0, 0)), vec![1]);
    expect(&orchestrator, 6500, 400_000);
    assert_eq!(orchestrator.handle(Event::Update, at(20, 15, 0)), vec![1]);
    expect(&orchestrator, 3500, 400_000);
}

#[test]
fn signals_switch_dimming() {
    let dim = Event::from_signal(10, 10, 12);
    assert!(matches!(dim, Some(Event::SetDimmed(true))));
    let undim = Event::from_signal(12, 10, 12);
    assert!(matches!(undim, Some(Event::SetDimmed(false))));
    assert!(Event::from_signal(15, 10, 12).is_none());
    assert!(Event::from_signal(0, 10, 12).is_none());
}

#[test]
fn events_of_one_producer_arrive_in_order() {
    assert_eq!(QUEUE_CAPACITY, 4);
    let (sender, receiver) = sync_channel::<Event>(QUEUE_CAPACITY);
    sender.send(Event::SetDimmed(true)).unwrap();
    sender.send(added(7, 4)).unwrap();
    sender.send(Event::Update).unwrap();
    drop(sender);
    let mut orchestrator = Orchestrator::new();
    let mut sent: Vec<Vec<u32>> = Vec::new();
    let mut seen: Vec<String> = Vec::new();
    while let Ok(event) = receiver.recv() {
        seen.push(match &event {
            Event::AddOutput(control) => format!("add {}", control.output_registry_name()),
            Event::RemoveOutput { output_registry_name } => {
                format!("remove {output_registry_name}")
            }
            Event::Update => String::from("update"),
            Event::SetDimmed(dimmed) => format!("dim {dimmed}"),
        });
        sent.push(orchestrator.handle(event, at(12, 0, 0)));
    }
    assert_eq!(seen, vec!["dim true", "add 7", "update"]);
    assert_eq!(sent, vec![vec![], vec![7], vec![]]);
    assert_eq!(
        orchestrator.output(7).unwrap().last_config(),
        Some(Config::new(6500, 400_000).unwrap())
    );
}

#[test]
fn updates_are_due_every_minute() {
    assert_eq!(UPDATE_INTERVAL, 60);
}

#[test]
fn table_and_driven_outputs_stay_in_step() {
    let mut monitor = OutputMonitor::new();
    let mut orchestrator = Orchestrator::new();
    let output = || String::from("wl_output");
    let events = vec![
        OutputEvent::Global { name: 1, interface: output() },
        OutputEvent::Global { name: 2, interface: output() },
        OutputEvent::Global { name: 3, interface: String::from("wl_seat") },
        OutputEvent::Description { name: 2, description: String::from("two") },
        OutputEvent::GammaSize { name: 2, size: 8 },
        OutputEvent::GlobalRemove { name: 1 },
        OutputEvent::GammaSize { name: 1, size: 8 },
        OutputEvent::Global { name: 4, interface: output() },
        OutputEvent::GammaSize { name: 4, size: 16 },
        OutputEvent::GammaSize { name: 4, size: 16 },
        OutputEvent::GlobalRemove { name: 3 },
        OutputEvent::Global { name: 1, interface: output() },
        OutputEvent::GlobalRemove { name: 2 },
        OutputEvent::GammaSize { name: 1, size: 4 },
    ];
    let driven_after = [
        vec![],
        vec![],
        vec![],
        vec![],
        vec![2],
        vec![2],
        vec![2],
        vec![2],
        vec![2, 4],
        vec![2, 4],
        vec![2, 4],
        vec![2, 4],
        vec![4],
        vec![4, 1],
    ];
    for (event, driven) in events.into_iter().zip(driven_after) {
        let forward = match monitor.handle(event) {
            OutputAction::Added(control) => Some(Event::AddOutput(control)),
            OutputAction::Removed { name } => {
                Some(Event::RemoveOutput { output_registry_name: name })
            }
            OutputAction::Nothing | OutputAction::Bind { .. } => None,
            OutputAction::Fatal { .. } => panic!("no gamma control was refused"),
        };
        if let Some(forward) = forward {
            orchestrator.handle(forward, at(12, 0, 0));
        }
        assert_eq!(names(&orchestrator), driven);
        for name in 1..=4u32 {
            let bound = monitor.state_of(name) == Some(BindingState::Bound);
            assert_eq!(orchestrator.output(name).is_some(), bound);
        }
    }
}
