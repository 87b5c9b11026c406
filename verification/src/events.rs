//! The one place where state changes: events from the outputs, the timer, the
//! signals and the time zone come in one at a time, and each is answered with
//! the list of outputs whose gamma tables are to be sent anew.

use crate::color::Config;
use crate::schedule::{get_config, scheduled_config, TimeOfDay};
use crate::wayland::{
    action_after, table_after, BindingView, GammaControl, GammaControlView, OutputActionView,
    OutputEventView,
};
use vstd::prelude::*;

verus! {

/// How many events may wait between those who report them and the one who
/// takes them in; one more has to wait to be reported.
pub const QUEUE_CAPACITY: usize = 4;

/// After how many seconds an [`Event::Update`] is due for the passing of time
/// alone.
pub const UPDATE_INTERVAL: u64 = 60;

/// What can happen.
#[derive(Debug)]
pub enum Event {
    /// An output can now be driven.
    AddOutput(GammaControl),
    /// The output with this registry name is gone.
    RemoveOutput { output_registry_name: u32 },
    /// Time has passed, or the time zone has changed.
    Update,
    /// Dimming was switched on or off.
    SetDimmed(bool),
}

/// What an [`Event`] holds.
pub enum EventView {
    AddOutput(GammaControlView),
    RemoveOutput { output_registry_name: u32 },
    Update,
    SetDimmed(bool),
}

impl View for Event {
    type V = EventView;

    open spec fn view(&self) -> EventView {
        match *self {
            Event::AddOutput(control) => EventView::AddOutput(control@),
            Event::RemoveOutput { output_registry_name } => EventView::RemoveOutput {
                output_registry_name,
            },
            Event::Update => EventView::Update,
            Event::SetDimmed(dimmed) => EventView::SetDimmed(dimmed),
        }
    }
}

impl Event {
    /// The event that a signal stands for: dimming is switched on by
    /// `dim_signal` and off by `undim_signal`, and no other signal means
    /// anything.
    pub fn from_signal(signal: i32, dim_signal: i32, undim_signal: i32) -> (event: Option<Event>)
        ensures
            event is Some <==> signal == dim_signal || signal == undim_signal,
            event matches Some(switch) ==> switch@ == EventView::SetDimmed(signal == dim_signal),
    {
        if signal == dim_signal {
            Some(Event::SetDimmed(true))
        } else if signal == undim_signal {
            Some(Event::SetDimmed(false))
        } else {
            None
        }
    }
}

/// The condition of not being the control of the output `name`.
pub open spec fn is_not_for(name: u32) -> spec_fn(GammaControlView) -> bool {
    |control: GammaControlView| control.output_registry_name != name
}

/// The condition of needing new ramps for `config`.
pub open spec fn is_needing(config: Config) -> spec_fn(GammaControlView) -> bool {
    |control: GammaControlView| control.needs(config)
}

/// The outputs other than `name`, in their order.
pub open spec fn without(outputs: Seq<GammaControlView>, name: u32) -> Seq<GammaControlView> {
    outputs.filter(is_not_for(name))
}

/// The registry names of some outputs, in their order.
pub open spec fn names(outputs: Seq<GammaControlView>) -> Seq<u32> {
    Seq::new(outputs.len(), |at: int| outputs[at].output_registry_name)
}

/// No two of the outputs have one registry name.
pub open spec fn distinct_names(outputs: Seq<GammaControlView>) -> bool {
    forall|first: int, second: int|
        0 <= first < second < outputs.len() ==> (#[trigger] outputs[first]).output_registry_name
            != (#[trigger] outputs[second]).output_registry_name
}

/// What an [`Orchestrator`] holds.
pub struct OrchestratorView {
    /// Whether the displays are dimmed.
    pub dimmed: bool,
    /// The outputs that are driven, in the order in which they were added.
    pub outputs: Seq<GammaControlView>,
}

impl OrchestratorView {
    /// The state once the change that an event asks for is made: an output
    /// is added at the end, taking the place of any of the same name; an
    /// output is removed; or dimming is switched. An update changes nothing.
    pub open spec fn changed(self, event: EventView) -> OrchestratorView {
        match event {
            EventView::AddOutput(control) => OrchestratorView {
                outputs: without(self.outputs, control.output_registry_name).push(control),
                ..self
            },
            EventView::RemoveOutput { output_registry_name } => OrchestratorView {
                outputs: without(self.outputs, output_registry_name),
                ..self
            },
            EventView::Update => self,
            EventView::SetDimmed(dimmed) => OrchestratorView { dimmed, ..self },
        }
    }

    /// The state once `config` was put to every output, each taking it up
    /// or passing it over by what it last took up itself.
    pub open spec fn put(self, config: Config) -> OrchestratorView {
        OrchestratorView {
            outputs: Seq::new(self.outputs.len(), |at: int| self.outputs[at].with_gamma(config)),
            ..self
        }
    }

    /// The registry names of the outputs that take up `config`, in their
    /// order.
    pub open spec fn taking_up(self, config: Config) -> Seq<u32> {
        names(self.outputs.filter(is_needing(config)))
    }

    /// The state after an event that arrives at a time of day, given in
    /// nanoseconds since midnight: first the change that the event asks for,
    /// then the configuration of that time put to every output.
    pub open spec fn after(self, event: EventView, since_midnight: int) -> OrchestratorView {
        let changed = self.changed(event);
        changed.put(scheduled_config(since_midnight, changed.dimmed))
    }

    /// The outputs whose ramps are to be sent after an event that arrives at
    /// a time of day.
    pub open spec fn sent_after(self, event: EventView, since_midnight: int) -> Seq<u32> {
        let changed = self.changed(event);
        changed.taking_up(scheduled_config(since_midnight, changed.dimmed))
    }
}

/// What a sequence of controls holds.
pub open spec fn views(outputs: Seq<GammaControl>) -> Seq<GammaControlView> {
    Seq::new(outputs.len(), |at: int| outputs[at]@)
}

/// Every control of a sequence is well formed.
pub open spec fn all_wf(outputs: Seq<GammaControl>) -> bool {
    forall|at: int| 0 <= at < outputs.len() ==> (#[trigger] outputs[at]).wf()
}

/// Filtering one element more either appends it or leaves it out.
proof fn lemma_filter_next<A>(items: Seq<A>, keep: spec_fn(A) -> bool, passed: int)
    requires
        0 <= passed < items.len(),
    ensures
        items.take(passed + 1).filter(keep) == if keep(items[passed]) {
            items.take(passed).filter(keep).push(items[passed])
        } else {
            items.take(passed).filter(keep)
        },
{
    reveal(Seq::filter);
    assert(items.take(passed + 1).drop_last() =~= items.take(passed));
}

/// What is kept by a filter satisfies its condition and stood in the
/// sequence before, and what stood in a sequence of distinct names keeps
/// distinct names.
proof fn lemma_without(outputs: Seq<GammaControlView>, name: u32)
    ensures
        forall|at: int|
            0 <= at < without(outputs, name).len() ==> (#[trigger] without(
                outputs,
                name,
            )[at]).output_registry_name != name,
        distinct_names(outputs) ==> distinct_names(without(outputs, name)),
        forall|at: int|
            0 <= at < without(outputs, name).len() ==> outputs.contains(
                #[trigger] without(outputs, name)[at],
            ),
    decreases outputs.len(),
{
    reveal(Seq::filter);
    if outputs.len() > 0 {
        let shorter = outputs.drop_last();
        lemma_without(shorter, name);
        let kept = without(shorter, name);
        assert forall|at: int| 0 <= at < without(outputs, name).len() implies outputs.contains(
            #[trigger] without(outputs, name)[at],
        ) by {
            if at < kept.len() {
                assert(shorter.contains(kept[at]));
                let from = choose|from: int| 0 <= from < shorter.len() && shorter[from] == kept[at];
                assert(outputs[from] == kept[at]);
            } else {
                assert(outputs[outputs.len() - 1] == outputs.last());
            }
        }
        if distinct_names(outputs) {
            assert(distinct_names(shorter)) by {
                assert forall|first: int, second: int|
                    0 <= first < second < shorter.len() implies (
                #[trigger] shorter[first]).output_registry_name != (
                #[trigger] shorter[second]).output_registry_name by {
                    assert(outputs[first].output_registry_name
                        != outputs[second].output_registry_name);
                }
            }
            let result = without(outputs, name);
            assert forall|first: int, second: int|
                0 <= first < second < result.len() implies (
            #[trigger] result[first]).output_registry_name != (
            #[trigger] result[second]).output_registry_name by {
                if second < kept.len() {
                    assert(kept[first].output_registry_name != kept[second].output_registry_name);
                } else {
                    assert(shorter.contains(kept[first]));
                    let from = choose|from: int|
                        0 <= from < shorter.len() && shorter[from] == kept[first];
                    assert(outputs[from].output_registry_name != outputs[outputs.len()
                        - 1].output_registry_name);
                }
            }
        }
    }
}

/// Where no element satisfies the condition a filter keeps nothing.
proof fn lemma_filter_none<A>(items: Seq<A>, keep: spec_fn(A) -> bool)
    requires
        forall|at: int| 0 <= at < items.len() ==> !keep(#[trigger] items[at]),
    ensures
        items.filter(keep) == Seq::<A>::empty(),
    decreases items.len(),
{
    reveal(Seq::filter);
    if items.len() > 0 {
        let shorter = items.drop_last();
        assert forall|at: int| 0 <= at < shorter.len() implies !keep(#[trigger] shorter[at]) by {
            assert(shorter[at] == items[at]);
        }
        lemma_filter_none(shorter, keep);
        assert(!keep(items[items.len() - 1]));
    }
}

/// Putting a configuration to an output leaves the size of its ramps and its
/// name as they are.
pub proof fn lemma_with_gamma_keeps(control: GammaControlView, config: Config)
    ensures
        control.with_gamma(config).ramp_size() == control.ramp_size(),
        control.with_gamma(config).output_registry_name == control.output_registry_name,
        control.with_gamma(config).output_description == control.output_description,
        control.samples.len() % 3 == 0 ==> control.with_gamma(config).samples.len() % 3 == 0,
{
}

/// Each output answers a configuration on its own: whether it takes the
/// configuration up depends on what it took up last itself and on nothing
/// else, and the size of its ramps stays what it was, whatever the other
/// outputs hold.
pub proof fn lemma_each_output_on_its_own(state: OrchestratorView, config: Config, at: int)
    requires
        distinct_names(state.outputs),
        0 <= at < state.outputs.len(),
    ensures
        state.put(config).outputs.len() == state.outputs.len(),
        state.put(config).outputs[at] == state.outputs[at].with_gamma(config),
        state.put(config).outputs[at].ramp_size() == state.outputs[at].ramp_size(),
        state.taking_up(config).contains(state.outputs[at].output_registry_name)
            <==> state.outputs[at].needs(config),
{
    let keep = is_needing(config);
    let taken = state.outputs.filter(keep);
    let name = state.outputs[at].output_registry_name;
    lemma_with_gamma_keeps(state.outputs[at], config);
    if state.outputs[at].needs(config) {
        state.outputs.lemma_filter_contains(keep, at);
        let to = choose|to: int| 0 <= to < taken.len() && taken[to] == state.outputs[at];
        assert(names(taken)[to] == name);
    }
    if state.taking_up(config).contains(name) {
        let to = choose|to: int| 0 <= to < names(taken).len() && names(taken)[to] == name;
        state.outputs.lemma_filter_pred(keep, to);
        assert(taken.contains(taken[to]));
        state.outputs.lemma_filter_contains_rev(keep, taken[to]);
        let from = choose|from: int|
            0 <= from < state.outputs.len() && state.outputs[from] == taken[to];
        if from < at {
            assert(state.outputs[from].output_registry_name
                != state.outputs[at].output_registry_name);
        }
        if at < from {
            assert(state.outputs[at].output_registry_name
                != state.outputs[from].output_registry_name);
        }
    }
}

/// Where no output needs new ramps for a configuration, putting it to them
/// changes nothing and nothing is to be sent. An event that only removes an
/// output, or only tells that time has passed, thus sends nothing by itself.
pub proof fn lemma_nothing_sent_without_need(state: OrchestratorView, config: Config)
    requires
        forall|at: int|
            0 <= at < state.outputs.len() ==> !(#[trigger] state.outputs[at]).needs(config),
    ensures
        state.put(config) == state,
        state.taking_up(config) == Seq::<u32>::empty(),
{
    assert(state.put(config).outputs =~= state.outputs);
    lemma_filter_none(state.outputs, is_needing(config));
    assert(state.taking_up(config) =~= Seq::<u32>::empty());
}

/// Once a configuration was put to the outputs, putting it to them again
/// changes nothing and sends nothing.
pub proof fn lemma_settled(state: OrchestratorView, config: Config)
    ensures
        state.put(config).put(config) == state.put(config),
        state.put(config).taking_up(config) == Seq::<u32>::empty(),
{
    let settled = state.put(config);
    assert forall|at: int| 0 <= at < settled.outputs.len() implies !(
    #[trigger] settled.outputs[at]).needs(config) by {
        config.lemma_not_different_from_itself();
    }
    lemma_nothing_sent_without_need(settled, config);
}

/// No event brings two outputs of one registry name into the state.
pub proof fn lemma_names_stay_distinct(
    state: OrchestratorView,
    event: EventView,
    since_midnight: int,
)
    requires
        distinct_names(state.outputs),
    ensures
        distinct_names(state.changed(event).outputs),
        distinct_names(state.after(event, since_midnight).outputs),
{
    let changed = state.changed(event);
    match event {
        EventView::AddOutput(control) => {
            let name = control.output_registry_name;
            lemma_without(state.outputs, name);
            let kept = without(state.outputs, name);
            assert forall|first: int, second: int|
                0 <= first < second < changed.outputs.len() implies (
            #[trigger] changed.outputs[first]).output_registry_name != (
            #[trigger] changed.outputs[second]).output_registry_name by {
                if second < kept.len() {
                    assert(kept[first].output_registry_name != kept[second].output_registry_name);
                } else {
                    assert(kept[first].output_registry_name != name);
                }
            }
        },
        EventView::RemoveOutput { output_registry_name } => {
            lemma_without(state.outputs, output_registry_name);
        },
        EventView::Update => {},
        EventView::SetDimmed(_) => {},
    }
    let after = state.after(event, since_midnight);
    assert forall|first: int, second: int| 0 <= first < second < after.outputs.len() implies (
    #[trigger] after.outputs[first]).output_registry_name != (
    #[trigger] after.outputs[second]).output_registry_name by {
        assert(changed.outputs[first].output_registry_name
            != changed.outputs[second].output_registry_name);
    }
}

/// Whether an output of the registry name `name` is among the outputs.
pub open spec fn is_driven(outputs: Seq<GammaControlView>, name: u32) -> bool {
    exists|at: int|
        0 <= at < outputs.len() && (#[trigger] outputs[at]).output_registry_name == name
}

/// The event by which an action of the table of outputs is made known, if it
/// is to be made known at all.
pub open spec fn forwarded(action: OutputActionView) -> Option<EventView> {
    match action {
        OutputActionView::Added(control) => Some(EventView::AddOutput(control)),
        OutputActionView::Removed { name } => Some(
            EventView::RemoveOutput { output_registry_name: name },
        ),
        _ => None,
    }
}

/// Whether the outputs that are driven are those that the table of outputs
/// holds as bound, each once. A registry name then stands for one thing only
/// among all that is pending and all that is driven.
pub open spec fn in_step(table: Map<u32, BindingView>, state: OrchestratorView) -> bool {
    &&& distinct_names(state.outputs)
    &&& forall|name: u32|
        is_driven(state.outputs, name) <==> table.dom().contains(name) && (
        #[trigger] table[name]).state is Bound
}

/// After an output is removed no output of its name is left, and every other
/// output is still there.
pub proof fn lemma_driven_without(outputs: Seq<GammaControlView>, gone: u32, name: u32)
    ensures
        is_driven(without(outputs, gone), name) <==> is_driven(outputs, name) && name != gone,
{
    let kept = without(outputs, gone);
    lemma_without(outputs, gone);
    if is_driven(kept, name) {
        let to = choose|to: int|
            0 <= to < kept.len() && (#[trigger] kept[to]).output_registry_name == name;
        assert(outputs.contains(kept[to]));
        let from = choose|from: int| 0 <= from < outputs.len() && outputs[from] == kept[to];
        assert(outputs[from].output_registry_name == name);
    }
    if is_driven(outputs, name) && name != gone {
        let from = choose|from: int|
            0 <= from < outputs.len() && (#[trigger] outputs[from]).output_registry_name == name;
        outputs.lemma_filter_contains(is_not_for(gone), from);
        let to = choose|to: int| 0 <= to < kept.len() && kept[to] == outputs[from];
        assert(kept[to].output_registry_name == name);
    }
}

/// Putting a configuration to the outputs leaves the same outputs driven.
proof fn lemma_driven_put(state: OrchestratorView, config: Config, name: u32)
    ensures
        is_driven(state.put(config).outputs, name) <==> is_driven(state.outputs, name),
{
    let after = state.put(config).outputs;
    if is_driven(after, name) {
        let at = choose|at: int|
            0 <= at < after.len() && (#[trigger] after[at]).output_registry_name == name;
        assert(state.outputs[at].output_registry_name == name);
    }
    if is_driven(state.outputs, name) {
        let at = choose|at: int|
            0 <= at < state.outputs.len() && (#[trigger] state.outputs[at]).output_registry_name
                == name;
        assert(after[at].output_registry_name == name);
    }
}

/// Which outputs are driven after an event.
pub proof fn lemma_driven_after(
    state: OrchestratorView,
    event: EventView,
    since_midnight: int,
    name: u32,
)
    ensures
        is_driven(state.after(event, since_midnight).outputs, name) <==> match event {
            EventView::AddOutput(control) => is_driven(state.outputs, name) || name
                == control.output_registry_name,
            EventView::RemoveOutput { output_registry_name } => is_driven(state.outputs, name)
                && name != output_registry_name,
            EventView::Update => is_driven(state.outputs, name),
            EventView::SetDimmed(_) => is_driven(state.outputs, name),
        },
{
    let changed = state.changed(event);
    lemma_driven_put(changed, scheduled_config(since_midnight, changed.dimmed), name);
    match event {
        EventView::AddOutput(control) => {
            let added = control.output_registry_name;
            let kept = without(state.outputs, added);
            lemma_driven_without(state.outputs, added, name);
            if is_driven(changed.outputs, name) {
                let at = choose|at: int|
                    0 <= at < changed.outputs.len() && (
                    #[trigger] changed.outputs[at]).output_registry_name == name;
                if at < kept.len() {
                    assert(kept[at].output_registry_name == name);
                }
            }
            if is_driven(kept, name) {
                let at = choose|at: int|
                    0 <= at < kept.len() && (#[trigger] kept[at]).output_registry_name == name;
                assert(changed.outputs[at].output_registry_name == name);
            }
            if name == added {
                assert(changed.outputs[kept.len() as int].output_registry_name == name);
            }
        },
        EventView::RemoveOutput { output_registry_name } => {
            lemma_driven_without(state.outputs, output_registry_name, name);
        },
        EventView::Update => {},
        EventView::SetDimmed(_) => {},
    }
}

/// The table of outputs and the outputs that are driven stay in step: when
/// every action of the table is made known by its event, in order, then after
/// every event of the display server the driven outputs are again those that
/// the table holds as bound. Events of time and of dimming, which the table
/// never sees, do not disturb this either.
pub proof fn lemma_stays_in_step(
    table: Map<u32, BindingView>,
    state: OrchestratorView,
    event: OutputEventView,
    since_midnight: int,
)
    requires
        in_step(table, state),
    ensures
        in_step(
            table_after(table, event),
            match forwarded(action_after(table, event)) {
                Some(forward) => state.after(forward, since_midnight),
                None => state,
            },
        ),
        in_step(table, state.after(EventView::Update, since_midnight)),
        forall|dimmed: bool|
            in_step(table, #[trigger] state.after(EventView::SetDimmed(dimmed), since_midnight)),
{
    let table_then = table_after(table, event);
    assert forall|other: EventView|
        other is Update || other is SetDimmed implies in_step(
        table,
        #[trigger] state.after(other, since_midnight),
    ) by {
        lemma_names_stay_distinct(state, other, since_midnight);
        assert forall|name: u32|
            is_driven(state.after(other, since_midnight).outputs, name) <==> table.dom().contains(
                name,
            ) && (#[trigger] table[name]).state is Bound by {
            lemma_driven_after(state, other, since_midnight, name);
        }
    }
    assert(in_step(table, state.after(EventView::Update, since_midnight)));
    match forwarded(action_after(table, event)) {
        Some(forward) => {
            let state_then = state.after(forward, since_midnight);
            lemma_names_stay_distinct(state, forward, since_midnight);
            assert forall|name: u32|
                is_driven(state_then.outputs, name) <==> table_then.dom().contains(name) && (
                #[trigger] table_then[name]).state is Bound by {
                lemma_driven_after(state, forward, since_midnight, name);
                assert(is_driven(state.outputs, name) <==> table.dom().contains(name)
                    && table[name].state is Bound);
            }
        },
        None => {
            assert forall|name: u32|
                is_driven(state.outputs, name) <==> table_then.dom().contains(name) && (
                #[trigger] table_then[name]).state is Bound by {
                assert(is_driven(state.outputs, name) <==> table.dom().contains(name)
                    && table[name].state is Bound);
            }
        },
    }
}

/// The single owner of what changes while the daemon runs: whether the
/// displays are dimmed, and the outputs that are driven.
pub struct Orchestrator {
    dimmed: bool,
    outputs: Vec<GammaControl>,
}

impl View for Orchestrator {
    type V = OrchestratorView;

    closed spec fn view(&self) -> OrchestratorView {
        OrchestratorView { dimmed: self.dimmed, outputs: views(self.outputs@) }
    }
}

impl Orchestrator {
    /// Every output is well formed, and no two have one registry name.
    pub closed spec fn wf(&self) -> bool {
        all_wf(self.outputs@) && distinct_names(views(self.outputs@))
    }

    /// In a well-formed state no two outputs have one registry name.
    pub proof fn lemma_wf(&self)
        requires
            self.wf(),
        ensures
            distinct_names(self@.outputs),
    {
    }

    /// The state at the start: not dimmed, and no outputs.
    pub fn new() -> (orchestrator: Orchestrator)
        ensures
            orchestrator.wf(),
            orchestrator@ == (OrchestratorView { dimmed: false, outputs: Seq::empty() }),
    {
        let orchestrator = Orchestrator { dimmed: false, outputs: Vec::new() };
        assert(views(orchestrator.outputs@) =~= Seq::empty());
        orchestrator
    }

    /// Whether the displays are dimmed.
    pub fn dimmed(&self) -> (dimmed: bool)
        ensures
            dimmed == self@.dimmed,
    {
        self.dimmed
    }

    /// The outputs that are driven, in the order in which they were added.
    pub fn outputs(&self) -> (outputs: &Vec<GammaControl>)
        ensures
            views(outputs@) == self@.outputs,
            self.wf() ==> all_wf(outputs@),
    {
        &self.outputs
    }

    /// The control of the output with the registry name `name`, if that
    /// output is driven.
    pub fn output(&self, name: u32) -> (control: Option<&GammaControl>)
        ensures
            match control {
                Some(control) => self@.outputs.contains(control@)
                    && control@.output_registry_name == name && (self.wf() ==> control.wf()),
                None => forall|at: int|
                    0 <= at < self@.outputs.len() ==> (
                    #[trigger] self@.outputs[at]).output_registry_name != name,
            },
    {
        let mut index: usize = 0;
        while index < self.outputs.len()
            invariant
                index <= self.outputs.len(),
                forall|at: int|
                    0 <= at < index ==> (#[trigger] self@.outputs[at]).output_registry_name
                        != name,
            decreases self.outputs.len() - index,
        {
            if self.outputs[index].is_for_output(name) {
                assert(self@.outputs[index as int] == self.outputs[index as int]@);
                return Some(&self.outputs[index]);
            }
            index += 1;
        }
        None
    }

    /// Removes the output with the registry name `name`, if it is driven.
    fn discard(&mut self, name: u32)
        requires
            old(self).wf(),
        ensures
            final(self).wf(),
            final(self)@ == (OrchestratorView {
                outputs: without(old(self)@.outputs, name),
                ..old(self)@
            }),
    {
        let ghost before = self@.outputs;
        let ghost mut passed: int = 0;
        let mut index: usize = 0;
        proof {
            reveal(Seq::filter);
            assert(before.take(0).filter(is_not_for(name)) =~= views(self.outputs@).take(0));
            assert(views(self.outputs@).skip(0) =~= before.skip(0));
        }
        while index < self.outputs.len()
            invariant
                index <= self.outputs.len(),
                index <= passed,
                passed + (self.outputs.len() - index) == before.len(),
                self.dimmed == old(self).dimmed,
                all_wf(self.outputs@),
                views(self.outputs@).take(index as int) == without(before.take(passed), name),
                views(self.outputs@).skip(index as int) == before.skip(passed),
            decreases self.outputs.len() - index,
        {
            let ghost current = views(self.outputs@);
            proof {
                lemma_filter_next(before, is_not_for(name), passed);
                assert(current[index as int] == current.skip(index as int)[0]);
                assert(before[passed] == before.skip(passed)[0]);
            }
            if self.outputs[index].is_for_output(name) {
                let _ = self.outputs.remove(index);
                proof {
                    let shorter = views(self.outputs@);
                    assert(shorter.take(index as int) =~= current.take(index as int));
                    assert(shorter.skip(index as int) =~= current.skip(index as int).skip(1));
                    assert(before.skip(passed + 1) =~= before.skip(passed).skip(1));
                    passed = passed + 1;
                }
            } else {
                index += 1;
                proof {
                    assert(current.take(index as int) =~= current.take(index - 1).push(
                        current[index - 1],
                    ));
                    assert(current.skip(index as int) =~= current.skip(index - 1).skip(1));
                    assert(before.skip(passed + 1) =~= before.skip(passed).skip(1));
                    passed = passed + 1;
                }
            }
        }
        proof {
            assert(before.take(passed) =~= before);
            assert(views(self.outputs@).take(index as int) =~= views(self.outputs@));
            lemma_without(before, name);
        }
    }

    /// Adds an output at the end, in place of any of the same name.
    fn add(&mut self, control: GammaControl)
        requires
            old(self).wf(),
            control.wf(),
        ensures
            final(self).wf(),
            final(self)@ == (OrchestratorView {
                outputs: without(old(self)@.outputs, control@.output_registry_name).push(
                    control@,
                ),
                ..old(self)@
            }),
    {
        let name: u32 = control.output_registry_name();
        self.discard(name);
        let ghost kept = views(self.outputs@);
        proof {
            lemma_without(old(self)@.outputs, name);
        }
        self.outputs.push(control);
        proof {
            let longer = views(self.outputs@);
            assert(longer =~= kept.push(control@));
            assert forall|first: int, second: int|
                0 <= first < second < longer.len() implies (
            #[trigger] longer[first]).output_registry_name != (
            #[trigger] longer[second]).output_registry_name by {
                if second < kept.len() {
                    assert(kept[first].output_registry_name != kept[second].output_registry_name);
                } else {
                    assert(kept[first].output_registry_name != name);
                }
            }
        }
    }

    /// Puts a configuration to every output and returns the registry names
    /// of those that took it up.
    fn put(&mut self, config: Config) -> (sent: Vec<u32>)
        requires
            old(self).wf(),
        ensures
            final(self).wf(),
            final(self)@ == old(self)@.put(config),
            sent@ == old(self)@.taking_up(config),
    {
        let ghost before = self@.outputs;
        let mut sent: Vec<u32> = Vec::new();
        let mut index: usize = 0;
        proof {
            reveal(Seq::filter);
            assert(names(before.take(0).filter(is_needing(config))) =~= sent@);
        }
        while index < self.outputs.len()
            invariant
                index <= self.outputs.len(),
                self.outputs.len() == before.len(),
                self.dimmed == old(self).dimmed,
                all_wf(self.outputs@),
                forall|at: int|
                    0 <= at < index ==> self.outputs[at]@ == before[at].with_gamma(config),
                forall|at: int| index <= at < before.len() ==> self.outputs[at]@ == before[at],
                sent@ == names(before.take(index as int).filter(is_needing(config))),
            decreases self.outputs.len() - index,
        {
            proof {
                lemma_filter_next(before, is_needing(config), index as int);
            }
            let ghost taken = before.take(index as int).filter(is_needing(config));
            let name: u32 = self.outputs[index].output_registry_name();
            let transfer: bool = self.outputs[index].set_gamma(config);
            if transfer {
                sent.push(name);
                assert(sent@ =~= names(taken.push(before[index as int])));
            }
            index += 1;
        }
        proof {
            assert(before.take(index as int) =~= before);
            let after = views(self.outputs@);
            assert(after =~= old(self)@.put(config).outputs);
            assert forall|first: int, second: int|
                0 <= first < second < after.len() implies (
            #[trigger] after[first]).output_registry_name != (
            #[trigger] after[second]).output_registry_name by {
                assert(before[first].output_registry_name != before[second].output_registry_name);
            }
        }
        sent
    }

    /// Takes in one event that arrives at the local time `time`: makes the
    /// change that the event asks for, works out the configuration that the
    /// schedule asks for at `time`, and puts it to every output. Returns the
    /// registry names of the outputs that took it up, in the order of the
    /// outputs: their ramps are to be handed to the display server.
    pub fn handle(&mut self, event: Event, time: TimeOfDay) -> (sent: Vec<u32>)
        requires
            old(self).wf(),
            event matches Event::AddOutput(control) ==> control.wf(),
        ensures
            final(self).wf(),
            final(self)@ == old(self)@.after(event@, time.since_midnight()),
            sent@ == old(self)@.sent_after(event@, time.since_midnight()),
    {
        match event {
            Event::AddOutput(control) => {
                self.add(control);
            },
            Event::RemoveOutput { output_registry_name } => {
                self.discard(output_registry_name);
            },
            Event::Update => {},
            Event::SetDimmed(dimmed) => {
                self.dimmed = dimmed;
            },
        }
        let config: Config = get_config(time, self.dimmed);
        self.put(config)
    }
}

} // verus!
