//! The outputs of the display server: the gamma control of one output with
//! its ramps, and the table that follows each output from the moment it is
//! advertised until it is withdrawn.

use crate::color::{generated_samples, Config, Ramps};
use crate::util::TakeIfExt;
use vstd::prelude::*;

verus! {

/// What a [`GammaControl`] holds.
pub struct GammaControlView {
    /// The name under which the registry advertised the output.
    pub output_registry_name: u32,
    /// The description of the output, once it is known.
    pub output_description: Option<Seq<char>>,
    /// The samples of the three ramps, red first, then green, then blue.
    pub samples: Seq<u16>,
    /// The configuration that the ramps were last generated for, if any.
    pub last_config: Option<Config>,
}

impl GammaControlView {
    /// The number of samples in each of the three ramps.
    pub open spec fn ramp_size(self) -> int {
        self.samples.len() as int / 3
    }

    /// Whether `config` calls for new ramps: nothing was applied yet, or
    /// what was applied last differs materially from it.
    pub open spec fn needs(self, config: Config) -> bool {
        match self.last_config {
            Some(last_config) => config.materially_different(last_config),
            None => true,
        }
    }

    /// The control once `config` has been put to it: with the ramps of
    /// `config` and `config` as the last one applied where new ramps are
    /// called for, and unchanged where they are not.
    pub open spec fn with_gamma(self, config: Config) -> GammaControlView {
        if self.needs(config) {
            GammaControlView {
                samples: generated_samples(config, self.ramp_size()),
                last_config: Some(config),
                ..self
            }
        } else {
            self
        }
    }
}

/// The view of a description that may be missing.
pub open spec fn description_view(description: Option<String>) -> Option<Seq<char>> {
    match description {
        Some(text) => Some(text@),
        None => None,
    }
}

/// The gamma table of one output: which output it is, its ramps, and the
/// configuration that they hold.
#[derive(Debug)]
pub struct GammaControl {
    output_registry_name: u32,
    output_description: Option<String>,
    ramps: Ramps,
    last_config: Option<Config>,
}

impl View for GammaControl {
    type V = GammaControlView;

    closed spec fn view(&self) -> GammaControlView {
        GammaControlView {
            output_registry_name: self.output_registry_name,
            output_description: description_view(self.output_description),
            samples: self.ramps.samples(),
            last_config: self.last_config,
        }
    }
}

impl GammaControl {
    /// The three ramps have one length.
    pub closed spec fn wf(&self) -> bool {
        self.ramps.wf()
    }

    /// Well-formedness is a matter of the samples alone.
    pub proof fn lemma_wf(&self)
        ensures
            self.wf() <==> self@.samples.len() % 3 == 0,
    {
    }

    /// The control of a newly bound output: ramps of `ramp_size` samples per
    /// channel, all zero, and no configuration applied.
    pub fn new(
        output_registry_name: u32,
        output_description: Option<String>,
        ramp_size: usize,
    ) -> (control: GammaControl)
        requires
            ramp_size * 3 <= usize::MAX,
        ensures
            control.wf(),
            control@ == (GammaControlView {
                output_registry_name,
                output_description: description_view(output_description),
                samples: Seq::new(3 * ramp_size as nat, |at: int| 0u16),
                last_config: None,
            }),
    {
        GammaControl {
            output_registry_name,
            output_description,
            ramps: Ramps::new(ramp_size),
            last_config: None,
        }
    }

    /// Puts a configuration to the output. Where it differs materially from
    /// the last one applied, or none was applied yet, the ramps are filled
    /// anew and the result is `true`: the ramps are then to be handed to the
    /// display server. Otherwise nothing changes and the result is `false`.
    pub fn set_gamma(&mut self, config: Config) -> (transfer: bool)
        requires
            old(self).wf(),
        ensures
            final(self).wf(),
            transfer == old(self)@.needs(config),
            final(self)@ == old(self)@.with_gamma(config),
    {
        let transfer: bool = match self.last_config {
            Some(last_config) => config.different_from(last_config),
            None => true,
        };
        if transfer {
            config.generate_ramps(&mut self.ramps);
            self.last_config = Some(config);
            proof {
                self.ramps.lemma_generated_samples(config);
            }
        }
        transfer
    }

    /// Whether this is the control of the output with the registry name `id`.
    #[inline]
    #[must_use]
    pub fn is_for_output(&self, id: u32) -> (same: bool)
        ensures
            same == (self@.output_registry_name == id),
    {
        self.output_registry_name == id
    }

    /// The name under which the registry advertised the output.
    pub fn output_registry_name(&self) -> (name: u32)
        ensures
            name == self@.output_registry_name,
    {
        self.output_registry_name
    }

    /// The description of the output, once it is known.
    pub fn output_description(&self) -> (description: &Option<String>)
        ensures
            description_view(*description) == self@.output_description,
    {
        &self.output_description
    }

    /// The ramps of the output.
    pub fn ramps(&self) -> (ramps: &Ramps)
        ensures
            ramps.samples() == self@.samples,
            ramps.wf() == self.wf(),
    {
        &self.ramps
    }

    /// The configuration that the ramps were last generated for, if any.
    pub fn last_config(&self) -> (last_config: Option<Config>)
        ensures
            last_config == self@.last_config,
    {
        self.last_config
    }
}

/// How far the binding of an output to its gamma control has come.
#[derive(Clone, Copy, Debug, PartialEq, Eq, Structural)]
pub enum BindingState {
    /// The control was asked for and the answer is outstanding.
    Pending,
    /// The control is there and the output was handed on.
    Bound,
}

/// How the wait for a gamma control ended.
#[derive(Clone, Copy, Debug, PartialEq, Eq, Structural)]
pub enum Resolution {
    /// The control is there, with ramps of this many samples per channel.
    Ready { ramp_size: u32 },
    /// The display server refused the control.
    Failed,
    /// The output went away before the answer came.
    Cancelled,
}

/// What the table knows of one output.
pub struct BindingView {
    /// The description of the output, once it is known.
    pub description: Option<Seq<char>>,
    /// How far the binding has come.
    pub state: BindingState,
}

/// One row of the table.
struct Binding {
    registry_name: u32,
    description: Option<String>,
    state: BindingState,
}

impl View for Binding {
    type V = BindingView;

    closed spec fn view(&self) -> BindingView {
        BindingView { description: description_view(self.description), state: self.state }
    }
}

/// Whether some row is that of `name`.
spec fn has_name(rows: Seq<Binding>, name: u32) -> bool {
    exists|at: int| 0 <= at < rows.len() && #[trigger] rows[at].registry_name == name
}

/// A row of `name`.
spec fn row_of(rows: Seq<Binding>, name: u32) -> int {
    choose|at: int| 0 <= at < rows.len() && #[trigger] rows[at].registry_name == name
}

/// No two rows are of one name.
spec fn distinct(rows: Seq<Binding>) -> bool {
    forall|first: int, second: int|
        0 <= first < second < rows.len() ==> #[trigger] rows[first].registry_name
            != #[trigger] rows[second].registry_name
}

/// The rows as a table from name to what is known of the output.
spec fn table_of(rows: Seq<Binding>) -> Map<u32, BindingView> {
    Map::new(|name: u32| has_name(rows, name), |name: u32| rows[row_of(rows, name)]@)
}

/// Among distinct rows each is the only one of its name.
proof fn lemma_row_found(rows: Seq<Binding>, at: int)
    requires
        distinct(rows),
        0 <= at < rows.len(),
    ensures
        has_name(rows, rows[at].registry_name),
        row_of(rows, rows[at].registry_name) == at,
        table_of(rows).dom().contains(rows[at].registry_name),
        table_of(rows)[rows[at].registry_name] == rows[at]@,
{
    let name = rows[at].registry_name;
    let found = row_of(rows, name);
    assert(0 <= found < rows.len() && rows[found].registry_name == name);
    if found < at {
        assert(rows[found].registry_name != rows[at].registry_name);
    }
    if at < found {
        assert(rows[at].registry_name != rows[found].registry_name);
    }
}

/// A row of a new name adds its entry to the table.
proof fn lemma_pushed(rows: Seq<Binding>, row: Binding)
    requires
        distinct(rows),
        !has_name(rows, row.registry_name),
    ensures
        distinct(rows.push(row)),
        table_of(rows.push(row)) == table_of(rows).insert(row.registry_name, row@),
{
    let longer = rows.push(row);
    assert forall|first: int, second: int|
        0 <= first < second < longer.len() implies #[trigger] longer[first].registry_name
        != #[trigger] longer[second].registry_name by {
        if second == rows.len() {
            assert(rows[first].registry_name != row.registry_name);
        } else {
            assert(rows[first].registry_name != rows[second].registry_name);
        }
    }
    assert forall|name: u32| #[trigger]
        has_name(longer, name) <==> (has_name(rows, name) || name == row.registry_name) by {
        if has_name(longer, name) {
            let at = row_of(longer, name);
            if at < rows.len() {
                assert(rows[at].registry_name == name);
            }
        }
        if has_name(rows, name) {
            let at = row_of(rows, name);
            assert(longer[at].registry_name == name);
        }
        if name == row.registry_name {
            assert(longer[rows.len() as int].registry_name == name);
        }
    }
    let inserted = table_of(rows).insert(row.registry_name, row@);
    assert forall|name: u32| has_name(longer, name) implies #[trigger] table_of(longer)[name]
        == inserted[name] by {
        let at = row_of(longer, name);
        lemma_row_found(longer, at);
        if at < rows.len() {
            lemma_row_found(rows, at);
        }
    }
    assert(table_of(longer) =~= inserted);
}

/// Taking a row out, with the last row moved into its place, takes its entry
/// out of the table.
proof fn lemma_taken(rows: Seq<Binding>, at: int)
    requires
        distinct(rows),
        0 <= at < rows.len(),
    ensures
        distinct(rows.update(at, rows.last()).drop_last()),
        table_of(rows.update(at, rows.last()).drop_last()) == table_of(rows).remove(
            rows[at].registry_name,
        ),
        !has_name(rows.update(at, rows.last()).drop_last(), rows[at].registry_name),
{
    let shorter = rows.update(at, rows.last()).drop_last();
    let gone = rows[at].registry_name;
    let last = rows.len() - 1;
    // Where each row of the shorter sequence stood before.
    let origin = |to: int| if to == at { last } else { to };
    assert forall|to: int| 0 <= to < shorter.len() implies shorter[to] == rows[origin(to)]
        && (#[trigger] shorter[to].registry_name) != gone by {
        if to == at {
            assert(rows[at].registry_name != rows[last].registry_name);
        } else if to < at {
            assert(rows[to].registry_name != rows[at].registry_name);
        } else {
            assert(rows[at].registry_name != rows[to].registry_name);
        }
    }
    assert forall|first: int, second: int|
        0 <= first < second < shorter.len() implies #[trigger] shorter[first].registry_name
        != #[trigger] shorter[second].registry_name by {
        let a = origin(first);
        let b = origin(second);
        assert(shorter[first] == rows[a]);
        assert(shorter[second] == rows[b]);
        if a < b {
            assert(rows[a].registry_name != rows[b].registry_name);
        } else {
            assert(rows[b].registry_name != rows[a].registry_name);
        }
    }
    assert(!has_name(shorter, gone)) by {
        if has_name(shorter, gone) {
            let to = row_of(shorter, gone);
            assert(shorter[to].registry_name != gone);
        }
    }
    assert forall|name: u32| #[trigger]
        has_name(shorter, name) <==> (has_name(rows, name) && name != gone) by {
        if has_name(shorter, name) {
            let to = row_of(shorter, name);
            assert(shorter[to] == rows[origin(to)]);
            assert(rows[origin(to)].registry_name == name);
            assert(shorter[to].registry_name != gone);
        }
        if has_name(rows, name) && name != gone {
            let from = row_of(rows, name);
            if from == last {
                assert(shorter[at].registry_name == name);
            } else {
                assert(shorter[from].registry_name == name);
            }
        }
    }
    let removed = table_of(rows).remove(gone);
    assert forall|name: u32| has_name(shorter, name) implies #[trigger] table_of(shorter)[name]
        == removed[name] by {
        let to = row_of(shorter, name);
        lemma_row_found(shorter, to);
        assert(shorter[to] == rows[origin(to)]);
        lemma_row_found(rows, origin(to));
    }
    assert(table_of(shorter) =~= removed);
}

/// Without a row of a name the table has no entry for it.
proof fn lemma_absent(rows: Seq<Binding>, name: u32)
    requires
        forall|at: int| 0 <= at < rows.len() ==> (#[trigger] rows[at]).registry_name != name,
    ensures
        !has_name(rows, name),
        !table_of(rows).dom().contains(name),
{
    if has_name(rows, name) {
        let at = row_of(rows, name);
        assert(rows[at].registry_name != name);
    }
}

/// An empty sequence of rows has no names.
proof fn lemma_absent_all(rows: Seq<Binding>)
    requires
        rows.len() == 0,
    ensures
        distinct(rows),
        forall|name: u32| !has_name(rows, name),
{
}

/// What is to be done about an output after an event of the display server.
#[derive(Debug)]
pub enum OutputAction {
    /// Nothing.
    Nothing,
    /// Bind the output that the registry advertised under `name`, and ask
    /// for its gamma control.
    Bind { name: u32 },
    /// Announce that this output can now be driven.
    Added(GammaControl),
    /// Announce that the output with this registry name is gone.
    Removed { name: u32 },
    /// Give up: the gamma control of an output was refused. The description
    /// is that of the output, where one had arrived.
    Fatal { description: Option<String> },
}

/// What an [`OutputAction`] holds.
pub enum OutputActionView {
    Nothing,
    Bind { name: u32 },
    Added(GammaControlView),
    Removed { name: u32 },
    Fatal { description: Option<Seq<char>> },
}

impl View for OutputAction {
    type V = OutputActionView;

    open spec fn view(&self) -> OutputActionView {
        match *self {
            OutputAction::Nothing => OutputActionView::Nothing,
            OutputAction::Bind { name } => OutputActionView::Bind { name },
            OutputAction::Added(control) => OutputActionView::Added(control@),
            OutputAction::Removed { name } => OutputActionView::Removed { name },
            OutputAction::Fatal { description } => OutputActionView::Fatal {
                description: description_view(description),
            },
        }
    }
}

/// Whether `interface` is the one under which a registry advertises outputs.
pub open spec fn is_output_interface(interface: Seq<char>) -> bool {
    interface == "wl_output"@
}

/// Whether the table awaits the gamma control of `name`.
pub open spec fn is_pending(table: Map<u32, BindingView>, name: u32) -> bool {
    table.dom().contains(name) && table[name].state is Pending
}

/// Whether a global that the registry advertises is an output to take up: it
/// is one by its interface and the table does not hold its name yet.
pub open spec fn takes_up(table: Map<u32, BindingView>, name: u32, interface: Seq<char>) -> bool {
    is_output_interface(interface) && !table.dom().contains(name)
}

/// The table after the registry advertised a global.
pub open spec fn advertised(
    table: Map<u32, BindingView>,
    name: u32,
    interface: Seq<char>,
) -> Map<u32, BindingView> {
    if takes_up(table, name, interface) {
        table.insert(name, BindingView { description: None, state: BindingState::Pending })
    } else {
        table
    }
}

/// What is to be done once the registry advertised a global.
pub open spec fn advertise_action(
    table: Map<u32, BindingView>,
    name: u32,
    interface: Seq<char>,
) -> OutputActionView {
    if takes_up(table, name, interface) {
        OutputActionView::Bind { name }
    } else {
        OutputActionView::Nothing
    }
}

/// The table after the description of an output arrived: it is attached to
/// the output, pending or bound, and dropped where the table has none of
/// that name.
pub open spec fn described(
    table: Map<u32, BindingView>,
    name: u32,
    description: Seq<char>,
) -> Map<u32, BindingView> {
    if table.dom().contains(name) {
        table.insert(
            name,
            BindingView { description: Some(description), state: table[name].state },
        )
    } else {
        table
    }
}

/// The table after the wait for the gamma control of `name` ended. Only an
/// output that is pending has anything to end.
pub open spec fn resolved(
    table: Map<u32, BindingView>,
    name: u32,
    resolution: Resolution,
) -> Map<u32, BindingView> {
    if is_pending(table, name) {
        match resolution {
            Resolution::Ready { .. } => table.insert(
                name,
                BindingView { description: table[name].description, state: BindingState::Bound },
            ),
            Resolution::Failed => table.remove(name),
            Resolution::Cancelled => table.remove(name),
        }
    } else {
        table
    }
}

/// What is to be done once the wait for the gamma control of `name` ended.
pub open spec fn resolution_action(
    table: Map<u32, BindingView>,
    name: u32,
    resolution: Resolution,
) -> OutputActionView {
    if is_pending(table, name) {
        match resolution {
            Resolution::Ready { ramp_size } => OutputActionView::Added(
                GammaControlView {
                    output_registry_name: name,
                    output_description: table[name].description,
                    samples: Seq::new(3 * ramp_size as nat, |at: int| 0u16),
                    last_config: None,
                },
            ),
            Resolution::Failed => OutputActionView::Fatal { description: table[name].description },
            Resolution::Cancelled => OutputActionView::Removed { name },
        }
    } else {
        OutputActionView::Nothing
    }
}

/// What the display server can report about outputs.
#[derive(Debug)]
pub enum OutputEvent {
    /// The registry advertises a global.
    Global { name: u32, interface: String },
    /// The registry withdraws a global.
    GlobalRemove { name: u32 },
    /// An output tells its description.
    Description { name: u32, description: String },
    /// The gamma control of an output tells the size of its ramps.
    GammaSize { name: u32, size: u32 },
    /// The gamma control of an output was refused.
    Failed { name: u32 },
}

/// What an [`OutputEvent`] holds.
pub enum OutputEventView {
    Global { name: u32, interface: Seq<char> },
    GlobalRemove { name: u32 },
    Description { name: u32, description: Seq<char> },
    GammaSize { name: u32, size: u32 },
    Failed { name: u32 },
}

impl View for OutputEvent {
    type V = OutputEventView;

    open spec fn view(&self) -> OutputEventView {
        match *self {
            OutputEvent::Global { name, interface } => OutputEventView::Global {
                name,
                interface: interface@,
            },
            OutputEvent::GlobalRemove { name } => OutputEventView::GlobalRemove { name },
            OutputEvent::Description { name, description } => OutputEventView::Description {
                name,
                description: description@,
            },
            OutputEvent::GammaSize { name, size } => OutputEventView::GammaSize { name, size },
            OutputEvent::Failed { name } => OutputEventView::Failed { name },
        }
    }
}

/// The table after an event.
pub open spec fn table_after(
    table: Map<u32, BindingView>,
    event: OutputEventView,
) -> Map<u32, BindingView> {
    match event {
        OutputEventView::Global { name, interface } => advertised(table, name, interface),
        OutputEventView::GlobalRemove { name } => table.remove(name),
        OutputEventView::Description { name, description } => described(
            table,
            name,
            description,
        ),
        OutputEventView::GammaSize { name, size } => resolved(
            table,
            name,
            Resolution::Ready { ramp_size: size },
        ),
        OutputEventView::Failed { name } => resolved(table, name, Resolution::Failed),
    }
}

/// What is to be done after an event.
pub open spec fn action_after(
    table: Map<u32, BindingView>,
    event: OutputEventView,
) -> OutputActionView {
    match event {
        OutputEventView::Global { name, interface } => advertise_action(table, name, interface),
        OutputEventView::GlobalRemove { name } => OutputActionView::Removed { name },
        OutputEventView::Description { .. } => OutputActionView::Nothing,
        OutputEventView::GammaSize { name, size } => resolution_action(
            table,
            name,
            Resolution::Ready { ramp_size: size },
        ),
        OutputEventView::Failed { name } => resolution_action(table, name, Resolution::Failed),
    }
}

/// An output that is advertised and withdrawn again before its gamma control
/// arrives leaves nothing behind: neither of the two events announces the
/// output, the table is what it was before, and a gamma control that turns
/// out ready afterwards is passed over and announces nothing.
pub proof fn lemma_withdrawn_while_pending(
    table: Map<u32, BindingView>,
    name: u32,
    interface: Seq<char>,
    size: u32,
)
    requires
        takes_up(table, name, interface),
    ensures
        ({
            let advertise = OutputEventView::Global { name, interface };
            let withdraw = OutputEventView::GlobalRemove { name };
            let ready = OutputEventView::GammaSize { name, size };
            let entered = table_after(table, advertise);
            let left = table_after(entered, withdraw);
            &&& is_pending(entered, name)
            &&& action_after(table, advertise) == (OutputActionView::Bind { name })
            &&& action_after(entered, withdraw) == (OutputActionView::Removed { name })
            &&& left == table
            &&& !left.dom().contains(name)
            &&& table_after(left, ready) == left
            &&& action_after(left, ready) == OutputActionView::Nothing
        }),
{
    let advertise = OutputEventView::Global { name, interface };
    let entered = table_after(table, advertise);
    assert(entered.remove(name) =~= table);
}

/// The table announces an output only when the gamma control of a pending
/// output turns out ready, and the output is bound from then on: the next
/// answer for it announces nothing.
pub proof fn lemma_announced_once(table: Map<u32, BindingView>, event: OutputEventView)
    requires
        action_after(table, event) is Added,
    ensures
        event matches OutputEventView::GammaSize { name, size } && is_pending(table, name) && {
            let after = table_after(table, event);
            &&& after.dom().contains(name)
            &&& after[name].state is Bound
            &&& after[name].description == table[name].description
            &&& action_after(table, event)->Added_0.output_registry_name == name
            &&& action_after(table, event)->Added_0.ramp_size() == size
            &&& action_after(after, event) == OutputActionView::Nothing
        },
{
}

/// An event about one output leaves what the table holds of every other
/// output as it is.
pub proof fn lemma_others_untouched(
    table: Map<u32, BindingView>,
    event: OutputEventView,
    other: u32,
)
    requires
        other != match event {
            OutputEventView::Global { name, .. } => name,
            OutputEventView::GlobalRemove { name } => name,
            OutputEventView::Description { name, .. } => name,
            OutputEventView::GammaSize { name, .. } => name,
            OutputEventView::Failed { name } => name,
        },
    ensures
        table_after(table, event).dom().contains(other) == table.dom().contains(other),
        table.dom().contains(other) ==> table_after(table, event)[other] == table[other],
{
}

/// The table of the outputs that the registry has advertised and not yet
/// withdrawn, each either waiting for its gamma control or bound to it.
pub struct OutputMonitor {
    rows: Vec<Binding>,
}

impl View for OutputMonitor {
    type V = Map<u32, BindingView>;

    closed spec fn view(&self) -> Map<u32, BindingView> {
        table_of(self.rows@)
    }
}

impl OutputMonitor {
    /// No output is in the table twice.
    pub closed spec fn wf(&self) -> bool {
        distinct(self.rows@)
    }

    /// An empty table.
    pub fn new() -> (monitor: OutputMonitor)
        ensures
            monitor.wf(),
            monitor@ == Map::<u32, BindingView>::empty(),
    {
        let monitor = OutputMonitor { rows: Vec::new() };
        proof {
            lemma_absent_all(monitor.rows@);
            assert(monitor@ =~= Map::<u32, BindingView>::empty());
        }
        monitor
    }

    /// Whether the table holds no output at all.
    pub fn is_empty(&self) -> (empty: bool)
        requires
            self.wf(),
        ensures
            empty == (self@ == Map::<u32, BindingView>::empty()),
    {
        let empty: bool = self.rows.len() == 0;
        proof {
            if empty {
                lemma_absent_all(self.rows@);
                assert(self@ =~= Map::<u32, BindingView>::empty());
            } else {
                lemma_row_found(self.rows@, 0);
            }
        }
        empty
    }

    /// The row of `name`, if there is one.
    fn find(&self, name: u32) -> (row: Option<&Binding>)
        requires
            self.wf(),
        ensures
            match row {
                Some(row) => self@.dom().contains(name) && self@[name] == row@,
                None => !self@.dom().contains(name),
            },
    {
        let mut index: usize = 0;
        while index < self.rows.len()
            invariant
                index <= self.rows.len(),
                self.wf(),
                forall|at: int|
                    0 <= at < index ==> (#[trigger] self.rows@[at]).registry_name != name,
            decreases self.rows.len() - index,
        {
            if self.rows[index].registry_name == name {
                proof {
                    lemma_row_found(self.rows@, index as int);
                }
                return Some(&self.rows[index]);
            }
            index += 1;
        }
        proof {
            lemma_absent(self.rows@, name);
        }
        None
    }

    /// How far the binding of the output `name` has come, if the table holds
    /// that output.
    pub fn state_of(&self, name: u32) -> (state: Option<BindingState>)
        requires
            self.wf(),
        ensures
            state is Some <==> self@.dom().contains(name),
            state matches Some(state) ==> state == self@[name].state,
    {
        match self.find(name) {
            Some(row) => Some(row.state),
            None => None,
        }
    }

    /// The description of the output `name`, if the table holds that output
    /// and its description has arrived.
    pub fn description_of(&self, name: u32) -> (description: Option<String>)
        requires
            self.wf(),
        ensures
            description_view(description) == if self@.dom().contains(name) {
                self@[name].description
            } else {
                None
            },
    {
        match self.find(name) {
            Some(row) => row.description.clone(),
            None => None,
        }
    }

    /// Takes the row of `name` out of the table, if there is one.
    fn take(&mut self, name: u32) -> (row: Option<Binding>)
        requires
            old(self).wf(),
        ensures
            final(self).wf(),
            final(self)@ == old(self)@.remove(name),
            !has_name(final(self).rows@, name),
            match row {
                Some(row) => old(self)@.dom().contains(name) && old(self)@[name] == row@
                    && row.registry_name == name,
                None => !old(self)@.dom().contains(name),
            },
    {
        let is_named = |row: &Binding| -> (found: bool)
            ensures
                found == (row.registry_name == name),
            { row.registry_name == name };
        let taken = self.rows.take_if(is_named);
        proof {
            let before = old(self).rows@;
            match &taken {
                Some(row) => {
                    let row = *row;
                    let at = choose|at: int|
                        {
                            &&& 0 <= at < before.len()
                            &&& row == #[trigger] before[at]
                            &&& call_ensures(is_named, (&row,), true)
                            &&& self.rows@ == before.update(at, before.last()).drop_last()
                        };
                    lemma_row_found(before, at);
                    lemma_taken(before, at);
                },
                None => {
                    assert forall|at: int| 0 <= at < before.len() implies (
                    #[trigger] before[at]).registry_name != name by {
                        assert(call_ensures(is_named, (&before[at],), false));
                    }
                    lemma_absent(before, name);
                    assert(self@ =~= old(self)@.remove(name));
                },
            }
        }
        taken
    }

    /// Puts a row into the table that holds none of its name.
    fn put(&mut self, row: Binding)
        requires
            old(self).wf(),
            !has_name(old(self).rows@, row.registry_name),
        ensures
            final(self).wf(),
            final(self)@ == old(self)@.insert(row.registry_name, row@),
    {
        proof {
            lemma_pushed(self.rows@, row);
        }
        self.rows.push(row);
    }

    /// The registry advertised a global. An output that the table does not
    /// hold yet is entered as pending and is to be bound.
    pub fn advertise(&mut self, name: u32, interface: &String) -> (action: OutputAction)
        requires
            old(self).wf(),
        ensures
            final(self).wf(),
            final(self)@ == advertised(old(self)@, name, interface@),
            action@ == advertise_action(old(self)@, name, interface@),
    {
        let output_interface: String = "wl_output".to_owned();
        if *interface != output_interface || self.find(name).is_some() {
            return OutputAction::Nothing;
        }
        self.put(Binding { registry_name: name, description: None, state: BindingState::Pending });
        OutputAction::Bind { name }
    }

    /// The description of an output arrived.
    pub fn describe(&mut self, name: u32, description: String)
        requires
            old(self).wf(),
        ensures
            final(self).wf(),
            final(self)@ == described(old(self)@, name, description@),
    {
        match self.take(name) {
            Some(row) => {
                self.put(
                    Binding {
                        registry_name: name,
                        description: Some(description),
                        state: row.state,
                    },
                );
                assert(self@ =~= described(old(self)@, name, description@));
            },
            None => {
                assert(self@ =~= old(self)@);
            },
        }
    }

    /// The wait for the gamma control of an output ended. An answer for an
    /// output that is not pending, because it went away or was answered
    /// before, is passed over.
    pub fn resolve(&mut self, name: u32, resolution: Resolution) -> (action: OutputAction)
        requires
            old(self).wf(),
            resolution matches Resolution::Ready { ramp_size } ==> ramp_size * 3 <= usize::MAX,
        ensures
            final(self).wf(),
            final(self)@ == resolved(old(self)@, name, resolution),
            action@ == resolution_action(old(self)@, name, resolution),
            action matches OutputAction::Added(control) ==> control.wf(),
    {
        let pending: bool = match self.find(name) {
            Some(row) => match row.state {
                BindingState::Pending => true,
                BindingState::Bound => false,
            },
            None => false,
        };
        if !pending {
            return OutputAction::Nothing;
        }
        let description: Option<String> = match self.take(name) {
            Some(row) => row.description,
            None => None,
        };
        match resolution {
            Resolution::Ready { ramp_size } => {
                self.put(
                    Binding {
                        registry_name: name,
                        description: description.clone(),
                        state: BindingState::Bound,
                    },
                );
                assert(self@ =~= resolved(old(self)@, name, resolution));
                OutputAction::Added(GammaControl::new(name, description, ramp_size as usize))
            },
            Resolution::Failed => OutputAction::Fatal { description },
            Resolution::Cancelled => OutputAction::Removed { name },
        }
    }

    /// The registry withdrew a global. Whatever the table holds of it goes,
    /// and the withdrawal is to be announced under its name.
    pub fn remove(&mut self, name: u32) -> (action: OutputAction)
        requires
            old(self).wf(),
        ensures
            final(self).wf(),
            final(self)@ == old(self)@.remove(name),
            action@ == (OutputActionView::Removed { name }),
    {
        let _ = self.take(name);
        OutputAction::Removed { name }
    }

    /// Takes in one event of the display server and says what is to be done
    /// about it.
    pub fn handle(&mut self, event: OutputEvent) -> (action: OutputAction)
        requires
            old(self).wf(),
            event matches OutputEvent::GammaSize { size, .. } ==> size * 3 <= usize::MAX,
        ensures
            final(self).wf(),
            final(self)@ == table_after(old(self)@, event@),
            action@ == action_after(old(self)@, event@),
            action matches OutputAction::Added(control) ==> control.wf(),
    {
        match event {
            OutputEvent::Global { name, interface } => self.advertise(name, &interface),
            OutputEvent::GlobalRemove { name } => self.remove(name),
            OutputEvent::Description { name, description } => {
                self.describe(name, description);
                OutputAction::Nothing
            },
            OutputEvent::GammaSize { name, size } => self.resolve(
                name,
                Resolution::Ready { ramp_size: size },
            ),
            OutputEvent::Failed { name } => self.resolve(name, Resolution::Failed),
        }
    }
}

} // verus!
