//! The orchestrator: what a running pipeline does next.
//!
//! The orchestrator neither reads nor writes. It is told what has happened,
//! as an [`Event`], and says what is to be done, as an [`Action`]; whoever
//! runs the pipeline does it and comes back with the event that answers the
//! action. A pipeline goes through these phases:
//!
//! - *built*: each input is started, in the order of the configuration. An
//!   input that refuses to start stops the pipeline; the inputs started
//!   before it stay started. No two inputs may bear the same identifier: a
//!   pipeline in which two do is rejected before anything is started.
//! - *running*: the orchestrator receives records in the order in which they
//!   arrive. It hands each record to every output, in the order of the
//!   configuration, and then acknowledges it to the input that read it. An
//!   output or an input that fails stops the pipeline, and the record is not
//!   acknowledged.
//! - *shutting down*: every input is shut down, in order, and the
//!   orchestrator goes on with the records that still arrive.
//! - *stopped*: once no input can send any more, or after a failure.

use vstd::prelude::*;

use crate::plugin::error::{
    ApplicationError, ApplicationErrorView, PluginError, PluginErrorView, ProcessError,
    ProcessErrorView,
};
use crate::plugin::{Payload, PayloadView};

verus! {

/// The phases of a pipeline.
#[derive(Debug, PartialEq, Eq, Clone, Copy, Structural)]
pub enum Phase {
    Built,
    Running,
    ShuttingDown,
    Stopped,
}

impl Phase {
    /// The place of the phase in the life of a pipeline.
    pub open spec fn rank(self) -> nat {
        match self {
            Phase::Built => 0,
            Phase::Running => 1,
            Phase::ShuttingDown => 2,
            Phase::Stopped => 3,
        }
    }
}

/// What has happened.
#[derive(Debug, PartialEq, Eq)]
pub enum Event {
    /// The pipeline is to start.
    Start,
    /// The input that was to start has started, or has refused.
    Started(Result<(), PluginError>),
    /// A record has arrived.
    Received(Payload),
    /// The output that was to take the record has taken it, or has failed.
    Consumed(Result<(), ProcessError>),
    /// The input has taken the acknowledgment, or has failed.
    Committed(Result<(), PluginError>),
    /// The pipeline is to shut down.
    Shutdown,
    /// The input that was to shut down has done so, or has failed.
    ShutDown(Result<(), PluginError>),
    /// No record will arrive any more: every read loop has ended.
    Closed,
}

/// What an [`Event`] is in contracts.
pub enum EventView {
    Start,
    Started(Result<(), PluginErrorView>),
    Received(PayloadView),
    Consumed(Result<(), ProcessErrorView>),
    Committed(Result<(), PluginErrorView>),
    Shutdown,
    ShutDown(Result<(), PluginErrorView>),
    Closed,
}

impl View for Event {
    type V = EventView;

    open spec fn view(&self) -> EventView {
        match self {
            Event::Start => EventView::Start,
            Event::Started(Ok(())) => EventView::Started(Ok(())),
            Event::Started(Err(error)) => EventView::Started(Err(error@)),
            Event::Received(payload) => EventView::Received(payload@),
            Event::Consumed(Ok(())) => EventView::Consumed(Ok(())),
            Event::Consumed(Err(error)) => EventView::Consumed(Err(error@)),
            Event::Committed(Ok(())) => EventView::Committed(Ok(())),
            Event::Committed(Err(error)) => EventView::Committed(Err(error@)),
            Event::Shutdown => EventView::Shutdown,
            Event::ShutDown(Ok(())) => EventView::ShutDown(Ok(())),
            Event::ShutDown(Err(error)) => EventView::ShutDown(Err(error@)),
            Event::Closed => EventView::Closed,
        }
    }
}

/// What is to be done. Inputs and outputs are named by their place in the
/// configuration, counted from 0.
#[derive(Debug, PartialEq, Eq)]
pub enum Action {
    /// Start the input; answer with [`Event::Started`].
    Start { input: usize },
    /// Wait for a record; answer with [`Event::Received`], with
    /// [`Event::Closed`], or with [`Event::Shutdown`].
    Receive,
    /// Hand the record in flight to the output; answer with
    /// [`Event::Consumed`].
    Consume { output: usize },
    /// Acknowledge the record `id` to the input; answer with
    /// [`Event::Committed`].
    Commit { input: usize, id: String },
    /// Shut the input down; answer with [`Event::ShutDown`].
    Shutdown { input: usize },
    /// The pipeline has stopped, with this result.
    Halt(Result<(), ApplicationError>),
    /// The event answers nothing that was asked. Nothing has changed, and
    /// what was asked last is still asked.
    Ignore,
}

/// What an [`Action`] is in contracts.
pub enum ActionView {
    Start { input: int },
    Receive,
    Consume { output: int },
    Commit { input: int, id: Seq<char> },
    Shutdown { input: int },
    Halt(Result<(), ApplicationErrorView>),
    Ignore,
}

impl View for Action {
    type V = ActionView;

    open spec fn view(&self) -> ActionView {
        match self {
            Action::Start { input } => ActionView::Start { input: *input as int },
            Action::Receive => ActionView::Receive,
            Action::Consume { output } => ActionView::Consume { output: *output as int },
            Action::Commit { input, id } => ActionView::Commit { input: *input as int, id: id@ },
            Action::Shutdown { input } => ActionView::Shutdown { input: *input as int },
            Action::Halt(Ok(())) => ActionView::Halt(Ok(())),
            Action::Halt(Err(error)) => ActionView::Halt(Err(error@)),
            Action::Ignore => ActionView::Ignore,
        }
    }
}

/// Where a pipeline stands, in contracts.
pub enum Stage {
    /// Nothing runs yet.
    Built,
    /// The input is asked to start; those before it have started.
    Starting { input: int },
    /// A record is waited for. While `draining`, the inputs are shut down.
    Idle { draining: bool },
    /// The output is asked to take the record; those before it have. The
    /// record will be acknowledged to the input.
    Consuming { output: int, input: int, payload: PayloadView, draining: bool },
    /// The input is asked to take the acknowledgment of the record.
    Committing { input: int, payload: PayloadView, draining: bool },
    /// The input is asked to shut down; those before it have.
    ShuttingDown { input: int },
    /// Nothing runs any more.
    Stopped,
}

/// What an [`Orchestrator`] is in contracts.
pub struct Pipeline {
    /// The identifiers of the inputs, in the order of the configuration.
    pub inputs: Seq<Seq<char>>,
    /// The number of outputs.
    pub outputs: nat,
    pub stage: Stage,
}

/// Whether no two inputs bear the same identifier.
pub open spec fn distinct(inputs: Seq<Seq<char>>) -> bool {
    forall|i: int, j: int| 0 <= i < j < inputs.len() ==> inputs[i] != inputs[j]
}

/// Whether the input at `j` is the first that bears the identifier of an
/// input before it.
pub open spec fn repeats_at(inputs: Seq<Seq<char>>, j: int) -> bool {
    &&& 0 <= j < inputs.len()
    &&& distinct(inputs.take(j))
    &&& exists|i: int| #![trigger inputs[i]] 0 <= i < j && inputs[i] == inputs[j]
}

/// The first identifier that an input bears after another input.
pub open spec fn first_repeated(inputs: Seq<Seq<char>>) -> Seq<char> {
    inputs[choose|j: int| repeats_at(inputs, j)]
}

/// What is said of an identifier that two inputs bear.
pub open spec fn ambiguous(identifier: Seq<char>) -> Seq<char> {
    "two inputs bear the identifier "@ + identifier
}

/// The error that rejects a pipeline in which two inputs bear `identifier`.
pub open spec fn rejection(identifier: Seq<char>) -> ApplicationErrorView {
    ApplicationErrorView::PluginError(PluginErrorView::NotInitialized(ambiguous(identifier)))
}

/// Identifiers are either pairwise distinct, or there is a first one that is
/// borne twice, and only one.
pub proof fn lemma_repeats(inputs: Seq<Seq<char>>)
    ensures
        distinct(inputs) <==> !exists|j: int| repeats_at(inputs, j),
        forall|j: int| repeats_at(inputs, j) ==> first_repeated(inputs) == #[trigger] inputs[j],
    decreases inputs.len(),
{
    assert forall|j: int, k: int| repeats_at(inputs, j) && repeats_at(inputs, k) implies j
        == k by {
        lemma_repeats_once(inputs, j, k);
    }
    if distinct(inputs) {
        assert forall|j: int| !repeats_at(inputs, j) by {
            if repeats_at(inputs, j) {
                let i = choose|i: int| #![trigger inputs[i]] 0 <= i < j && inputs[i] == inputs[j];
                assert(inputs[i] != inputs[j]);
            }
        }
    } else if inputs.len() > 0 {
        let before = inputs.drop_last();
        let last = inputs.len() - 1;
        lemma_repeats(before);
        if distinct(before) {
            // only the last identifier can repeat an earlier one
            assert(inputs.take(last) =~= before);
            let (a, b) = choose|a: int, b: int|
                0 <= a < b < inputs.len() && inputs[a] == inputs[b];
            if b < last {
                assert(before[a] == before[b]);
            }
            assert(inputs[a] == inputs[last]);
            assert(repeats_at(inputs, last));
        } else {
            // the first repeat among the earlier identifiers is the first of all
            let j = choose|j: int| repeats_at(before, j);
            let i = choose|i: int| #![trigger before[i]] 0 <= i < j && before[i] == before[j];
            assert(before.take(j) =~= inputs.take(j));
            assert(inputs[i] == inputs[j]);
            assert(repeats_at(inputs, j));
        }
    }
}

/// Only one input is the first to bear an identifier twice.
proof fn lemma_repeats_once(inputs: Seq<Seq<char>>, j: int, k: int)
    requires
        repeats_at(inputs, j),
        repeats_at(inputs, k),
    ensures
        j == k,
{
    if j < k {
        // the repeat at `j` lies among the identifiers before `k`
        let i = choose|i: int| #![trigger inputs[i]] 0 <= i < j && inputs[i] == inputs[j];
        assert(inputs.take(k)[i] == inputs.take(k)[j]);
    }
    if k < j {
        let i = choose|i: int| #![trigger inputs[i]] 0 <= i < k && inputs[i] == inputs[k];
        assert(inputs.take(j)[i] == inputs.take(j)[k]);
    }
}

/// The input that the records of `plugin_id` are acknowledged to: the one
/// that bears the identifier. Among inputs with pairwise distinct
/// identifiers there is at most one: see [`lemma_route`].
pub open spec fn route(inputs: Seq<Seq<char>>, plugin_id: Seq<char>) -> Option<int>
    decreases inputs.len(),
{
    if inputs.len() == 0 {
        None
    } else if inputs.last() == plugin_id {
        Some(inputs.len() - 1)
    } else {
        route(inputs.drop_last(), plugin_id)
    }
}

/// Among inputs with pairwise distinct identifiers, a record is routed to
/// the input that bears its identifier, and no other input bears it; a
/// record whose identifier no input bears is not routed.
pub proof fn lemma_route(inputs: Seq<Seq<char>>, plugin_id: Seq<char>)
    requires
        distinct(inputs),
    ensures
        match route(inputs, plugin_id) {
            Some(input) => {
                &&& 0 <= input < inputs.len()
                &&& inputs[input] == plugin_id
                &&& forall|other: int|
                    0 <= other < inputs.len() && other != input ==> #[trigger] inputs[other]
                        != plugin_id
            },
            None => forall|other: int|
                0 <= other < inputs.len() ==> #[trigger] inputs[other] != plugin_id,
        },
    decreases inputs.len(),
{
    if inputs.len() > 0 {
        let before = inputs.drop_last();
        assert forall|i: int, j: int| 0 <= i < j < before.len() implies before[i] != before[j] by {
            assert(before[i] == inputs[i] && before[j] == inputs[j]);
        }
        lemma_route(before, plugin_id);
        assert forall|other: int| 0 <= other < before.len() implies before[other]
            == #[trigger] inputs[other] by {}
    }
}

impl Pipeline {
    /// The phase of the pipeline.
    pub open spec fn phase(self) -> Phase {
        match self.stage {
            Stage::Built => Phase::Built,
            Stage::Starting { .. } => Phase::Built,
            Stage::Idle { draining } => if draining {
                Phase::ShuttingDown
            } else {
                Phase::Running
            },
            Stage::Consuming { draining, .. } => if draining {
                Phase::ShuttingDown
            } else {
                Phase::Running
            },
            Stage::Committing { draining, .. } => if draining {
                Phase::ShuttingDown
            } else {
                Phase::Running
            },
            Stage::ShuttingDown { .. } => Phase::ShuttingDown,
            Stage::Stopped => Phase::Stopped,
        }
    }

    /// Whether no two inputs bear the same identifier, the stage names
    /// inputs and outputs that the pipeline has, and a record in flight goes
    /// with the input that bears its identifier.
    pub open spec fn well_formed(self) -> bool {
        &&& distinct(self.inputs)
        &&& match self.stage {
            Stage::Starting { input } => 0 <= input < self.inputs.len(),
            Stage::Consuming { output, input, payload, .. } => 0 <= output < self.outputs
                && route(self.inputs, payload.plugin_id) == Some(input),
            Stage::Committing { input, payload, .. } => route(self.inputs, payload.plugin_id)
                == Some(input),
            Stage::ShuttingDown { input } => 0 <= input < self.inputs.len(),
            _ => true,
        }
    }

    /// The pipeline at another stage.
    pub open spec fn at(self, stage: Stage) -> Pipeline {
        Pipeline { stage, ..self }
    }

    /// Starts the inputs from `input` on; once all have started, the
    /// pipeline runs.
    pub open spec fn start_from(self, input: int) -> (Pipeline, ActionView) {
        if input < self.inputs.len() {
            (self.at(Stage::Starting { input }), ActionView::Start { input })
        } else {
            (self.at(Stage::Idle { draining: false }), ActionView::Receive)
        }
    }

    /// Hands the record to the outputs from `output` on; once all have taken
    /// it, acknowledges it to `input`, the input that it came from.
    pub open spec fn deliver_from(
        self,
        output: int,
        input: int,
        payload: PayloadView,
        draining: bool,
    ) -> (Pipeline, ActionView) {
        if output < self.outputs {
            (
                self.at(Stage::Consuming { output, input, payload, draining }),
                ActionView::Consume { output },
            )
        } else {
            (
                self.at(Stage::Committing { input, payload, draining }),
                ActionView::Commit { input, id: payload.id },
            )
        }
    }

    /// Shuts the inputs down from `input` on; once all are shut down, the
    /// pipeline takes the records that still arrive.
    pub open spec fn shut_down_from(self, input: int) -> (Pipeline, ActionView) {
        if input < self.inputs.len() {
            (self.at(Stage::ShuttingDown { input }), ActionView::Shutdown { input })
        } else {
            (self.at(Stage::Idle { draining: true }), ActionView::Receive)
        }
    }

    /// Stops the pipeline.
    pub open spec fn halt(self, result: Result<(), ApplicationErrorView>) -> (
        Pipeline,
        ActionView,
    ) {
        (self.at(Stage::Stopped), ActionView::Halt(result))
    }

    /// The pipeline after an event, and what is to be done.
    ///
    /// A pipeline in which two inputs bear the same identifier does not
    /// start: it stops at once, with the rejection of that identifier.
    pub open spec fn next(self, event: EventView) -> (Pipeline, ActionView) {
        match (self.stage, event) {
            (Stage::Built, EventView::Start) => {
                if distinct(self.inputs) {
                    self.start_from(0)
                } else {
                    self.halt(Err(rejection(first_repeated(self.inputs))))
                }
            },
            (Stage::Starting { input }, EventView::Started(Ok(()))) => self.start_from(input + 1),
            (Stage::Starting { .. }, EventView::Started(Err(error))) => self.halt(
                Err(ApplicationErrorView::PluginError(error)),
            ),
            (Stage::Idle { draining }, EventView::Received(payload)) => {
                match route(self.inputs, payload.plugin_id) {
                    Some(input) => self.deliver_from(0, input, payload, draining),
                    None => (self, ActionView::Ignore),
                }
            },
            (
                Stage::Consuming { output, input, payload, draining },
                EventView::Consumed(Ok(())),
            ) => self.deliver_from(output + 1, input, payload, draining),
            (Stage::Consuming { .. }, EventView::Consumed(Err(error))) => self.halt(
                Err(ApplicationError::of_process(error)),
            ),
            (Stage::Committing { draining, .. }, EventView::Committed(Ok(()))) => (
                self.at(Stage::Idle { draining }),
                ActionView::Receive,
            ),
            (Stage::Committing { .. }, EventView::Committed(Err(error))) => self.halt(
                Err(ApplicationErrorView::PluginError(error)),
            ),
            (Stage::Idle { draining: false }, EventView::Shutdown) => self.shut_down_from(0),
            (Stage::ShuttingDown { input }, EventView::ShutDown(Ok(()))) => self.shut_down_from(
                input + 1,
            ),
            (Stage::ShuttingDown { .. }, EventView::ShutDown(Err(error))) => self.halt(
                Err(ApplicationErrorView::PluginError(error)),
            ),
            (Stage::Idle { .. }, EventView::Closed) => self.halt(Ok(())),
            _ => (self, ActionView::Ignore),
        }
    }
}

/// Where a running pipeline stands. A record in flight goes with the input
/// that it is acknowledged to.
enum State {
    Built,
    Starting { input: usize },
    Idle { draining: bool },
    Consuming { output: usize, input: usize, payload: Payload, draining: bool },
    Committing { input: usize, payload: Payload, draining: bool },
    ShuttingDown { input: usize },
    Stopped,
}

impl View for State {
    type V = Stage;

    closed spec fn view(&self) -> Stage {
        match self {
            State::Built => Stage::Built,
            State::Starting { input } => Stage::Starting { input: *input as int },
            State::Idle { draining } => Stage::Idle { draining: *draining },
            State::Consuming { output, input, payload, draining } => Stage::Consuming {
                output: *output as int,
                input: *input as int,
                payload: payload@,
                draining: *draining,
            },
            State::Committing { input, payload, draining } => Stage::Committing {
                input: *input as int,
                payload: payload@,
                draining: *draining,
            },
            State::ShuttingDown { input } => Stage::ShuttingDown { input: *input as int },
            State::Stopped => Stage::Stopped,
        }
    }
}

/// The orchestrator of one pipeline.
pub struct Orchestrator {
    identifiers: Vec<String>,
    outputs: usize,
    state: State,
}

impl View for Orchestrator {
    type V = Pipeline;

    closed spec fn view(&self) -> Pipeline {
        Pipeline {
            inputs: self.identifiers.deep_view(),
            outputs: self.outputs as nat,
            stage: self.state@,
        }
    }
}

impl Orchestrator {
    #[verifier::type_invariant]
    spec fn sound(self) -> bool {
        self@.well_formed()
    }

    /// The orchestrator of a pipeline that is built: `identifiers` holds the
    /// identifier of each input, in the order of the configuration, and
    /// `outputs` is the number of outputs.
    ///
    /// No two inputs may bear the same identifier, since a record is
    /// acknowledged to the input that bears the identifier it carries. Where
    /// two do, the pipeline is rejected, with the first identifier that is
    /// borne twice.
    pub fn new(identifiers: Vec<String>, outputs: usize) -> (result: Result<Self, ApplicationError>)
        ensures
            result is Ok <==> distinct(identifiers.deep_view()),
            match result {
                Ok(orchestrator) => distinct(identifiers.deep_view()) && orchestrator@ == (
                Pipeline {
                    inputs: identifiers.deep_view(),
                    outputs: outputs as nat,
                    stage: Stage::Built,
                }),
                Err(error) => exists|j: int|
                    #![trigger identifiers.deep_view()[j]]
                    repeats_at(identifiers.deep_view(), j) && error@ == rejection(
                        identifiers.deep_view()[j],
                    ),
            },
    {
        let ghost inputs = identifiers.deep_view();
        let mut j: usize = 0;
        while j < identifiers.len()
            invariant
                j <= identifiers.len(),
                inputs == identifiers.deep_view(),
                distinct(inputs.take(j as int)),
            decreases identifiers.len() - j,
        {
            let mut i: usize = 0;
            while i < j
                invariant
                    i <= j < identifiers.len(),
                    inputs == identifiers.deep_view(),
                    distinct(inputs.take(j as int)),
                    forall|k: int| 0 <= k < i ==> #[trigger] inputs[k] != inputs[j as int],
                decreases j - i,
            {
                if identifiers[i] == identifiers[j] {
                    proof {
                        assert(inputs[i as int] == inputs[j as int]);
                        assert(repeats_at(inputs, j as int));
                    }
                    return Err(
                        ApplicationError::PluginError(
                            PluginError::NotInitialized(
                                String::from_str("two inputs bear the identifier ").concat(
                                    identifiers[j].as_str(),
                                ),
                            ),
                        ),
                    );
                }
                i = i + 1;
            }
            proof {
                let longer = inputs.take(j + 1);
                assert forall|a: int, b: int| 0 <= a < b < longer.len() implies longer[a]
                    != longer[b] by {
                    if b < j {
                        assert(inputs.take(j as int)[a] != inputs.take(j as int)[b]);
                    }
                }
            }
            j = j + 1;
        }
        assert(inputs.take(j as int) =~= inputs);
        Ok(Orchestrator { identifiers, outputs, state: State::Built })
    }

    /// The phase of the pipeline.
    pub fn phase(&self) -> (phase: Phase)
        ensures
            phase == self@.phase(),
    {
        match &self.state {
            State::Built => Phase::Built,
            State::Starting { .. } => Phase::Built,
            State::Idle { draining } => if *draining {
                Phase::ShuttingDown
            } else {
                Phase::Running
            },
            State::Consuming { draining, .. } => if *draining {
                Phase::ShuttingDown
            } else {
                Phase::Running
            },
            State::Committing { draining, .. } => if *draining {
                Phase::ShuttingDown
            } else {
                Phase::Running
            },
            State::ShuttingDown { .. } => Phase::ShuttingDown,
            State::Stopped => Phase::Stopped,
        }
    }

    /// The record in flight: the one that an output is asked to take, or an
    /// input to acknowledge.
    pub fn in_flight(&self) -> (record: Option<&Payload>)
        ensures
            match self@.stage {
                Stage::Consuming { payload, .. } => record matches Some(p) && p@ == payload,
                Stage::Committing { payload, .. } => record matches Some(p) && p@ == payload,
                _ => record is None,
            },
    {
        match &self.state {
            State::Consuming { payload, .. } => Some(payload),
            State::Committing { payload, .. } => Some(payload),
            _ => None,
        }
    }

    /// The input that the records of `plugin_id` are acknowledged to, if
    /// there is one.
    pub fn route(&self, plugin_id: &String) -> (input: Option<usize>)
        ensures
            match input {
                Some(i) => route(self@.inputs, plugin_id@) == Some(i as int),
                None => route(self@.inputs, plugin_id@) is None,
            },
    {
        let ghost inputs = self.identifiers.deep_view();
        let mut i = self.identifiers.len();
        assert(inputs.take(i as int) =~= inputs);
        while i > 0
            invariant
                i <= self.identifiers.len(),
                inputs == self.identifiers.deep_view(),
                route(inputs, plugin_id@) == route(inputs.take(i as int), plugin_id@),
            decreases i,
        {
            i = i - 1;
            proof {
                assert(inputs.take(i + 1).drop_last() =~= inputs.take(i as int));
            }
            if self.identifiers[i] == *plugin_id {
                return Some(i);
            }
        }
        None
    }

    /// Takes an event and says what is to be done.
    ///
    /// A record that is received must come from an input of the pipeline:
    /// see [`Orchestrator::route`].
    pub fn step(&mut self, event: Event) -> (action: Action)
        requires
            (old(self)@.stage is Idle && event@ is Received) ==> route(
                old(self)@.inputs,
                event@->Received_0.plugin_id,
            ) is Some,
        ensures
            (final(self)@, action@) == old(self)@.next(event@),
    {
        proof {
            use_type_invariant(&*self);
        }
        assert(self@.inputs.len() == self.identifiers.len());
        let mut state = State::Stopped;
        core::mem::swap(&mut state, &mut self.state);
        let (state, action) = match (state, event) {
            (State::Built, Event::Start) => self.start_from(0),
            (State::Starting { input }, Event::Started(Ok(()))) => self.start_from(input + 1),
            (State::Starting { .. }, Event::Started(Err(error))) => (
                State::Stopped,
                Action::Halt(Err(ApplicationError::PluginError(error))),
            ),
            (State::Idle { draining }, Event::Received(payload)) => {
                match self.route(&payload.plugin_id) {
                    Some(input) => self.deliver_from(0, input, payload, draining),
                    None => (State::Idle { draining }, Action::Ignore),
                }
            },
            (State::Consuming { output, input, payload, draining }, Event::Consumed(Ok(()))) => {
                self.deliver_from(output + 1, input, payload, draining)
            },
            (State::Consuming { .. }, Event::Consumed(Err(error))) => (
                State::Stopped,
                Action::Halt(Err(ApplicationError::from_process(error))),
            ),
            (State::Committing { draining, .. }, Event::Committed(Ok(()))) => (
                State::Idle { draining },
                Action::Receive,
            ),
            (State::Committing { .. }, Event::Committed(Err(error))) => (
                State::Stopped,
                Action::Halt(Err(ApplicationError::PluginError(error))),
            ),
            (State::Idle { draining: false }, Event::Shutdown) => self.shut_down_from(0),
            (State::ShuttingDown { input }, Event::ShutDown(Ok(()))) => self.shut_down_from(
                input + 1,
            ),
            (State::ShuttingDown { .. }, Event::ShutDown(Err(error))) => (
                State::Stopped,
                Action::Halt(Err(ApplicationError::PluginError(error))),
            ),
            (State::Idle { .. }, Event::Closed) => (State::Stopped, Action::Halt(Ok(()))),
            (state, _) => (state, Action::Ignore),
        };
        self.state = state;
        action
    }

    fn start_from(&self, input: usize) -> (next: (State, Action))
        requires
            input <= self.identifiers.len(),
        ensures
            (self@.at(next.0@), next.1@) == self@.start_from(input as int),
            distinct(self@.inputs) ==> self@.at(next.0@).well_formed(),
    {
        if input < self.identifiers.len() {
            (State::Starting { input }, Action::Start { input })
        } else {
            (State::Idle { draining: false }, Action::Receive)
        }
    }

    fn deliver_from(&self, output: usize, input: usize, payload: Payload, draining: bool) -> (next:
        (State, Action))
        requires
            output <= self.outputs,
            route(self@.inputs, payload@.plugin_id) == Some(input as int),
        ensures
            (self@.at(next.0@), next.1@) == self@.deliver_from(
                output as int,
                input as int,
                payload@,
                draining,
            ),
            distinct(self@.inputs) ==> self@.at(next.0@).well_formed(),
    {
        if output < self.outputs {
            (State::Consuming { output, input, payload, draining }, Action::Consume { output })
        } else {
            let id = payload.id.clone();
            (State::Committing { input, payload, draining }, Action::Commit { input, id })
        }
    }

    fn shut_down_from(&self, input: usize) -> (next: (State, Action))
        requires
            input <= self.identifiers.len(),
        ensures
            (self@.at(next.0@), next.1@) == self@.shut_down_from(input as int),
            distinct(self@.inputs) ==> self@.at(next.0@).well_formed(),
    {
        if input < self.identifiers.len() {
            (State::ShuttingDown { input }, Action::Shutdown { input })
        } else {
            (State::Idle { draining: true }, Action::Receive)
        }
    }
}

/// The pipeline after a run of events, and what was to be done after each.
pub open spec fn run(pre: Pipeline, events: Seq<EventView>) -> (Pipeline, Seq<ActionView>)
    decreases events.len(),
{
    if events.len() == 0 {
        (pre, Seq::empty())
    } else {
        let (before, actions) = run(pre, events.drop_last());
        let (after, action) = before.next(events.last());
        (after, actions.push(action))
    }
}

/// An event leaves the inputs and outputs of a pipeline as they are, and a
/// well-formed pipeline well-formed.
pub proof fn lemma_next_keeps(pre: Pipeline, event: EventView)
    ensures
        pre.next(event).0.inputs == pre.inputs,
        pre.next(event).0.outputs == pre.outputs,
        pre.well_formed() ==> pre.next(event).0.well_formed(),
{
}

/// A run gives one action for each event, leaves the inputs and outputs as
/// they are, and a well-formed pipeline well-formed.
pub proof fn lemma_run_keeps(pre: Pipeline, events: Seq<EventView>)
    ensures
        run(pre, events).1.len() == events.len(),
        run(pre, events).0.inputs == pre.inputs,
        run(pre, events).0.outputs == pre.outputs,
        pre.well_formed() ==> run(pre, events).0.well_formed(),
    decreases events.len(),
{
    if events.len() > 0 {
        lemma_run_keeps(pre, events.drop_last());
        lemma_next_keeps(run(pre, events.drop_last()).0, events.last());
    }
}

/// A run can be taken in two parts: the actions of the first part are those
/// of the whole run.
pub proof fn lemma_run_start(pre: Pipeline, events: Seq<EventView>, k: int)
    requires
        0 <= k <= events.len(),
    ensures
        run(pre, events.take(k)).1 == run(pre, events).1.take(k),
        k < events.len() ==> run(pre, events).1[k] == run(pre, events.take(k)).0.next(
            events[k],
        ).1,
    decreases events.len() - k,
{
    lemma_run_keeps(pre, events);
    lemma_run_keeps(pre, events.take(k));
    if k == events.len() {
        assert(events.take(k) =~= events);
    } else {
        let longer = events.take(k + 1);
        assert(longer.drop_last() =~= events.take(k));
        lemma_run_start(pre, events, k + 1);
        assert(run(pre, events).1.take(k + 1)[k] == run(pre, events).1[k]);
    }
}

/// A pipeline that has stopped stays stopped and asks for nothing more.
pub proof fn lemma_stopped_stays(pre: Pipeline, events: Seq<EventView>)
    requires
        pre.stage is Stopped,
    ensures
        run(pre, events).0 == pre,
        forall|j: int| 0 <= j < events.len() ==> #[trigger] run(pre, events).1[j] is Ignore,
    decreases events.len(),
{
    lemma_run_keeps(pre, events);
    if events.len() > 0 {
        lemma_stopped_stays(pre, events.drop_last());
        lemma_run_keeps(pre, events.drop_last());
    }
}

/// A record is acknowledged only once its last output has taken it: the
/// acknowledgment answers the news that the last output has taken the record
/// in flight, or, in a pipeline without outputs, the arrival of the record.
/// It names the record in flight, and it goes to the input that bears the
/// identifier which the record carries: no other input bears it.
pub proof fn lemma_commit_follows_delivery(pre: Pipeline, event: EventView)
    requires
        pre.well_formed(),
        pre.next(event).1 is Commit,
    ensures
        ({
            let input = pre.next(event).1->Commit_input;
            let id = pre.next(event).1->Commit_id;
            let payload = pre.next(event).0.stage->Committing_payload;
            &&& pre.next(event).0.stage is Committing
            &&& id == payload.id
            &&& 0 <= input < pre.inputs.len()
            &&& pre.inputs[input] == payload.plugin_id
            &&& forall|other: int|
                0 <= other < pre.inputs.len() && other != input ==> #[trigger] pre.inputs[other]
                    != payload.plugin_id
            &&& {
                ||| {
                    &&& pre.stage matches Stage::Consuming { output, payload: taken, .. }
                    &&& event matches EventView::Consumed(Ok(_))
                    &&& output + 1 >= pre.outputs
                    &&& taken == payload
                }
                ||| {
                    &&& pre.stage is Idle
                    &&& event matches EventView::Received(arrived)
                    &&& pre.outputs == 0
                    &&& arrived == payload
                }
            }
        }),
{
    lemma_next_keeps(pre, event);
    lemma_route(pre.inputs, pre.next(event).0.stage->Committing_payload.plugin_id);
}

/// A pipeline in which two inputs bear the same identifier is rejected when
/// it is to start: it stops with the rejection of the first identifier that
/// is borne twice, no input is started, and nothing is asked from then on.
pub proof fn lemma_ambiguity_is_rejected(pre: Pipeline, j: int, events: Seq<EventView>)
    requires
        pre.stage is Built,
        repeats_at(pre.inputs, j),
    ensures
        pre.next(EventView::Start) == (
            pre.at(Stage::Stopped),
            ActionView::Halt(Err(rejection(pre.inputs[j]))),
        ),
        forall|k: int|
            0 <= k < events.len() ==> #[trigger] run(pre.at(Stage::Stopped), events).1[k]
                is Ignore,
{
    lemma_repeats(pre.inputs);
    lemma_stopped_stays(pre.at(Stage::Stopped), events);
}

/// When an output fails, the pipeline stops with the failure, and nothing
/// is acknowledged from then on: neither the record that the output failed
/// to take nor any other.
pub proof fn lemma_no_commit_after_failure(pre: Pipeline, events: Seq<EventView>, k: int)
    requires
        0 <= k < events.len(),
        run(pre, events.take(k)).0.stage is Consuming,
        events[k] matches EventView::Consumed(Err(_)),
    ensures
        run(pre, events).1[k] == ActionView::Halt(
            Err(ApplicationError::of_process(events[k]->Consumed_0->Err_0)),
        ),
        forall|j: int| k <= j < events.len() ==> !(#[trigger] run(pre, events).1[j] is Commit),
{
    let before = run(pre, events.take(k)).0;
    let stopped = before.next(events[k]).0;
    lemma_run_start(pre, events, k);
    assert forall|j: int| k < j < events.len() implies !(#[trigger] run(pre, events).1[j]
        is Commit) by {
        lemma_run_start(pre, events, j);
        lemma_run_start(pre, events, k + 1);
        assert(events.take(k + 1).drop_last() =~= events.take(k));
        lemma_run_split(pre, events.take(j), k + 1);
        assert(events.take(j).take(k + 1) =~= events.take(k + 1));
        lemma_stopped_stays(stopped, events.take(j).skip(k + 1));
    }
}

/// A run in two parts ends where the second part ends when it starts where
/// the first part ends.
pub proof fn lemma_run_split(pre: Pipeline, events: Seq<EventView>, k: int)
    requires
        0 <= k <= events.len(),
    ensures
        run(pre, events).0 == run(run(pre, events.take(k)).0, events.skip(k)).0,
    decreases events.len(),
{
    if k == events.len() {
        assert(events.take(k) =~= events);
    } else {
        lemma_run_split(pre, events.drop_last(), k);
        assert(events.drop_last().take(k) =~= events.take(k));
        assert(events.drop_last().skip(k) =~= events.skip(k).drop_last());
    }
}

/// The events of one delivery without a failure: the record arrives, each
/// of the outputs takes it, and the input takes the acknowledgment.
pub open spec fn delivery(payload: PayloadView, outputs: nat) -> Seq<EventView> {
    Seq::new(
        outputs + 2,
        |i: int|
            if i == 0 {
                EventView::Received(payload)
            } else if i <= outputs {
                EventView::Consumed(Ok(()))
            } else {
                EventView::Committed(Ok(()))
            },
    )
}

/// What is to be done in one delivery without a failure: each output takes
/// the record, in the order of the configuration; then the record is
/// acknowledged to its input; then the next record is waited for.
pub open spec fn delivery_actions(input: int, id: Seq<char>, outputs: nat) -> Seq<ActionView> {
    Seq::new(
        outputs + 2,
        |i: int|
            if i < outputs {
                ActionView::Consume { output: i }
            } else if i == outputs {
                ActionView::Commit { input, id }
            } else {
                ActionView::Receive
            },
    )
}

proof fn lemma_delivery_start(pre: Pipeline, payload: PayloadView, k: int)
    requires
        pre.stage is Idle,
        route(pre.inputs, payload.plugin_id) is Some,
        1 <= k <= pre.outputs + 1,
    ensures
        run(pre, delivery(payload, pre.outputs).take(k)).0 == pre.deliver_from(
            k - 1,
            route(pre.inputs, payload.plugin_id)->Some_0,
            payload,
            pre.stage->Idle_draining,
        ).0,
        run(pre, delivery(payload, pre.outputs).take(k)).1 == delivery_actions(
            route(pre.inputs, payload.plugin_id)->Some_0,
            payload.id,
            pre.outputs,
        ).take(k),
    decreases k,
{
    let events = delivery(payload, pre.outputs);
    let actions = delivery_actions(
        route(pre.inputs, payload.plugin_id)->Some_0,
        payload.id,
        pre.outputs,
    );
    assert(events.take(k).drop_last() =~= events.take(k - 1));
    if k > 1 {
        lemma_delivery_start(pre, payload, k - 1);
    }
    assert(run(pre, events.take(k)).1 =~= actions.take(k));
}

/// A record that arrives at a waiting pipeline and that every output takes
/// goes to the outputs in the order of the configuration, is then
/// acknowledged to the input that it came from, under its own identifier,
/// and leaves the pipeline waiting again.
pub proof fn lemma_delivery(pre: Pipeline, payload: PayloadView)
    requires
        pre.stage is Idle,
        route(pre.inputs, payload.plugin_id) is Some,
    ensures
        run(pre, delivery(payload, pre.outputs)) == (
            pre,
            delivery_actions(
                route(pre.inputs, payload.plugin_id)->Some_0,
                payload.id,
                pre.outputs,
            ),
        ),
{
    let events = delivery(payload, pre.outputs);
    lemma_delivery_start(pre, payload, (pre.outputs + 1) as int);
    assert(events.drop_last() =~= events.take((pre.outputs + 1) as int));
}

/// A pipeline never goes back to an earlier phase.
pub proof fn lemma_phase_advances(pre: Pipeline, event: EventView)
    ensures
        pre.phase().rank() <= pre.next(event).0.phase().rank(),
{
}

/// A run in two parts does in its second part what a run of the second part
/// does that starts where the first part ends.
pub proof fn lemma_run_concat(pre: Pipeline, first: Seq<EventView>, second: Seq<EventView>)
    ensures
        run(pre, first + second).0 == run(run(pre, first).0, second).0,
        run(pre, first + second).1 == run(pre, first).1 + run(run(pre, first).0, second).1,
    decreases second.len(),
{
    if second.len() == 0 {
        assert(first + second =~= first);
    } else {
        lemma_run_concat(pre, first, second.drop_last());
        assert((first + second).drop_last() =~= first + second.drop_last());
    }
}

/// The events of a start without a refusal: the word to start, and the
/// news that each input has started.
pub open spec fn startup(inputs: nat) -> Seq<EventView> {
    Seq::new(
        inputs + 1,
        |i: int|
            if i == 0 {
                EventView::Start
            } else {
                EventView::Started(Ok(()))
            },
    )
}

/// What is to be done in a start without a refusal: each input starts, in
/// the order of the configuration; then the first record is waited for.
pub open spec fn startup_actions(inputs: nat) -> Seq<ActionView> {
    Seq::new(
        inputs + 1,
        |i: int|
            if i < inputs {
                ActionView::Start { input: i }
            } else {
                ActionView::Receive
            },
    )
}

proof fn lemma_startup_start(pre: Pipeline, k: int)
    requires
        pre.stage is Built,
        distinct(pre.inputs),
        1 <= k <= pre.inputs.len() + 1,
    ensures
        run(pre, startup(pre.inputs.len()).take(k)).0 == pre.start_from(k - 1).0,
        run(pre, startup(pre.inputs.len()).take(k)).1 == startup_actions(pre.inputs.len()).take(
            k,
        ),
    decreases k,
{
    let events = startup(pre.inputs.len());
    let actions = startup_actions(pre.inputs.len());
    assert(events.take(k).drop_last() =~= events.take(k - 1));
    if k > 1 {
        lemma_startup_start(pre, k - 1);
    }
    assert(run(pre, events.take(k)).1 =~= actions.take(k));
}

/// A built pipeline whose inputs bear distinct identifiers and all start
/// asks each of them to start, in the order of the configuration, and then
/// runs and waits for a record.
pub proof fn lemma_startup(pre: Pipeline)
    requires
        pre.stage is Built,
        distinct(pre.inputs),
    ensures
        run(pre, startup(pre.inputs.len())) == (
            pre.at(Stage::Idle { draining: false }),
            startup_actions(pre.inputs.len()),
        ),
{
    let events = startup(pre.inputs.len());
    lemma_startup_start(pre, (pre.inputs.len() + 1) as int);
    assert(events.take((pre.inputs.len() + 1) as int) =~= events);
}

/// An input that refuses to start stops the pipeline with its refusal, and
/// no input after it is asked to start.
pub proof fn lemma_refused_start_stops(
    pre: Pipeline,
    refusal: PluginErrorView,
    events: Seq<EventView>,
)
    requires
        pre.stage is Starting,
    ensures
        pre.next(EventView::Started(Err(refusal))) == (
            pre.at(Stage::Stopped),
            ActionView::Halt(Err(ApplicationErrorView::PluginError(refusal))),
        ),
        forall|j: int|
            0 <= j < events.len() ==> #[trigger] run(
                pre.next(EventView::Started(Err(refusal))).0,
                events,
            ).1[j] is Ignore,
{
    lemma_stopped_stays(pre.at(Stage::Stopped), events);
}

/// The events of a shutdown without a failure: the word to shut down, and
/// the news that each input has shut down.
pub open spec fn shutdown(inputs: nat) -> Seq<EventView> {
    Seq::new(
        inputs + 1,
        |i: int|
            if i == 0 {
                EventView::Shutdown
            } else {
                EventView::ShutDown(Ok(()))
            },
    )
}

/// What is to be done in a shutdown without a failure: each input shuts
/// down, in the order of the configuration; then the records that still
/// arrive are waited for.
pub open spec fn shutdown_actions(inputs: nat) -> Seq<ActionView> {
    Seq::new(
        inputs + 1,
        |i: int|
            if i < inputs {
                ActionView::Shutdown { input: i }
            } else {
                ActionView::Receive
            },
    )
}

proof fn lemma_shutdown_start(pre: Pipeline, k: int)
    requires
        pre.stage == (Stage::Idle { draining: false }),
        1 <= k <= pre.inputs.len() + 1,
    ensures
        run(pre, shutdown(pre.inputs.len()).take(k)).0 == pre.shut_down_from(k - 1).0,
        run(pre, shutdown(pre.inputs.len()).take(k)).1 == shutdown_actions(
            pre.inputs.len(),
        ).take(k),
    decreases k,
{
    let events = shutdown(pre.inputs.len());
    let actions = shutdown_actions(pre.inputs.len());
    assert(events.take(k).drop_last() =~= events.take(k - 1));
    if k > 1 {
        lemma_shutdown_start(pre, k - 1);
    }
    assert(run(pre, events.take(k)).1 =~= actions.take(k));
}

/// A running pipeline that is told to shut down, while it waits for a
/// record, asks each input to shut down, in the order of the configuration,
/// and then waits for the records that still arrive, until none can.
pub proof fn lemma_shutdown(pre: Pipeline)
    requires
        pre.stage == (Stage::Idle { draining: false }),
    ensures
        run(pre, shutdown(pre.inputs.len())) == (
            pre.at(Stage::Idle { draining: true }),
            shutdown_actions(pre.inputs.len()),
        ),
        pre.at(Stage::Idle { draining: true }).next(EventView::Closed) == (
            pre.at(Stage::Stopped),
            ActionView::Halt(Ok(())),
        ),
{
    let events = shutdown(pre.inputs.len());
    lemma_shutdown_start(pre, (pre.inputs.len() + 1) as int);
    assert(events.take((pre.inputs.len() + 1) as int) =~= events);
}

/// The events of the deliveries of `records`, one after the other.
pub open spec fn deliveries(records: Seq<PayloadView>, outputs: nat) -> Seq<EventView>
    decreases records.len(),
{
    if records.len() == 0 {
        Seq::empty()
    } else {
        deliveries(records.drop_last(), outputs) + delivery(records.last(), outputs)
    }
}

/// What is to be done in the deliveries of `records`, one after the other.
pub open spec fn deliveries_actions(
    inputs: Seq<Seq<char>>,
    records: Seq<PayloadView>,
    outputs: nat,
) -> Seq<ActionView>
    decreases records.len(),
{
    if records.len() == 0 {
        Seq::empty()
    } else {
        deliveries_actions(inputs, records.drop_last(), outputs) + delivery_actions(
            route(inputs, records.last().plugin_id)->Some_0,
            records.last().id,
            outputs,
        )
    }
}

/// Records are delivered in the order in which they arrive: each goes to
/// every output and is acknowledged to its input before the next one is
/// taken up.
pub proof fn lemma_deliveries(pre: Pipeline, records: Seq<PayloadView>)
    requires
        pre.stage is Idle,
        forall|i: int|
            0 <= i < records.len() ==> route(pre.inputs, (#[trigger] records[i]).plugin_id)
                is Some,
    ensures
        run(pre, deliveries(records, pre.outputs)) == (
            pre,
            deliveries_actions(pre.inputs, records, pre.outputs),
        ),
    decreases records.len(),
{
    if records.len() > 0 {
        let before = records.drop_last();
        lemma_deliveries(pre, before);
        lemma_delivery(pre, records.last());
        lemma_run_concat(
            pre,
            deliveries(before, pre.outputs),
            delivery(records.last(), pre.outputs),
        );
    }
}

} // verus!
