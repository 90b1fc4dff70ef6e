//! The input that reads a stream line by line.

use vstd::prelude::*;

use crate::config::{find, value_of, AttributeValue, Binding, InputConfigOption};
use crate::plugin::error::{PluginError, PluginErrorView};
use crate::plugin::{Payload, PayloadView};
use crate::text::{append_decimal, decimal, lemma_decimal_injective, lemma_same_start};

verus! {

/// The identifier of the `count`-th record of the input called `name`.
pub open spec fn id_text(name: Seq<char>, count: nat) -> Seq<char> {
    name + "-"@ + decimal(count)
}

/// Names the records of one input: the name of the input and a count that
/// only grows.
#[derive(Debug)]
pub struct IdGen {
    count: u64,
    name: String,
}

/// What an [`IdGen`] is in contracts.
pub struct IdGenView {
    /// How many identifiers were handed out.
    pub count: nat,
    pub name: Seq<char>,
}

impl View for IdGen {
    type V = IdGenView;

    closed spec fn view(&self) -> IdGenView {
        IdGenView { count: self.count as nat, name: self.name@ }
    }
}

impl IdGen {
    /// A generator that has handed out nothing yet.
    pub fn new(name: String) -> (ids: Self)
        ensures
            ids@ == (IdGenView { count: 0, name: name@ }),
    {
        Self { count: 0, name }
    }

    /// Whether every identifier has been handed out.
    pub fn exhausted(&self) -> (b: bool)
        ensures
            b == (self@.count >= u64::MAX),
    {
        self.count == u64::MAX
    }

    /// The next identifier: the name, `-` and the new count in decimal.
    pub fn next(&mut self) -> (id: String)
        requires
            old(self)@.count < u64::MAX,
        ensures
            final(self)@ == (IdGenView { count: old(self)@.count + 1, name: old(self)@.name }),
            id@ == id_text(old(self)@.name, old(self)@.count + 1),
    {
        self.count = self.count + 1;
        let mut id = self.name.clone();
        id.append("-");
        append_decimal(&mut id, self.count);
        id
    }
}

/// Two counts give one input two identifiers.
pub proof fn lemma_ids_differ(name: Seq<char>, a: nat, b: nat)
    requires
        a != b,
    ensures
        id_text(name, a) != id_text(name, b),
{
    if id_text(name, a) == id_text(name, b) {
        lemma_same_start(name + "-"@, decimal(a), decimal(b));
        lemma_decimal_injective(a, b);
    }
}

/// The identifier of an input with the attributes `config`: the value of
/// the attribute `name` where it is bound, else `ReaderPlugin`.
pub open spec fn identifier_of(config: Seq<Binding>) -> Seq<char> {
    match value_of(config, InputConfigOption::Name.key()) {
        Some(value) => value.text(),
        None => "ReaderPlugin"@,
    }
}

/// An input that reads lines. This is what the plugin knows and decides;
/// the stream itself, the task that reads it and the signal that cancels the
/// task belong to whoever runs the plugin.
pub struct ReaderPlugin {
    config: Vec<(String, AttributeValue)>,
    cancellable: bool,
    reader: bool,
}

/// `StdinPlugin` reads the lines of the standard input. It does not keep
/// what it has read: a record that was not delivered is not read again.
pub type StdinPlugin = ReaderPlugin;

/// What a [`ReaderPlugin`] is in contracts.
pub struct ReaderPluginView {
    /// The attributes that the plugin was configured with.
    pub config: Seq<Binding>,
    /// Whether a signal that cancels the read loop is held.
    pub cancellable: bool,
    /// Whether a stream is attached that no read loop has taken yet.
    pub reader: bool,
}

impl View for ReaderPlugin {
    type V = ReaderPluginView;

    closed spec fn view(&self) -> ReaderPluginView {
        ReaderPluginView {
            config: self.config.deep_view(),
            cancellable: self.cancellable,
            reader: self.reader,
        }
    }
}

/// What is said of a plugin that is started without a stream.
pub open spec fn no_reader() -> Seq<char> {
    "must initialize reader before calling start"@
}

impl ReaderPluginView {
    /// The plugin after a start that was not refused: it holds a cancelling
    /// signal, and its stream is taken.
    pub open spec fn started(self) -> ReaderPluginView {
        ReaderPluginView { cancellable: true, reader: false, ..self }
    }

    /// The plugin after a shutdown: it holds no cancelling signal.
    pub open spec fn shut_down(self) -> ReaderPluginView {
        ReaderPluginView { cancellable: false, ..self }
    }
}

/// A plugin that has started is cancelled by its first shutdown, and by
/// no later one.
pub proof fn lemma_shutdown_signals_once(plugin: ReaderPluginView)
    ensures
        plugin.started().cancellable,
        !plugin.started().shut_down().cancellable,
        !plugin.started().shut_down().shut_down().cancellable,
        plugin.started().shut_down().config == plugin.config,
{
}

impl ReaderPlugin {
    /// A plugin with a stream attached, ready to start.
    pub fn new(config: Vec<(String, AttributeValue)>) -> (plugin: Self)
        ensures
            plugin@ == (ReaderPluginView {
                config: config.deep_view(),
                cancellable: false,
                reader: true,
            }),
    {
        Self { config, cancellable: false, reader: true }
    }

    /// A plugin without a stream. It cannot start.
    pub fn without_reader(config: Vec<(String, AttributeValue)>) -> (plugin: Self)
        ensures
            plugin@ == (ReaderPluginView {
                config: config.deep_view(),
                cancellable: false,
                reader: false,
            }),
    {
        Self { config, cancellable: false, reader: false }
    }

    /// Starts the plugin: hands out the read loop that whoever runs the
    /// plugin sets going, together with the stream.
    ///
    /// A plugin that starts holds a cancelling signal from now on. Without a
    /// stream the plugin refuses: it hands out no read loop and stays as it
    /// is. So does a plugin that has started before, whose stream is taken:
    /// the loop that runs for it is not disturbed.
    pub fn start(&mut self) -> (result: Result<ReadLoop, PluginError>)
        ensures
            match result {
                Ok(read_loop) => {
                    &&& old(self)@.reader
                    &&& final(self)@ == old(self)@.started()
                    &&& read_loop@ == ReadLoopView::fresh(identifier_of(old(self)@.config))
                },
                Err(error) => {
                    &&& !old(self)@.reader
                    &&& final(self)@ == old(self)@
                    &&& error@ == PluginErrorView::NotInitialized(no_reader())
                },
            },
    {
        if !self.reader {
            return Err(
                PluginError::NotInitialized(
                    String::from_str("must initialize reader before calling start"),
                ),
            );
        }
        self.cancellable = true;
        self.reader = false;
        let ids = IdGen::new(self.identifier());
        let identifier = self.identifier();
        Ok(ReadLoop { ids, identifier, finished: false })
    }

    /// Acknowledges a record. The plugin keeps nothing of what it has read,
    /// so there is nothing to do, and nothing can fail.
    pub fn commit(&mut self, id: String) -> (result: Result<(), PluginError>)
        ensures
            result is Ok,
            final(self)@ == old(self)@,
    {
        Ok(())
    }

    /// Shuts the plugin down. The result says whether the cancelling signal
    /// is to be sent: it is when the plugin holds one, which it then gives
    /// up, so that a second shutdown sends nothing.
    pub fn shutdown(&mut self) -> (result: Result<bool, PluginError>)
        ensures
            result matches Ok(signal) && signal == old(self)@.cancellable,
            final(self)@ == old(self)@.shut_down(),
    {
        let signal = self.cancellable;
        self.cancellable = false;
        Ok(signal)
    }

    /// The identifier of the plugin instance, by which its records find
    /// their way back to it.
    pub fn identifier(&self) -> (identifier: String)
        ensures
            identifier@ == identifier_of(self@.config),
    {
        let key = InputConfigOption::Name.to_string();
        match find(&self.config, &key) {
            Some(i) => self.config[i].1.to_string(),
            None => String::from_str("ReaderPlugin"),
        }
    }
}

/// What the task that reads for a plugin knows: the names for its records
/// and whether it has come to its end.
pub struct ReadLoop {
    ids: IdGen,
    identifier: String,
    finished: bool,
}

/// What a [`ReadLoop`] is in contracts.
pub struct ReadLoopView {
    pub ids: IdGenView,
    /// The identifier of the plugin that the loop reads for.
    pub identifier: Seq<char>,
    /// Whether the loop has ended.
    pub finished: bool,
}

impl View for ReadLoop {
    type V = ReadLoopView;

    closed spec fn view(&self) -> ReadLoopView {
        ReadLoopView { ids: self.ids@, identifier: self.identifier@, finished: self.finished }
    }
}

impl ReadLoopView {
    /// The loop of a plugin that has just started.
    pub open spec fn fresh(identifier: Seq<char>) -> ReadLoopView {
        ReadLoopView {
            ids: IdGenView { count: 0, name: identifier },
            identifier,
            finished: false,
        }
    }
}

/// What can happen while a read loop waits.
#[derive(Debug, PartialEq, Eq)]
pub enum ReadEvent {
    /// The stream gave a line.
    Line(String),
    /// The stream has ended.
    End,
    /// Reading failed; the text is the report of the failure.
    Failed(String),
    /// The cancelling signal arrived.
    Cancelled,
}

/// What a [`ReadEvent`] is in contracts.
pub enum ReadEventView {
    Line(Seq<char>),
    End,
    Failed(Seq<char>),
    Cancelled,
}

impl View for ReadEvent {
    type V = ReadEventView;

    open spec fn view(&self) -> ReadEventView {
        match self {
            ReadEvent::Line(data) => ReadEventView::Line(data@),
            ReadEvent::End => ReadEventView::End,
            ReadEvent::Failed(report) => ReadEventView::Failed(report@),
            ReadEvent::Cancelled => ReadEventView::Cancelled,
        }
    }
}

/// What a read loop does next.
#[derive(Debug, PartialEq, Eq)]
pub enum ReadAction {
    /// Send the record to the orchestrator, then wait again.
    Send(Payload),
    /// End the task.
    Stop,
}

/// What a [`ReadAction`] is in contracts.
pub enum ReadActionView {
    Send(PayloadView),
    Stop,
}

impl View for ReadAction {
    type V = ReadActionView;

    open spec fn view(&self) -> ReadActionView {
        match self {
            ReadAction::Send(payload) => ReadActionView::Send(payload@),
            ReadAction::Stop => ReadActionView::Stop,
        }
    }
}

/// The loop after an event, and what it does.
///
/// A line becomes a record with the next identifier. The end of the stream,
/// a failure and the cancelling signal end the loop, and so does a line for
/// which no identifier is left. A loop that has ended does nothing more.
pub open spec fn read_step(pre: ReadLoopView, event: ReadEventView) -> (
    ReadLoopView,
    ReadActionView,
) {
    match event {
        ReadEventView::Line(data) if !pre.finished && pre.ids.count < u64::MAX => (
            ReadLoopView {
                ids: IdGenView { count: pre.ids.count + 1, name: pre.ids.name },
                ..pre
            },
            ReadActionView::Send(
                PayloadView {
                    id: id_text(pre.ids.name, pre.ids.count + 1),
                    data,
                    plugin_id: pre.identifier,
                },
            ),
        ),
        _ => (ReadLoopView { finished: true, ..pre }, ReadActionView::Stop),
    }
}

impl ReadLoop {
    /// Whether the loop has ended.
    pub fn finished(&self) -> (b: bool)
        ensures
            b == self@.finished,
    {
        self.finished
    }

    /// Takes an event and says what to do next.
    pub fn step(&mut self, event: ReadEvent) -> (action: ReadAction)
        ensures
            (final(self)@, action@) == read_step(old(self)@, event@),
    {
        match event {
            ReadEvent::Line(data) => {
                if !self.finished && !self.ids.exhausted() {
                    let id = self.ids.next();
                    return ReadAction::Send(
                        Payload { id, data, plugin_id: self.identifier.clone() },
                    );
                }
            },
            _ => {},
        }
        self.finished = true;
        ReadAction::Stop
    }
}

/// The loop after a run of events, and what it did after each.
pub open spec fn read_run(pre: ReadLoopView, events: Seq<ReadEventView>) -> (
    ReadLoopView,
    Seq<ReadActionView>,
)
    decreases events.len(),
{
    if events.len() == 0 {
        (pre, Seq::empty())
    } else {
        let (before, actions) = read_run(pre, events.drop_last());
        let (after, action) = read_step(before, events.last());
        (after, actions.push(action))
    }
}

/// A run does one thing for each event. It never takes identifiers back,
/// never changes the names it gives, and a loop that has ended stays ended.
pub proof fn lemma_read_run(pre: ReadLoopView, events: Seq<ReadEventView>)
    ensures
        read_run(pre, events).1.len() == events.len(),
        read_run(pre, events).0.ids.name == pre.ids.name,
        read_run(pre, events).0.identifier == pre.identifier,
        read_run(pre, events).0.ids.count >= pre.ids.count,
        pre.finished ==> read_run(pre, events).0.finished,
    decreases events.len(),
{
    if events.len() > 0 {
        lemma_read_run(pre, events.drop_last());
    }
}

/// The start of a run does what the whole run does at its start.
pub proof fn lemma_read_run_start(pre: ReadLoopView, events: Seq<ReadEventView>, k: int)
    requires
        0 <= k < events.len(),
    ensures
        read_run(pre, events).1[k] == read_step(read_run(pre, events.take(k)).0, events[k]).1,
        read_run(pre, events.take(k + 1)).0 == read_step(
            read_run(pre, events.take(k)).0,
            events[k],
        ).0,
    decreases events.len(),
{
    lemma_read_run(pre, events);
    lemma_read_run(pre, events.drop_last());
    assert(events.take(k + 1).drop_last() =~= events.take(k));
    if k == events.len() - 1 {
        assert(events.take(k) =~= events.drop_last());
    } else {
        lemma_read_run_start(pre, events.drop_last(), k);
        assert(events.drop_last().take(k) =~= events.take(k));
    }
}

/// The loop has ended after an event that ends it, however the run goes on.
proof fn lemma_read_run_ended(pre: ReadLoopView, events: Seq<ReadEventView>, k: int, j: int)
    requires
        0 <= k < j <= events.len(),
        !(events[k] is Line),
    ensures
        read_run(pre, events.take(j)).0.finished,
    decreases j,
{
    assert(events.take(j).drop_last() =~= events.take(j - 1));
    if j > k + 1 {
        lemma_read_run_ended(pre, events, k, j - 1);
    } else {
    }
}

/// From the cancelling signal on, a read loop sends nothing: whatever the
/// stream still holds is not read.
pub proof fn lemma_cancel_stops(pre: ReadLoopView, events: Seq<ReadEventView>, k: int)
    requires
        0 <= k < events.len(),
        events[k] is Cancelled,
    ensures
        forall|j: int| k <= j < events.len() ==> #[trigger] read_run(pre, events).1[j] is Stop,
{
    assert forall|j: int| k <= j < events.len() implies #[trigger] read_run(pre, events).1[j]
        is Stop by {
        lemma_read_run_start(pre, events, j);
        if j > k {
            lemma_read_run_ended(pre, events, k, j);
        }
    }
}

/// The count of the loop after the start of a run is at most the count
/// after a longer start.
proof fn lemma_read_run_counts(pre: ReadLoopView, events: Seq<ReadEventView>, i: int, j: int)
    requires
        0 <= i <= j <= events.len(),
    ensures
        read_run(pre, events.take(i)).0.ids.count <= read_run(pre, events.take(j)).0.ids.count,
        read_run(pre, events.take(j)).0.ids.name == pre.ids.name,
    decreases j - i,
{
    lemma_read_run(pre, events.take(j));
    if i < j {
        assert(events.take(j).drop_last() =~= events.take(j - 1));
        lemma_read_run_counts(pre, events, i, j - 1);
    }
}

/// No two records of one read loop bear the same identifier, and each
/// bears the identifier of the plugin that the loop reads for.
pub proof fn lemma_ids_never_repeat(pre: ReadLoopView, events: Seq<ReadEventView>, i: int, j: int)
    requires
        0 <= i < j < events.len(),
        read_run(pre, events).1[i] is Send,
        read_run(pre, events).1[j] is Send,
    ensures
        read_run(pre, events).1[i]->Send_0.id != read_run(pre, events).1[j]->Send_0.id,
        read_run(pre, events).1[i]->Send_0.plugin_id == pre.identifier,
{
    lemma_read_run_start(pre, events, i);
    lemma_read_run_start(pre, events, j);
    lemma_read_run_counts(pre, events, 0, i);
    lemma_read_run_counts(pre, events, i + 1, j);
    lemma_read_run(pre, events.take(i));
    let first = read_run(pre, events.take(i)).0.ids.count + 1;
    let second = read_run(pre, events.take(j)).0.ids.count + 1;
    lemma_ids_differ(pre.ids.name, first as nat, second as nat);
}

/// The events of a stream that gives `lines` one after the other.
pub open spec fn lines_read(lines: Seq<Seq<char>>) -> Seq<ReadEventView> {
    Seq::new(lines.len(), |i: int| ReadEventView::Line(lines[i]))
}

/// The records of `lines` read by the plugin `identifier`: in the order of
/// the lines, counted from 1.
pub open spec fn records_of(identifier: Seq<char>, lines: Seq<Seq<char>>) -> Seq<ReadActionView> {
    Seq::new(
        lines.len(),
        |i: int|
            ReadActionView::Send(
                PayloadView {
                    id: id_text(identifier, (i + 1) as nat),
                    data: lines[i],
                    plugin_id: identifier,
                },
            ),
    )
}

/// A read loop that has just started sends one record for each line that
/// its stream gives, in the order of the lines.
pub proof fn lemma_lines_become_records(identifier: Seq<char>, lines: Seq<Seq<char>>)
    requires
        lines.len() <= u64::MAX,
    ensures
        read_run(ReadLoopView::fresh(identifier), lines_read(lines)).1 == records_of(
            identifier,
            lines,
        ),
        read_run(ReadLoopView::fresh(identifier), lines_read(lines)).0 == (ReadLoopView {
            ids: IdGenView { count: lines.len(), name: identifier },
            identifier,
            finished: false,
        }),
    decreases lines.len(),
{
    if lines.len() > 0 {
        let before = lines.drop_last();
        lemma_lines_become_records(identifier, before);
        assert(lines_read(lines).drop_last() =~= lines_read(before));
    }
}

} // verus!
