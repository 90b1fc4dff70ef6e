use logpipe::plugin::error::{ApplicationError, PluginError, ProcessError};
use logpipe::plugin::input::reader::{ReadAction, ReadEvent, ReadLoop, ReaderPlugin};
use logpipe::plugin::orchestrator::{Action, Event, Orchestrator, Phase};
use logpipe::plugin::output::{OutputPlugin, StdoutPlugin};
use logpipe::plugin::{from_config, Payload};

/// An output that keeps what it is given, and fails on the data it is told
/// to fail on.
struct Memory {
    plugin: StdoutPlugin,
    written: Vec<u8>,
    records: Vec<String>,
    fails_on: Option<String>,
}

impl Memory {
    fn new(fails_on: Option<&str>) -> Memory {
        Memory {
            plugin: StdoutPlugin::new(Vec::new()),
            written: Vec::new(),
            records: Vec::new(),
            fails_on: fails_on.map(|s| s.to_string()),
        }
    }
}

impl OutputPlugin for Memory {
    fn consume(&mut self, payload: &Payload) -> Result<(), ProcessError> {
        if self.fails_on.as_deref() == Some(payload.data.as_str()) {
            return Err(ProcessError::IoError("broken pipe".to_string()));
        }
        self.written.extend(self.plugin.encode(payload));
        self.records.push(payload.data.clone());
        Ok(())
    }
}

/// Runs a pipeline as a program would, with the lines of each input given
/// beforehand, and keeps a record of what was done.
struct Bench {
    orchestrator: Orchestrator,
    inputs: Vec<ReaderPlugin>,
    loops: Vec<Option<ReadLoop>>,
    outputs: Vec<Memory>,
    channel: Vec<Payload>,
    commits: Vec<(usize, String)>,
    trace: Vec<String>,
}

impl Bench {
    fn new(inputs: Vec<ReaderPlugin>, outputs: Vec<Memory>) -> Bench {
        let identifiers = inputs.iter().map(|i| i.identifier()).collect();
        Bench {
            orchestrator: Orchestrator::new(identifiers, outputs.len())
                .expect("the identifiers are distinct"),
            loops: inputs.iter().map(|_| None).collect(),
            inputs,
            outputs,
            channel: Vec::new(),
            commits: Vec::new(),
            trace: Vec::new(),
        }
    }

    fn feed(&mut self, input: usize, line: &str) {
        let read_loop = self.loops[input].as_mut().expect("the input has started");
        if let ReadAction::Send(payload) = read_loop.step(ReadEvent::Line(line.to_string())) {
            self.channel.push(payload);
        }
    }

    /// Answers actions until the orchestrator waits for a record that has
    /// not arrived, or halts.
    fn run(&mut self, first: Event) -> Action {
        let mut action = self.orchestrator.step(first);
        loop {
            let event = match action {
                Action::Start { input } => {
                    self.trace.push(format!("start {}", input));
                    match self.inputs[input].start() {
                        Ok(read_loop) => {
                            self.loops[input] = Some(read_loop);
                            Event::Started(Ok(()))
                        }
                        Err(error) => Event::Started(Err(error)),
                    }
                }
                Action::Receive => {
                    if self.channel.is_empty() {
                        return Action::Receive;
                    }
                    let payload = self.channel.remove(0);
                    assert!(self.orchestrator.route(&payload.plugin_id).is_some());
                    Event::Received(payload)
                }
                Action::Consume { output } => {
                    let payload = self
                        .orchestrator
                        .in_flight()
                        .expect("a record is in flight")
                        .clone();
                    self.trace.push(format!("consume {} {}", output, payload.data));
                    Event::Consumed(self.outputs[output].consume(&payload))
                }
                Action::Commit { input, id } => {
                    assert_eq!(
                        self.orchestrator.in_flight().map(|p| p.id.clone()),
                        Some(id.clone())
                    );
                    self.trace.push(format!("commit {} {}", input, id));
                    self.commits.push((input, id.clone()));
                    Event::Committed(self.inputs[input].commit(id))
                }
                Action::Shutdown { input } => {
                    self.trace.push(format!("shutdown {}", input));
                    match self.inputs[input].shutdown() {
                        Ok(signal) => {
                            if signal {
                                if let Some(read_loop) = self.loops[input].as_mut() {
                                    read_loop.step(ReadEvent::Cancelled);
                                }
                            }
                            Event::ShutDown(Ok(()))
                        }
                        Err(error) => Event::ShutDown(Err(error)),
                    }
                }
                Action::Halt(result) => return Action::Halt(result),
                Action::Ignore => return Action::Ignore,
            };
            action = self.orchestrator.step(event);
        }
    }
}

fn reader(name: &str) -> ReaderPlugin {
    ReaderPlugin::new(vec![(
        "name".to_string(),
        logpipe::config::AttributeValue::String(name.to_string()),
    )])
}

fn payload(id: &str, data: &str, plugin_id: &str) -> Payload {
    Payload {
        id: id.to_string(),
        data: data.to_string(),
        plugin_id: plugin_id.to_string(),
    }
}

#[test]
fn two_lines_are_delivered_in_order_and_acknowledged() {
    let operation = from_config("input { stdin { } } output { stdin { } }")
        .expect("every plugin is known")
        .start()
        .expect("the identifiers are distinct");
    assert_eq!(operation.outputs.len(), 1);
    let mut bench = Bench::new(operation.inputs, vec![Memory::new(None)]);
    assert_eq!(bench.orchestrator.phase(), Phase::Built);
    assert_eq!(bench.run(Event::Start), Action::Receive);
    assert_eq!(bench.orchestrator.phase(), Phase::Running);
    bench.feed(0, "a");
    bench.feed(0, "b");
    let first = bench.channel.remove(0);
    assert_eq!(bench.run(Event::Received(first)), Action::Receive);
    assert_eq!(bench.outputs[0].records, vec!["a", "b"]);
    assert_eq!(bench.outputs[0].written, b"ab");
    assert_eq!(
        bench.commits,
        vec![
            (0, "ReaderPlugin-1".to_string()),
            (0, "ReaderPlugin-2".to_string())
        ]
    );
    assert_ne!(bench.commits[0].1, bench.commits[1].1);
    assert_eq!(
        bench.trace,
        vec![
            "start 0",
            "consume 0 a",
            "commit 0 ReaderPlugin-1",
            "consume 0 b",
            "commit 0 ReaderPlugin-2",
        ]
    );
    assert_eq!(
        bench.orchestrator.step(Event::Closed),
        Action::Halt(Ok(()))
    );
    assert_eq!(bench.orchestrator.phase(), Phase::Stopped);
}

#[test]
fn every_output_takes_the_record_in_the_order_of_the_configuration() {
    let mut bench = Bench::new(
        vec![reader("x"), reader("y")],
        vec![Memory::new(None), Memory::new(None), Memory::new(None)],
    );
    assert_eq!(bench.run(Event::Start), Action::Receive);
    bench.feed(1, "from y");
    bench.feed(0, "from x");
    let first = bench.channel.remove(0);
    assert_eq!(bench.run(Event::Received(first)), Action::Receive);
    assert_eq!(
        bench.trace,
        vec![
            "start 0",
            "start 1",
            "consume 0 from y",
            "consume 1 from y",
            "consume 2 from y",
            "commit 1 y-1",
            "consume 0 from x",
            "consume 1 from x",
            "consume 2 from x",
            "commit 0 x-1",
        ]
    );
}

#[test]
fn a_failing_output_stops_the_pipeline_without_acknowledgment() {
    let mut bench = Bench::new(
        vec![reader("in")],
        vec![Memory::new(None), Memory::new(Some("bad")), Memory::new(None)],
    );
    assert_eq!(bench.run(Event::Start), Action::Receive);
    bench.feed(0, "good");
    bench.feed(0, "bad");
    bench.feed(0, "later");
    let first = bench.channel.remove(0);
    assert_eq!(
        bench.run(Event::Received(first)),
        Action::Halt(Err(ApplicationError::IoError("broken pipe".to_string())))
    );
    assert_eq!(bench.commits, vec![(0, "in-1".to_string())]);
    assert_eq!(bench.outputs[0].records, vec!["good", "bad"]);
    assert_eq!(bench.outputs[1].records, vec!["good"]);
    assert_eq!(bench.outputs[2].records, vec!["good"]);
    assert_eq!(bench.orchestrator.phase(), Phase::Stopped);
    assert!(bench.orchestrator.in_flight().is_none());
    let later = bench.channel.remove(0);
    assert_eq!(bench.run(Event::Received(later)), Action::Ignore);
    assert_eq!(bench.run(Event::Consumed(Ok(()))), Action::Ignore);
    assert_eq!(bench.run(Event::Committed(Ok(()))), Action::Ignore);
    assert_eq!(bench.run(Event::Start), Action::Ignore);
    assert_eq!(bench.commits, vec![(0, "in-1".to_string())]);
}

#[test]
fn an_input_that_refuses_to_start_stops_the_pipeline() {
    let mut bench = Bench::new(
        vec![
            reader("a"),
            ReaderPlugin::without_reader(Vec::new()),
            reader("c"),
        ],
        vec![Memory::new(None)],
    );
    assert_eq!(
        bench.run(Event::Start),
        Action::Halt(Err(ApplicationError::PluginError(
            PluginError::NotInitialized("must initialize reader before calling start".to_string())
        )))
    );
    assert_eq!(bench.trace, vec!["start 0", "start 1"]);
    assert!(bench.loops[0].is_some());
    assert!(bench.loops[1].is_none());
    assert!(bench.loops[2].is_none());
    assert_eq!(bench.orchestrator.phase(), Phase::Stopped);
}

#[test]
fn a_pipeline_without_plugins_runs_and_stops() {
    let mut orchestrator = Orchestrator::new(Vec::new(), 0).unwrap();
    assert_eq!(orchestrator.step(Event::Start), Action::Receive);
    assert_eq!(orchestrator.phase(), Phase::Running);
    assert_eq!(orchestrator.step(Event::Shutdown), Action::Receive);
    assert_eq!(orchestrator.phase(), Phase::ShuttingDown);
    assert_eq!(orchestrator.step(Event::Shutdown), Action::Ignore);
    assert_eq!(orchestrator.step(Event::Closed), Action::Halt(Ok(())));
    assert_eq!(orchestrator.phase(), Phase::Stopped);
}

#[test]
fn without_outputs_a_record_is_acknowledged_at_once() {
    let mut orchestrator = Orchestrator::new(vec!["in".to_string()], 0).unwrap();
    assert_eq!(orchestrator.step(Event::Start), Action::Start { input: 0 });
    assert_eq!(orchestrator.phase(), Phase::Built);
    assert_eq!(orchestrator.step(Event::Started(Ok(()))), Action::Receive);
    assert_eq!(
        orchestrator.step(Event::Received(payload("in-1", "a", "in"))),
        Action::Commit {
            input: 0,
            id: "in-1".to_string()
        }
    );
    assert_eq!(
        orchestrator.in_flight(),
        Some(&payload("in-1", "a", "in"))
    );
    assert_eq!(orchestrator.step(Event::Committed(Ok(()))), Action::Receive);
    assert!(orchestrator.in_flight().is_none());
}

#[test]
fn a_failing_acknowledgment_stops_the_pipeline() {
    let mut orchestrator = Orchestrator::new(vec!["in".to_string()], 1).unwrap();
    orchestrator.step(Event::Start);
    orchestrator.step(Event::Started(Ok(())));
    assert_eq!(
        orchestrator.step(Event::Received(payload("in-1", "a", "in"))),
        Action::Consume { output: 0 }
    );
    assert_eq!(
        orchestrator.step(Event::Consumed(Ok(()))),
        Action::Commit {
            input: 0,
            id: "in-1".to_string()
        }
    );
    assert_eq!(
        orchestrator.step(Event::Committed(Err(PluginError::NotInitialized(
            "no offsets".to_string()
        )))),
        Action::Halt(Err(ApplicationError::PluginError(
            PluginError::NotInitialized("no offsets".to_string())
        )))
    );
    assert_eq!(orchestrator.phase(), Phase::Stopped);
}

fn ambiguous(identifier: &str) -> ApplicationError {
    ApplicationError::PluginError(PluginError::NotInitialized(format!(
        "two inputs bear the identifier {}",
        identifier
    )))
}

#[test]
fn a_record_goes_back_to_the_input_of_its_identifier() {
    let mut orchestrator = Orchestrator::new(
        vec!["a".to_string(), "b".to_string(), "c".to_string()],
        0,
    )
    .unwrap();
    assert_eq!(orchestrator.route(&"a".to_string()), Some(0));
    assert_eq!(orchestrator.route(&"b".to_string()), Some(1));
    assert_eq!(orchestrator.route(&"c".to_string()), Some(2));
    assert_eq!(orchestrator.route(&"d".to_string()), None);
    assert_eq!(orchestrator.route(&String::new()), None);
    orchestrator.step(Event::Start);
    orchestrator.step(Event::Started(Ok(())));
    orchestrator.step(Event::Started(Ok(())));
    assert_eq!(orchestrator.step(Event::Started(Ok(()))), Action::Receive);
    assert_eq!(
        orchestrator.step(Event::Received(payload("b-1", "x", "b"))),
        Action::Commit {
            input: 1,
            id: "b-1".to_string()
        }
    );
}

#[test]
fn two_inputs_of_one_identifier_are_rejected() {
    assert_eq!(
        Orchestrator::new(vec!["a".to_string(), "a".to_string()], 1).err(),
        Some(ambiguous("a"))
    );
    assert_eq!(
        Orchestrator::new(
            vec![
                "a".to_string(),
                "b".to_string(),
                "c".to_string(),
                "b".to_string(),
                "a".to_string(),
                "a".to_string()
            ],
            0
        )
        .err(),
        Some(ambiguous("b"))
    );
    assert_eq!(
        Orchestrator::new(vec![String::new(), "x".to_string(), String::new()], 0).err(),
        Some(ambiguous(""))
    );
    assert!(Orchestrator::new(vec!["a".to_string(), "A".to_string(), "a ".to_string()], 0).is_ok());
}

#[test]
fn a_pipeline_with_two_inputs_of_one_identifier_does_not_start() {
    assert_eq!(
        from_config("input { stdin { } stdin { } }")
            .expect("every plugin is known")
            .start()
            .err(),
        Some(ambiguous("ReaderPlugin"))
    );
    assert_eq!(
        from_config("input { stdin { name => a } stdin { } } output { stdin { } } input { stdin { name => \"a\" } }")
            .expect("every plugin is known")
            .start()
            .err(),
        Some(ambiguous("a"))
    );
    assert_eq!(
        from_config("input { stdin { name => 1 } stdin { name => \"1\" } }")
            .expect("every plugin is known")
            .start()
            .err(),
        Some(ambiguous("1"))
    );
    assert!(from_config("input { stdin { name => a } stdin { name => b } stdin { } }")
        .expect("every plugin is known")
        .start()
        .is_ok());
}

#[test]
fn events_that_answer_nothing_are_ignored() {
    let mut orchestrator = Orchestrator::new(vec!["in".to_string()], 1).unwrap();
    assert_eq!(orchestrator.step(Event::Closed), Action::Ignore);
    assert_eq!(orchestrator.step(Event::Started(Ok(()))), Action::Ignore);
    assert_eq!(orchestrator.phase(), Phase::Built);
    assert_eq!(orchestrator.step(Event::Start), Action::Start { input: 0 });
    assert_eq!(orchestrator.step(Event::Start), Action::Ignore);
    assert_eq!(orchestrator.step(Event::Shutdown), Action::Ignore);
    assert_eq!(orchestrator.step(Event::Started(Ok(()))), Action::Receive);
    assert_eq!(orchestrator.step(Event::Consumed(Ok(()))), Action::Ignore);
    assert_eq!(
        orchestrator.step(Event::Received(payload("in-1", "a", "in"))),
        Action::Consume { output: 0 }
    );
    assert_eq!(orchestrator.step(Event::Closed), Action::Ignore);
    assert_eq!(orchestrator.step(Event::Committed(Ok(()))), Action::Ignore);
    assert_eq!(
        orchestrator.in_flight(),
        Some(&payload("in-1", "a", "in"))
    );
    assert_eq!(orchestrator.phase(), Phase::Running);
}

#[test]
fn shutdown_cancels_every_input_and_drains() {
    let mut bench = Bench::new(
        vec![reader("a"), reader("b")],
        vec![Memory::new(None)],
    );
    assert_eq!(bench.run(Event::Start), Action::Receive);
    bench.feed(0, "before");
    assert_eq!(bench.run(Event::Shutdown), Action::Receive);
    assert_eq!(bench.orchestrator.phase(), Phase::ShuttingDown);
    bench.feed(0, "after");
    bench.feed(1, "after");
    assert_eq!(bench.channel.len(), 0);
    assert!(bench.loops[0].as_ref().unwrap().finished());
    assert!(bench.loops[1].as_ref().unwrap().finished());
    assert_eq!(
        bench.trace,
        vec![
            "start 0",
            "start 1",
            "shutdown 0",
            "shutdown 1",
            "consume 0 before",
            "commit 0 a-1",
        ]
    );
    assert_eq!(bench.outputs[0].records, vec!["before"]);
    assert_eq!(bench.run(Event::Closed), Action::Halt(Ok(())));
    assert_eq!(bench.orchestrator.phase(), Phase::Stopped);
}

#[test]
fn a_failing_shutdown_stops_the_pipeline() {
    let mut orchestrator =
        Orchestrator::new(vec!["a".to_string(), "b".to_string()], 1).unwrap();
    orchestrator.step(Event::Start);
    orchestrator.step(Event::Started(Ok(())));
    orchestrator.step(Event::Started(Ok(())));
    assert_eq!(orchestrator.step(Event::Shutdown), Action::Shutdown { input: 0 });
    assert_eq!(orchestrator.phase(), Phase::ShuttingDown);
    assert_eq!(
        orchestrator.step(Event::ShutDown(Ok(()))),
        Action::Shutdown { input: 1 }
    );
    assert_eq!(
        orchestrator.step(Event::ShutDown(Err(PluginError::NotInitialized(
            "gone".to_string()
        )))),
        Action::Halt(Err(ApplicationError::PluginError(
            PluginError::NotInitialized("gone".to_string())
        )))
    );
    assert_eq!(orchestrator.phase(), Phase::Stopped);
}
