use logpipe::config::AttributeValue;
use logpipe::plugin::error::PluginError;
use logpipe::plugin::input::reader::{
    IdGen, ReadAction, ReadEvent, ReadLoop, ReaderPlugin, StdinPlugin,
};
use logpipe::plugin::Payload;

fn named(name: &str) -> Vec<(String, AttributeValue)> {
    vec![(
        "name".to_string(),
        AttributeValue::String(name.to_string()),
    )]
}

fn started(config: Vec<(String, AttributeValue)>) -> ReadLoop {
    ReaderPlugin::new(config)
        .start()
        .expect("a plugin with a reader starts")
}

fn sent(action: ReadAction) -> Payload {
    match action {
        ReadAction::Send(payload) => payload,
        ReadAction::Stop => panic!("the loop stopped"),
    }
}

#[test]
fn test_outputs_from_stdin() {
    let data = "This is a test\nWith multiple lines\n";

    let mut plugin = ReaderPlugin::new(Vec::new());
    let mut read_loop = plugin.start().unwrap();
    let mut received = Vec::new();
    for line in data.lines() {
        received.push(sent(read_loop.step(ReadEvent::Line(line.to_string()))));
    }

    assert_eq!("This is a test", received[0].data);
    assert_eq!("With multiple lines", received[1].data);

    assert_eq!(plugin.shutdown(), Ok(true));
}

#[test]
fn ids_count_from_one() {
    let mut ids = IdGen::new("stdin".to_string());
    assert_eq!(ids.next(), "stdin-1");
    assert_eq!(ids.next(), "stdin-2");
    for _ in 2..9 {
        ids.next();
    }
    assert_eq!(ids.next(), "stdin-10");
    assert!(!ids.exhausted());
}

#[test]
fn ids_do_not_repeat() {
    let mut ids = IdGen::new("-1".to_string());
    let mut seen: Vec<String> = Vec::new();
    for _ in 0..250 {
        let id = ids.next();
        assert!(!seen.contains(&id));
        seen.push(id);
    }
    assert_eq!(seen[0], "-1-1");
    assert_eq!(seen[249], "-1-250");
}

#[test]
fn the_identifier_is_the_name_attribute() {
    assert_eq!(ReaderPlugin::new(Vec::new()).identifier(), "ReaderPlugin");
    assert_eq!(ReaderPlugin::new(named("syslog")).identifier(), "syslog");
    assert_eq!(StdinPlugin::new(named("syslog")).identifier(), "syslog");
    let other = vec![
        ("codec".to_string(), AttributeValue::String("json".to_string())),
        ("name".to_string(), AttributeValue::Number("12".to_string())),
    ];
    assert_eq!(ReaderPlugin::new(other).identifier(), "12");
    let regexp = vec![(
        "name".to_string(),
        AttributeValue::Regexp("/a/".to_string()),
    )];
    assert_eq!(ReaderPlugin::without_reader(regexp).identifier(), "/a/");
}

#[test]
fn start_without_a_reader_is_refused() {
    let mut plugin = ReaderPlugin::without_reader(named("a"));
    match plugin.start() {
        Err(PluginError::NotInitialized(reason)) => {
            assert_eq!(reason, "must initialize reader before calling start")
        }
        _ => panic!("the plugin started without a reader"),
    }
    assert_eq!(plugin.identifier(), "a");
}

#[test]
fn a_plugin_starts_once() {
    let mut plugin = ReaderPlugin::new(Vec::new());
    assert!(plugin.start().is_ok());
    assert_eq!(
        plugin.start().err(),
        Some(PluginError::NotInitialized(
            "must initialize reader before calling start".to_string()
        ))
    );
}

#[test]
fn shutdown_signals_once() {
    let mut plugin = ReaderPlugin::new(Vec::new());
    assert_eq!(plugin.shutdown(), Ok(false));
    assert!(plugin.start().is_ok());
    assert_eq!(plugin.shutdown(), Ok(true));
    assert_eq!(plugin.shutdown(), Ok(false));
}

#[test]
fn a_refused_start_leaves_the_plugin_as_it_is() {
    let mut plugin = ReaderPlugin::without_reader(named("a"));
    assert!(plugin.start().is_err());
    assert_eq!(plugin.identifier(), "a");
    assert_eq!(plugin.shutdown(), Ok(false));
    assert!(plugin.start().is_err());
}

#[test]
fn a_refused_second_start_does_not_disturb_the_running_loop() {
    let mut plugin = ReaderPlugin::new(named("a"));
    let mut read_loop = plugin.start().expect("a plugin with a reader starts");
    assert!(plugin.start().is_err());
    assert_eq!(sent(read_loop.step(ReadEvent::Line("x".to_string()))).id, "a-1");
    assert_eq!(plugin.shutdown(), Ok(true));
    assert_eq!(plugin.shutdown(), Ok(false));
}

#[test]
fn commit_does_nothing_and_succeeds() {
    let mut plugin = ReaderPlugin::new(named("a"));
    assert_eq!(plugin.commit("a-1".to_string()), Ok(()));
    assert_eq!(plugin.commit("never-sent".to_string()), Ok(()));
    assert_eq!(plugin.identifier(), "a");
    assert!(plugin.start().is_ok());
    assert_eq!(plugin.commit("a-1".to_string()), Ok(()));
    assert_eq!(plugin.shutdown(), Ok(true));
}

#[test]
fn a_line_becomes_a_record() {
    let mut read_loop = started(named("in"));
    assert!(!read_loop.finished());
    assert_eq!(
        read_loop.step(ReadEvent::Line("a".to_string())),
        ReadAction::Send(Payload {
            id: "in-1".to_string(),
            data: "a".to_string(),
            plugin_id: "in".to_string(),
        })
    );
    assert_eq!(
        read_loop.step(ReadEvent::Line(String::new())),
        ReadAction::Send(Payload {
            id: "in-2".to_string(),
            data: String::new(),
            plugin_id: "in".to_string(),
        })
    );
    assert!(!read_loop.finished());
}

#[test]
fn the_end_of_the_stream_ends_the_loop() {
    let mut read_loop = started(Vec::new());
    sent(read_loop.step(ReadEvent::Line("a".to_string())));
    assert_eq!(read_loop.step(ReadEvent::End), ReadAction::Stop);
    assert!(read_loop.finished());
    assert_eq!(
        read_loop.step(ReadEvent::Line("b".to_string())),
        ReadAction::Stop
    );
}

#[test]
fn a_failure_ends_the_loop() {
    let mut read_loop = started(Vec::new());
    assert_eq!(
        read_loop.step(ReadEvent::Failed("stream did not contain valid UTF-8".to_string())),
        ReadAction::Stop
    );
    assert!(read_loop.finished());
    assert_eq!(
        read_loop.step(ReadEvent::Line("b".to_string())),
        ReadAction::Stop
    );
}

#[test]
fn cancelling_stops_the_loop_with_lines_left() {
    let lines = ["one", "two", "three", "four"];
    let mut read_loop = started(named("in"));
    let mut events: Vec<ReadEvent> = Vec::new();
    events.push(ReadEvent::Line(lines[0].to_string()));
    events.push(ReadEvent::Cancelled);
    for line in &lines[1..] {
        events.push(ReadEvent::Line(line.to_string()));
    }
    events.push(ReadEvent::End);
    let mut actions = Vec::new();
    for event in events {
        actions.push(read_loop.step(event));
    }
    assert_eq!(sent(actions.remove(0)).data, "one");
    assert_eq!(actions.len(), 5);
    for action in actions {
        assert_eq!(action, ReadAction::Stop);
    }
    assert!(read_loop.finished());
}
