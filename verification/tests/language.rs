use logpipe::config::language::{parse_logstash_config, ConfigParseError, Diagnostic};
use logpipe::config::syntax::Expected;
use logpipe::config::{AttributeValue, Plugin, PluginSection, PluginType};

fn fault(position: usize, expected: Expected) -> ConfigParseError {
    ConfigParseError::PestError(Diagnostic { position, expected })
}

fn string(text: &str) -> AttributeValue {
    AttributeValue::String(text.to_string())
}

fn one_plugin(text: &str) -> Plugin {
    let mut sections = parse_logstash_config(text).expect("input should be parsed");
    assert_eq!(sections.len(), 1);
    let mut section = sections.remove(0);
    assert_eq!(section.plugins.len(), 1);
    section.plugins.remove(0)
}

#[test]
fn test_single_plugin_section() {
    let input = r#"
            input {
                file {
                    path => "/var/log/syslog"
                    codec => "json"
                }
            }
        "#;

    let expected = vec![PluginSection {
        plugin_type: PluginType::Input,
        plugins: vec![Plugin {
            name: "file".to_string(),
            attributes: vec![
                (
                    "path".to_string(),
                    AttributeValue::String("/var/log/syslog".to_string()),
                ),
                (
                    "codec".to_string(),
                    AttributeValue::String("json".to_string()),
                ),
            ],
        }],
    }];

    let result = parse_logstash_config(input).expect("input should be parsed");
    assert_eq!(result, expected);
}

#[test]
fn test_multiple_plugin_sections() {
    let input = r#"
            input {
                file {
                    path => "/var/log/syslog"
                    codec => "json"
                }
            }
            output {
                stdout {
                    codec => "rubydebug"
                }
            }
        "#;

    let expected = vec![
        PluginSection {
            plugin_type: PluginType::Input,
            plugins: vec![Plugin {
                name: "file".to_string(),
                attributes: vec![
                    (
                        "path".to_string(),
                        AttributeValue::String("/var/log/syslog".to_string()),
                    ),
                    (
                        "codec".to_string(),
                        AttributeValue::String("json".to_string()),
                    ),
                ],
            }],
        },
        PluginSection {
            plugin_type: PluginType::Output,
            plugins: vec![Plugin {
                name: "stdout".to_string(),
                attributes: vec![(
                    "codec".to_string(),
                    AttributeValue::String("rubydebug".to_string()),
                )],
            }],
        },
    ];

    let result = parse_logstash_config(input).expect("input should be parsed");
    assert_eq!(result, expected);
}

#[test]
fn test_empty_input() {
    let input = "";
    let result = parse_logstash_config(input);
    assert!(result.is_ok());
    assert_eq!(result.unwrap(), vec![]);
}

#[test]
fn blank_text_is_the_empty_configuration() {
    assert_eq!(parse_logstash_config(" \t\r\n  \n"), Ok(vec![]));
}

#[test]
fn the_configuration_on_one_line() {
    let parsed =
        parse_logstash_config(r#"input { file { path => "/var/log/syslog" codec => "json" } }"#)
            .expect("input should be parsed");
    assert_eq!(parsed.len(), 1);
    assert_eq!(parsed[0].plugin_type, PluginType::Input);
    assert_eq!(parsed[0].plugins.len(), 1);
    assert_eq!(parsed[0].plugins[0].name, "file");
    assert_eq!(
        parsed[0].plugins[0].attributes,
        vec![
            ("path".to_string(), string("/var/log/syslog")),
            ("codec".to_string(), string("json")),
        ]
    );
}

#[test]
fn parsing_twice_gives_equal_trees() {
    let text = "input { stdin { name => first } }\nfilter { }\noutput { stdin { } tcp { port => 5044 } }";
    let first = parse_logstash_config(text);
    let second = parse_logstash_config(text);
    assert!(first.is_ok());
    assert_eq!(first, second);
    let broken = "input { stdin { name = first } }";
    assert_eq!(parse_logstash_config(broken), parse_logstash_config(broken));
}

#[test]
fn a_quoted_string_loses_its_quotes() {
    let plugin = one_plugin(r#"input { p { key => "value" } }"#);
    assert_eq!(plugin.attributes, vec![("key".to_string(), string("value"))]);
}

#[test]
fn a_bare_word_is_a_string() {
    let plugin = one_plugin("input { p { key => value } }");
    assert_eq!(plugin.attributes, vec![("key".to_string(), string("value"))]);
    assert_eq!(
        plugin.attributes,
        one_plugin(r#"input { p { key => "value" } }"#).attributes
    );
}

#[test]
fn a_string_keeps_what_stands_between_its_quotes() {
    let plugin = one_plugin("input { p { a => \"\" b => \" x\\n/y => { } \" c => \"é\u{1F600}\" } }");
    assert_eq!(
        plugin.attributes,
        vec![
            ("a".to_string(), string("")),
            ("b".to_string(), string(" x\\n/y => { } ")),
            ("c".to_string(), string("é\u{1F600}")),
        ]
    );
}

#[test]
fn a_regular_expression_keeps_its_delimiters() {
    let plugin = one_plugin(r#"filter { grok { match => /^\d+ "x"$/ empty => // } }"#);
    assert_eq!(
        plugin.attributes,
        vec![
            (
                "match".to_string(),
                AttributeValue::Regexp(r#"/^\d+ "x"$/"#.to_string())
            ),
            ("empty".to_string(), AttributeValue::Regexp("//".to_string())),
        ]
    );
}

#[test]
fn a_number_keeps_its_text() {
    let plugin = one_plugin("input { p { a => 5044 b => -12 c => +3.50 d => 007 e => 0.5 } }");
    assert_eq!(
        plugin.attributes,
        vec![
            ("a".to_string(), AttributeValue::Number("5044".to_string())),
            ("b".to_string(), AttributeValue::Number("-12".to_string())),
            ("c".to_string(), AttributeValue::Number("+3.50".to_string())),
            ("d".to_string(), AttributeValue::Number("007".to_string())),
            ("e".to_string(), AttributeValue::Number("0.5".to_string())),
        ]
    );
}

#[test]
fn tokens_need_no_space_between_them() {
    let parsed = parse_logstash_config("input{a{x=>1y=>\"s\"z=>w}b{}}output{}")
        .expect("input should be parsed");
    assert_eq!(
        parsed,
        vec![
            PluginSection {
                plugin_type: PluginType::Input,
                plugins: vec![
                    Plugin {
                        name: "a".to_string(),
                        attributes: vec![
                            ("x".to_string(), AttributeValue::Number("1".to_string())),
                            ("y".to_string(), string("s")),
                            ("z".to_string(), string("w")),
                        ],
                    },
                    Plugin {
                        name: "b".to_string(),
                        attributes: vec![],
                    },
                ],
            },
            PluginSection {
                plugin_type: PluginType::Output,
                plugins: vec![],
            },
        ]
    );
}

#[test]
fn sections_of_one_stage_stay_apart_and_in_order() {
    let parsed = parse_logstash_config("output { a { } } input { b { } } output { c { } }")
        .expect("input should be parsed");
    let stages: Vec<PluginType> = parsed.iter().map(|s| s.plugin_type).collect();
    assert_eq!(
        stages,
        vec![PluginType::Output, PluginType::Input, PluginType::Output]
    );
    let names: Vec<&str> = parsed
        .iter()
        .map(|s| s.plugins[0].name.as_str())
        .collect();
    assert_eq!(names, vec!["a", "b", "c"]);
}

#[test]
fn the_value_written_last_counts() {
    let plugin = one_plugin("input { p { a => 1 b => 2 a => 3 c => 4 b => \"five\" } }");
    assert_eq!(
        plugin.attributes,
        vec![
            ("a".to_string(), AttributeValue::Number("3".to_string())),
            ("b".to_string(), string("five")),
            ("c".to_string(), AttributeValue::Number("4".to_string())),
        ]
    );
}

#[test]
fn names_take_letters_digits_and_underscores() {
    let plugin = one_plugin("input { _my_Plugin2 { Key_1 => _v9 } }");
    assert_eq!(plugin.name, "_my_Plugin2");
    assert_eq!(plugin.attributes, vec![("Key_1".to_string(), string("_v9"))]);
}

#[test]
fn an_unknown_keyword_is_a_fault() {
    assert_eq!(
        parse_logstash_config("inputs { }"),
        Err(fault(5, Expected::OpenBrace))
    );
    assert_eq!(
        parse_logstash_config("  source { }"),
        Err(fault(2, Expected::Stage))
    );
    assert_eq!(
        parse_logstash_config("input { } }"),
        Err(fault(10, Expected::Stage))
    );
    assert_eq!(
        parse_logstash_config("Input { }"),
        Err(fault(0, Expected::Stage))
    );
}

#[test]
fn malformed_braces_are_faults() {
    assert_eq!(
        parse_logstash_config("input"),
        Err(fault(5, Expected::OpenBrace))
    );
    assert_eq!(
        parse_logstash_config("input {"),
        Err(fault(7, Expected::PluginOrClose))
    );
    assert_eq!(
        parse_logstash_config("input { file"),
        Err(fault(12, Expected::OpenBrace))
    );
    assert_eq!(
        parse_logstash_config("input { file { "),
        Err(fault(15, Expected::AttributeOrClose))
    );
    assert_eq!(
        parse_logstash_config("input { file { } "),
        Err(fault(17, Expected::PluginOrClose))
    );
    assert_eq!(
        parse_logstash_config("input { { } }"),
        Err(fault(8, Expected::PluginOrClose))
    );
    assert_eq!(
        parse_logstash_config("output { nope { 1 => 2 } }"),
        Err(fault(16, Expected::AttributeOrClose))
    );
}

#[test]
fn malformed_attributes_are_faults() {
    assert_eq!(
        parse_logstash_config("input { p { a = 1 } }"),
        Err(fault(14, Expected::Arrow))
    );
    assert_eq!(
        parse_logstash_config("input { p { a => } }"),
        Err(fault(17, Expected::Value))
    );
    assert_eq!(
        parse_logstash_config("input { p { a =>"),
        Err(fault(16, Expected::Value))
    );
    assert_eq!(
        parse_logstash_config("input { p { a => \"open } }"),
        Err(fault(26, Expected::ClosingQuote))
    );
    assert_eq!(
        parse_logstash_config("input { p { a => /open } }"),
        Err(fault(26, Expected::ClosingSlash))
    );
    assert_eq!(
        parse_logstash_config("input { p { a => -x } }"),
        Err(fault(18, Expected::Digit))
    );
    assert_eq!(
        parse_logstash_config("input { p { a => 1. } }"),
        Err(fault(18, Expected::AttributeOrClose))
    );
}

#[test]
fn positions_count_characters() {
    assert_eq!(
        parse_logstash_config("input { p { a => \"é\u{1F600}\" ? } }"),
        Err(fault(22, Expected::AttributeOrClose))
    );
}

#[test]
fn no_text_has_an_unexpected_structure() {
    let texts = [
        "",
        "input",
        "input { }",
        "input { a { b => c } }",
        "input { a { b => } }",
        "}",
        "filter { x { } } output { y { z => /r/ } }",
    ];
    for text in texts {
        assert_ne!(
            parse_logstash_config(text),
            Err(ConfigParseError::UnexpectedStructure)
        );
    }
}

#[test]
fn faults_read_as_sentences() {
    assert_eq!(
        fault(14, Expected::Arrow).to_string(),
        "PEST parsing error: expected an arrow at character 14"
    );
    assert_eq!(
        Diagnostic {
            position: 0,
            expected: Expected::Stage
        }
        .to_string(),
        "expected a stage keyword or the end of the text at character 0"
    );
    assert_eq!(
        ConfigParseError::UnexpectedStructure.to_string(),
        "Unexpected parsing structure encountered"
    );
    assert_eq!(Expected::OpenBrace.describe(), "an opening brace");
    assert_eq!(
        Expected::PluginOrClose.describe(),
        "a plugin name or a closing brace"
    );
    assert_eq!(
        Expected::AttributeOrClose.describe(),
        "an attribute name or a closing brace"
    );
    assert_eq!(Expected::Value.describe(), "a value");
    assert_eq!(Expected::ClosingQuote.describe(), "a closing quote");
    assert_eq!(Expected::ClosingSlash.describe(), "a closing slash");
    assert_eq!(Expected::Digit.describe(), "a digit");
}

#[test]
fn what_is_written_is_read_back() {
    let configuration = vec![
        PluginSection {
            plugin_type: PluginType::Input,
            plugins: vec![
                Plugin {
                    name: "file".to_string(),
                    attributes: vec![
                        ("path".to_string(), string("/var/log")),
                        ("n".to_string(), AttributeValue::Number("-1.5".to_string())),
                        ("r".to_string(), AttributeValue::Regexp("/a+/".to_string())),
                    ],
                },
                Plugin {
                    name: "stdin".to_string(),
                    attributes: vec![],
                },
            ],
        },
        PluginSection {
            plugin_type: PluginType::Filter,
            plugins: vec![],
        },
        PluginSection {
            plugin_type: PluginType::Output,
            plugins: vec![Plugin {
                name: "input".to_string(),
                attributes: vec![("output".to_string(), string("filter"))],
            }],
        },
    ];
    let mut text = String::new();
    for section in &configuration {
        text.push_str(match section.plugin_type {
            PluginType::Input => "input",
            PluginType::Filter => "filter",
            PluginType::Output => "output",
        });
        text.push_str(" {");
        for plugin in &section.plugins {
            text.push(' ');
            text.push_str(&plugin.name);
            text.push_str(" {");
            for (name, value) in &plugin.attributes {
                text.push(' ');
                text.push_str(name);
                text.push_str(" => ");
                match value {
                    AttributeValue::String(t) => {
                        text.push('"');
                        text.push_str(t);
                        text.push('"');
                    }
                    other => text.push_str(&other.to_string()),
                }
            }
            text.push_str(" }");
        }
        text.push_str(" }\n");
    }
    assert_eq!(
        text,
        "input { file { path => \"/var/log\" n => -1.5 r => /a+/ } stdin { } }\nfilter { }\noutput { input { output => \"filter\" } }\n"
    );
    assert_eq!(parse_logstash_config(&text), Ok(configuration));
}
