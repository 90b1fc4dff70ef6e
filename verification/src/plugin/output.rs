//! The output stage: the plugins that take records.

use vstd::prelude::*;
use vstd::utf8::encode_utf8;

use crate::config::{AttributeValue, Plugin, PluginType};
use crate::plugin::error::{ApplicationError, ApplicationErrorView, ProcessError};
use crate::plugin::{knows, unknown_at, Payload};

verus! {

/// What an output can do: take one record. An output that fails says why;
/// the record then counts as not delivered.
pub trait OutputPlugin {
    fn consume(&mut self, payload: &Payload) -> Result<(), ProcessError>;
}

/// The output that writes each record to the standard output as it is,
/// with nothing put before, between or after the records. This is what the
/// plugin decides; the writing belongs to whoever runs the plugin.
#[derive(Debug, PartialEq, Eq)]
pub struct StdoutPlugin {}

impl StdoutPlugin {
    /// The plugin. It has no attributes of its own and reads none.
    pub fn new(_config: Vec<(String, AttributeValue)>) -> (plugin: Self)
        ensures
            plugin == (StdoutPlugin {  }),
    {
        StdoutPlugin {  }
    }

    /// The bytes to write for a record: its data in UTF-8.
    pub fn encode(&self, payload: &Payload) -> (bytes: Vec<u8>)
        ensures
            bytes@ == encode_utf8(payload@.data),
    {
        payload.data.as_str().as_bytes_vec()
    }
}

/// Makes the outputs of a section, in the order of the section.
///
/// Every plugin must bear a name that the output stage knows. The first one
/// that does not gives `PluginNotFound` with its name, and no output at all.
pub fn from_config(plugins: Vec<Plugin>) -> (result: Result<Vec<StdoutPlugin>, ApplicationError>)
    ensures
        match result {
            Ok(outputs) => {
                &&& outputs.len() == plugins.len()
                &&& forall|i: int|
                    0 <= i < plugins.len() ==> knows(
                        PluginType::Output,
                        (#[trigger] plugins.deep_view()[i]).name,
                    )
            },
            Err(error) => exists|i: int|
                #![trigger plugins.deep_view()[i]]
                unknown_at(PluginType::Output, plugins.deep_view(), i) && error@
                    == ApplicationErrorView::PluginNotFound(plugins.deep_view()[i].name),
        },
{
    let ghost section = plugins.deep_view();
    let mut output_plugins: Vec<StdoutPlugin> = Vec::new();
    let known = String::from_str("stdin");
    for plugin in it: plugins
        invariant
            it.seq() == plugins@,
            section == plugins.deep_view(),
            known@ == "stdin"@,
            output_plugins.len() == it.index(),
            forall|i: int|
                0 <= i < it.index() ==> knows(PluginType::Output, (#[trigger] section[i]).name),
    {
        let ghost at = it.index() as int;
        if plugin.name != known {
            proof {
                assert(unknown_at(PluginType::Output, section, at));
            }
            return Err(ApplicationError::PluginNotFound(plugin.name));
        }
        output_plugins.push(StdoutPlugin::new(plugin.attributes));
    }
    Ok(output_plugins)
}

} // verus!
