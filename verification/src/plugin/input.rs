//! The input stage: the plugins that read records.

use vstd::prelude::*;

use crate::config::{Plugin, PluginType};
use crate::plugin::error::{ApplicationError, ApplicationErrorView};
use crate::plugin::input::reader::{ReaderPlugin, ReaderPluginView, StdinPlugin};
use crate::plugin::{knows, unknown_at};

pub mod reader;

verus! {

/// Makes the inputs of a section, in the order of the section, each with
/// the attributes of its plugin and ready to start.
///
/// Every plugin must bear a name that the input stage knows. The first one
/// that does not gives `PluginNotFound` with its name, and no input at all.
pub fn from_config(plugins: Vec<Plugin>) -> (result: Result<Vec<ReaderPlugin>, ApplicationError>)
    ensures
        match result {
            Ok(inputs) => {
                &&& inputs.len() == plugins.len()
                &&& forall|i: int|
                    0 <= i < plugins.len() ==> {
                        &&& knows(PluginType::Input, (#[trigger] plugins.deep_view()[i]).name)
                        &&& inputs[i]@ == ReaderPluginView {
                            config: plugins.deep_view()[i].attributes,
                            cancellable: false,
                            reader: true,
                        }
                    }
            },
            Err(error) => exists|i: int|
                #![trigger plugins.deep_view()[i]]
                unknown_at(PluginType::Input, plugins.deep_view(), i) && error@
                    == ApplicationErrorView::PluginNotFound(plugins.deep_view()[i].name),
        },
{
    let ghost section = plugins.deep_view();
    let mut input_plugins: Vec<ReaderPlugin> = Vec::new();
    let known = String::from_str("stdin");
    for plugin in it: plugins
        invariant
            it.seq() == plugins@,
            section == plugins.deep_view(),
            known@ == "stdin"@,
            input_plugins.len() == it.index(),
            forall|i: int|
                0 <= i < it.index() ==> {
                    &&& knows(PluginType::Input, (#[trigger] section[i]).name)
                    &&& input_plugins[i]@ == ReaderPluginView {
                        config: section[i].attributes,
                        cancellable: false,
                        reader: true,
                    }
                },
    {
        let ghost at = it.index() as int;
        if plugin.name != known {
            proof {
                assert(unknown_at(PluginType::Input, section, at));
            }
            return Err(ApplicationError::PluginNotFound(plugin.name));
        }
        input_plugins.push(StdinPlugin::new(plugin.attributes));
    }
    Ok(input_plugins)
}

} // verus!
