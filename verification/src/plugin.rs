//! The plugins of a pipeline and the orchestrator that drives them.

use vstd::prelude::*;

use crate::config::language::{parse_logstash_config, ConfigParseError};
use crate::config::syntax::{config_of, Fault};
use crate::config::{Binding, Plugin, PluginSectionView, PluginType, PluginView};
use crate::plugin::error::{ApplicationError, ApplicationErrorView};
use crate::plugin::input::reader::{identifier_of, ReaderPlugin, ReaderPluginView};
use crate::plugin::orchestrator::{
    distinct, rejection, repeats_at, Orchestrator, Pipeline, Stage,
};
use crate::plugin::output::StdoutPlugin;

pub mod error;
pub mod input;
pub mod orchestrator;
pub mod output;

verus! {

/// Whether a stage knows a plugin of the name `name`.
///
/// The input stage and the output stage know one plugin each, both under the
/// name `stdin`: the input that reads the lines of the standard input, and
/// the output that writes to the standard output. The filter stage knows
/// none.
pub open spec fn knows(stage: PluginType, name: Seq<char>) -> bool {
    match stage {
        PluginType::Input => name == "stdin"@,
        PluginType::Filter => false,
        PluginType::Output => name == "stdin"@,
    }
}

/// Whether the plugin at `i` is the first of a section that its stage does
/// not know.
pub open spec fn unknown_at(stage: PluginType, section: Seq<PluginView>, i: int) -> bool {
    &&& 0 <= i < section.len()
    &&& !knows(stage, section[i].name)
    &&& forall|j: int| 0 <= j < i ==> knows(stage, (#[trigger] section[j]).name)
}

/// One record on its way through the pipeline.
#[derive(Debug, PartialEq, Eq)]
pub struct Payload {
    /// Names the record among those of its input.
    pub id: String,
    /// What was read.
    pub data: String,
    /// The identifier of the input that read the record.
    pub plugin_id: String,
}

/// What a [`Payload`] is in contracts.
pub struct PayloadView {
    pub id: Seq<char>,
    pub data: Seq<char>,
    pub plugin_id: Seq<char>,
}

impl View for Payload {
    type V = PayloadView;

    open spec fn view(&self) -> PayloadView {
        PayloadView { id: self.id@, data: self.data@, plugin_id: self.plugin_id@ }
    }
}

impl Clone for Payload {
    fn clone(&self) -> (copy: Payload)
        ensures
            copy@ == self@,
    {
        Payload {
            id: self.id.clone(),
            data: self.data.clone(),
            plugin_id: self.plugin_id.clone(),
        }
    }
}

/// A filter. The stage is reserved: it knows no plugin yet, and a pipeline
/// hands its records from the inputs straight to the outputs.
#[derive(Debug, PartialEq, Eq)]
pub struct FilterPlugin {}

/// Makes the filters of a section. The filter stage knows no plugin, so the
/// section must be empty: its first plugin gives `PluginNotFound` with its
/// name.
pub fn filter_plugins(plugins: Vec<Plugin>) -> (result: Result<Vec<FilterPlugin>, ApplicationError>)
    ensures
        match result {
            Ok(filters) => filters.len() == 0 && plugins.len() == 0,
            Err(error) => exists|i: int|
                #![trigger plugins.deep_view()[i]]
                unknown_at(PluginType::Filter, plugins.deep_view(), i) && error@
                    == ApplicationErrorView::PluginNotFound(plugins.deep_view()[i].name),
        },
{
    let ghost section = plugins.deep_view();
    for plugin in it: plugins
        invariant
            it.seq() == plugins@,
            section == plugins.deep_view(),
            it.index() == 0,
    {
        proof {
            assert(unknown_at(PluginType::Filter, section, 0));
        }
        return Err(ApplicationError::PluginNotFound(plugin.name));
    }
    Ok(Vec::new())
}

/// Whether a stage knows every plugin of a section.
pub open spec fn all_known(stage: PluginType, section: Seq<PluginView>) -> bool {
    forall|i: int| 0 <= i < section.len() ==> knows(stage, (#[trigger] section[i]).name)
}

/// The name of the first plugin of a section that its stage does not know.
pub open spec fn first_unknown(stage: PluginType, section: Seq<PluginView>) -> Seq<char> {
    section[choose|i: int| unknown_at(stage, section, i)].name
}

/// A section with a plugin that its stage does not know has a first such
/// plugin, and only one.
pub proof fn lemma_first_unknown(stage: PluginType, section: Seq<PluginView>, i: int)
    requires
        unknown_at(stage, section, i),
    ensures
        !all_known(stage, section),
        first_unknown(stage, section) == section[i].name,
{
    let j = choose|j: int| unknown_at(stage, section, j);
    assert(i == j);
}

/// The plugins that a configuration asks for: the attributes of each input,
/// the number of filters and the number of outputs.
pub struct Plan {
    pub inputs: Seq<Seq<Binding>>,
    pub filters: nat,
    pub outputs: nat,
}

/// The attributes of the plugins of a section.
pub open spec fn attributes_of(section: Seq<PluginView>) -> Seq<Seq<Binding>> {
    Seq::new(section.len(), |i: int| section[i].attributes)
}

/// What the sections of a configuration ask for.
///
/// The sections are taken in the order of the text. Each must hold only
/// plugins that its stage knows; the first plugin that is not known ends the
/// plan with its name. Where a stage has several sections, its plugins are
/// those of all of them, in the order of the text.
pub open spec fn plan(sections: Seq<PluginSectionView>) -> Result<Plan, Seq<char>>
    decreases sections.len(),
{
    if sections.len() == 0 {
        Ok(Plan { inputs: Seq::empty(), filters: 0, outputs: 0 })
    } else {
        let section = sections.last();
        match plan(sections.drop_last()) {
            Err(name) => Err(name),
            Ok(before) => if !all_known(section.plugin_type, section.plugins) {
                Err(first_unknown(section.plugin_type, section.plugins))
            } else {
                match section.plugin_type {
                    PluginType::Input => Ok(
                        Plan { inputs: before.inputs + attributes_of(section.plugins), ..before },
                    ),
                    PluginType::Filter => Ok(
                        Plan { filters: before.filters + section.plugins.len(), ..before },
                    ),
                    PluginType::Output => Ok(
                        Plan { outputs: before.outputs + section.plugins.len(), ..before },
                    ),
                }
            },
        }
    }
}

/// A pipeline that is built and not yet running: the plugins of each stage.
pub struct Application {
    input: Vec<ReaderPlugin>,
    filters: Vec<FilterPlugin>,
    output: Vec<StdoutPlugin>,
}

impl View for Application {
    type V = Plan;

    closed spec fn view(&self) -> Plan {
        Plan {
            inputs: Seq::new(self.input.len() as nat, |i: int| self.input[i]@.config),
            filters: self.filters.len() as nat,
            outputs: self.output.len() as nat,
        }
    }
}

impl Default for Application {
    /// The pipeline without plugins.
    fn default() -> (app: Application)
        ensures
            app@ == (Plan { inputs: Seq::empty(), filters: 0, outputs: 0 }),
    {
        let app = Application { input: Vec::new(), filters: Vec::new(), output: Vec::new() };
        assert(app@.inputs =~= Seq::empty());
        app
    }
}

/// Builds the pipeline that a configuration text describes.
///
/// A text that is no configuration gives `ConfigError` with the fault, and
/// a plugin that its stage does not know gives `PluginNotFound` with its
/// name; every other text gives the pipeline that [`plan`] describes, with
/// each input ready to start.
pub fn from_config(config: &str) -> (result: Result<Application, ApplicationError>)
    ensures
        match config_of(config@) {
            Err(fault) => result matches Err(
                ApplicationError::ConfigError(ConfigParseError::PestError(diagnostic)),
            ) && diagnostic@ == fault,
            Ok(sections) => match plan(sections) {
                Err(name) => result matches Err(error) && error@
                    == ApplicationErrorView::PluginNotFound(name),
                Ok(wanted) => result matches Ok(app) && app@ == wanted,
            },
        },
{
    let sections = match parse_logstash_config(config) {
        Ok(sections) => sections,
        Err(error) => {
            return Err(ApplicationError::ConfigError(error));
        },
    };
    let ghost all = sections.deep_view();
    let mut input: Vec<ReaderPlugin> = Vec::new();
    let mut filters: Vec<FilterPlugin> = Vec::new();
    let mut output: Vec<StdoutPlugin> = Vec::new();
    let ghost mut wanted = Plan { inputs: Seq::empty(), filters: 0, outputs: 0 };
    for item in it: sections
        invariant
            it.seq() == sections@,
            all == sections.deep_view(),
            config_of(config@) == Ok::<Seq<PluginSectionView>, Fault>(all),
            plan(all.take(it.index() as int)) == Ok::<Plan, Seq<char>>(wanted),
            wanted.inputs.len() == input.len(),
            wanted.filters == filters.len(),
            wanted.outputs == output.len(),
            forall|i: int|
                0 <= i < input.len() ==> (#[trigger] input[i]@) == (ReaderPluginView {
                    config: wanted.inputs[i],
                    cancellable: false,
                    reader: true,
                }),
    {
        let ghost at = it.index() as int;
        let ghost section = all[at];
        proof {
            assert(all.take(at + 1).drop_last() =~= all.take(at));
        }
        match item.plugin_type {
            PluginType::Input => match input::from_config(item.plugins) {
                Ok(made) => {
                    let mut made = made;
                    input.append(&mut made);
                    proof {
                        wanted = Plan {
                            inputs: wanted.inputs + attributes_of(section.plugins),
                            ..wanted
                        };
                    }
                },
                Err(error) => {
                    proof {
                        lemma_plan_fails(all, at);
                    }
                    return Err(error);
                },
            },
            PluginType::Output => match output::from_config(item.plugins) {
                Ok(made) => {
                    let mut made = made;
                    output.append(&mut made);
                    proof {
                        wanted = Plan { outputs: wanted.outputs + section.plugins.len(), ..wanted };
                    }
                },
                Err(error) => {
                    proof {
                        lemma_plan_fails(all, at);
                    }
                    return Err(error);
                },
            },
            PluginType::Filter => match filter_plugins(item.plugins) {
                Ok(made) => {
                    let mut made = made;
                    filters.append(&mut made);
                    proof {
                        wanted = Plan { filters: wanted.filters + section.plugins.len(), ..wanted };
                    }
                },
                Err(error) => {
                    proof {
                        lemma_plan_fails(all, at);
                    }
                    return Err(error);
                },
            },
        }
    }
    assert(all.take(all.len() as int) =~= all);
    let app = Application { input, filters, output };
    assert(app@.inputs =~= wanted.inputs);
    Ok(app)
}

/// A plan that fails at a section fails for every longer list of sections
/// with the same name.
proof fn lemma_plan_fails(sections: Seq<PluginSectionView>, at: int)
    requires
        0 <= at < sections.len(),
        plan(sections.take(at)) is Ok,
        exists|i: int|
            unknown_at(sections[at].plugin_type, sections[at].plugins, i),
    ensures
        plan(sections) == Err::<Plan, Seq<char>>(
            first_unknown(sections[at].plugin_type, sections[at].plugins),
        ),
        forall|i: int|
            unknown_at(sections[at].plugin_type, sections[at].plugins, i) ==> first_unknown(
                sections[at].plugin_type,
                sections[at].plugins,
            ) == (#[trigger] sections[at].plugins[i]).name,
    decreases sections.len() - at,
{
    let section = sections[at];
    let witness = choose|i: int| unknown_at(section.plugin_type, section.plugins, i);
    lemma_first_unknown(section.plugin_type, section.plugins, witness);
    assert(sections.take(at + 1).drop_last() =~= sections.take(at));
    lemma_plan_stays_failed(sections, at + 1);
}

/// Once a plan has failed, more sections do not change it.
proof fn lemma_plan_stays_failed(sections: Seq<PluginSectionView>, upto: int)
    requires
        0 <= upto <= sections.len(),
        plan(sections.take(upto)) is Err,
    ensures
        plan(sections) == plan(sections.take(upto)),
    decreases sections.len() - upto,
{
    if upto < sections.len() {
        assert(sections.take(upto + 1).drop_last() =~= sections.take(upto));
        lemma_plan_stays_failed(sections, upto + 1);
    } else {
        assert(sections.take(upto) =~= sections);
    }
}

/// A pipeline that is taken into operation: its plugins, and the
/// orchestrator that says what to do with them.
pub struct Operation {
    pub orchestrator: Orchestrator,
    pub inputs: Vec<ReaderPlugin>,
    pub outputs: Vec<StdoutPlugin>,
}

/// The identifiers of inputs with the given attributes.
pub open spec fn identifiers_of(inputs: Seq<Seq<Binding>>) -> Seq<Seq<char>> {
    Seq::new(inputs.len(), |i: int| identifier_of(inputs[i]))
}

impl Application {
    /// Every input is ready to start: it has its stream, and holds no
    /// cancelling signal.
    #[verifier::type_invariant]
    spec fn ready(self) -> bool {
        forall|i: int|
            0 <= i < self.input.len() ==> (#[trigger] self.input[i]@).reader
                && !self.input[i]@.cancellable
    }

    /// Takes the pipeline into operation: hands out its plugins, each input
    /// ready to start, and an orchestrator that knows each input by its
    /// identifier and has nothing running yet.
    ///
    /// A pipeline in which two inputs bear the same identifier is rejected,
    /// with the first identifier that is borne twice: a record could not be
    /// acknowledged to the input that read it.
    pub fn start(self) -> (result: Result<Operation, ApplicationError>)
        ensures
            result is Ok <==> distinct(identifiers_of(self@.inputs)),
            match result {
                Ok(operation) => {
                    &&& distinct(identifiers_of(self@.inputs))
                    &&& operation.orchestrator@ == Pipeline {
                        inputs: identifiers_of(self@.inputs),
                        outputs: self@.outputs,
                        stage: Stage::Built,
                    }
                    &&& operation.inputs.len() == self@.inputs.len()
                    &&& forall|i: int|
                        0 <= i < self@.inputs.len() ==> (#[trigger] operation.inputs[i]@)
                            == ReaderPluginView {
                            config: self@.inputs[i],
                            cancellable: false,
                            reader: true,
                        }
                    &&& operation.outputs.len() == self@.outputs
                },
                Err(error) => exists|j: int|
                    #![trigger identifiers_of(self@.inputs)[j]]
                    repeats_at(identifiers_of(self@.inputs), j) && error@ == rejection(
                        identifiers_of(self@.inputs)[j],
                    ),
            },
    {
        proof {
            use_type_invariant(&self);
        }
        let mut identifiers: Vec<String> = Vec::new();
        let mut i: usize = 0;
        while i < self.input.len()
            invariant
                i <= self.input.len(),
                identifiers.len() == i,
                forall|j: int|
                    0 <= j < i ==> (#[trigger] identifiers[j])@ == identifier_of(
                        self.input[j]@.config,
                    ),
            decreases self.input.len() - i,
        {
            identifiers.push(self.input[i].identifier());
            i = i + 1;
        }
        assert(identifiers.deep_view() =~= identifiers_of(self@.inputs));
        match Orchestrator::new(identifiers, self.output.len()) {
            Ok(orchestrator) => Ok(
                Operation { orchestrator, inputs: self.input, outputs: self.output },
            ),
            Err(error) => Err(error),
        }
    }
}

} // verus!
