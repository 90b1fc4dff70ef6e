//! What can go wrong when a pipeline is built or run.

use vstd::prelude::*;
use vstd::std_specs::convert::FromSpecImpl;

use crate::config::language::ConfigParseError;

verus! {

/// Why a plugin refused an operation.
#[derive(Debug, PartialEq, Eq)]
#[non_exhaustive]
pub enum PluginError {
    /// The plugin lacks something that the operation needs; the text says
    /// what.
    NotInitialized(String),
}

/// What a [`PluginError`] is in contracts.
pub enum PluginErrorView {
    NotInitialized(Seq<char>),
}

impl View for PluginError {
    type V = PluginErrorView;

    open spec fn view(&self) -> PluginErrorView {
        match self {
            PluginError::NotInitialized(reason) => PluginErrorView::NotInitialized(reason@),
        }
    }
}

impl PluginErrorView {
    /// The error as a sentence.
    pub open spec fn message(self) -> Seq<char> {
        match self {
            PluginErrorView::NotInitialized(reason) => "Plugin was not correctly initialized: "@
                + reason,
        }
    }
}

impl PluginError {
    /// The error as a sentence.
    pub fn to_string(&self) -> (text: String)
        ensures
            text@ == self@.message(),
    {
        match self {
            PluginError::NotInitialized(reason) => String::from_str(
                "Plugin was not correctly initialized: ",
            ).concat(reason.as_str()),
        }
    }
}

/// Why an output could not take a record.
#[derive(Debug, PartialEq, Eq)]
#[non_exhaustive]
pub enum ProcessError {
    /// Writing the record failed; the text is the report of the failure.
    IoError(String),
}

/// What a [`ProcessError`] is in contracts.
pub enum ProcessErrorView {
    IoError(Seq<char>),
}

impl View for ProcessError {
    type V = ProcessErrorView;

    open spec fn view(&self) -> ProcessErrorView {
        match self {
            ProcessError::IoError(report) => ProcessErrorView::IoError(report@),
        }
    }
}

impl ProcessErrorView {
    /// The error as a sentence.
    pub open spec fn message(self) -> Seq<char> {
        match self {
            ProcessErrorView::IoError(report) => "Error while performing IO: "@ + report,
        }
    }
}

impl ProcessError {
    /// The error as a sentence.
    pub fn to_string(&self) -> (text: String)
        ensures
            text@ == self@.message(),
    {
        match self {
            ProcessError::IoError(report) => String::from_str("Error while performing IO: ").concat(
                report.as_str(),
            ),
        }
    }
}

/// Why a pipeline could not be built, or why it stopped.
#[derive(Debug, PartialEq, Eq)]
#[non_exhaustive]
pub enum ApplicationError {
    /// The configuration text is not a configuration.
    ConfigError(ConfigParseError),
    /// A section names a plugin that its stage does not know.
    PluginNotFound(String),
    /// An input plugin refused to start, to acknowledge or to shut down.
    PluginError(PluginError),
    /// Reading or writing failed; the text is the report of the failure.
    IoError(String),
}

/// What an [`ApplicationError`] is in contracts.
pub enum ApplicationErrorView {
    ConfigError(ConfigParseError),
    PluginNotFound(Seq<char>),
    PluginError(PluginErrorView),
    IoError(Seq<char>),
}

impl View for ApplicationError {
    type V = ApplicationErrorView;

    open spec fn view(&self) -> ApplicationErrorView {
        match self {
            ApplicationError::ConfigError(error) => ApplicationErrorView::ConfigError(*error),
            ApplicationError::PluginNotFound(name) => ApplicationErrorView::PluginNotFound(name@),
            ApplicationError::PluginError(error) => ApplicationErrorView::PluginError(error@),
            ApplicationError::IoError(report) => ApplicationErrorView::IoError(report@),
        }
    }
}

impl ApplicationErrorView {
    /// The error as a sentence.
    pub open spec fn message(self) -> Seq<char> {
        match self {
            ApplicationErrorView::ConfigError(error) => "Configuration Error: "@ + error.message(),
            ApplicationErrorView::PluginNotFound(name) => "Plugin not found: "@ + name,
            ApplicationErrorView::PluginError(error) => "Error on Plugin: "@ + error.message(),
            ApplicationErrorView::IoError(report) => "IO Error: "@ + report,
        }
    }
}

impl ApplicationError {
    /// The error as a sentence.
    pub fn to_string(&self) -> (text: String)
        ensures
            text@ == self@.message(),
    {
        match self {
            ApplicationError::ConfigError(error) => String::from_str(
                "Configuration Error: ",
            ).concat(error.to_string().as_str()),
            ApplicationError::PluginNotFound(name) => String::from_str("Plugin not found: ").concat(
                name.as_str(),
            ),
            ApplicationError::PluginError(error) => String::from_str("Error on Plugin: ").concat(
                error.to_string().as_str(),
            ),
            ApplicationError::IoError(report) => String::from_str("IO Error: ").concat(
                report.as_str(),
            ),
        }
    }

    /// The error that stops a pipeline when an output fails: the failure
    /// of the output, reported as a failure of reading or writing.
    pub fn from_process(error: ProcessError) -> (stopped: ApplicationError)
        ensures
            stopped@ == Self::of_process(error@),
    {
        match error {
            ProcessError::IoError(report) => ApplicationError::IoError(report),
        }
    }

    /// The error that stops a pipeline when an output fails.
    pub open spec fn of_process(error: ProcessErrorView) -> ApplicationErrorView {
        match error {
            ProcessErrorView::IoError(report) => ApplicationErrorView::IoError(report),
        }
    }
}

impl From<ConfigParseError> for ApplicationError {
    fn from(error: ConfigParseError) -> (wrapped: ApplicationError) {
        ApplicationError::ConfigError(error)
    }
}

impl FromSpecImpl<ConfigParseError> for ApplicationError {
    open spec fn obeys_from_spec() -> bool {
        true
    }

    open spec fn from_spec(error: ConfigParseError) -> ApplicationError {
        ApplicationError::ConfigError(error)
    }
}

impl From<PluginError> for ApplicationError {
    fn from(error: PluginError) -> (wrapped: ApplicationError) {
        ApplicationError::PluginError(error)
    }
}

impl FromSpecImpl<PluginError> for ApplicationError {
    open spec fn obeys_from_spec() -> bool {
        true
    }

    open spec fn from_spec(error: PluginError) -> ApplicationError {
        ApplicationError::PluginError(error)
    }
}

} // verus!
