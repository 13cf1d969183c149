//! The toolchain report: which external tools answered a version probe.

use vstd::prelude::*;

use crate::config_edit::{trim_text, trimmed};

verus! {

/// One probed tool.
#[derive(Debug, Clone, PartialEq, Eq)]
pub struct ToolStatus {
    pub name: String,
    pub command: String,
    pub available: bool,
    pub version: Option<String>,
    pub detail: String,
}

#[derive(Debug, Clone, PartialEq, Eq)]
pub struct ToolchainReport {
    pub operating_system: String,
    pub architecture: String,
    pub tools: Vec<ToolStatus>,
    pub gui_dependencies: Vec<ToolStatus>,
}

/// How running a tool's version command ended: it exited successfully, it
/// exited with a failure, or it could not be started.
#[derive(Debug, Clone)]
pub enum ProbeOutcome {
    Succeeded { stdout: String },
    Failed { stderr: String },
    NotStarted { error: String },
}

/// The status of a probed tool: available with its trimmed output as version
/// (none when empty) after a successful run; else unavailable, with the
/// trimmed error output or the start error as detail.
pub fn tool_status(name: &str, command: &str, outcome: ProbeOutcome) -> (status: ToolStatus)
    ensures
        status.name@ == name@,
        status.command@ == command@,
        match outcome {
            ProbeOutcome::Succeeded { stdout } => {
                &&& status.available
                &&& status.detail@ == trimmed(stdout@)
                &&& status.version == if trimmed(stdout@).len() == 0 { None::<String> } else { Some(status.detail) }
            },
            ProbeOutcome::Failed { stderr } => !status.available && status.version is None && status.detail@ == trimmed(stderr@),
            ProbeOutcome::NotStarted { error } => !status.available && status.version is None && status.detail@ == error@,
        },
{
    match outcome {
        ProbeOutcome::Succeeded { stdout } => {
            let version = trim_text(stdout.as_str());
            let reported = if version.as_str().is_empty() { None } else { Some(version.clone()) };
            ToolStatus {
                name: String::from_str(name),
                command: String::from_str(command),
                available: true,
                version: reported,
                detail: version,
            }
        },
        ProbeOutcome::Failed { stderr } => ToolStatus {
            name: String::from_str(name),
            command: String::from_str(command),
            available: false,
            version: None,
            detail: trim_text(stderr.as_str()),
        },
        ProbeOutcome::NotStarted { error } => ToolStatus {
            name: String::from_str(name),
            command: String::from_str(command),
            available: false,
            version: None,
            detail: error,
        },
    }
}

} // verus!
