//! The record that the session host hands over on standard input.

use vstd::prelude::*;

use crate::text::equal_text;

verus! {

/// The style name that stands for no particular style.
pub const DEFAULT_STYLE: &'static str = "default";

/// The style name that a host without a style sends.
pub const NULL_STYLE: &'static str = "null";

/// One invocation's input.
#[derive(Clone, Debug, PartialEq, Eq)]
pub struct ClaudeInput {
    pub session_id: String,
    pub transcript_path: String,
    pub cwd: String,
    pub model: ModelInfo,
    pub workspace: WorkspaceInfo,
    pub version: String,
    pub output_style: OutputStyle,
}

/// The model in use.
#[derive(Clone, Debug, PartialEq, Eq)]
pub struct ModelInfo {
    pub id: String,
    pub display_name: String,
}

/// The directories of the session.
#[derive(Clone, Debug, PartialEq, Eq)]
pub struct WorkspaceInfo {
    pub current_dir: String,
    pub project_dir: String,
}

/// The output style of the session.
#[derive(Clone, Debug, PartialEq, Eq)]
pub struct OutputStyle {
    pub name: String,
}

/// Whether a style is worth showing: one is given, and it is neither
/// `default` nor `null`.
pub open spec fn style_shown(style: Option<Seq<char>>) -> bool {
    style is Some && style->0 != DEFAULT_STYLE@ && style->0 != NULL_STYLE@
}

impl OutputStyle {
    /// The style name to show, if it is worth showing.
    pub fn shown(&self) -> (r: Option<String>)
        ensures
            r is Some <==> style_shown(Some(self.name@)),
            r is Some ==> r->0@ == self.name@,
    {
        if equal_text(self.name.as_str(), DEFAULT_STYLE) || equal_text(
            self.name.as_str(),
            NULL_STYLE,
        ) {
            None
        } else {
            Some(self.name.clone())
        }
    }
}

} // verus!
