//! The pane a scratch belongs to, from the plugin action's context.
use vstd::prelude::*;

use crate::text::{owned, trim, trimmed};

verus! {

/// The pane a toggle was invoked from, and its working directory.
#[derive(Debug)]
pub struct SourcePane {
    pub pane_id: String,
    pub cwd: String,
}

/// Why the plugin context names no source pane.
#[derive(Debug)]
pub enum ContextError {
    /// The context has no focused pane (or only a blank one).
    NoFocusedPane,
}

impl ContextError {
    /// The text that describes the error.
    pub fn message(&self) -> (m: String)
        ensures
            m@ == "plugin action has no focused pane"@,
    {
        owned("plugin action has no focused pane")
    }
}

/// A value that is present and not blank.
pub open spec fn present(value: Option<String>) -> bool {
    match value {
        Some(s) => trimmed(s@).len() > 0,
        None => false,
    }
}

fn is_present(value: &Option<String>) -> (r: bool)
    ensures
        r == present(*value),
{
    match value {
        Some(s) => trim(s.as_str()).as_str().unicode_len() > 0,
        None => false,
    }
}

impl SourcePane {
    /// The source pane from the context's `focused_pane_id` and
    /// `focused_pane_cwd`; `current_dir` stands in for a missing or blank
    /// working directory.
    pub fn from_context(
        focused_pane_id: Option<String>,
        focused_pane_cwd: Option<String>,
        current_dir: String,
    ) -> (res: Result<SourcePane, ContextError>)
        ensures
            res is Ok <==> present(focused_pane_id),
            res matches Ok(source) ==> source.pane_id == focused_pane_id->0 && source.cwd == (
            if present(focused_pane_cwd) {
                focused_pane_cwd->0
            } else {
                current_dir
            }),
    {
        if !is_present(&focused_pane_id) {
            return Err(ContextError::NoFocusedPane);
        }
        let pane_id = match focused_pane_id {
            Some(id) => id,
            None => return Err(ContextError::NoFocusedPane),
        };
        let cwd = if is_present(&focused_pane_cwd) {
            match focused_pane_cwd {
                Some(cwd) => cwd,
                None => current_dir,
            }
        } else {
            current_dir
        };
        Ok(SourcePane { pane_id, cwd })
    }
}

} // verus!
