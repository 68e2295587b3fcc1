//! How the user wants thoughts and tool calls to be shown.

use vstd::prelude::*;

verus! {

/// How thinking blocks are shown.
#[derive(Clone, Copy, Debug, PartialEq, Eq, Structural)]
pub enum ThinkingBlockDisplay {
    /// Open while the thought streams in, closed afterwards.
    Auto,
    /// Open, at a limited height, while the thought streams in, and afterwards too.
    Preview,
    /// Open unless the user closes them.
    AlwaysExpanded,
    /// Closed unless the user opens them.
    AlwaysCollapsed,
}

/// How bundles of tool calls are shown.
#[derive(Clone, Copy, Debug, PartialEq, Eq, Structural)]
pub enum ToolCallDisplay {
    /// The latest bundle is open while the thread generates.
    Auto,
    /// Closed unless the user opens them.
    Compact,
    /// Always open.
    Expanded,
}

} // verus!
