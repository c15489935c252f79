//! The registry interface the dispatcher works against.

use vstd::prelude::*;
use crate::error::McpResult;
use crate::json::{JsonV, JsonValue};

verus! {

/// A store of tools: a listing, and execution by name.
///
/// The two spec members let an implementation say what its listing and
/// its call outcomes look like, and the methods promise exactly that; the
/// crate's own registry refines both, while an implementation outside the
/// crate may leave them at the trivial defaults and promises nothing.
pub trait ToolRegistry {
    /// What this registry's listing looks like.
    open spec fn listing_spec(&self, tools: JsonV) -> bool {
        true
    }

    /// What one call of this registry returns for a tool name and its
    /// arguments.
    open spec fn outcome_spec(&self, name: Seq<char>, args: JsonV, r: McpResult<JsonValue>) -> bool {
        true
    }

    /// All tool descriptors, as a JSON array.
    fn get_all_tools(&self) -> (r: JsonValue)
        ensures
            self.listing_spec(r.jview()),
    ;

    /// Runs the tool `name` on `arguments`.
    fn execute_tool(&self, name: &str, arguments: &JsonValue) -> (r: McpResult<JsonValue>)
        ensures
            self.outcome_spec(name@, arguments.jview(), r),
    ;
}

} // verus!
