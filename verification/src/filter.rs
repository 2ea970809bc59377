//! The filtering predicate: equality on ECU, application and context IDs,
//! composed with boolean AND and OR.  The textual query language that
//! produces such predicates is an external collaborator; the core only
//! evaluates them.

use vstd::prelude::*;

verus! {

use crate::message::DltMessage;
use crate::message::MessageModel;
use crate::wire::str_eq;

/// A predicate over decoded messages.
#[derive(Debug)]
pub enum Filter {
    Ecu { ecu_id: String },
    App { app_id: String },
    Ctx { ctx_id: String },
    And { left: Box<Filter>, right: Box<Filter> },
    Or { left: Box<Filter>, right: Box<Filter> },
}

/// What a filter says of a message: ID filters compare against the
/// matching textual field (an App or Ctx filter rejects a message without
/// an extended header), and And/Or compose.
pub open spec fn spec_keep(f: Filter, m: MessageModel) -> bool
    decreases f,
{
    match f {
        Filter::Ecu { ecu_id } => m.storage.ecu_id == ecu_id@,
        Filter::App { app_id } => m.extended matches Some(e) && e.application_id == app_id@,
        Filter::Ctx { ctx_id } => m.extended matches Some(e) && e.context_id == ctx_id@,
        Filter::And { left, right } => spec_keep(*left, m) && spec_keep(*right, m),
        Filter::Or { left, right } => spec_keep(*left, m) || spec_keep(*right, m),
    }
}

impl Filter {
    /// Whether the message passes this filter.
    pub fn keep(&self, message: &DltMessage<'_>) -> (r: bool)
        ensures
            r == spec_keep(*self, message@),
        decreases *self,
    {
        match self {
            Filter::Ecu { ecu_id } => str_eq(message.ecu_id(), ecu_id.as_str()),
            Filter::App { app_id } => match message.app_id() {
                Some(id) => str_eq(id, app_id.as_str()),
                None => false,
            },
            Filter::Ctx { ctx_id } => match message.context_id() {
                Some(id) => str_eq(id, ctx_id.as_str()),
                None => false,
            },
            Filter::And { left, right } => left.keep(message) && right.keep(message),
            Filter::Or { left, right } => left.keep(message) || right.keep(message),
        }
    }
}

} // verus!
