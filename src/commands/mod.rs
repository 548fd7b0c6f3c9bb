pub mod create_production_graph;

use vstd::prelude::*;
pub use create_production_graph::{CreateProductionGraph, command_result};
use crate::data::Data;
use crate::error::Error;
use crate::graph::Graph;

verus! {

/// What the tool can be asked to do.
pub enum Command {
    CreateProductionGraph(CreateProductionGraph),
}

impl Command {
    pub fn exec(self, data: &Data) -> (r: Result<Graph, Error>)
        requires
            data.wf(),
        ensures
            match self {
                Command::CreateProductionGraph(cmd) => command_result(data, cmd, r),
            },
    {
        match self {
            Command::CreateProductionGraph(cmd) => cmd.exec(data),
        }
    }
}

} // verus!
