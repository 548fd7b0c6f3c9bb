use vstd::prelude::*;
use crate::data::Data;
use crate::error::Error;
use crate::graph::{Graph, is_graph_of, production_graph};
use crate::id_set::IdSet;
use crate::resolve::{resolve, resolves_to};

verus! {

/// Draw the recipes needed for a set of items.
pub struct CreateProductionGraph {
    /// Items to include in the graph.
    pub items: Vec<String>,
    /// Items and recipes to leave out of the graph.
    pub ignore: Vec<String>,
    /// Follow the inputs of the recipes to any depth.
    pub resolve_deps: bool,
    /// File the dataset is read from.
    pub data_path: String,
}

/// `r` is the graph of what resolving the command's tokens gives, or the
/// error that resolving them gives.
pub open spec fn command_result(d: &Data, cmd: CreateProductionGraph, r: Result<Graph, Error>) -> bool {
    match r {
        Ok(g) => exists|items: IdSet, recipes: IdSet|
            #[trigger] resolves_to(d, cmd.items@, cmd.ignore@, cmd.resolve_deps, Ok((items, recipes)))
            && is_graph_of(d, &recipes, g),
        Err(e) => resolves_to(d, cmd.items@, cmd.ignore@, cmd.resolve_deps, Err(e)),
    }
}

impl CreateProductionGraph {
    /// Resolves the command's tokens against `data` and builds the graph.
    pub fn exec(self, data: &Data) -> (r: Result<Graph, Error>)
        requires
            data.wf(),
        ensures
            command_result(data, self, r),
    {
        match resolve(data, self.items.as_slice(), self.ignore.as_slice(), self.resolve_deps) {
            Ok((items, recipes)) => {
                let g = production_graph(data, &recipes);
                assert(is_graph_of(data, &recipes, g));
                Ok(g)
            },
            Err(e) => Err(e),
        }
    }
}

} // verus!
