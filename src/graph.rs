use vstd::prelude::*;
use crate::data::{Data, ItemAmount, find_item, find_recipe};
use crate::id_set::{IdSet, strictly_increasing};

verus! {

/// A recipe node of the graph: edges come in from its inputs and go out to
/// its outputs, each item named and labelled with its quantity.
pub struct RecipeNode {
    pub id: usize,
    pub name: String,
    /// The recipe's duration in seconds.
    pub label: String,
    pub inputs: Vec<(String, usize)>,
    pub outputs: Vec<(String, usize)>,
}

/// The graph of a set of recipes, one node for each, in increasing order of
/// identifier.
pub struct Graph {
    pub recipes: Vec<RecipeNode>,
}

/// The named quantities of `a`, leaving out items that `d` does not have.
pub open spec fn named_amounts(d: &Data, a: Seq<ItemAmount>) -> Seq<(String, usize)>
    decreases a.len(),
{
    if a.len() == 0 {
        Seq::empty()
    } else {
        named_amounts(d, a.drop_last()) + match find_item(d, a.last().id.0) {
            Some(it) => seq![(it.name, a.last().amount)],
            None => Seq::empty(),
        }
    }
}

/// The identifiers of `rids` that are recipes of `d`, in order.
pub open spec fn known_recipes(d: &Data, rids: Seq<usize>) -> Seq<usize>
    decreases rids.len(),
{
    if rids.len() == 0 {
        Seq::empty()
    } else {
        known_recipes(d, rids.drop_last()) + if find_recipe(d, rids.last()) is Some {
            seq![rids.last()]
        } else {
            Seq::empty()
        }
    }
}

/// `n` is the node of recipe `rid` of `d`.
pub open spec fn node_of(d: &Data, n: RecipeNode, rid: usize) -> bool {
    &&& find_recipe(d, rid) is Some
    &&& n.id == rid
    &&& n.name == find_recipe(d, rid)->Some_0.name
    &&& n.label == find_recipe(d, rid)->Some_0.seconds
    &&& n.inputs@ == named_amounts(d, find_recipe(d, rid)->Some_0.inputs@)
    &&& n.outputs@ == named_amounts(d, find_recipe(d, rid)->Some_0.outputs@)
}

/// Some node of `g` is for recipe `r`.
pub open spec fn has_node(g: Graph, r: usize) -> bool {
    exists|k: int| 0 <= k < g.recipes@.len() && #[trigger] g.recipes@[k].id == r
}

/// `g` has one node for each recipe of `d` in `rs`, in increasing order of
/// identifier, and no other node.
pub open spec fn is_graph_of(d: &Data, rs: &IdSet, g: Graph) -> bool {
    &&& g.recipes@.len() == known_recipes(d, rs.elems()).len()
    &&& forall|k: int| 0 <= k < g.recipes@.len()
        ==> node_of(d, #[trigger] g.recipes@[k], known_recipes(d, rs.elems())[k])
    &&& forall|a: int, b: int| 0 <= a < b < g.recipes@.len() ==> g.recipes@[a].id < g.recipes@[b].id
    &&& forall|r: usize| has_node(g, r) <==> rs@.contains(r) && find_recipe(d, r) is Some
}

proof fn lemma_known_recipes(d: &Data, rids: Seq<usize>)
    requires
        strictly_increasing(rids),
    ensures
        strictly_increasing(known_recipes(d, rids)),
        forall|r: usize| known_recipes(d, rids).contains(r) <==> rids.contains(r) && find_recipe(d, r) is Some,
    decreases rids.len(),
{
    if rids.len() > 0 {
        let init = rids.drop_last();
        let last = rids.last();
        lemma_known_recipes(d, init);
        let prev = known_recipes(d, init);
        let here = known_recipes(d, rids);
        assert forall|x: usize| init.contains(x) implies x < last by {
            let t = choose|t: int| 0 <= t < init.len() && init[t] == x;
            assert(rids[t] == x);
        }
        assert forall|x: usize| rids.contains(x) <==> init.contains(x) || x == last by {
            if rids.contains(x) && x != last {
                let t = choose|t: int| 0 <= t < rids.len() && rids[t] == x;
                assert(init[t] == x);
            }
            if init.contains(x) {
                let t = choose|t: int| 0 <= t < init.len() && init[t] == x;
                assert(rids[t] == x);
            }
            if x == last {
                assert(rids[rids.len() - 1] == x);
            }
        }
        if find_recipe(d, last) is Some {
            assert(here =~= prev.push(last));
            assert forall|a: int, b: int| 0 <= a < b < here.len() implies here[a] < here[b] by {
                assert(here[a] == prev[a]);
                if b == here.len() - 1 {
                    assert(prev[a] == prev[a]);
                    assert(prev.contains(prev[a]));
                    assert(init.contains(prev[a]));
                    assert(here[b] == last);
                } else {
                    assert(here[b] == prev[b]);
                }
            }
            assert forall|x: usize| here.contains(x) <==> prev.contains(x) || x == last by {
                if here.contains(x) && x != last {
                    let t = choose|t: int| 0 <= t < here.len() && here[t] == x;
                    assert(prev[t] == x);
                }
                if prev.contains(x) {
                    let t = choose|t: int| 0 <= t < prev.len() && prev[t] == x;
                    assert(here[t] == x);
                }
                if x == last {
                    assert(here[here.len() - 1] == x);
                }
            }
        } else {
            assert(here =~= prev);
        }
    }
}

fn name_amounts(data: &Data, a: &Vec<ItemAmount>) -> (r: Vec<(String, usize)>)
    requires
        data.wf(),
    ensures
        r@ == named_amounts(data, a@),
{
    let mut r: Vec<(String, usize)> = Vec::new();
    let mut m: usize = 0;
    while m < a.len()
        invariant
            data.wf(),
            m <= a@.len(),
            r@ == named_amounts(data, a@.subrange(0, m as int)),
        decreases a@.len() - m,
    {
        assert(a@.subrange(0, m + 1).drop_last() =~= a@.subrange(0, m as int));
        if let Some(item) = data.item(a[m].id.0) {
            r.push((item.name.clone(), a[m].amount));
        }
        assert(r@ =~= named_amounts(data, a@.subrange(0, m + 1)));
        m = m + 1;
    }
    assert(a@.subrange(0, a@.len() as int) =~= a@);
    r
}

/// The graph of the recipes of `recipes`; identifiers that are no recipe of
/// `data`, and items that `data` does not have, are left out.
pub fn production_graph(data: &Data, recipes: &IdSet) -> (g: Graph)
    requires
        data.wf(),
        recipes.wf(),
    ensures
        is_graph_of(data, recipes, g),
{
    let rids = recipes.to_vec();
    let mut nodes: Vec<RecipeNode> = Vec::new();
    let mut i: usize = 0;
    while i < rids.len()
        invariant
            data.wf(),
            i <= rids@.len(),
            nodes@.len() == known_recipes(data, rids@.subrange(0, i as int)).len(),
            forall|k: int| 0 <= k < nodes@.len()
                ==> node_of(data, #[trigger] nodes@[k], known_recipes(data, rids@.subrange(0, i as int))[k]),
        decreases rids@.len() - i,
    {
        let ghost before = known_recipes(data, rids@.subrange(0, i as int));
        assert(rids@.subrange(0, i + 1).drop_last() =~= rids@.subrange(0, i as int));
        let rid = rids[i];
        if let Some(r) = data.recipe(rid) {
            let node = RecipeNode {
                id: rid,
                name: r.name.clone(),
                label: r.seconds.clone(),
                inputs: name_amounts(data, &r.inputs),
                outputs: name_amounts(data, &r.outputs),
            };
            nodes.push(node);
            assert(known_recipes(data, rids@.subrange(0, i + 1)) =~= before + seq![rid]);
        } else {
            assert(known_recipes(data, rids@.subrange(0, i + 1)) =~= before);
        }
        i = i + 1;
    }
    assert(rids@.subrange(0, rids@.len() as int) =~= rids@);
    let g = Graph { recipes: nodes };
    proof {
        recipes.lemma_view();
        let known = known_recipes(data, recipes.elems());
        lemma_known_recipes(data, recipes.elems());
        assert forall|a: int, b: int| 0 <= a < b < g.recipes@.len() implies g.recipes@[a].id < g.recipes@[b].id by {
            assert(node_of(data, g.recipes@[a], known[a]));
            assert(node_of(data, g.recipes@[b], known[b]));
        }
        assert forall|r: usize| has_node(g, r) <==> recipes@.contains(r) && find_recipe(data, r) is Some by {
            if has_node(g, r) {
                let k = choose|k: int| 0 <= k < g.recipes@.len() && #[trigger] g.recipes@[k].id == r;
                assert(node_of(data, g.recipes@[k], known[k]));
                assert(known.contains(r));
            }
            if recipes@.contains(r) && find_recipe(data, r) is Some {
                assert(known.contains(r));
                let k = choose|k: int| 0 <= k < known.len() && known[k] == r;
                assert(node_of(data, g.recipes@[k], known[k]));
                assert(g.recipes@[k].id == r);
            }
        }
    }
    g
}

} // verus!
