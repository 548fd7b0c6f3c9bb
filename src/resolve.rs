use vstd::prelude::*;
use crate::data::{Data, Recipe, RecipeId, produces, consumes, lists_item, find_recipe, has_recipe};
use crate::id_set::IdSet;
use crate::error::Error;
use crate::select::{parse_ids, tokens_ids};

verus! {

/// Every recipe outside `e` that produces item `i` is in `rs`.
pub open spec fn covered(d: &Data, e: Set<usize>, i: usize, rs: Set<usize>) -> bool {
    forall|r: usize| #[trigger] produces(d, r, i) && !e.contains(r) ==> rs.contains(r)
}

/// `rs` holds the producers of every start item outside `e`, and the
/// producers of every input of its own recipes outside `e`, leaving out the
/// recipes that `e` excludes.
pub open spec fn is_closed(d: &Data, e: Set<usize>, s: Set<usize>, rs: Set<usize>) -> bool {
    &&& forall|i: usize| s.contains(i) && !e.contains(i) ==> #[trigger] covered(d, e, i, rs)
    &&& forall|r: usize, j: usize| rs.contains(r) && #[trigger] consumes(d, r, j) && !e.contains(j)
        ==> covered(d, e, j, rs)
}

/// The recipes outside `e` that produce a start item outside `e`.
pub open spec fn direct_recipes(d: &Data, e: Set<usize>, s: Set<usize>) -> Set<usize> {
    Set::new(|r: usize| !e.contains(r) && exists|i: usize| s.contains(i) && !e.contains(i) && #[trigger] produces(d, r, i))
}

/// The recipe set that resolving start items `s` against exclusions `e`
/// yields: with `deps`, the least closed set; without, the direct producers.
pub open spec fn is_resolution(d: &Data, e: Set<usize>, s: Set<usize>, deps: bool, rs: Set<usize>) -> bool {
    if deps {
        is_closed(d, e, s, rs) && forall|x: Set<usize>| #[trigger] is_closed(d, e, s, x) ==> rs.subset_of(x)
    } else {
        rs == direct_recipes(d, e, s)
    }
}

/// The start items outside `e`, together with every input outside `e` of a
/// recipe of `rs`.
pub open spec fn required_items(d: &Data, e: Set<usize>, s: Set<usize>, rs: Set<usize>) -> Set<usize> {
    s.difference(e).union(Set::new(|j: usize| !e.contains(j) && exists|r: usize| rs.contains(r) && #[trigger] consumes(d, r, j)))
}

/// The identifiers of the recipes of `d`.
pub open spec fn recipe_ids(d: &Data) -> Set<usize> {
    Set::new(|r: usize| exists|k: int| 0 <= k < d.recipes@.len() && d.recipes@[k].0.0 == r)
}

proof fn lemma_recipe_bound(d: &Data, rs: Set<usize>)
    requires
        rs.subset_of(recipe_ids(d)),
    ensures
        rs.finite(),
        rs.len() <= d.recipes@.len(),
{
    let ids = d.recipes@.map_values(|t: crate::data::RecipeTuple| t.0.0);
    assert(recipe_ids(d) =~= ids.to_set()) by {
        assert forall|r: usize| recipe_ids(d).contains(r) implies ids.to_set().contains(r) by {
            let k = choose|k: int| 0 <= k < d.recipes@.len() && d.recipes@[k].0.0 == r;
            assert(ids[k] == r);
        }
    }
    ids.lemma_cardinality_of_set();
    vstd::set_lib::lemma_len_subset(rs, ids.to_set());
}

proof fn lemma_inputs(d: &Data, r: usize)
    requires
        d.wf(),
    ensures
        match find_recipe(d, r) {
            Some(rec) => forall|j: usize| consumes(d, r, j) <==> lists_item(rec.inputs@, j),
            None => forall|j: usize| !consumes(d, r, j),
        },
{
    if let Some(rec) = find_recipe(d, r) {
        let k = choose|k: int| 0 <= k < d.recipes@.len() && d.recipes@[k].0.0 == r;
        assert forall|j: usize| consumes(d, r, j) implies lists_item(rec.inputs@, j) by {
            let q = choose|q: int| 0 <= q < d.recipes@.len() && d.recipes@[q].0.0 == r
                && lists_item(crate::data::side(d.recipes@[q].1, false), j);
            if q != k {
                if q < k {
                    assert(d.recipes@[q].0.0 != d.recipes@[k].0.0);
                } else {
                    assert(d.recipes@[k].0.0 != d.recipes@[q].0.0);
                }
            }
        }
    }
}

proof fn lemma_push_contains(s: Seq<usize>, x: usize)
    ensures
        forall|w: usize| s.push(x).contains(w) <==> s.contains(w) || w == x,
{
    assert forall|w: usize| s.push(x).contains(w) <==> s.contains(w) || w == x by {
        if s.contains(w) {
            let t = choose|t: int| 0 <= t < s.len() && s[t] == w;
            assert(s.push(x)[t] == w);
        }
        if w == x {
            assert(s.push(x)[s.len() as int] == w);
        }
        if s.push(x).contains(w) && w != x {
            let t = choose|t: int| 0 <= t < s.len() + 1 && s.push(x)[t] == w;
            assert(s[t] == w);
        }
    }
}

/// Adds the inputs of `r` outside `exclude` to `items`, and, where `push`
/// holds, to `stack` as well.
fn add_inputs(r: &Recipe, items: &mut IdSet, stack: &mut Vec<usize>, exclude: &IdSet, push: bool)
    requires
        old(items).wf(),
        exclude.wf(),
    ensures
        final(items).wf(),
        final(items)@ == old(items)@.union(Set::new(|j: usize| !exclude@.contains(j) && lists_item(r.inputs@, j))),
        forall|w: usize| #[trigger] old(stack)@.contains(w) ==> final(stack)@.contains(w),
        forall|w: usize| #[trigger] final(stack)@.contains(w) ==> old(stack)@.contains(w)
            || (push && !exclude@.contains(w) && lists_item(r.inputs@, w)),
        push ==> forall|j: usize| !exclude@.contains(j) && lists_item(r.inputs@, j) ==> final(stack)@.contains(j),
{
    let ghost items0 = items@;
    let ghost stack0 = stack@;
    let mut m: usize = 0;
    while m < r.inputs.len()
        invariant
            m <= r.inputs@.len(),
            items.wf(),
            exclude.wf(),
            items@ == items0.union(Set::new(|j: usize| !exclude@.contains(j)
                && exists|t: int| 0 <= t < m && r.inputs@[t].id.0 == j)),
            forall|w: usize| stack0.contains(w) ==> stack@.contains(w),
            forall|w: usize| stack@.contains(w) ==> stack0.contains(w)
                || (push && !exclude@.contains(w) && exists|t: int| 0 <= t < m && r.inputs@[t].id.0 == w),
            push ==> forall|t: int| 0 <= t < m && !exclude@.contains(r.inputs@[t].id.0)
                ==> stack@.contains(#[trigger] r.inputs@[t].id.0),
        decreases r.inputs@.len() - m,
    {
        let id = r.inputs[m].id.0;
        let ghost items_before = items@;
        let ghost stack_before = stack@;
        if !exclude.contains(id) {
            items.insert(id);
            if push {
                stack.push(id);
                assert(stack@[stack@.len() - 1] == id);
                assert forall|w: usize| stack_before.contains(w) implies stack@.contains(w) by {
                    let t = choose|t: int| 0 <= t < stack_before.len() && stack_before[t] == w;
                    assert(stack@[t] == w);
                }
                assert forall|w: usize| stack@.contains(w) implies stack_before.contains(w) || w == id by {
                    let t = choose|t: int| 0 <= t < stack@.len() && stack@[t] == w;
                    if t < stack_before.len() {
                        assert(stack_before[t] == w);
                    }
                }
            }
        }
        assert(items@ =~= items0.union(Set::new(|j: usize| !exclude@.contains(j)
            && exists|t: int| 0 <= t < m + 1 && r.inputs@[t].id.0 == j))) by {
            assert forall|j: usize| items@.contains(j) == items0.union(Set::new(|j: usize| !exclude@.contains(j)
                && exists|t: int| 0 <= t < m + 1 && r.inputs@[t].id.0 == j)).contains(j) by {
                if j == id && !exclude@.contains(j) {
                    assert(r.inputs@[m as int].id.0 == j);
                }
            }
        }
        m = m + 1;
    }
    assert(items@ =~= items0.union(Set::new(|j: usize| !exclude@.contains(j) && lists_item(r.inputs@, j))));
}

/// Resolves the recipes needed for the items of `items`, and leaves in
/// `items` the start items and the inputs of those recipes; nothing of
/// `exclude` is kept, taken in or explored. Without
/// `resolve_deps` only the producers of the start items are taken; with it,
/// the producers of their inputs too, to any depth.
pub fn resolve_dependencies(data: &Data, items: &mut IdSet, exclude: &IdSet, resolve_deps: bool) -> (recipes: IdSet)
    requires
        data.wf(),
        old(items).wf(),
        exclude.wf(),
    ensures
        recipes.wf(),
        final(items).wf(),
        is_resolution(data, exclude@, old(items)@, resolve_deps, recipes@),
        final(items)@ == required_items(data, exclude@, old(items)@, recipes@),
{
    let ghost start = items@;
    let ghost e = exclude@;
    let ghost s0 = start.difference(e);
    let start_ids = items.to_vec();
    let mut seeded = IdSet::new();
    let mut stack: Vec<usize> = Vec::new();
    let mut k: usize = 0;
    while k < start_ids.len()
        invariant
            k <= start_ids@.len(),
            seeded.wf(),
            exclude.wf(),
            e == exclude@,
            seeded@ == start_ids@.subrange(0, k as int).to_set().difference(e),
            forall|w: usize| stack@.contains(w) <==> seeded@.contains(w),
        decreases start_ids@.len() - k,
    {
        let x = start_ids[k];
        let ghost before = stack@;
        if !exclude.contains(x) {
            seeded.insert(x);
            stack.push(x);
            proof { lemma_push_contains(before, x); }
        }
        proof {
            let longer = start_ids@.subrange(0, k + 1);
            let shorter = start_ids@.subrange(0, k as int);
            assert(seeded@ =~= longer.to_set().difference(e)) by {
                assert forall|y: usize| seeded@.contains(y) <==> longer.to_set().difference(e).contains(y) by {
                    if y == x {
                        assert(longer[k as int] == y);
                    }
                    if longer.contains(y) && y != x {
                        let t = choose|t: int| 0 <= t < longer.len() && longer[t] == y;
                        assert(shorter[t] == y);
                    }
                    if shorter.contains(y) {
                        let t = choose|t: int| 0 <= t < shorter.len() && shorter[t] == y;
                        assert(longer[t] == y);
                    }
                }
            }
        }
        k = k + 1;
    }
    proof {
        assert(start_ids@.subrange(0, start_ids@.len() as int) =~= start_ids@);
        assert(seeded@ =~= s0);
    }
    *items = seeded;
    let mut recipes = IdSet::new();
    proof {
        assert(required_items(data, e, start, recipes@) =~= s0);
    }
    while stack.len() > 0
        invariant
            data.wf(),
            exclude.wf(),
            e == exclude@,
            s0 == start.difference(e),
            items.wf(),
            recipes.wf(),
            recipes@.subset_of(recipe_ids(data)),
            forall|r: usize| recipes@.contains(r) ==> !e.contains(r),
            forall|x: Set<usize>| #[trigger] is_closed(data, e, start, x) ==> recipes@.subset_of(x),
            !resolve_deps ==> recipes@.subset_of(direct_recipes(data, e, start)),
            forall|w: usize| stack@.contains(w) ==> s0.contains(w) || (resolve_deps && !e.contains(w)
                && exists|r: usize| recipes@.contains(r) && #[trigger] consumes(data, r, w)),
            forall|i: usize| s0.contains(i) ==> stack@.contains(i) || covered(data, e, i, recipes@),
            resolve_deps ==> forall|r: usize, j: usize| recipes@.contains(r) && #[trigger] consumes(data, r, j)
                && !e.contains(j) ==> stack@.contains(j) || covered(data, e, j, recipes@),
            items@ == required_items(data, e, start, recipes@),
        decreases data.recipes@.len() - recipes@.len(), stack@.len(),
    {
        proof { lemma_recipe_bound(data, recipes@); }
        let ghost stack_full = stack@;
        let ghost r_pop = recipes@;
        let cur = match stack.pop() {
            Some(c) => c,
            None => 0,
        };
        let ghost stack_pop = stack@;
        proof {
            assert(stack_full.last() == cur);
            assert(stack_full.contains(cur));
            assert forall|w: usize| stack_full.contains(w) implies stack@.contains(w) || w == cur by {
                let t = choose|t: int| 0 <= t < stack_full.len() && stack_full[t] == w;
                if t < stack_full.len() - 1 {
                    assert(stack@[t] == w);
                }
            }
            assert forall|w: usize| stack@.contains(w) implies stack_full.contains(w) by {
                let t = choose|t: int| 0 <= t < stack@.len() && stack@[t] == w;
                assert(stack_full[t] == w);
            }
        }
        if let Some(rids) = data.producers(cur) {
            let mut k: usize = 0;
            while k < rids.len()
                invariant
                    data.wf(),
                    exclude.wf(),
                    e == exclude@,
                    s0 == start.difference(e),
                    items.wf(),
                    recipes.wf(),
                    k <= rids@.len(),
                    forall|x: usize| produces(data, x, cur) <==> has_recipe(rids@, x),
                    s0.contains(cur) || (resolve_deps && !e.contains(cur)
                        && exists|r: usize| recipes@.contains(r) && #[trigger] consumes(data, r, cur)),
                    !resolve_deps ==> s0.contains(cur),
                    forall|t: int| 0 <= t < k && !e.contains(rids@[t].0) ==> recipes@.contains(#[trigger] rids@[t].0),
                    recipes@.subset_of(recipe_ids(data)),
                    (recipes@ == r_pop && stack@ == stack_pop) || recipes@.len() > r_pop.len(),
                    r_pop.finite(),
                    r_pop.subset_of(recipes@),
                    forall|r: usize| recipes@.contains(r) ==> !e.contains(r),
                    forall|x: Set<usize>| #[trigger] is_closed(data, e, start, x) ==> recipes@.subset_of(x),
                    !resolve_deps ==> recipes@.subset_of(direct_recipes(data, e, start)),
                    forall|w: usize| stack@.contains(w) ==> s0.contains(w) || (resolve_deps && !e.contains(w)
                        && exists|r: usize| recipes@.contains(r) && #[trigger] consumes(data, r, w)),
                    forall|i: usize| s0.contains(i) ==> stack@.contains(i) || covered(data, e, i, recipes@) || i == cur,
                    resolve_deps ==> forall|r: usize, j: usize| recipes@.contains(r) && #[trigger] consumes(data, r, j)
                        && !e.contains(j) ==> stack@.contains(j) || covered(data, e, j, recipes@) || j == cur,
                    items@ == required_items(data, e, start, recipes@),
                decreases rids@.len() - k,
            {
                let rid = rids[k].0;
                proof {
                    assert(has_recipe(rids@, rid));
                    assert(produces(data, rid, cur));
                }
                let ghost r_before = recipes@;
                let ghost stack_before = stack@;
                if !exclude.contains(rid) && recipes.insert(rid) {
                    proof {
                        lemma_inputs(data, rid);
                        assert(recipe_ids(data).contains(rid));
                        lemma_recipe_bound(data, r_before);
                        assert(recipes@.len() == r_before.len() + 1);
                        assert forall|x: Set<usize>| #[trigger] is_closed(data, e, start, x) implies recipes@.subset_of(x) by {
                            assert(r_before.subset_of(x));
                            if s0.contains(cur) {
                                assert(covered(data, e, cur, x));
                            } else {
                                let r2 = choose|r: usize| r_before.contains(r) && #[trigger] consumes(data, r, cur);
                                assert(covered(data, e, cur, x));
                            }
                        }
                        if !resolve_deps {
                            assert(direct_recipes(data, e, start).contains(rid));
                        }
                        assert forall|i: usize| #[trigger] covered(data, e, i, r_before) implies covered(data, e, i, recipes@) by {}
                    }
                    match data.recipe(rid) {
                        Some(rec) => {
                            add_inputs(rec, items, &mut stack, exclude, resolve_deps);
                            proof {
                                assert forall|w: usize| stack@.contains(w) implies s0.contains(w) || (resolve_deps && !e.contains(w)
                                    && exists|r: usize| recipes@.contains(r) && #[trigger] consumes(data, r, w)) by {
                                    if !stack_before.contains(w) {
                                        assert(find_recipe(data, rid) == Some(*rec));
                                        assert(lists_item(rec.inputs@, w));
                                        assert(consumes(data, rid, w));
                                    } else if !s0.contains(w) {
                                        let r2 = choose|r: usize| r_before.contains(r) && #[trigger] consumes(data, r, w);
                                        assert(recipes@.contains(r2));
                                    }
                                }
                                assert(items@ =~= required_items(data, e, start, recipes@)) by {
                                    assert forall|j: usize| #[trigger] items@.contains(j) == required_items(data, e, start, recipes@).contains(j) by {
                                        if !e.contains(j) && consumes(data, rid, j) {
                                            assert(lists_item(rec.inputs@, j));
                                        }
                                        if items@.contains(j) && !required_items(data, e, start, r_before).contains(j) {
                                            assert(consumes(data, rid, j));
                                        }
                                    }
                                }
                            }
                        },
                        None => {
                            proof {
                                assert(items@ =~= required_items(data, e, start, recipes@)) by {
                                    assert forall|j: usize| #[trigger] items@.contains(j) == required_items(data, e, start, recipes@).contains(j) by {
                                        if required_items(data, e, start, recipes@).contains(j) && !s0.contains(j) {
                                            let r2 = choose|r: usize| recipes@.contains(r) && #[trigger] consumes(data, r, j);
                                            assert(r2 != rid);
                                        }
                                    }
                                }
                            }
                        },
                    }
                } else {
                    proof {
                        assert(recipes@ =~= r_before);
                    }
                }
                k = k + 1;
            }
            proof {
                assert(covered(data, e, cur, recipes@)) by {
                    assert forall|r: usize| #[trigger] produces(data, r, cur) && !e.contains(r) implies recipes@.contains(r) by {
                        assert(has_recipe(rids@, r));
                        let t = choose|t: int| 0 <= t < rids@.len() && #[trigger] rids@[t].0 == r;
                    }
                }
            }
        } else {
            proof {
                assert(covered(data, e, cur, recipes@));
            }
        }
        proof { lemma_recipe_bound(data, recipes@); }
    }
    proof {
        assert forall|i: usize| start.contains(i) && !e.contains(i) implies #[trigger] covered(data, e, i, recipes@) by {
            assert(s0.contains(i));
            assert(!stack@.contains(i));
        }
        if resolve_deps {
            assert forall|r: usize, j: usize| recipes@.contains(r) && #[trigger] consumes(data, r, j) && !e.contains(j)
                implies covered(data, e, j, recipes@) by {
                assert(!stack@.contains(j));
            }
            assert(is_closed(data, e, start, recipes@));
        } else {
            assert(recipes@ =~= direct_recipes(data, e, start)) by {
                assert forall|r: usize| direct_recipes(data, e, start).contains(r) implies recipes@.contains(r) by {
                    let i = choose|i: usize| start.contains(i) && !e.contains(i) && #[trigger] produces(data, r, i);
                    assert(covered(data, e, i, recipes@));
                }
            }
        }
    }
    recipes
}

/// The start items that `item_tokens` select.
pub open spec fn start_items(d: &Data, item_tokens: Seq<String>) -> Set<usize> {
    tokens_ids(d, item_tokens, true)->Ok_0.to_set()
}

/// The identifiers that `ignore_tokens` exclude.
pub open spec fn excluded_ids(d: &Data, ignore_tokens: Seq<String>) -> Set<usize> {
    tokens_ids(d, ignore_tokens, false)->Ok_0.to_set()
}

/// `r` is what resolving the tokens gives: the items and recipes needed, or
/// the first token that selects nothing known.
pub open spec fn resolves_to(
    d: &Data,
    item_tokens: Seq<String>,
    ignore_tokens: Seq<String>,
    deps: bool,
    r: Result<(IdSet, IdSet), Error>,
) -> bool {
    match r {
        Ok((items, recipes)) => {
            &&& tokens_ids(d, item_tokens, true) is Ok
            &&& tokens_ids(d, ignore_tokens, false) is Ok
            &&& items.wf()
            &&& recipes.wf()
            &&& is_resolution(d, excluded_ids(d, ignore_tokens), start_items(d, item_tokens), deps, recipes@)
            &&& items@ == required_items(d, excluded_ids(d, ignore_tokens), start_items(d, item_tokens), recipes@)
        },
        Err(Error::InvalidToken(t)) => tokens_ids(d, item_tokens, true) == Err::<Seq<usize>, Seq<char>>(t@)
            || (tokens_ids(d, item_tokens, true) is Ok && tokens_ids(d, ignore_tokens, false) == Err::<
            Seq<usize>,
            Seq<char>,
        >(t@)),
        Err(Error::Custom(_)) => false,
    }
}

/// Selects the start items and the exclusions from the tokens, and resolves
/// the items and recipes needed.
pub fn resolve(data: &Data, item_tokens: &[String], ignore_tokens: &[String], resolve_deps: bool) -> (r: Result<
    (IdSet, IdSet),
    Error,
>)
    requires
        data.wf(),
    ensures
        resolves_to(data, item_tokens@, ignore_tokens@, resolve_deps, r),
{
    let item_ids = match parse_ids(data, item_tokens, true) {
        Ok(v) => v,
        Err(e) => return Err(e),
    };
    let ignore_ids = match parse_ids(data, ignore_tokens, false) {
        Ok(v) => v,
        Err(e) => return Err(e),
    };
    let mut items = IdSet::from_vec(&item_ids);
    let exclude = IdSet::from_vec(&ignore_ids);
    let recipes = resolve_dependencies(data, &mut items, &exclude, resolve_deps);
    Ok((items, recipes))
}

/// A resolution is determined by the dataset, the exclusions, the start
/// items and the depth: two of them are the same set.
pub proof fn lemma_resolution_unique(d: &Data, e: Set<usize>, s: Set<usize>, deps: bool, a: Set<usize>, b: Set<usize>)
    requires
        is_resolution(d, e, s, deps, a),
        is_resolution(d, e, s, deps, b),
    ensures
        a == b,
{
    if deps {
        assert(a.subset_of(b));
        assert(b.subset_of(a));
    }
    assert(a =~= b);
}

/// No recipe that the exclusion set names is ever part of a resolution,
/// whichever items it starts from and however deep it goes.
pub proof fn lemma_excluded_recipes_absent(d: &Data, e: Set<usize>, s: Set<usize>, deps: bool, rs: Set<usize>)
    requires
        is_resolution(d, e, s, deps, rs),
    ensures
        forall|r: usize| e.contains(r) ==> !rs.contains(r),
{
    if deps {
        let x = Set::new(|r: usize| !e.contains(r));
        assert(is_closed(d, e, s, x));
        assert(rs.subset_of(x));
    }
}

/// Resolving with dependencies takes in every recipe that resolving without
/// them takes, for the same start items and exclusions.
pub proof fn lemma_deps_superset(d: &Data, e: Set<usize>, s: Set<usize>, shallow: Set<usize>, deep: Set<usize>)
    requires
        is_resolution(d, e, s, false, shallow),
        is_resolution(d, e, s, true, deep),
    ensures
        shallow.subset_of(deep),
{
    assert forall|r: usize| shallow.contains(r) implies deep.contains(r) by {
        let i = choose|i: usize| s.contains(i) && !e.contains(i) && #[trigger] produces(d, r, i);
        assert(covered(d, e, i, deep));
    }
}

/// Resolving again, from the items that one resolution gave and with the same
/// exclusions, adds no excluded identifier: no excluded item that was not
/// there already, and no excluded recipe.
pub proof fn lemma_exclusion_idempotent(
    d: &Data,
    e: Set<usize>,
    s: Set<usize>,
    deps: bool,
    first: Set<usize>,
    second: Set<usize>,
)
    requires
        is_resolution(d, e, s, deps, first),
        is_resolution(d, e, required_items(d, e, s, first), deps, second),
    ensures
        forall|x: usize| e.contains(x) && required_items(d, e, required_items(d, e, s, first), second).contains(x)
            ==> required_items(d, e, s, first).contains(x),
        forall|x: usize| e.contains(x) ==> !second.contains(x),
{
    lemma_excluded_recipes_absent(d, e, required_items(d, e, s, first), deps, second);
}

} // verus!
