use vstd::prelude::*;

verus! {

/// Identifier of an item.
#[derive(Debug, Clone, Copy, PartialEq, Eq, Structural, Hash, PartialOrd, Ord)]
pub struct ItemId(pub usize);

/// Identifier of a recipe.
#[derive(Debug, Clone, Copy, PartialEq, Eq, Structural, Hash, PartialOrd, Ord)]
pub struct RecipeId(pub usize);

/// Category of an item; `Unknown` keeps a tag that has no variant of its own.
#[derive(Debug)]
pub enum ItemType {
    Material,
    Matrix,
    Product,
    Production,
    Resource,
    Component,
    Logistics,
    Unknown(String),
}

/// Kind of production a recipe stands for; `Unknown` keeps a tag that has no
/// variant of its own.
#[derive(Debug)]
pub enum RecipeType {
    Assemble,
    Chemical,
    Fractionate,
    Particle,
    Refine,
    Research,
    Smelt,
    Unknown(String),
}

#[derive(Debug)]
pub struct Item {
    pub name: String,
    pub type_: ItemType,
}

/// A quantity of one item, consumed or produced by a recipe.
#[derive(Debug)]
pub struct ItemAmount {
    pub id: ItemId,
    pub amount: usize,
}

#[derive(Debug)]
pub struct Recipe {
    pub name: String,
    pub type_: RecipeType,
    /// Duration in seconds, in decimal notation; it labels the recipe's node.
    pub seconds: String,
    pub explicit: bool,
    pub inputs: Vec<ItemAmount>,
    pub outputs: Vec<ItemAmount>,
}

/// A recipe with its identifier.
pub struct RecipeTuple(pub RecipeId, pub Recipe);

fn owned(s: &str) -> (r: String)
    ensures
        r@ == s@,
{
    s.to_owned()
}

impl ItemType {
    /// The category that a dataset tag names.
    pub fn from_tag(tag: &String) -> (r: ItemType)
        ensures
            (r is Material) <==> tag@ == "MATERIAL"@,
            (r is Matrix) <==> tag@ == "MATRIX"@,
            (r is Product) <==> tag@ == "PRODUCT"@,
            (r is Production) <==> tag@ == "PRODUCTION"@,
            (r is Resource) <==> tag@ == "RESOURCE"@,
            (r is Component) <==> tag@ == "COMPONENT"@,
            (r is Logistics) <==> tag@ == "LOGISTICS"@,
            r is Unknown ==> r->Unknown_0@ == tag@,
    {
        proof {
            reveal_strlit("MATERIAL");
            reveal_strlit("MATRIX");
            reveal_strlit("PRODUCT");
            reveal_strlit("PRODUCTION");
            reveal_strlit("RESOURCE");
            reveal_strlit("COMPONENT");
            reveal_strlit("LOGISTICS");
            assert("MATRIX"@.len() != "MATERIAL"@.len());
            assert("PRODUCT"@.len() != "MATERIAL"@.len());
            assert("PRODUCT"@.len() != "MATRIX"@.len());
            assert("PRODUCTION"@.len() != "MATERIAL"@.len());
            assert("PRODUCTION"@.len() != "MATRIX"@.len());
            assert("PRODUCTION"@.len() != "PRODUCT"@.len());
            assert("RESOURCE"@[0] != "MATERIAL"@[0]);
            assert("RESOURCE"@.len() != "MATRIX"@.len());
            assert("RESOURCE"@.len() != "PRODUCT"@.len());
            assert("RESOURCE"@.len() != "PRODUCTION"@.len());
            assert("COMPONENT"@.len() != "MATERIAL"@.len());
            assert("COMPONENT"@.len() != "MATRIX"@.len());
            assert("COMPONENT"@.len() != "PRODUCT"@.len());
            assert("COMPONENT"@.len() != "PRODUCTION"@.len());
            assert("COMPONENT"@.len() != "RESOURCE"@.len());
            assert("LOGISTICS"@.len() != "MATERIAL"@.len());
            assert("LOGISTICS"@.len() != "MATRIX"@.len());
            assert("LOGISTICS"@.len() != "PRODUCT"@.len());
            assert("LOGISTICS"@.len() != "PRODUCTION"@.len());
            assert("LOGISTICS"@.len() != "RESOURCE"@.len());
            assert("LOGISTICS"@[0] != "COMPONENT"@[0]);
        }
        if *tag == owned("MATERIAL") {
            ItemType::Material
        } else if *tag == owned("MATRIX") {
            ItemType::Matrix
        } else if *tag == owned("PRODUCT") {
            ItemType::Product
        } else if *tag == owned("PRODUCTION") {
            ItemType::Production
        } else if *tag == owned("RESOURCE") {
            ItemType::Resource
        } else if *tag == owned("COMPONENT") {
            ItemType::Component
        } else if *tag == owned("LOGISTICS") {
            ItemType::Logistics
        } else {
            ItemType::Unknown(tag.clone())
        }
    }

    /// Whether `self` is the category `known`.
    pub fn is(&self, known: &ItemType) -> (r: bool)
        requires
            !(known is Unknown),
        ensures
            r == (*self == *known),
    {
        match (self, known) {
            (ItemType::Material, ItemType::Material) => true,
            (ItemType::Matrix, ItemType::Matrix) => true,
            (ItemType::Product, ItemType::Product) => true,
            (ItemType::Production, ItemType::Production) => true,
            (ItemType::Resource, ItemType::Resource) => true,
            (ItemType::Component, ItemType::Component) => true,
            (ItemType::Logistics, ItemType::Logistics) => true,
            _ => false,
        }
    }
}

impl RecipeType {
    /// The production kind that a dataset tag names.
    pub fn from_tag(tag: &String) -> (r: RecipeType)
        ensures
            (r is Assemble) <==> tag@ == "ASSEMBLE"@,
            (r is Chemical) <==> tag@ == "CHEMICAL"@,
            (r is Fractionate) <==> tag@ == "FRACTIONATE"@,
            (r is Particle) <==> tag@ == "PARTICLE"@,
            (r is Refine) <==> tag@ == "REFINE"@,
            (r is Research) <==> tag@ == "RESEARCH"@,
            (r is Smelt) <==> tag@ == "SMELT"@,
            r is Unknown ==> r->Unknown_0@ == tag@,
    {
        proof {
            reveal_strlit("ASSEMBLE");
            reveal_strlit("CHEMICAL");
            reveal_strlit("FRACTIONATE");
            reveal_strlit("PARTICLE");
            reveal_strlit("REFINE");
            reveal_strlit("RESEARCH");
            reveal_strlit("SMELT");
            assert("CHEMICAL"@[0] != "ASSEMBLE"@[0]);
            assert("FRACTIONATE"@.len() != "ASSEMBLE"@.len());
            assert("FRACTIONATE"@.len() != "CHEMICAL"@.len());
            assert("PARTICLE"@[0] != "ASSEMBLE"@[0]);
            assert("PARTICLE"@[0] != "CHEMICAL"@[0]);
            assert("PARTICLE"@.len() != "FRACTIONATE"@.len());
            assert("REFINE"@.len() != "ASSEMBLE"@.len());
            assert("REFINE"@.len() != "CHEMICAL"@.len());
            assert("REFINE"@.len() != "FRACTIONATE"@.len());
            assert("REFINE"@.len() != "PARTICLE"@.len());
            assert("RESEARCH"@[0] != "ASSEMBLE"@[0]);
            assert("RESEARCH"@[0] != "CHEMICAL"@[0]);
            assert("RESEARCH"@.len() != "FRACTIONATE"@.len());
            assert("RESEARCH"@[0] != "PARTICLE"@[0]);
            assert("RESEARCH"@.len() != "REFINE"@.len());
            assert("SMELT"@.len() != "ASSEMBLE"@.len());
            assert("SMELT"@.len() != "CHEMICAL"@.len());
            assert("SMELT"@.len() != "FRACTIONATE"@.len());
            assert("SMELT"@.len() != "PARTICLE"@.len());
            assert("SMELT"@.len() != "REFINE"@.len());
            assert("SMELT"@.len() != "RESEARCH"@.len());
        }
        if *tag == owned("ASSEMBLE") {
            RecipeType::Assemble
        } else if *tag == owned("CHEMICAL") {
            RecipeType::Chemical
        } else if *tag == owned("FRACTIONATE") {
            RecipeType::Fractionate
        } else if *tag == owned("PARTICLE") {
            RecipeType::Particle
        } else if *tag == owned("REFINE") {
            RecipeType::Refine
        } else if *tag == owned("RESEARCH") {
            RecipeType::Research
        } else if *tag == owned("SMELT") {
            RecipeType::Smelt
        } else {
            RecipeType::Unknown(tag.clone())
        }
    }
}

impl ItemAmount {
    /// Pairs an item identifier with a quantity.
    pub fn from_tuple(pair: (usize, usize)) -> (r: ItemAmount)
        ensures
            r.id.0 == pair.0,
            r.amount == pair.1,
    {
        ItemAmount { id: ItemId(pair.0), amount: pair.1 }
    }

    /// Reads a flat list `id, amount, id, amount, ...` as amounts; a trailing
    /// odd value is dropped.
    pub fn from_flat(flat: &Vec<usize>) -> (r: Vec<ItemAmount>)
        ensures
            r@.len() == flat@.len() / 2,
            forall|k: int| 0 <= k < r@.len() ==> (#[trigger] r@[k]).id.0 == flat@[2 * k] && r@[k].amount == flat@[2 * k + 1],
    {
        let mut r: Vec<ItemAmount> = Vec::new();
        let mut i: usize = 0;
        while i + 1 < flat.len()
            invariant
                i == 2 * r@.len(),
                i <= flat@.len(),
                forall|k: int| 0 <= k < r@.len() ==> (#[trigger] r@[k]).id.0 == flat@[2 * k] && r@[k].amount == flat@[2 * k + 1],
            decreases flat@.len() - i,
        {
            r.push(ItemAmount::from_tuple((flat[i], flat[i + 1])));
            i = i + 2;
        }
        r
    }
}


/// For each item, the recipes that consume it (or produce it).
pub type RecipeIndex = Vec<(ItemId, Vec<RecipeId>)>;

/// The dataset: items, recipes, and indices derived from them.
pub struct Data {
    pub items: Vec<(ItemId, Item)>,
    pub recipes: Vec<RecipeTuple>,
    /// Item to the recipes that consume it.
    pub as_input: RecipeIndex,
    /// Item to the recipes that produce it.
    pub as_output: RecipeIndex,
}

/// Some amount in `a` is of item `i`.
pub open spec fn lists_item(a: Seq<ItemAmount>, i: usize) -> bool {
    exists|m: int| 0 <= m < a.len() && a[m].id.0 == i
}

/// The amounts a recipe consumes (`outputs` false) or produces (`outputs` true).
pub open spec fn side(r: Recipe, outputs: bool) -> Seq<ItemAmount> {
    if outputs {
        r.outputs@
    } else {
        r.inputs@
    }
}

/// Recipe `r` of `recipes` consumes (or produces) item `i`.
pub open spec fn links(recipes: Seq<RecipeTuple>, r: usize, i: usize, outputs: bool) -> bool {
    exists|k: int| 0 <= k < recipes.len() && recipes[k].0.0 == r && lists_item(side(recipes[k].1, outputs), i)
}

/// Recipe `r` of `d` produces item `i`.
pub open spec fn produces(d: &Data, r: usize, i: usize) -> bool {
    links(d.recipes@, r, i, true)
}

/// Recipe `r` of `d` consumes item `i`.
pub open spec fn consumes(d: &Data, r: usize, i: usize) -> bool {
    links(d.recipes@, r, i, false)
}

pub open spec fn item_ids_unique(items: Seq<(ItemId, Item)>) -> bool {
    forall|a: int, b: int| 0 <= a < b < items.len() ==> items[a].0.0 != items[b].0.0
}

pub open spec fn recipe_ids_unique(recipes: Seq<RecipeTuple>) -> bool {
    forall|a: int, b: int| 0 <= a < b < recipes.len() ==> recipes[a].0.0 != recipes[b].0.0
}

/// `idx` lists, once for each item that some recipe links to, exactly the
/// recipes that link to it, each once.
pub open spec fn index_wf(recipes: Seq<RecipeTuple>, idx: Seq<(ItemId, Vec<RecipeId>)>, outputs: bool) -> bool {
    &&& forall|a: int, b: int| 0 <= a < b < idx.len() ==> idx[a].0.0 != idx[b].0.0
    &&& forall|a: int, t: int| 0 <= a < idx.len() && 0 <= t < idx[a].1@.len()
        ==> links(recipes, #[trigger] idx[a].1@[t].0, idx[a].0.0, outputs)
    &&& forall|r: usize, i: usize| #[trigger] links(recipes, r, i, outputs) ==> exists|a: int, t: int|
        0 <= a < idx.len() && 0 <= t < idx[a].1@.len() && idx[a].0.0 == i && #[trigger] idx[a].1@[t].0 == r
    &&& forall|a: int| 0 <= a < idx.len() ==> #[trigger] idx[a].1@.len() > 0
    &&& forall|a: int, t1: int, t2: int| 0 <= a < idx.len() && 0 <= t1 < t2 < idx[a].1@.len()
        ==> #[trigger] idx[a].1@[t1].0 != #[trigger] idx[a].1@[t2].0
}

/// `v` lists recipe `x`.
pub open spec fn has_recipe(v: Seq<RecipeId>, x: usize) -> bool {
    exists|t: int| 0 <= t < v.len() && #[trigger] v[t].0 == x
}

/// The recipe with identifier `r`, if `d` has one.
pub open spec fn find_recipe(d: &Data, r: usize) -> Option<Recipe> {
    if exists|k: int| 0 <= k < d.recipes@.len() && d.recipes@[k].0.0 == r {
        Some(d.recipes@[choose|k: int| 0 <= k < d.recipes@.len() && d.recipes@[k].0.0 == r].1)
    } else {
        None
    }
}

/// The item with identifier `i`, if `d` has one.
pub open spec fn find_item(d: &Data, i: usize) -> Option<Item> {
    if exists|k: int| 0 <= k < d.items@.len() && d.items@[k].0.0 == i {
        Some(d.items@[choose|k: int| 0 <= k < d.items@.len() && d.items@[k].0.0 == i].1)
    } else {
        None
    }
}

/// The first item of `items` named `name`.
pub open spec fn item_named(items: Seq<(ItemId, Item)>, name: Seq<char>) -> Option<usize>
    decreases items.len(),
{
    if items.len() == 0 {
        None
    } else if items[0].1.name@ == name {
        Some(items[0].0.0)
    } else {
        item_named(items.subrange(1, items.len() as int), name)
    }
}

/// The first recipe of `recipes` named `name`.
pub open spec fn recipe_named(recipes: Seq<RecipeTuple>, name: Seq<char>) -> Option<usize>
    decreases recipes.len(),
{
    if recipes.len() == 0 {
        None
    } else if recipes[0].1.name@ == name {
        Some(recipes[0].0.0)
    } else {
        recipe_named(recipes.subrange(1, recipes.len() as int), name)
    }
}

/// Whether some amount in `a` is of item `i`.
fn lists(a: &Vec<ItemAmount>, i: usize) -> (r: bool)
    ensures
        r == lists_item(a@, i),
{
    let mut m: usize = 0;
    while m < a.len()
        invariant
            m <= a@.len(),
            forall|t: int| 0 <= t < m ==> a@[t].id.0 != i,
        decreases a@.len() - m,
    {
        if a[m].id.0 == i {
            return true;
        }
        m = m + 1;
    }
    false
}

fn side_of(r: &Recipe, outputs: bool) -> (a: &Vec<ItemAmount>)
    ensures
        a@ == side(*r, outputs),
{
    if outputs {
        &r.outputs
    } else {
        &r.inputs
    }
}

/// Builds the index of the recipes that consume (or produce) each item.
fn build_index(recipes: &Vec<RecipeTuple>, outputs: bool) -> (idx: RecipeIndex)
    requires
        recipe_ids_unique(recipes@),
    ensures
        index_wf(recipes@, idx@, outputs),
{
    // every item that some recipe lists on that side
    let mut keys = crate::id_set::IdSet::new();
    let mut k: usize = 0;
    while k < recipes.len()
        invariant
            k <= recipes@.len(),
            keys.wf(),
            forall|i: usize| keys@.contains(i) ==> exists|r: usize| #[trigger] links(recipes@, r, i, outputs),
            forall|r: usize, i: usize| #[trigger] links(recipes@, r, i, outputs) ==> keys@.contains(i)
                || exists|q: int| k <= q < recipes@.len() && recipes@[q].0.0 == r && lists_item(side(recipes@[q].1, outputs), i),
        decreases recipes@.len() - k,
    {
        let a = side_of(&recipes[k].1, outputs);
        let mut m: usize = 0;
        while m < a.len()
            invariant
                k < recipes@.len(),
                a@ == side(recipes@[k as int].1, outputs),
                m <= a@.len(),
                keys.wf(),
                forall|i: usize| keys@.contains(i) ==> exists|r: usize| #[trigger] links(recipes@, r, i, outputs),
                forall|t: int| 0 <= t < m ==> keys@.contains(#[trigger] a@[t].id.0),
                forall|r: usize, i: usize| #[trigger] links(recipes@, r, i, outputs) ==> keys@.contains(i)
                    || exists|q: int| k <= q < recipes@.len() && recipes@[q].0.0 == r && lists_item(side(recipes@[q].1, outputs), i),
            decreases a@.len() - m,
        {
            proof {
                assert(lists_item(side(recipes@[k as int].1, outputs), a@[m as int].id.0));
                assert(links(recipes@, recipes@[k as int].0.0, a@[m as int].id.0, outputs));
            }
            keys.insert(a[m].id.0);
            m = m + 1;
        }
        k = k + 1;
    }
    let key_list = keys.to_vec();
    let mut idx: RecipeIndex = Vec::new();
    let mut j: usize = 0;
    while j < key_list.len()
        invariant
            j <= key_list@.len(),
            crate::id_set::strictly_increasing(key_list@),
            key_list@.to_set() == keys@,
            forall|r: usize, i: usize| #[trigger] links(recipes@, r, i, outputs) ==> keys@.contains(i),
            forall|i: usize| keys@.contains(i) ==> exists|r: usize| #[trigger] links(recipes@, r, i, outputs),
            recipe_ids_unique(recipes@),
            forall|a: int| 0 <= a < idx@.len() ==> #[trigger] idx@[a].1@.len() > 0,
            forall|a: int, t1: int, t2: int| 0 <= a < idx@.len() && 0 <= t1 < t2 < idx@[a].1@.len()
                ==> #[trigger] idx@[a].1@[t1].0 != #[trigger] idx@[a].1@[t2].0,
            idx@.len() == j,
            forall|a: int| 0 <= a < j ==> idx@[a].0.0 == key_list@[a],
            forall|a: int, t: int| 0 <= a < idx@.len() && 0 <= t < idx@[a].1@.len()
                ==> links(recipes@, #[trigger] idx@[a].1@[t].0, idx@[a].0.0, outputs),
            forall|a: int, q: int| 0 <= a < idx@.len() && 0 <= q < recipes@.len()
                && lists_item(side(recipes@[q].1, outputs), idx@[a].0.0)
                ==> #[trigger] idx@[a].1@.contains(recipes@[q].0),
        decreases key_list@.len() - j,
    {
        let key = key_list[j];
        let mut rids: Vec<RecipeId> = Vec::new();
        let mut q: usize = 0;
        while q < recipes.len()
            invariant
                q <= recipes@.len(),
                recipe_ids_unique(recipes@),
                forall|t: int, p: int| 0 <= t < rids@.len() && q <= p < recipes@.len()
                    ==> #[trigger] rids@[t].0 != #[trigger] recipes@[p].0.0,
                forall|t1: int, t2: int| 0 <= t1 < t2 < rids@.len() ==> rids@[t1].0 != rids@[t2].0,
                forall|t: int| 0 <= t < rids@.len() ==> links(recipes@, #[trigger] rids@[t].0, key, outputs),
                forall|p: int| 0 <= p < q && lists_item(side(recipes@[p].1, outputs), key)
                    ==> rids@.contains(#[trigger] recipes@[p].0),
            decreases recipes@.len() - q,
        {
            if lists(side_of(&recipes[q].1, outputs), key) {
                let ghost before = rids@;
                rids.push(recipes[q].0);
                assert(links(recipes@, recipes@[q as int].0.0, key, outputs));
                proof {
                    assert forall|t: int, p: int| 0 <= t < rids@.len() && q + 1 <= p < recipes@.len()
                        implies #[trigger] rids@[t].0 != #[trigger] recipes@[p].0.0 by {
                        if t == before.len() {
                            assert(recipes@[q as int].0.0 != recipes@[p].0.0);
                        } else {
                            assert(rids@[t] == before[t]);
                        }
                    }
                    assert forall|t1: int, t2: int| 0 <= t1 < t2 < rids@.len() implies rids@[t1].0 != rids@[t2].0 by {
                        if t2 == before.len() {
                            assert(before[t1].0 != recipes@[q as int].0.0);
                        } else {
                            assert(rids@[t1] == before[t1] && rids@[t2] == before[t2]);
                        }
                    }
                    assert forall|p: int| 0 <= p <= q && lists_item(side(recipes@[p].1, outputs), key)
                        implies rids@.contains(#[trigger] recipes@[p].0) by {
                        if p < q {
                            let t = choose|t: int| 0 <= t < before.len() && before[t] == recipes@[p].0;
                            assert(rids@[t] == before[t]);
                        } else {
                            assert(rids@[rids@.len() - 1] == recipes@[p].0);
                        }
                    }
                }
            }
            q = q + 1;
        }
        proof {
            assert(key_list@.contains(key));
            assert(keys@.contains(key));
            let r = choose|r: usize| #[trigger] links(recipes@, r, key, outputs);
            let p = choose|p: int| 0 <= p < recipes@.len() && recipes@[p].0.0 == r
                && lists_item(side(recipes@[p].1, outputs), key);
            assert(rids@.contains(recipes@[p].0));
        }
        let ghost idx_before = idx@;
        idx.push((ItemId(key), rids));
        proof {
            assert forall|a: int, t1: int, t2: int| 0 <= a < idx@.len() && 0 <= t1 < t2 < idx@[a].1@.len()
                implies #[trigger] idx@[a].1@[t1].0 != #[trigger] idx@[a].1@[t2].0 by {
                if a < idx_before.len() {
                    assert(idx@[a] == idx_before[a]);
                }
            }
        }
        j = j + 1;
    }
    proof {
        assert forall|a: int, b: int| 0 <= a < b < idx@.len() implies idx@[a].0.0 != idx@[b].0.0 by {
            assert(key_list@[a] < key_list@[b]);
        }
        assert forall|r: usize, i: usize| #[trigger] links(recipes@, r, i, outputs) implies exists|a: int, t: int|
            0 <= a < idx@.len() && 0 <= t < idx@[a].1@.len() && idx@[a].0.0 == i && #[trigger] idx@[a].1@[t].0 == r by {
            assert(keys@.contains(i));
            assert(key_list@.contains(i));
            let a = choose|a: int| 0 <= a < key_list@.len() && key_list@[a] == i;
            let q = choose|q: int| 0 <= q < recipes@.len() && recipes@[q].0.0 == r && lists_item(side(recipes@[q].1, outputs), i);
            assert(idx@[a].1@.contains(recipes@[q].0));
            let t = choose|t: int| 0 <= t < idx@[a].1@.len() && idx@[a].1@[t] == recipes@[q].0;
            assert(idx@[a].1@[t].0 == r);
        }
    }
    idx
}

impl Data {
    /// Builds the dataset and its indices.
    pub fn new(items: Vec<(ItemId, Item)>, recipes: Vec<RecipeTuple>) -> (d: Data)
        requires
            item_ids_unique(items@),
            recipe_ids_unique(recipes@),
        ensures
            d.wf(),
            d.items@ == items@,
            d.recipes@ == recipes@,
    {
        let as_input = build_index(&recipes, false);
        let as_output = build_index(&recipes, true);
        Data { items, recipes, as_input, as_output }
    }

    /// The recipes that produce item `i`, from the index; `None` where none does.
    pub fn producers(&self, i: usize) -> (r: Option<&Vec<RecipeId>>)
        requires
            self.wf(),
        ensures
            match r {
                Some(v) => forall|x: usize| produces(self, x, i) <==> has_recipe(v@, x),
                None => forall|x: usize| !produces(self, x, i),
            },
    {
        let mut a: usize = 0;
        while a < self.as_output.len()
            invariant
                a <= self.as_output@.len(),
                self.wf(),
                forall|b: int| 0 <= b < a ==> self.as_output@[b].0.0 != i,
            decreases self.as_output@.len() - a,
        {
            if self.as_output[a].0.0 == i {
                let v = &self.as_output[a].1;
                proof {
                    assert forall|x: usize| produces(self, x, i)
                        implies exists|t: int| 0 <= t < v@.len() && #[trigger] v@[t].0 == x by {
                        assert(links(self.recipes@, x, i, true));
                        let (b, t) = choose|b: int, t: int| 0 <= b < self.as_output@.len() && 0 <= t
                            < self.as_output@[b].1@.len() && self.as_output@[b].0.0 == i
                            && #[trigger] self.as_output@[b].1@[t].0 == x;
                        if b != a {
                            if b < a {
                            } else {
                                assert(self.as_output@[a as int].0.0 != self.as_output@[b].0.0);
                            }
                        }
                        assert(v@[t].0 == x);
                    }
                    assert forall|x: usize| (exists|t: int| 0 <= t < v@.len() && #[trigger] v@[t].0 == x)
                        implies produces(self, x, i) by {
                        let t = choose|t: int| 0 <= t < v@.len() && #[trigger] v@[t].0 == x;
                        assert(links(self.recipes@, self.as_output@[a as int].1@[t].0, i, true));
                    }
                    assert(forall|x: usize| produces(self, x, i) <==> has_recipe(v@, x));
                }
                return Some(v);
            }
            a = a + 1;
        }
        proof {
            assert forall|x: usize| !produces(self, x, i) by {
                if produces(self, x, i) {
                    assert(links(self.recipes@, x, i, true));
                    let (b, t) = choose|b: int, t: int| 0 <= b < self.as_output@.len() && 0 <= t
                        < self.as_output@[b].1@.len() && self.as_output@[b].0.0 == i
                        && #[trigger] self.as_output@[b].1@[t].0 == x;
                }
            }
        }
        None
    }

    /// The recipe with identifier `id`.
    pub fn recipe(&self, id: usize) -> (r: Option<&Recipe>)
        requires
            self.wf(),
        ensures
            match r {
                Some(rec) => find_recipe(self, id) == Some(*rec),
                None => find_recipe(self, id) is None,
            },
    {
        let mut k: usize = 0;
        while k < self.recipes.len()
            invariant
                k <= self.recipes@.len(),
                self.wf(),
                forall|b: int| 0 <= b < k ==> self.recipes@[b].0.0 != id,
            decreases self.recipes@.len() - k,
        {
            if self.recipes[k].0.0 == id {
                proof {
                    let c = choose|c: int| 0 <= c < self.recipes@.len() && self.recipes@[c].0.0 == id;
                    if c != k {
                        if c > k {
                            assert(self.recipes@[k as int].0.0 != self.recipes@[c].0.0);
                        }
                    }
                }
                return Some(&self.recipes[k].1);
            }
            k = k + 1;
        }
        None
    }

    /// The item with identifier `id`.
    pub fn item(&self, id: usize) -> (r: Option<&Item>)
        requires
            self.wf(),
        ensures
            match r {
                Some(it) => find_item(self, id) == Some(*it),
                None => find_item(self, id) is None,
            },
    {
        let mut k: usize = 0;
        while k < self.items.len()
            invariant
                k <= self.items@.len(),
                self.wf(),
                forall|b: int| 0 <= b < k ==> self.items@[b].0.0 != id,
            decreases self.items@.len() - k,
        {
            if self.items[k].0.0 == id {
                proof {
                    let c = choose|c: int| 0 <= c < self.items@.len() && self.items@[c].0.0 == id;
                    if c != k {
                        if c > k {
                            assert(self.items@[k as int].0.0 != self.items@[c].0.0);
                        }
                    }
                }
                return Some(&self.items[k].1);
            }
            k = k + 1;
        }
        None
    }

    /// The identifier of the first item named `name`.
    pub fn item_by_name(&self, name: &String) -> (r: Option<ItemId>)
        ensures
            match r {
                Some(id) => item_named(self.items@, name@) == Some(id.0),
                None => item_named(self.items@, name@) is None,
            },
    {
        let mut k: usize = 0;
        assert(self.items@.subrange(0, self.items@.len() as int) =~= self.items@);
        while k < self.items.len()
            invariant
                k <= self.items@.len(),
                item_named(self.items@, name@) == item_named(self.items@.subrange(k as int, self.items@.len() as int), name@),
            decreases self.items@.len() - k,
        {
            let ghost rest = self.items@.subrange(k as int, self.items@.len() as int);
            assert(rest.subrange(1, rest.len() as int) =~= self.items@.subrange(k + 1, self.items@.len() as int));
            if self.items[k].1.name == *name {
                return Some(self.items[k].0);
            }
            k = k + 1;
        }
        None
    }

    /// The identifier of the first recipe named `name`.
    pub fn recipe_by_name(&self, name: &String) -> (r: Option<RecipeId>)
        ensures
            match r {
                Some(id) => recipe_named(self.recipes@, name@) == Some(id.0),
                None => recipe_named(self.recipes@, name@) is None,
            },
    {
        let mut k: usize = 0;
        assert(self.recipes@.subrange(0, self.recipes@.len() as int) =~= self.recipes@);
        while k < self.recipes.len()
            invariant
                k <= self.recipes@.len(),
                recipe_named(self.recipes@, name@) == recipe_named(self.recipes@.subrange(k as int, self.recipes@.len() as int), name@),
            decreases self.recipes@.len() - k,
        {
            let ghost rest = self.recipes@.subrange(k as int, self.recipes@.len() as int);
            assert(rest.subrange(1, rest.len() as int) =~= self.recipes@.subrange(k + 1, self.recipes@.len() as int));
            if self.recipes[k].1.name == *name {
                return Some(self.recipes[k].0);
            }
            k = k + 1;
        }
        None
    }

    /// Identifiers are unique and the indices agree with the recipes.
    pub open spec fn wf(&self) -> bool {
        &&& item_ids_unique(self.items@)
        &&& recipe_ids_unique(self.recipes@)
        &&& index_wf(self.recipes@, self.as_input@, false)
        &&& index_wf(self.recipes@, self.as_output@, true)
    }
}

} // verus!
