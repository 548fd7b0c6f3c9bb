use vstd::prelude::*;
use crate::data::{Data, Item, ItemId, ItemType, RecipeTuple, item_named, recipe_named};
use crate::error::Error;

verus! {

/// What `str::to_lowercase` makes of a string.
pub uninterp spec fn lower_of(s: Seq<char>) -> Seq<char>;

/// Relies on `str::to_lowercase`: its result depends on the characters of
/// `s` alone.
#[verifier::external_body]
fn lowercase(s: &str) -> (r: String)
    ensures
        r@ == lower_of(s@),
{
    s.to_lowercase()
}

pub open spec fn is_digit(c: char) -> bool {
    '0' <= c && c <= '9'
}

/// The number that a string of decimal digits denotes.
pub open spec fn digits_value(s: Seq<char>) -> nat
    decreases s.len(),
{
    if s.len() == 0 {
        0
    } else {
        digits_value(s.drop_last()) * 10 + ((s.last() as u32) - ('0' as u32)) as nat
    }
}

/// `s` without one leading `+`, if it has one.
pub open spec fn sign_dropped(s: Seq<char>) -> Seq<char> {
    if s.len() > 0 && s[0] == '+' {
        s.subrange(1, s.len() as int)
    } else {
        s
    }
}

pub open spec fn all_digits(t: Seq<char>) -> bool {
    forall|k: int| 0 <= k < t.len() ==> is_digit(#[trigger] t[k])
}

/// The number that `s` reads as: an optional `+` and then one or more
/// decimal digits, of a value that fits in `usize`.
pub open spec fn parsed_usize(s: Seq<char>) -> Option<usize> {
    let t = sign_dropped(s);
    if t.len() > 0 && all_digits(t) && digits_value(t) <= usize::MAX {
        Some(digits_value(t) as usize)
    } else {
        None
    }
}

/// Relies on `usize`'s `FromStr`: it accepts an optional `+` followed by
/// decimal digits whose value fits, and nothing else.
#[verifier::external_body]
fn parse_usize(s: &str) -> (r: Option<usize>)
    ensures
        r == parsed_usize(s@),
{
    <usize as core::str::FromStr>::from_str(s).ok()
}

/// Names of the recipes that the keyword `advanced` selects.
pub open spec fn advanced_names() -> Seq<Seq<char>> {
    seq![
        "Casimir Crystal (Advanced)"@,
        "Organic Crystal (Original)"@,
        "Crystal Silicon (Advanced)"@,
        "Photon Combiner (Advanced)"@,
        "Space Warper (Advanced)"@,
        "Particle Container (Advanced)"@,
        "Graphene (Advanced)"@,
        "Carbon Nanotube (Advanced)"@,
        "Diamond (Advanced)"@,
    ]
}

fn advanced_recipe_names() -> (r: Vec<String>)
    ensures
        r@.map_values(|s: String| s@) == advanced_names(),
{
    let mut r: Vec<String> = Vec::new();
    r.push("Casimir Crystal (Advanced)".to_owned());
    r.push("Organic Crystal (Original)".to_owned());
    r.push("Crystal Silicon (Advanced)".to_owned());
    r.push("Photon Combiner (Advanced)".to_owned());
    r.push("Space Warper (Advanced)".to_owned());
    r.push("Particle Container (Advanced)".to_owned());
    r.push("Graphene (Advanced)".to_owned());
    r.push("Carbon Nanotube (Advanced)".to_owned());
    r.push("Diamond (Advanced)".to_owned());
    assert(r@.map_values(|s: String| s@) =~= advanced_names());
    r
}

/// The item category that a lower-case keyword names.
pub open spec fn category_keyword(low: Seq<char>) -> Option<ItemType> {
    if low == "material"@ {
        Some(ItemType::Material)
    } else if low == "matrix"@ {
        Some(ItemType::Matrix)
    } else if low == "product"@ {
        Some(ItemType::Product)
    } else if low == "production"@ {
        Some(ItemType::Production)
    } else if low == "resource"@ {
        Some(ItemType::Resource)
    } else if low == "component"@ {
        Some(ItemType::Component)
    } else if low == "logistics"@ {
        Some(ItemType::Logistics)
    } else {
        None
    }
}

/// The identifiers of the items of category `t`, in order.
pub open spec fn items_of_type(items: Seq<(ItemId, Item)>, t: ItemType) -> Seq<usize>
    decreases items.len(),
{
    if items.len() == 0 {
        Seq::empty()
    } else {
        items_of_type(items.drop_last(), t) + if items.last().1.type_ == t {
            seq![items.last().0.0]
        } else {
            Seq::empty()
        }
    }
}

/// The identifiers of the explicit recipes, in order.
pub open spec fn explicit_ids(recipes: Seq<RecipeTuple>) -> Seq<usize>
    decreases recipes.len(),
{
    if recipes.len() == 0 {
        Seq::empty()
    } else {
        explicit_ids(recipes.drop_last()) + if recipes.last().1.explicit {
            seq![recipes.last().0.0]
        } else {
            Seq::empty()
        }
    }
}

/// The identifiers of the recipes named in `names`, in that order; names
/// that no recipe has are passed over.
pub open spec fn named_recipe_ids(recipes: Seq<RecipeTuple>, names: Seq<Seq<char>>) -> Seq<usize>
    decreases names.len(),
{
    if names.len() == 0 {
        Seq::empty()
    } else {
        named_recipe_ids(recipes, names.drop_last()) + match recipe_named(recipes, names.last()) {
            Some(id) => seq![id],
            None => Seq::empty(),
        }
    }
}

pub open spec fn all_item_ids(items: Seq<(ItemId, Item)>) -> Seq<usize> {
    items.map_values(|e: (ItemId, Item)| e.0.0)
}

pub open spec fn all_recipe_ids(recipes: Seq<RecipeTuple>) -> Seq<usize> {
    recipes.map_values(|t: RecipeTuple| t.0.0)
}

/// The identifiers that token `tok`, whose lower-case form is `low`, selects;
/// `None` where it selects nothing known.
pub open spec fn token_ids(d: &Data, tok: Seq<char>, low: Seq<char>, items_only: bool) -> Option<Seq<usize>> {
    if parsed_usize(tok) is Some {
        Some(seq![parsed_usize(tok)->Some_0])
    } else if item_named(d.items@, tok) is Some {
        Some(seq![item_named(d.items@, tok)->Some_0])
    } else if recipe_named(d.recipes@, tok) is Some {
        if items_only {
            Some(Seq::empty())
        } else {
            Some(seq![recipe_named(d.recipes@, tok)->Some_0])
        }
    } else if low == "all"@ {
        if items_only {
            Some(all_item_ids(d.items@))
        } else {
            Some(all_item_ids(d.items@) + all_recipe_ids(d.recipes@))
        }
    } else if low == "explicit"@ && !items_only {
        Some(explicit_ids(d.recipes@))
    } else if low == "advanced"@ && !items_only {
        Some(named_recipe_ids(d.recipes@, advanced_names()))
    } else if category_keyword(low) is Some {
        Some(items_of_type(d.items@, category_keyword(low)->Some_0))
    } else {
        None
    }
}

/// The identifiers that the tokens select, one after the other, or the first
/// token that selects nothing known.
pub open spec fn tokens_ids(d: &Data, toks: Seq<String>, items_only: bool) -> Result<Seq<usize>, Seq<char>>
    decreases toks.len(),
{
    if toks.len() == 0 {
        Ok(Seq::empty())
    } else {
        match tokens_ids(d, toks.drop_last(), items_only) {
            Err(t) => Err(t),
            Ok(prev) => match token_ids(d, toks.last()@, lower_of(toks.last()@), items_only) {
                Some(ids) => Ok(prev + ids),
                None => Err(toks.last()@),
            },
        }
    }
}

/// The keyword `all`, where no item or recipe bears that name, selects for
/// items every item identifier of the dataset, each exactly once.
pub proof fn lemma_all_selects_every_item(d: &Data)
    requires
        d.wf(),
        item_named(d.items@, "all"@) is None,
        recipe_named(d.recipes@, "all"@) is None,
    ensures
        token_ids(d, "all"@, "all"@, true) == Some(all_item_ids(d.items@)),
        all_item_ids(d.items@).len() == d.items@.len(),
        all_item_ids(d.items@).no_duplicates(),
        forall|i: usize| all_item_ids(d.items@).contains(i)
            <==> exists|k: int| 0 <= k < d.items@.len() && #[trigger] d.items@[k].0.0 == i,
{
    reveal_strlit("all");
    let word = "all"@;
    assert(word.len() == 3 && word[0] == 'a');
    assert(!(word[0] == '+'));
    assert(!is_digit(word[0]));
    assert(sign_dropped(word) == word);
    assert(!is_digit(word[0]));
    assert(!all_digits(word));
    assert(parsed_usize(word) is None);
    let ids = all_item_ids(d.items@);
    assert forall|i: usize| ids.contains(i)
        <==> exists|k: int| 0 <= k < d.items@.len() && #[trigger] d.items@[k].0.0 == i by {
        if ids.contains(i) {
            let k = choose|k: int| 0 <= k < ids.len() && ids[k] == i;
            assert(d.items@[k].0.0 == i);
        }
        if exists|k: int| 0 <= k < d.items@.len() && #[trigger] d.items@[k].0.0 == i {
            let k = choose|k: int| 0 <= k < d.items@.len() && #[trigger] d.items@[k].0.0 == i;
            assert(ids[k] == i);
        }
    }
    assert forall|a: int, b: int| 0 <= a < ids.len() && 0 <= b < ids.len() && a != b implies ids[a] != ids[b] by {
        if a < b {
            assert(d.items@[a].0.0 != d.items@[b].0.0);
        } else {
            assert(d.items@[b].0.0 != d.items@[a].0.0);
        }
    }
}

proof fn lemma_error_stays(d: &Data, toks: Seq<String>, items_only: bool, i: int)
    requires
        0 <= i <= toks.len(),
        tokens_ids(d, toks.subrange(0, i), items_only) is Err,
    ensures
        tokens_ids(d, toks, items_only) == tokens_ids(d, toks.subrange(0, i), items_only),
    decreases toks.len() - i,
{
    if i < toks.len() {
        let next = toks.subrange(0, i + 1);
        assert(next.drop_last() =~= toks.subrange(0, i));
        lemma_error_stays(d, toks, items_only, i + 1);
    } else {
        assert(toks.subrange(0, i) =~= toks);
    }
}

fn push_items_of_type(data: &Data, t: &ItemType, out: &mut Vec<usize>)
    requires
        !(*t is Unknown),
    ensures
        final(out)@ == old(out)@ + items_of_type(data.items@, *t),
{
    let ghost base = out@;
    let mut i: usize = 0;
    while i < data.items.len()
        invariant
            !(*t is Unknown),
            i <= data.items@.len(),
            out@ == base + items_of_type(data.items@.subrange(0, i as int), *t),
        decreases data.items@.len() - i,
    {
        assert(data.items@.subrange(0, i + 1).drop_last() =~= data.items@.subrange(0, i as int));
        if data.items[i].1.type_.is(t) {
            out.push(data.items[i].0.0);
        }
        assert(out@ =~= base + items_of_type(data.items@.subrange(0, i + 1), *t));
        i = i + 1;
    }
    assert(data.items@.subrange(0, data.items@.len() as int) =~= data.items@);
}

fn push_explicit(data: &Data, out: &mut Vec<usize>)
    ensures
        final(out)@ == old(out)@ + explicit_ids(data.recipes@),
{
    let ghost base = out@;
    let mut i: usize = 0;
    while i < data.recipes.len()
        invariant
            i <= data.recipes@.len(),
            out@ == base + explicit_ids(data.recipes@.subrange(0, i as int)),
        decreases data.recipes@.len() - i,
    {
        assert(data.recipes@.subrange(0, i + 1).drop_last() =~= data.recipes@.subrange(0, i as int));
        if data.recipes[i].1.explicit {
            out.push(data.recipes[i].0.0);
        }
        assert(out@ =~= base + explicit_ids(data.recipes@.subrange(0, i + 1)));
        i = i + 1;
    }
    assert(data.recipes@.subrange(0, data.recipes@.len() as int) =~= data.recipes@);
}

fn push_all_items(data: &Data, out: &mut Vec<usize>)
    ensures
        final(out)@ == old(out)@ + all_item_ids(data.items@),
{
    let ghost base = out@;
    let mut i: usize = 0;
    while i < data.items.len()
        invariant
            i <= data.items@.len(),
            out@ == base + all_item_ids(data.items@.subrange(0, i as int)),
        decreases data.items@.len() - i,
    {
        out.push(data.items[i].0.0);
        assert(out@ =~= base + all_item_ids(data.items@.subrange(0, i + 1)));
        i = i + 1;
    }
    assert(data.items@.subrange(0, data.items@.len() as int) =~= data.items@);
}

fn push_all_recipes(data: &Data, out: &mut Vec<usize>)
    ensures
        final(out)@ == old(out)@ + all_recipe_ids(data.recipes@),
{
    let ghost base = out@;
    let mut i: usize = 0;
    while i < data.recipes.len()
        invariant
            i <= data.recipes@.len(),
            out@ == base + all_recipe_ids(data.recipes@.subrange(0, i as int)),
        decreases data.recipes@.len() - i,
    {
        out.push(data.recipes[i].0.0);
        assert(out@ =~= base + all_recipe_ids(data.recipes@.subrange(0, i + 1)));
        i = i + 1;
    }
    assert(data.recipes@.subrange(0, data.recipes@.len() as int) =~= data.recipes@);
}

fn push_advanced(data: &Data, out: &mut Vec<usize>)
    ensures
        final(out)@ == old(out)@ + named_recipe_ids(data.recipes@, advanced_names()),
{
    let names = advanced_recipe_names();
    let ghost views = names@.map_values(|s: String| s@);
    let ghost base = out@;
    let mut i: usize = 0;
    while i < names.len()
        invariant
            i <= names@.len(),
            views == names@.map_values(|s: String| s@),
            out@ == base + named_recipe_ids(data.recipes@, views.subrange(0, i as int)),
        decreases names@.len() - i,
    {
        assert(views.subrange(0, i + 1).drop_last() =~= views.subrange(0, i as int));
        assert(views.subrange(0, i + 1).last() == names@[i as int]@);
        if let Some(rid) = data.recipe_by_name(&names[i]) {
            out.push(rid.0);
        }
        assert(out@ =~= base + named_recipe_ids(data.recipes@, views.subrange(0, i + 1)));
        i = i + 1;
    }
    assert(views.subrange(0, views.len() as int) =~= views);
}

fn single(n: usize) -> (v: Vec<usize>)
    ensures
        v@ == seq![n],
{
    let mut v: Vec<usize> = Vec::new();
    v.push(n);
    assert(v@ =~= seq![n]);
    v
}

/// The identifiers that `token` selects, given its lower-case form
/// `lowered`; `None` where it is no number, no known name and no keyword.
pub fn parse_token(data: &Data, token: &String, lowered: &String, items_only: bool) -> (r: Option<Vec<usize>>)
    ensures
        match r {
            Some(v) => token_ids(data, token@, lowered@, items_only) == Some(v@),
            None => token_ids(data, token@, lowered@, items_only) is None,
        },
{
    if let Some(n) = parse_usize(token.as_str()) {
        return Some(single(n));
    }
    if let Some(id) = data.item_by_name(token) {
        return Some(single(id.0));
    }
    if let Some(id) = data.recipe_by_name(token) {
        if items_only {
            return Some(Vec::new());
        }
        return Some(single(id.0));
    }
    let mut out: Vec<usize> = Vec::new();
    if *lowered == "all".to_owned() {
        push_all_items(data, &mut out);
        if !items_only {
            push_all_recipes(data, &mut out);
        }
        return Some(out);
    }
    if *lowered == "explicit".to_owned() && !items_only {
        push_explicit(data, &mut out);
        return Some(out);
    }
    if *lowered == "advanced".to_owned() && !items_only {
        push_advanced(data, &mut out);
        return Some(out);
    }
    let t = if *lowered == "material".to_owned() {
        ItemType::Material
    } else if *lowered == "matrix".to_owned() {
        ItemType::Matrix
    } else if *lowered == "product".to_owned() {
        ItemType::Product
    } else if *lowered == "production".to_owned() {
        ItemType::Production
    } else if *lowered == "resource".to_owned() {
        ItemType::Resource
    } else if *lowered == "component".to_owned() {
        ItemType::Component
    } else if *lowered == "logistics".to_owned() {
        ItemType::Logistics
    } else {
        return None;
    };
    push_items_of_type(data, &t, &mut out);
    Some(out)
}

/// The identifiers that the tokens select, in order and with repeats; the
/// first token that selects nothing known is the error.
pub fn parse_ids(data: &Data, items: &[String], items_only: bool) -> (r: Result<Vec<usize>, Error>)
    ensures
        match r {
            Ok(v) => tokens_ids(data, items@, items_only) == Ok::<Seq<usize>, Seq<char>>(v@),
            Err(Error::InvalidToken(t)) => tokens_ids(data, items@, items_only) == Err::<Seq<usize>, Seq<char>>(t@),
            Err(Error::Custom(_)) => false,
        },
{
    let mut ret: Vec<usize> = Vec::new();
    let mut i: usize = 0;
    assert(items@.subrange(0, 0) =~= Seq::<String>::empty());
    while i < items.len()
        invariant
            i <= items@.len(),
            tokens_ids(data, items@.subrange(0, i as int), items_only) == Ok::<Seq<usize>, Seq<char>>(ret@),
        decreases items@.len() - i,
    {
        let ghost prefix = items@.subrange(0, i + 1);
        assert(prefix.drop_last() =~= items@.subrange(0, i as int));
        assert(prefix.last() == items@[i as int]);
        let lowered = lowercase(items[i].as_str());
        match parse_token(data, &items[i], &lowered, items_only) {
            Some(mut ids) => {
                ret.append(&mut ids);
            },
            None => {
                proof { lemma_error_stays(data, items@, items_only, i + 1); }
                return Err(Error::InvalidToken(items[i].clone()));
            },
        }
        i = i + 1;
    }
    assert(items@.subrange(0, items@.len() as int) =~= items@);
    Ok(ret)
}

} // verus!
