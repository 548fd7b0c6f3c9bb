use dsp_tool::args::Args;
use dsp_tool::commands::{Command, CreateProductionGraph};
use dsp_tool::data::{Data, Item, ItemAmount, ItemId, ItemType, Recipe, RecipeId, RecipeTuple, RecipeType};
use dsp_tool::error::Error;
use dsp_tool::graph::production_graph;
use dsp_tool::id_set::IdSet;
use dsp_tool::resolve::{resolve, resolve_dependencies};
use dsp_tool::select::{parse_ids, parse_token};

fn item(id: usize, name: &str, type_: ItemType) -> (ItemId, Item) {
    (ItemId(id), Item { name: name.to_string(), type_ })
}

fn recipe(id: usize, name: &str, explicit: bool, inputs: &[(usize, usize)], outputs: &[(usize, usize)]) -> RecipeTuple {
    RecipeTuple(
        RecipeId(id),
        Recipe {
            name: name.to_string(),
            type_: RecipeType::Smelt,
            seconds: "1".to_string(),
            explicit,
            inputs: inputs.iter().map(|p| ItemAmount::from_tuple(*p)).collect(),
            outputs: outputs.iter().map(|p| ItemAmount::from_tuple(*p)).collect(),
        },
    )
}

fn strings(v: &[&str]) -> Vec<String> {
    v.iter().map(|s| s.to_string()).collect()
}

fn ore_ingot() -> Data {
    Data::new(
        vec![item(1, "Ore", ItemType::Material), item(2, "Ingot", ItemType::Component)],
        vec![recipe(10, "Smelt Ingot", false, &[(1, 1)], &[(2, 1)])],
    )
}

/// 1 <- r10 <- 2 <- r20 <- 3 <- r30 <- 4
fn chain() -> Data {
    Data::new(
        vec![
            item(1, "Plate", ItemType::Product),
            item(2, "Gear", ItemType::Component),
            item(3, "Iron", ItemType::Material),
            item(4, "Iron Ore", ItemType::Resource),
        ],
        vec![
            recipe(10, "Plate", true, &[(2, 2)], &[(1, 1)]),
            recipe(20, "Gear", false, &[(3, 1)], &[(2, 1)]),
            recipe(30, "Iron", false, &[(4, 1)], &[(3, 1)]),
        ],
    )
}

fn iron_data() -> Data {
    Data::new(
        vec![item(5, "Iron Ingot", ItemType::Material), item(6, "Magnet", ItemType::Component)],
        vec![
            recipe(40, "Magnet", true, &[(5, 1)], &[(6, 1)]),
            recipe(41, "Diamond (Advanced)", false, &[(5, 1)], &[(6, 2)]),
        ],
    )
}

fn set(ids: &[usize]) -> IdSet {
    IdSet::from_vec(&ids.to_vec())
}

#[test]
fn number_and_name_tokens_select_the_item() {
    let d = iron_data();
    assert_eq!(parse_ids(&d, &strings(&["5"]), true).unwrap(), vec![5]);
    assert_eq!(parse_ids(&d, &strings(&["Iron Ingot"]), true).unwrap(), vec![5]);
    assert_eq!(parse_ids(&d, &strings(&["+7"]), true).unwrap(), vec![7]);
}

#[test]
fn all_selects_every_item() {
    let d = iron_data();
    assert_eq!(parse_ids(&d, &strings(&["all"]), true).unwrap(), vec![5, 6]);
    assert_eq!(parse_ids(&d, &strings(&["ALL"]), false).unwrap(), vec![5, 6, 40, 41]);
}

#[test]
fn unknown_token_is_an_error() {
    let d = iron_data();
    match parse_ids(&d, &strings(&["5", "bogus", "also bogus"]), true) {
        Err(Error::InvalidToken(t)) => assert_eq!(t, "bogus"),
        _ => panic!("expected a token error"),
    }
    let e = parse_ids(&d, &strings(&["bogus"]), true).err().unwrap();
    assert_eq!(e.message(), "Invalid or unknown item: bogus");
}

#[test]
fn recipe_keywords_and_names() {
    let d = iron_data();
    assert_eq!(parse_ids(&d, &strings(&["Explicit"]), false).unwrap(), vec![40]);
    assert_eq!(parse_ids(&d, &strings(&["advanced"]), false).unwrap(), vec![41]);
    assert_eq!(parse_ids(&d, &strings(&["Magnet"]), false).unwrap(), vec![6]);
    assert_eq!(parse_ids(&d, &strings(&["Diamond (Advanced)"]), false).unwrap(), vec![41]);
    assert_eq!(parse_ids(&d, &strings(&["Diamond (Advanced)"]), true).unwrap(), Vec::<usize>::new());
    assert!(parse_ids(&d, &strings(&["explicit"]), true).is_err());
    assert!(parse_ids(&d, &strings(&["advanced"]), true).is_err());
}

#[test]
fn category_keywords_select_items_of_that_category() {
    let d = chain();
    assert_eq!(parse_ids(&d, &strings(&["MATERIAL"]), true).unwrap(), vec![3]);
    assert_eq!(parse_ids(&d, &strings(&["component", "resource"]), true).unwrap(), vec![2, 4]);
    assert_eq!(parse_ids(&d, &strings(&["logistics"]), true).unwrap(), Vec::<usize>::new());
}

#[test]
fn parse_token_takes_the_lowered_form() {
    let d = iron_data();
    let r = parse_token(&d, &"X".to_string(), &"matrix".to_string(), true).unwrap();
    assert_eq!(r, Vec::<usize>::new());
    assert!(parse_token(&d, &"X".to_string(), &"x".to_string(), true).is_none());
    let r = parse_token(&d, &"X".to_string(), &"material".to_string(), true).unwrap();
    assert_eq!(r, vec![5]);
}

#[test]
fn end_to_end_ore_to_ingot() {
    let d = ore_ingot();
    let (items, recipes) = match resolve(&d, &strings(&["2"]), &[], true) {
        Ok(r) => r,
        Err(_) => panic!("resolution failed"),
    };
    assert_eq!(recipes.to_vec(), vec![10]);
    assert_eq!(items.to_vec(), vec![1, 2]);
    let g = production_graph(&d, &recipes);
    assert_eq!(g.recipes.len(), 1);
    assert_eq!(g.recipes[0].id, 10);
    assert_eq!(g.recipes[0].name, "Smelt Ingot");
    assert_eq!(g.recipes[0].inputs, vec![("Ore".to_string(), 1)]);
    assert_eq!(g.recipes[0].outputs, vec![("Ingot".to_string(), 1)]);
}

#[test]
fn recipe_cycle_terminates_with_each_recipe_once() {
    let d = Data::new(
        vec![item(1, "A", ItemType::Product), item(2, "B", ItemType::Product)],
        vec![recipe(10, "A", false, &[(2, 1)], &[(1, 1)]), recipe(20, "B", false, &[(1, 1)], &[(2, 1)])],
    );
    let mut items = set(&[1]);
    let recipes = resolve_dependencies(&d, &mut items, &set(&[]), true);
    assert_eq!(recipes.to_vec(), vec![10, 20]);
    assert_eq!(items.to_vec(), vec![1, 2]);
}

#[test]
fn excluded_recipe_never_appears() {
    let d = chain();
    let mut items = set(&[1]);
    let recipes = resolve_dependencies(&d, &mut items, &set(&[20]), true);
    assert_eq!(recipes.to_vec(), vec![10]);
    assert_eq!(items.to_vec(), vec![1, 2]);
    let mut items = set(&[1]);
    let recipes = resolve_dependencies(&d, &mut items, &set(&[3]), true);
    assert_eq!(recipes.to_vec(), vec![10, 20]);
    assert_eq!(items.to_vec(), vec![1, 2]);
}

#[test]
fn recursion_gives_a_superset() {
    let d = chain();
    let mut shallow_items = set(&[1]);
    let shallow = resolve_dependencies(&d, &mut shallow_items, &set(&[]), false);
    let mut deep_items = set(&[1]);
    let deep = resolve_dependencies(&d, &mut deep_items, &set(&[]), true);
    assert_eq!(shallow.to_vec(), vec![10]);
    assert_eq!(shallow_items.to_vec(), vec![1, 2]);
    assert_eq!(deep.to_vec(), vec![10, 20, 30]);
    assert_eq!(deep_items.to_vec(), vec![1, 2, 3, 4]);
    for r in shallow.to_vec() {
        assert!(deep.contains(r));
    }
}

#[test]
fn resolving_again_adds_no_excluded_identifier() {
    let d = chain();
    let exclude = set(&[3, 30]);
    let mut items = set(&[1, 3]);
    let first = resolve_dependencies(&d, &mut items, &exclude, true);
    let first_items = items.to_vec();
    let second = resolve_dependencies(&d, &mut items, &exclude, true);
    assert_eq!(first.to_vec(), vec![10, 20]);
    assert_eq!(second.to_vec(), first.to_vec());
    assert_eq!(items.to_vec(), first_items);
    assert_eq!(items.to_vec(), vec![1, 2]);
}

#[test]
fn excluded_start_item_is_dropped_and_not_explored() {
    let d = chain();
    let mut items = set(&[2]);
    let recipes = resolve_dependencies(&d, &mut items, &set(&[2]), false);
    assert_eq!(recipes.len(), 0);
    assert_eq!(items.len(), 0);
    let d = Data::new(vec![item(1, "A", ItemType::Product)], vec![recipe(10, "A", false, &[], &[(1, 1)])]);
    let mut items = set(&[1]);
    let recipes = resolve_dependencies(&d, &mut items, &set(&[1]), true);
    assert_eq!(recipes.len(), 0);
    assert_eq!(items.len(), 0);
}

#[test]
fn dangling_item_is_left_out_of_the_graph() {
    let d = Data::new(
        vec![item(1, "Ore", ItemType::Material)],
        vec![recipe(10, "Smelt", false, &[(1, 2), (99, 3)], &[(98, 1)])],
    );
    let g = production_graph(&d, &set(&[10, 11]));
    assert_eq!(g.recipes.len(), 1);
    assert_eq!(g.recipes[0].inputs, vec![("Ore".to_string(), 2)]);
    assert!(g.recipes[0].outputs.is_empty());
    assert_eq!(g.recipes[0].label, "1");
}

#[test]
fn unknown_item_has_no_producer() {
    let d = ore_ingot();
    let mut items = set(&[7]);
    let recipes = resolve_dependencies(&d, &mut items, &set(&[]), true);
    assert_eq!(recipes.len(), 0);
    assert_eq!(items.to_vec(), vec![7]);
}

#[test]
fn indices_and_lookups() {
    let d = chain();
    assert_eq!(d.producers(2).unwrap(), &vec![RecipeId(20)]);
    assert!(d.producers(4).is_none());
    assert_eq!(d.as_input.len(), 3);
    assert_eq!(d.item(3).unwrap().name, "Iron");
    assert!(d.item(9).is_none());
    assert_eq!(d.recipe(30).unwrap().name, "Iron");
    assert_eq!(d.item_by_name(&"Gear".to_string()), Some(ItemId(2)));
    assert_eq!(d.recipe_by_name(&"Gear".to_string()), Some(RecipeId(20)));
    assert_eq!(d.recipe_by_name(&"Nothing".to_string()), None);
}

#[test]
fn tags_map_to_variants() {
    assert!(matches!(ItemType::from_tag(&"MATRIX".to_string()), ItemType::Matrix));
    assert!(matches!(ItemType::from_tag(&"LOGISTICS".to_string()), ItemType::Logistics));
    match ItemType::from_tag(&"material".to_string()) {
        ItemType::Unknown(s) => assert_eq!(s, "material"),
        _ => panic!("expected an unknown tag"),
    }
    assert!(matches!(RecipeType::from_tag(&"FRACTIONATE".to_string()), RecipeType::Fractionate));
    match RecipeType::from_tag(&"MIX".to_string()) {
        RecipeType::Unknown(s) => assert_eq!(s, "MIX"),
        _ => panic!("expected an unknown tag"),
    }
}

#[test]
fn id_set_keeps_order_without_repeats() {
    let mut s = IdSet::new();
    assert!(s.insert(5));
    assert!(s.insert(1));
    assert!(!s.insert(5));
    assert!(s.insert(3));
    assert_eq!(s.to_vec(), vec![1, 3, 5]);
    assert_eq!(s.len(), 3);
    assert!(s.contains(3));
    assert!(!s.contains(4));
}

#[test]
fn command_builds_the_graph() {
    let d = ore_ingot();
    let args = Args {
        command: Command::CreateProductionGraph(CreateProductionGraph {
            items: strings(&["Ingot"]),
            ignore: vec![],
            resolve_deps: false,
            data_path: "data.lua".to_string(),
        }),
    };
    let g = match args.command.exec(&d) {
        Ok(g) => g,
        Err(_) => panic!("command failed"),
    };
    assert_eq!(g.recipes.len(), 1);
    assert_eq!(g.recipes[0].id, 10);
    let bad = Command::CreateProductionGraph(CreateProductionGraph {
        items: strings(&["Ingot"]),
        ignore: strings(&["nope"]),
        resolve_deps: false,
        data_path: String::new(),
    });
    match bad.exec(&d) {
        Err(Error::InvalidToken(t)) => assert_eq!(t, "nope"),
        _ => panic!("expected a token error"),
    }
}

#[test]
fn custom_error_keeps_its_message() {
    let e = Error::custom("no data");
    assert_eq!(e.message(), "no data");
}

#[test]
fn flat_amount_list_pairs_up() {
    let a = ItemAmount::from_flat(&vec![1, 2, 3, 4, 5]);
    assert_eq!(a.len(), 2);
    assert_eq!((a[0].id, a[0].amount), (ItemId(1), 2));
    assert_eq!((a[1].id, a[1].amount), (ItemId(3), 4));
    assert!(ItemAmount::from_flat(&vec![]).is_empty());
}

#[test]
fn index_lists_each_recipe_once() {
    let d = Data::new(
        vec![item(1, "A", ItemType::Product)],
        vec![recipe(10, "A", false, &[], &[(1, 1), (1, 2)]), recipe(11, "B", false, &[(1, 1)], &[(1, 1)])],
    );
    assert_eq!(d.producers(1).unwrap(), &vec![RecipeId(10), RecipeId(11)]);
    assert_eq!(d.as_input, vec![(ItemId(1), vec![RecipeId(11)])]);
}
