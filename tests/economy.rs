use uyta::animal::AnimalHandler;
use uyta::coord_map::{Coord, CoordMap};
use uyta::farm_map::{FarmMap, MapDynamicData};
use uyta::inventory::{Inventory, ItemType, ToolFunction};
use uyta::localization::LocaleHandler;
use uyta::player::Player;
use uyta::shop::{compounded_price, MenuMode, ToolbarData, ToolbarItem, ToolbarItemData, ToolbarStatic};
use uyta::tables::{AnimalData, AnimalStatic, Beehive, Climate, Crop, Flower, MapStaticData, Tree};
use uyta::tile::TileType;
use uyta::upgrades::{UpgradeData, UpgradeHandler, UpgradeStatic};
use uyta::utils::shrink_number_for_display;
use uyta::worker::WorkerHandler;
use uyta::yields::{climate_band, climate_sample, compute_yield, YieldSource};

fn tables() -> MapStaticData {
    MapStaticData {
        crops_data: vec![
            Crop { time_to_grow: 3, grow_step: 1, sell_price: 10, exp: 2, climate: Climate::Warm },
            Crop { time_to_grow: 5, grow_step: 1, sell_price: 40, exp: 5, climate: Climate::Cold },
        ],
        tree_data: vec![Tree {
            time_to_grow: 2,
            grow_step: 1,
            time_to_fruit: 2,
            sell_price: 30,
            exp: 3,
            climate: Climate::Temperate,
        }],
        hive_data: vec![Beehive { time_to_honey: 2, sell_price: 50, exp: 7 }],
        flower_data: vec![Flower { sell_price: 5, exp: 1 }],
    }
}

fn animals() -> AnimalStatic {
    AnimalStatic { animal_data: vec![AnimalData { time_to_drop: 2, drop_cost: 25, exp: 4 }] }
}

fn item(price: usize) -> ToolbarItem {
    ToolbarItem::new(String::from("item"), ToolbarItemData { unlock_level: 1, price })
}

fn shop() -> ToolbarData {
    ToolbarData::new(ToolbarStatic::new(
        vec![item(10), item(20)],
        vec![item(100)],
        vec![item(50)],
        vec![item(40), item(15)],
        vec![item(200), item(0)],
    ))
}

fn grid(entries: Vec<(Coord, TileType)>) -> FarmMap {
    FarmMap {
        static_data: tables(),
        dynamic_data: MapDynamicData {
            tiles: CoordMap { entries },
            occupation_map: CoordMap::new(),
            land_expansion_points: vec![],
            next_expansion_cost: 1000,
        },
    }
}

fn english() -> LocaleHandler {
    let mut h = LocaleHandler::new(vec![(String::from("en"), String::from("English"))]);
    h.set_locale(
        String::from("en"),
        vec![
            (String::from("million"), String::from("million")),
            (String::from("billion"), String::from("billion")),
            (String::from("trillion"), String::from("trillion")),
        ],
    );
    h
}

#[test]
fn prices_grow_by_a_tenth_per_purchase() {
    assert_eq!(compounded_price(100, 0), 100);
    assert_eq!(compounded_price(100, 1), 110);
    assert_eq!(compounded_price(100, 3), 133);
    assert_eq!(compounded_price(15, 1), 16);
    assert_eq!(compounded_price(usize::MAX, 2), usize::MAX);
    let mut s = shop();
    assert_eq!(s.get_price_for_crop(1), 20);
    s.dynamic_data.crop_amount[1] = 2;
    assert_eq!(s.get_price_for_crop(1), 24);
    s.dynamic_data.tree_amount[0] = 1;
    assert_eq!(s.get_price_for_tree(0), 110);
    assert_eq!(s.get_price_for_animal(0), 50);
    assert_eq!(s.get_price_for_beekeeping(1), 15);
    assert_eq!(s.get_price_for_misc(0), 200);
}

#[test]
fn multipliers_double_per_tier() {
    let mut h = UpgradeHandler::new(UpgradeStatic { upgrade_data: vec![] });
    assert_eq!(h.get_multiplier_for_crop(1), 1);
    h.dynamic_data.purchased_upgrades = vec![3, 4, 5, 6, 10];
    assert_eq!(h.get_multiplier_for_crop(1), 8);
    assert_eq!(h.get_multiplier_for_crop(0), 1);
    assert_eq!(h.get_multiplier_for_tree(0, 2), 2);
    assert_eq!(h.get_multiplier_for_animal(0, 2, 1), 2);
    assert_eq!(h.get_multiplier_for_beehive(2, 1, 1), 1);
}

#[test]
fn yield_applies_tiers_and_climate() {
    let st = tables();
    let an = animals();
    let mut up = UpgradeHandler::new(UpgradeStatic { upgrade_data: vec![] });
    up.dynamic_data.purchased_upgrades = vec![3, 5];
    assert_eq!(compute_yield(YieldSource::Crop { crop: 1 }, &st, &an, &up, 0), (160, 20));
    assert_eq!(compute_yield(YieldSource::Crop { crop: 1 }, &st, &an, &up, -500), (320, 40));
    assert_eq!(compute_yield(YieldSource::Tree { tree: 0 }, &st, &an, &up, 300), (60, 6));
    assert_eq!(compute_yield(YieldSource::Animal { animal: 0 }, &st, &an, &up, 900), (25, 4));
}

#[test]
fn climate_bands_split_at_the_thresholds() {
    assert_eq!(climate_band(-301), Climate::Cold);
    assert_eq!(climate_band(-300), Climate::Temperate);
    assert_eq!(climate_band(300), Climate::Temperate);
    assert_eq!(climate_band(301), Climate::Warm);
}

#[test]
fn climate_sample_is_deterministic_and_bounded() {
    for x in -40..40 {
        for y in [-1000, 0, 7, 123456] {
            let a = climate_sample((x, y));
            assert_eq!(a, climate_sample((x, y)));
            assert!((-1000..=1000).contains(&a));
        }
    }
    assert!((-1000..=1000).contains(&climate_sample((i32::MAX, i32::MIN))));
}

#[test]
fn upgrades_are_offered_then_bought_once() {
    let mut h = UpgradeHandler::new(UpgradeStatic {
        upgrade_data: vec![UpgradeData { label: String::from("a"), description: String::from("b"), cost: 300 }],
    });
    let mut p = Player::new();
    assert!(!h.is_upgrade_offered(0, &p));
    p.alltime_max_money = 150;
    assert!(h.is_upgrade_offered(0, &p));
    assert!(!h.buy_upgrade(0, &mut p));
    p.money = 350;
    assert!(h.buy_upgrade(0, &mut p));
    assert_eq!(p.money, 50);
    assert_eq!(h.dynamic_data.purchased_upgrades, vec![0]);
    p.money = 1000;
    assert!(!h.buy_upgrade(0, &mut p));
    assert_eq!(p.money, 1000);
}

#[test]
fn player_levels_up_with_enough_experience() {
    let mut p = Player::new();
    p.exp = 19;
    assert!(!p.update_exp());
    p.exp = 20;
    assert!(p.update_exp());
    assert_eq!((p.level, p.exp, p.exp_to_lvl_up), (2, 0, 30));
    p.money = 500;
    p.update_money();
    assert_eq!(p.alltime_max_money, 500);
    p.earn(usize::MAX, 1);
    assert_eq!(p.money, usize::MAX);
}

#[test]
fn planting_pays_and_counts() {
    let mut map = grid(vec![((0, 0), TileType::Grass), ((1, 0), TileType::Farmland { crop: 0, stage: 2 })]);
    let mut s = shop();
    let mut p = Player::new();
    p.plant_crops(&mut s, MenuMode::Crops, 1, &mut map, &(0, 0));
    assert_eq!(p.money, 80);
    assert_eq!(map.dynamic_data.tiles.get((0, 0)), Some(TileType::Farmland { crop: 1, stage: 0 }));
    assert_eq!(s.dynamic_data.crop_amount, vec![0, 1]);
    s.dynamic_data.crop_amount[0] = 1;
    p.plant_crops(&mut s, MenuMode::Crops, 1, &mut map, &(1, 0));
    assert_eq!(p.money, 58);
    assert_eq!(s.dynamic_data.crop_amount, vec![0, 2]);
    assert_eq!(map.dynamic_data.tiles.get((1, 0)), Some(TileType::Farmland { crop: 1, stage: 0 }));
    p.plant_crops(&mut s, MenuMode::Crops, 0, &mut map, &(5, 5));
    assert_eq!(p.money, 58);
}

#[test]
fn planting_without_funds_changes_nothing() {
    let mut map = grid(vec![((0, 0), TileType::Grass)]);
    let mut s = shop();
    let mut p = Player::new();
    p.money = 99;
    p.plant_trees(&mut s, 0, &mut map, &(0, 0));
    assert_eq!(p.money, 99);
    assert_eq!(map.dynamic_data.tiles.get((0, 0)), Some(TileType::Grass));
    p.money = 100;
    p.plant_trees(&mut s, 0, &mut map, &(0, 0));
    assert_eq!(p.money, 0);
    assert_eq!(map.dynamic_data.tiles.get((0, 0)), Some(TileType::Tree { tree: 0, grow: 0, stage: 0 }));
}

#[test]
fn beekeeping_places_hives_and_flowers() {
    let mut map = grid(vec![((0, 0), TileType::Grass), ((1, 0), TileType::Grass)]);
    let mut s = shop();
    let mut p = Player::new();
    p.perform_beekeeping(&mut s, 0, &mut map, &(0, 0));
    p.perform_beekeeping(&mut s, 1, &mut map, &(1, 0));
    assert_eq!(p.money, 45);
    assert_eq!(map.dynamic_data.tiles.get((0, 0)), Some(TileType::Beehive { stage: 0, price: 0, xp: 0 }));
    assert_eq!(map.dynamic_data.tiles.get((1, 0)), Some(TileType::Flower { flower: 0 }));
    assert_eq!(s.dynamic_data.beekeeping_amount, vec![1, 1]);
}

#[test]
fn animals_are_bought_onto_grass() {
    let map = grid(vec![((0, 0), TileType::Grass), ((1, 0), TileType::Flower { flower: 0 })]);
    let mut s = shop();
    let mut p = Player::new();
    let mut h = AnimalHandler::new(animals());
    p.spawn_animals(&mut s, 0, &map, &(1, 0), &mut h);
    assert!(h.dynamic_data.animals.is_empty());
    p.spawn_animals(&mut s, 0, &map, &(0, 0), &mut h);
    assert_eq!(h.dynamic_data.animals.len(), 1);
    assert_eq!(h.dynamic_data.animals[0].position, (0, 0));
    assert_eq!(p.money, 50);
}

#[test]
fn misc_hires_workers_and_clears_tiles() {
    let mut map = grid(vec![((0, 0), TileType::Grass), ((1, 0), TileType::Farmland { crop: 0, stage: 1 })]);
    let mut s = shop();
    s.dynamic_data.crop_amount[0] = 1;
    let mut p = Player::new();
    p.money = 250;
    let mut workers = WorkerHandler::new();
    p.perform_misc(&mut s, &mut workers, 0, &mut map, &(0, 0));
    assert_eq!(workers.workers.len(), 2);
    assert_eq!(p.money, 50);
    p.perform_misc(&mut s, &mut workers, 1, &mut map, &(1, 0));
    assert_eq!(map.dynamic_data.tiles.get((1, 0)), Some(TileType::Grass));
    assert_eq!(s.dynamic_data.crop_amount, vec![0, 0]);
    assert_eq!(p.money, 50);
}

#[test]
fn large_numbers_are_shortened() {
    let h = english();
    assert_eq!(shrink_number_for_display(999_999, &h), "999999");
    assert_eq!(shrink_number_for_display(2_000_000, &h), "2 million");
    assert_eq!(shrink_number_for_display(1_500_000, &h), "1.500 million");
    assert_eq!(shrink_number_for_display(1_005_000, &h), "1.005 million");
    assert_eq!(shrink_number_for_display(12_050_000_000, &h), "12.050 billion");
    assert_eq!(shrink_number_for_display(3_000_000_000_000, &h), "3 trillion");
}

#[test]
fn phrases_are_looked_up_by_key() {
    let h = english();
    assert_eq!(h.phrase("billion"), Some(String::from("billion")));
    assert_eq!(h.phrase("level"), None);
    assert_eq!(h.current_locale, "en");
}

#[test]
fn inventory_stacks_then_fills_free_slots() {
    let mut inv = Inventory::new();
    assert!(inv.add_item(ItemType::Seed));
    assert!(inv.add_item(ItemType::Seed));
    assert_eq!(inv.slots[0].amount, 2);
    assert!(inv.add_item(ItemType::Tool(ToolFunction::Hoe)));
    assert_eq!(inv.slots[1].item, Some(ItemType::Tool(ToolFunction::Hoe)));
    inv.slots[0].amount = 99;
    assert!(inv.add_item(ItemType::Seed));
    assert_eq!(inv.slots[2].item, Some(ItemType::Seed));
    assert_eq!(inv.slots[2].amount, 1);
}

#[test]
fn full_inventory_rejects_new_items() {
    let mut inv = Inventory::new();
    for s in inv.slots.iter_mut() {
        s.item = Some(ItemType::Seed);
        s.amount = 99;
    }
    assert!(!inv.add_item(ItemType::Seed));
    assert!(!inv.add_item(ItemType::Tool(ToolFunction::Chop)));
}

#[test]
fn table_validation_rejects_oversized_values() {
    let mut st = tables();
    assert!(st.is_valid());
    st.flower_data[0].sell_price = usize::MAX / 65 + 1;
    assert!(!st.is_valid());
    st.flower_data[0].sell_price = 1;
    st.hive_data.clear();
    assert!(!st.is_valid());
    assert!(animals().is_valid());
}

#[test]
fn small_numbers_need_no_words() {
    let h = LocaleHandler::new(vec![]);
    assert_eq!(shrink_number_for_display(0, &h), "0");
    assert_eq!(shrink_number_for_display(7, &h), "7");
    assert_eq!(shrink_number_for_display(999_999, &h), "999999");
    assert_eq!(shrink_number_for_display(1_000_000, &english()), "1 million");
}

#[test]
fn hive_with_one_plain_flower_adds_its_price() {
    let mut map = grid(vec![
        ((0, 0), TileType::Beehive { stage: 1, price: 0, xp: 0 }),
        ((-1, 0), TileType::Flower { flower: 0 }),
    ]);
    let up = UpgradeHandler::new(UpgradeStatic { upgrade_data: vec![] });
    map.update_tiles(&up, 1);
    assert_eq!(map.dynamic_data.tiles.get((0, 0)), Some(TileType::Beehive { stage: 2, price: 55, xp: 8 }));
}
