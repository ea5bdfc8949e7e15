use uyta::animal::{Animal, AnimalHandler};
use uyta::coord_map::{Coord, CoordMap};
use uyta::farm_map::{FarmMap, MapDynamicData};
use uyta::player::Player;
use uyta::route::find_route;
use uyta::tables::{AnimalData, AnimalStatic, Beehive, Climate, Crop, Flower, MapStaticData, Tree};
use uyta::tile::TileType;
use uyta::upgrades::{UpgradeData, UpgradeHandler, UpgradeStatic};
use uyta::worker::{JobType, Worker, WorkerHandler};
use uyta::yields::{climate_band, climate_sample};

fn tables() -> MapStaticData {
    MapStaticData {
        crops_data: vec![
            Crop { time_to_grow: 3, grow_step: 1, sell_price: 10, exp: 2, climate: Climate::Warm },
            Crop { time_to_grow: 5, grow_step: 1, sell_price: 40, exp: 5, climate: Climate::Cold },
        ],
        tree_data: vec![Tree {
            time_to_grow: 2,
            grow_step: 1,
            time_to_fruit: 2,
            sell_price: 30,
            exp: 3,
            climate: Climate::Temperate,
        }],
        hive_data: vec![Beehive { time_to_honey: 2, sell_price: 50, exp: 7 }],
        flower_data: vec![Flower { sell_price: 5, exp: 1 }],
    }
}

fn animals() -> AnimalStatic {
    AnimalStatic { animal_data: vec![AnimalData { time_to_drop: 2, drop_cost: 25, exp: 4 }] }
}

fn upgrades(bought: Vec<usize>) -> UpgradeHandler {
    let mut h = UpgradeHandler::new(UpgradeStatic { upgrade_data: vec![] });
    h.dynamic_data.purchased_upgrades = bought;
    h
}

fn grid(entries: Vec<(Coord, TileType)>) -> FarmMap {
    FarmMap {
        static_data: tables(),
        dynamic_data: MapDynamicData {
            tiles: CoordMap { entries },
            occupation_map: CoordMap::new(),
            land_expansion_points: vec![],
            next_expansion_cost: 1000,
        },
    }
}

fn climate_factor(c: Coord, preferred: Climate) -> usize {
    if climate_band(climate_sample(c)) == preferred { 2 } else { 1 }
}

#[test]
fn farmland_stalls_once_grown() {
    let mut map = grid(vec![((0, 0), TileType::Farmland { crop: 0, stage: 0 })]);
    let up = upgrades(vec![]);
    for _ in 0..3 {
        map.update_tiles(&up, 1);
    }
    assert_eq!(map.dynamic_data.tiles.get((0, 0)), Some(TileType::Farmland { crop: 0, stage: 3 }));
    assert!(TileType::Farmland { crop: 0, stage: 3 }.is_ready(&map.static_data));
    map.update_tiles(&up, 1);
    assert_eq!(map.dynamic_data.tiles.get((0, 0)), Some(TileType::Farmland { crop: 0, stage: 3 }));
}

#[test]
fn farmland_stage_never_falls_under_growth() {
    let mut map = grid(vec![((0, 0), TileType::Farmland { crop: 1, stage: 0 })]);
    let up = upgrades(vec![]);
    let mut last = 0;
    for _ in 0..10 {
        map.update_tiles(&up, 1);
        match map.dynamic_data.tiles.get((0, 0)) {
            Some(TileType::Farmland { stage, .. }) => {
                assert!(stage >= last);
                assert!(stage <= 5);
                last = stage;
            }
            _ => panic!("farmland changed kind"),
        }
    }
    assert_eq!(last, 5);
}

#[test]
fn tree_grows_then_fruits() {
    let mut map = grid(vec![((0, 0), TileType::Tree { tree: 0, grow: 0, stage: 0 })]);
    let up = upgrades(vec![]);
    let expected = [(1, 0), (2, 0), (2, 1), (2, 2), (2, 2)];
    for (grow, stage) in expected {
        map.update_tiles(&up, 1);
        assert_eq!(map.dynamic_data.tiles.get((0, 0)), Some(TileType::Tree { tree: 0, grow, stage }));
    }
}

#[test]
fn hive_without_flowers_caches_base_yield() {
    let mut map = grid(vec![((0, 0), TileType::Beehive { stage: 0, price: 0, xp: 0 })]);
    let up = upgrades(vec![]);
    map.update_tiles(&up, 1);
    assert_eq!(map.dynamic_data.tiles.get((0, 0)), Some(TileType::Beehive { stage: 1, price: 0, xp: 0 }));
    map.update_tiles(&up, 1);
    assert_eq!(map.dynamic_data.tiles.get((0, 0)), Some(TileType::Beehive { stage: 2, price: 50, xp: 7 }));
}

#[test]
fn hive_with_upgraded_flower_adds_flower_yield() {
    let mut map = grid(vec![
        ((0, 0), TileType::Beehive { stage: 1, price: 0, xp: 0 }),
        ((1, 1), TileType::Flower { flower: 0 }),
        ((2, 0), TileType::Flower { flower: 0 }),
    ]);
    // hive tiers start after 2 crops, 1 tree and 1 animal: 3 * 4 = 12
    let up = upgrades(vec![12]);
    map.update_tiles(&up, 1);
    assert_eq!(
        map.dynamic_data.tiles.get((0, 0)),
        Some(TileType::Beehive { stage: 2, price: 50 + 5 * 2, xp: 7 + 1 * 2 })
    );
}

#[test]
fn two_idle_workers_do_not_share_a_target() {
    let mut map = grid(vec![
        ((0, 0), TileType::Grass),
        ((1, 0), TileType::Farmland { crop: 0, stage: 3 }),
        ((2, 0), TileType::Grass),
    ]);
    let mut handler = WorkerHandler { workers: vec![Worker::new(0, 0), Worker::new(2, 0)] };
    let mut player = Player::new();
    handler.advance_workers(&mut player, &mut map, &animals(), &upgrades(vec![]));
    let routes: Vec<Vec<Coord>> = handler.workers.iter().map(|w| w.path.clone()).collect();
    assert_eq!(routes[0], vec![(1, 0)]);
    assert!(routes[1].is_empty());
    assert_eq!(map.dynamic_data.occupation_map.get((1, 0)), Some(true));
    assert_eq!(player.money, 100);
}

#[test]
fn reserved_tile_is_skipped_by_search() {
    let mut map = grid(vec![
        ((0, 0), TileType::Grass),
        ((1, 0), TileType::AnimalDrop { animal: 0 }),
        ((5, 0), TileType::AnimalDrop { animal: 0 }),
    ]);
    let w = Worker::new(0, 0);
    assert_eq!(w.find_closest_target(&mut map, JobType::Harvest), Some((1, 0)));
    assert_eq!(w.find_closest_target(&mut map, JobType::Harvest), Some((5, 0)));
    assert_eq!(w.find_closest_target(&mut map, JobType::Harvest), None);
}

#[test]
fn worker_walks_then_harvests_crop() {
    let mut map = grid(vec![
        ((0, 0), TileType::Grass),
        ((1, 0), TileType::Grass),
        ((2, 0), TileType::Farmland { crop: 0, stage: 3 }),
    ]);
    let mut w = Worker::new(0, 0);
    let up = upgrades(vec![0, 2]);
    let an = animals();
    assert_eq!(w.follow_path(&mut map, &an, &up), (0, 0));
    assert_eq!(w.path, vec![(1, 0), (2, 0)]);
    assert_eq!(w.follow_path(&mut map, &an, &up), (0, 0));
    assert_eq!(w.follow_path(&mut map, &an, &up), (0, 0));
    assert_eq!(w.position, (2, 0));
    let f = climate_factor((2, 0), Climate::Warm);
    assert_eq!(w.follow_path(&mut map, &an, &up), (10 * 4 * f, 2 * 4 * f));
    assert_eq!(map.dynamic_data.tiles.get((2, 0)), Some(TileType::Farmland { crop: 0, stage: 0 }));
    assert_eq!(map.dynamic_data.occupation_map.get((2, 0)), Some(false));
}

#[test]
fn harvesting_a_drop_restores_grass() {
    let mut map = grid(vec![((0, 0), TileType::AnimalDrop { animal: 0 })]);
    let mut w = Worker::new(0, 0);
    // animal tiers start after 2 crops and 1 tree: 9
    let up = upgrades(vec![9]);
    assert_eq!(w.follow_path(&mut map, &animals(), &up), (50, 8));
    assert_eq!(map.dynamic_data.tiles.get((0, 0)), Some(TileType::Grass));
}

#[test]
fn harvesting_a_tree_keeps_it_mature() {
    let mut map = grid(vec![((0, 0), TileType::Tree { tree: 0, grow: 2, stage: 2 })]);
    let mut w = Worker::new(0, 0);
    let f = climate_factor((0, 0), Climate::Temperate);
    assert_eq!(w.follow_path(&mut map, &animals(), &upgrades(vec![])), (30 * f, 3 * f));
    assert_eq!(map.dynamic_data.tiles.get((0, 0)), Some(TileType::Tree { tree: 0, grow: 2, stage: 0 }));
}

#[test]
fn unready_tile_pays_nothing() {
    let mut map = grid(vec![((0, 0), TileType::Farmland { crop: 0, stage: 2 })]);
    let mut w = Worker::new(0, 0);
    assert_eq!(w.follow_path(&mut map, &animals(), &upgrades(vec![])), (0, 0));
    assert_eq!(map.dynamic_data.tiles.get((0, 0)), Some(TileType::Farmland { crop: 0, stage: 2 }));
}

#[test]
fn unreachable_target_leaves_worker_idle() {
    let mut map = grid(vec![((0, 0), TileType::Grass), ((3, 0), TileType::AnimalDrop { animal: 0 })]);
    let mut w = Worker::new(0, 0);
    assert!(w.find_path(&mut map, JobType::Harvest).is_none());
    assert!(w.path.is_empty());
    assert_eq!(map.dynamic_data.occupation_map.get((3, 0)), Some(true));
}

#[test]
fn route_on_full_grid_has_manhattan_length() {
    let map = FarmMap::new(tables());
    let route = find_route(&map.dynamic_data.tiles, (-2, -2), (2, 1)).unwrap();
    assert_eq!(route.len(), 7);
    assert_eq!(*route.last().unwrap(), (2, 1));
    let route = find_route(&map.dynamic_data.tiles, (0, 0), (0, 0)).unwrap();
    assert!(route.is_empty());
}

#[test]
fn route_around_a_hole_stays_owned() {
    let mut entries = vec![];
    for x in 0..3 {
        for y in 0..3 {
            if (x, y) != (1, 1) && (x, y) != (1, 0) {
                entries.push(((x, y), TileType::Grass));
            }
        }
    }
    let map = grid(entries);
    let route = find_route(&map.dynamic_data.tiles, (0, 0), (2, 0)).unwrap();
    assert_eq!(route.len(), 6);
    let mut prev = (0, 0);
    for step in route {
        assert!(map.dynamic_data.tiles.contains_key(step));
        assert_eq!((step.0 - prev.0).abs() + (step.1 - prev.1).abs(), 1);
        prev = step;
    }
    assert!(find_route(&map.dynamic_data.tiles, (0, 0), (1, 1)).is_none());
    assert!(find_route(&map.dynamic_data.tiles, (9, 9), (0, 0)).is_none());
}

#[test]
fn new_grid_is_one_grass_chunk() {
    let map = FarmMap::new(tables());
    assert_eq!(map.dynamic_data.tiles.len(), 25);
    assert_eq!(map.dynamic_data.tiles.get((2, -2)), Some(TileType::Grass));
    assert!(!map.dynamic_data.tiles.contains_key((3, 0)));
    assert_eq!(map.dynamic_data.land_expansion_points, vec![(0, 5), (5, 0), (0, -5), (-5, 0)]);
    assert_eq!(map.dynamic_data.next_expansion_cost, 1000);
}

#[test]
fn buying_land_without_funds_changes_nothing() {
    let mut map = FarmMap::new(tables());
    let mut player = Player::new();
    player.money = 999;
    map.buy_land((0, 5), &mut player);
    assert_eq!(player.money, 999);
    assert_eq!(map.dynamic_data.tiles.len(), 25);
    assert_eq!(map.dynamic_data.land_expansion_points, vec![(0, 5), (5, 0), (0, -5), (-5, 0)]);
    assert_eq!(map.dynamic_data.next_expansion_cost, 1000);
}

#[test]
fn buying_the_same_point_twice_buys_once() {
    let mut map = FarmMap::new(tables());
    let mut player = Player::new();
    player.money = 10_000;
    map.buy_land((0, 5), &mut player);
    assert_eq!(player.money, 9_000);
    assert_eq!(map.dynamic_data.next_expansion_cost, 1500);
    assert_eq!(map.dynamic_data.tiles.len(), 50);
    assert_eq!(map.dynamic_data.tiles.get((2, 7)), Some(TileType::Grass));
    assert_eq!(
        map.dynamic_data.land_expansion_points,
        vec![(5, 0), (0, -5), (-5, 0), (0, 10), (5, 5), (-5, 5)]
    );
    map.buy_land((0, 5), &mut player);
    assert_eq!(player.money, 9_000);
    assert_eq!(map.dynamic_data.tiles.len(), 50);
    assert_eq!(map.dynamic_data.next_expansion_cost, 1500);
}

#[test]
fn expansion_cost_rounds_half_up() {
    let mut map = FarmMap::new(tables());
    map.dynamic_data.next_expansion_cost = 1001;
    let mut player = Player::new();
    player.money = 5_000;
    map.buy_land((5, 0), &mut player);
    assert_eq!(map.dynamic_data.next_expansion_cost, 1502);
    map.buy_land((0, 7), &mut player);
    assert_eq!(player.money, 3_999);
}

#[test]
fn animal_steps_onto_grass_then_drops() {
    let mut map = grid(vec![((0, 0), TileType::Grass), ((0, 1), TileType::Grass), ((0, 2), TileType::Grass)]);
    let data = animals().animal_data[0];
    let mut a = Animal::new(0, 0, 0);
    a.move_in_direction(&mut map, &data, 0);
    assert_eq!(a.position, (0, 1));
    assert_eq!(a.drop_bar, 1);
    a.move_in_direction(&mut map, &data, 0);
    assert_eq!(a.position, (0, 1));
    assert_eq!(a.drop_bar, 0);
    assert_eq!(map.dynamic_data.tiles.get((0, 2)), Some(TileType::AnimalDrop { animal: 0 }));
    a.move_in_direction(&mut map, &data, 1);
    assert_eq!(a.position, (0, 1));
    assert_eq!(a.drop_bar, 0);
    assert_eq!(a.direction, (1, 0));
}

#[test]
fn wandering_animal_moves_at_most_one_step() {
    let mut map = FarmMap::new(tables());
    let mut handler = AnimalHandler::new(animals());
    handler.add_animal(Animal::new(0, 0, 0));
    for _ in 0..20 {
        let before = handler.dynamic_data.animals[0].position;
        handler.move_animals(&mut map);
        let after = handler.dynamic_data.animals[0].position;
        assert!((after.0 - before.0).abs() + (after.1 - before.1).abs() <= 1);
        assert!(map.dynamic_data.tiles.contains_key(after));
    }
    assert_eq!(map.dynamic_data.tiles.len(), 25);
}

#[test]
fn restored_grids_are_checked() {
    assert!(FarmMap::new(tables()).is_valid(1));
    assert!(!grid(vec![((0, 0), TileType::Grass), ((0, 0), TileType::Grass)]).is_valid(1));
    assert!(!grid(vec![((0, 0), TileType::Farmland { crop: 7, stage: 0 })]).is_valid(1));
    assert!(!grid(vec![((0, 0), TileType::AnimalDrop { animal: 1 })]).is_valid(1));
    assert!(grid(vec![((0, 0), TileType::AnimalDrop { animal: 1 })]).is_valid(2));
    let mut map = FarmMap::new(tables());
    map.dynamic_data.land_expansion_points.push((0, 5));
    assert!(!map.is_valid(1));
    let mut handler = AnimalHandler::new(animals());
    handler.add_animal(Animal::new(3, 0, 0));
    assert!(!handler.is_valid());
}

#[test]
fn busy_workers_step_along_their_routes() {
    let mut map = FarmMap::new(tables());
    let mut handler = WorkerHandler { workers: vec![Worker::new(0, 0), Worker::new(1, 1)] };
    handler.workers[0].path = vec![(0, 1), (0, 2)];
    let mut player = Player::new();
    handler.advance_workers(&mut player, &mut map, &animals(), &upgrades(vec![]));
    assert_eq!(handler.workers[0].position, (0, 1));
    assert_eq!(handler.workers[0].path, vec![(0, 2)]);
    assert_eq!(handler.workers[1].position, (1, 1));
    assert!(handler.workers[1].path.is_empty());
}

#[test]
fn wandering_directions_vary() {
    let mut map = FarmMap::new(tables());
    let data = AnimalData { time_to_drop: usize::MAX, drop_cost: 1, exp: 1 };
    let mut a = Animal::new(0, 0, 0);
    let mut seen = vec![];
    for _ in 0..200 {
        a.position = (0, 0);
        a.move_randomly(&mut map, &data);
        if !seen.contains(&a.direction) {
            seen.push(a.direction);
        }
    }
    assert!(seen.len() >= 2);
    assert!(seen.iter().all(|d| [(0, 1), (1, 0), (0, -1), (-1, 0)].contains(d)));
}
