use kingdom_map::raw::WorldError;
use kingdom_map::table::Coord;
use kingdom_map::world::{search_by_name, Cell, GameWorld, Role, Tribe};

/// A small snapshot: two kingdoms, two enrolled players, one player whose
/// declared kingdom is unknown, and a handful of cells.
fn snapshot() -> String {
    r#"{
        "response": {
            "gameworld": {
                "name": "world one",
                "startTime": 1000,
                "speed": 1,
                "speedTroops": 1,
                "lastUpdateTime": 2000,
                "date": 3000,
                "version": "v1"
            },
            "players": [
                {
                    "playerId": "1",
                    "name": "ann",
                    "tribeId": "1",
                    "kingdomId": "10",
                    "treasures": 5,
                    "role": 0,
                    "externalLoginToken": "t1",
                    "villages": [
                        {
                            "villageId": 100,
                            "x": "-12",
                            "y": -12,
                            "population": "80",
                            "name": "ann home",
                            "isMainVillage": true,
                            "isCity": false
                        }
                    ]
                },
                {
                    "playerId": 2,
                    "name": "bob",
                    "tribeId": "2",
                    "kingdomId": 10,
                    "treasures": 0,
                    "role": 1,
                    "externalLoginToken": "t2",
                    "villages": [
                        {
                            "villageId": 200,
                            "x": 3,
                            "y": 4,
                            "population": 120,
                            "name": "bob one",
                            "isMainVillage": true,
                            "isCity": true
                        },
                        {
                            "villageId": 201,
                            "x": 5,
                            "y": 6,
                            "population": 60,
                            "name": "bob two",
                            "isMainVillage": false,
                            "isCity": false
                        }
                    ]
                },
                {
                    "playerId": 3,
                    "name": "cai",
                    "tribeId": "3",
                    "kingdomId": 999,
                    "treasures": 7,
                    "role": 3,
                    "externalLoginToken": "t3",
                    "villages": [
                        {
                            "villageId": 300,
                            "x": 7,
                            "y": 8,
                            "population": 10,
                            "name": "cai camp",
                            "isMainVillage": true,
                            "isCity": false
                        }
                    ]
                }
            ],
            "kingdoms": [
                {
                    "kingdomId": 10,
                    "kingdomTag": "Alpha",
                    "creationTime": 1,
                    "victoryPoints": 100
                },
                {
                    "kingdomId": "20",
                    "kingdomTag": "Beta",
                    "creationTime": 2,
                    "victoryPoints": 50
                }
            ],
            "map": {
                "radius": 30,
                "cells": [
                    {
                        "id": 1, "x": -12, "y": -12, "resType": "4", "oasis": "0",
                        "landscape": 1, "kingdomId": 10
                    },
                    {
                        "id": 2, "x": 7, "y": 8, "resType": "4", "oasis": "0",
                        "landscape": 1, "kingdomId": 999
                    },
                    {
                        "id": 3, "x": 0, "y": 0, "resType": "3", "oasis": "0",
                        "landscape": 2, "kingdomId": 20
                    },
                    {
                        "id": 4, "x": 1, "y": 1, "resType": "0", "oasis": "1",
                        "landscape": 3, "kingdomId": 10
                    },
                    {
                        "id": 5, "x": 2, "y": 2, "resType": "2", "oasis": "2",
                        "landscape": 4, "kingdomId": 20
                    }
                ],
                "landscapes": { "1": "hills", "2": "plains" }
            }
        }
    }"#
    .to_string()
}

fn built() -> GameWorld {
    GameWorld::from_raw_data(&snapshot()).expect("snapshot should build")
}

#[test]
fn coerced_string_and_number_agree() {
    let gw = built();
    let v = gw.villages.get(100).expect("village 100");
    assert_eq!(v.coords, Coord { x: -12, y: -12 });
    assert_eq!(v.pop, 80);
}

#[test]
fn world_tables_filled() {
    let gw = built();
    assert_eq!(gw.radius, 30);
    assert_eq!(gw.kingdoms.len(), 2);
    assert_eq!(gw.players.len(), 3);
    assert_eq!(gw.villages.len(), 4);
    assert_eq!(gw.cells.len(), 5);
    let k = gw.kingdoms.get(10).expect("kingdom 10");
    assert_eq!(k.name, "Alpha");
    assert_eq!(k.victory_points, 100);
    assert_eq!(k.player_ids, vec![1, 2]);
    let p = gw.players.get(1).expect("player 1");
    assert_eq!(p.name, "ann");
    assert!(matches!(p.tribe, Tribe::Roman));
    assert!(matches!(p.role, Role::Gov));
    assert_eq!(p.village_ids, vec![100]);
}

#[test]
fn classify_no_resource_wins_over_oasis() {
    let gw = built();
    let c = gw.cells.get(Coord { x: 1, y: 1 }).expect("cell (1,1)");
    assert_eq!(*c, Cell::Other(Some(10)));
}

#[test]
fn classify_occupied_and_empty() {
    let gw = built();
    let occupied = gw.cells.get(Coord { x: -12, y: -12 }).expect("cell (-12,-12)");
    assert_eq!(*occupied, Cell::Occupied(Some(10), 1, 100));
    let empty = gw.cells.get(Coord { x: 0, y: 0 }).expect("cell (0,0)");
    assert_eq!(*empty, Cell::Empty(Some(20)));
}

#[test]
fn classify_oasis_and_kingdomless_occupant() {
    let gw = built();
    let oasis = gw.cells.get(Coord { x: 2, y: 2 }).expect("cell (2,2)");
    assert_eq!(*oasis, Cell::Oasis(Some(20)));
    // cai has no kingdom, so the occupant triple carries no kingdom id and
    // the unknown declared kingdom 999 yields no influence.
    let camp = gw.cells.get(Coord { x: 7, y: 8 }).expect("cell (7,8)");
    assert_eq!(*camp, Cell::Occupied(None, 3, 300));
}

#[test]
fn cell_new_matches_rule() {
    assert_eq!(Cell::new("0", "1", Some(7), None), Cell::Other(Some(7)));
    assert_eq!(Cell::new("0", "0", None, None), Cell::Other(None));
    assert_eq!(Cell::new("4", "1", Some(7), None), Cell::Oasis(Some(7)));
    assert_eq!(Cell::new("4", "0", Some(7), None), Cell::Empty(Some(7)));
    assert_eq!(
        Cell::new("4", "0", Some(7), Some((Some(1), 2, 3))),
        Cell::Occupied(Some(1), 2, 3)
    );
}

#[test]
fn unknown_tribe_code_fails_naming_it() {
    let text = snapshot().replace("\"tribeId\": \"2\"", "\"tribeId\": \"9\"");
    match GameWorld::from_raw_data(&text) {
        Err(WorldError::UnknownTribe(code)) => assert_eq!(code, "9"),
        other => panic!("expected an unknown-tribe failure, got {:?}", other.map(|_| ())),
    }
}

#[test]
fn unknown_role_code_fails_naming_it() {
    let text = snapshot().replace("\"role\": 1,", "\"role\": 99,");
    match GameWorld::from_raw_data(&text) {
        Err(WorldError::UnknownRole(code)) => assert_eq!(code, 99),
        other => panic!("expected an unknown-role failure, got {:?}", other.map(|_| ())),
    }
}

#[test]
fn player_without_kingdom_is_kept_but_unlisted() {
    let gw = built();
    let p = gw.players.get(3).expect("player 3 stays in the table");
    assert_eq!(p.name, "cai");
    assert!(!gw.kingdoms.get(10).unwrap().player_ids.contains(&3));
    assert!(!gw.kingdoms.get(20).unwrap().player_ids.contains(&3));
}

#[test]
fn player_villages_resolves_in_order() {
    let gw = built();
    let vs = gw.player_villages(&2);
    assert_eq!(vs.len(), 2);
    assert_eq!(vs[0].name, "bob one");
    assert_eq!(vs[1].name, "bob two");
    assert!(gw.player_villages(&555).is_empty());
}

#[test]
fn kingdom_villages_player_order_then_village_order() {
    let gw = built();
    let vs = gw.kingdom_villages(&10);
    assert_eq!(vs.len(), 3);
    assert_eq!(vs[0].name, "ann home");
    assert_eq!(vs[1].name, "bob one");
    assert_eq!(vs[2].name, "bob two");
    assert!(gw.kingdom_villages(&999).is_empty());
}

#[test]
fn name_lookup_absent_is_none() {
    let gw = built();
    assert_eq!(search_by_name(&gw.kingdoms, "Gamma"), None);
    assert_eq!(search_by_name(&gw.kingdoms, "Beta"), Some(20));
    assert_eq!(search_by_name(&gw.players, "bob"), Some(2));
    assert_eq!(search_by_name(&gw.villages, "nowhere"), None);
}

#[test]
fn empty_snapshot_builds_empty_tables() {
    let text = r#"{"response": {"gameworld": {
        "name": "w", "startTime": 1, "speed": 1, "speedTroops": 1,
        "lastUpdateTime": 1, "date": 1, "version": "v"
    }, "players": [], "kingdoms": [], "map": {"radius": 0, "cells": [], "landscapes": {}}}}"#;
    let gw = GameWorld::from_raw_data(text).expect("empty snapshot should build");
    assert_eq!(gw.radius, 0);
    assert_eq!(gw.kingdoms.len(), 0);
    assert_eq!(gw.players.len(), 0);
    assert_eq!(gw.villages.len(), 0);
    assert_eq!(gw.cells.len(), 0);
    assert!(gw.kingdom_villages(&1).is_empty());
}

#[test]
fn coordinate_collision_last_write_wins() {
    // Two villages share a coordinate: the later one owns the cell.
    let text = snapshot().replace("\"x\": 3,\n                            \"y\": 4,", "\"x\": -12,\n                            \"y\": -12,");
    let gw = GameWorld::from_raw_data(&text).expect("snapshot should build");
    let c = gw.cells.get(Coord { x: -12, y: -12 }).expect("cell");
    assert_eq!(*c, Cell::Occupied(Some(10), 2, 200));
}
