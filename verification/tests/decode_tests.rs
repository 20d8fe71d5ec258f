use kingdom_map::config::{kingdom_color_vector, KingdomConfig, Rgb};
use kingdom_map::json::parse_i64;
use kingdom_map::raw::{parse_raw_map_data, WorldError};
use kingdom_map::world::{Role, Tribe};

#[test]
fn parse_i64_exact_values() {
    assert_eq!(parse_i64("0"), Some(0));
    assert_eq!(parse_i64("12"), Some(12));
    assert_eq!(parse_i64("-12"), Some(-12));
    assert_eq!(parse_i64("0012"), Some(12));
    assert_eq!(parse_i64("9223372036854775807"), Some(i64::MAX));
    assert_eq!(parse_i64("9223372036854775808"), None);
    assert_eq!(parse_i64(""), None);
    assert_eq!(parse_i64("-"), None);
    assert_eq!(parse_i64("12a"), None);
    assert_eq!(parse_i64(" 12"), None);
    assert_eq!(parse_i64("1.5"), None);
}

#[test]
fn tribe_codes_decode() {
    assert!(matches!(Tribe::from_str("1"), Ok(Tribe::Roman)));
    assert!(matches!(Tribe::from_str("2"), Ok(Tribe::Teuton)));
    assert!(matches!(Tribe::from_str("3"), Ok(Tribe::Gaul)));
    match Tribe::from_str("0") {
        Err(WorldError::UnknownTribe(code)) => assert_eq!(code, "0"),
        other => panic!("expected failure, got {:?}", other),
    }
}

#[test]
fn role_codes_decode() {
    assert!(matches!(Role::from_i32(0), Ok(Role::Gov)));
    assert!(matches!(Role::from_i32(1), Ok(Role::King)));
    assert!(matches!(Role::from_i32(2), Ok(Role::Duke)));
    assert!(matches!(Role::from_i32(3), Ok(Role::Vice)));
    match Role::from_i32(-1) {
        Err(WorldError::UnknownRole(code)) => assert_eq!(code, -1),
        other => panic!("expected failure, got {:?}", other),
    }
}

#[test]
fn malformed_text_is_a_parse_error() {
    match parse_raw_map_data("{ not json") {
        Err(WorldError::Parse(_)) => {},
        other => panic!("expected a parse failure, got {:?}", other.map(|_| ())),
    }
}

#[test]
fn missing_required_field_is_reported() {
    match parse_raw_map_data("{}") {
        Err(WorldError::MissingField(f)) => assert_eq!(f, "response"),
        other => panic!("expected a missing field, got {:?}", other.map(|_| ())),
    }
}

#[test]
fn wrong_shape_is_reported() {
    let text = r#"{"response": {"gameworld": {"name": 3}}}"#;
    match parse_raw_map_data(text) {
        Err(WorldError::WrongType(f)) => assert_eq!(f, "name"),
        other => panic!("expected a wrong type, got {:?}", other.map(|_| ())),
    }
}

#[test]
fn non_numeric_string_in_coerced_field_is_rejected() {
    let text = r#"{"response": {"gameworld": {
        "name": "w", "startTime": 1, "speed": 1, "speedTroops": 1,
        "lastUpdateTime": 1, "date": 1, "version": "v"
    }, "players": [], "kingdoms": [{
        "kingdomId": "ten", "kingdomTag": "A", "creationTime": 1, "victoryPoints": 1
    }], "map": {"radius": 1, "cells": [], "landscapes": {}}}}"#;
    match parse_raw_map_data(text) {
        Err(WorldError::WrongType(f)) => assert_eq!(f, "kingdomId"),
        other => panic!("expected a wrong type, got {:?}", other.map(|_| ())),
    }
}

#[test]
fn color_plan_orders_groups() {
    let cfg = KingdomConfig {
        us: "Home".to_string(),
        allies: vec!["A1".to_string(), "A2".to_string()],
        friends: vec!["F1".to_string()],
        hostiles: vec!["H1".to_string()],
        ennemies: vec!["E1".to_string()],
        neutrals: vec!["N1".to_string()],
    };
    let plan = kingdom_color_vector(&cfg);
    let names: Vec<&str> = plan.iter().map(|p| p.0).collect();
    assert_eq!(names, vec!["Home", "A1", "A2", "F1", "H1", "E1", "N1"]);
    assert_eq!(plan[0].1, Rgb { r: 40, g: 46, b: 8 });
    assert_eq!(plan[1].1, Rgb { r: 16, g: 82, b: 106 });
    assert_eq!(plan[3].1, Rgb { r: 28, g: 153, b: 197 });
    assert_eq!(plan[4].1, Rgb { r: 242, g: 147, b: 21 });
    assert_eq!(plan[5].1, Rgb { r: 160, g: 18, b: 16 });
    assert_eq!(plan[6].1, Rgb { r: 125, g: 127, b: 116 });
}
