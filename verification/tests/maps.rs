use global_maps::global_map::{
    Course, GlobalMap, MapIdentifier, MapInfo, Mapper, Mode, RecordFilter, Tier, WorkshopMap,
};
use global_maps::serde::NaiveDateTime;
use global_maps::Error;

fn stamp() -> NaiveDateTime {
    NaiveDateTime { year: 2021, month: 6, day: 1, hour: 12, minute: 0, second: 0 }
}

fn map_info(id: u16, name: &str) -> MapInfo {
    MapInfo {
        id,
        name: name.to_string(),
        global: true,
        filesize: 1024,
        courses: vec![Course { stage: 0, tier: Tier::Medium }],
        mappers: vec![Mapper { name: "someone".to_string(), steam_id: 76561198000000001 }],
        approved_by: Some(76561198000000002),
        created_on: stamp(),
        updated_on: stamp(),
    }
}

fn global_map(id: u16, name: &str) -> GlobalMap {
    GlobalMap {
        id,
        name: name.to_string(),
        tier: Tier::Medium,
        global: true,
        courses: vec![Course { stage: 0, tier: Tier::Medium }],
        kzt: true,
        skz: true,
        vnl: false,
        mappers: vec![Mapper { name: "someone".to_string(), steam_id: 76561198000000001 }],
        approver_steam_id: Some(76561198000000002),
        filesize: 1024,
        created_on: stamp(),
        updated_on: stamp(),
        workshop_link: None,
    }
}

#[test]
fn merge_sorts_by_name_and_joins_flags() {
    let maps = vec![map_info(2, "kz_zebra"), map_info(1, "kz_apricity"), map_info(3, "kz_lionheart")];
    let filters = vec![
        RecordFilter { map_id: 1, mode: Mode::KZTimer, stage: 0, tickrate: 128 },
        RecordFilter { map_id: 1, mode: Mode::SimpleKZ, stage: 0, tickrate: 128 },
        RecordFilter { map_id: 2, mode: Mode::Vanilla, stage: 0, tickrate: 128 },
    ];
    let workshop = vec![
        WorkshopMap { id: 2, workshop_url: String::new() },
        WorkshopMap { id: 2, workshop_url: "https://steamcommunity.com/workshop/2".to_string() },
        WorkshopMap { id: 1, workshop_url: "https://steamcommunity.com/workshop/1".to_string() },
    ];
    let merged = GlobalMap::merge(&maps, &filters, &workshop);
    let names: Vec<&str> = merged.iter().map(|m| m.name.as_str()).collect();
    assert_eq!(names, ["kz_apricity", "kz_lionheart", "kz_zebra"]);
    let apricity = &merged[0];
    assert!(apricity.kzt && apricity.skz && !apricity.vnl);
    assert_eq!(
        apricity.workshop_link.as_deref(),
        Some("https://steamcommunity.com/workshop/1")
    );
    let lionheart = &merged[1];
    assert!(!lionheart.kzt && !lionheart.skz && !lionheart.vnl);
    assert_eq!(lionheart.workshop_link, None);
    let zebra = &merged[2];
    assert!(!zebra.kzt && !zebra.skz && zebra.vnl);
    assert_eq!(
        zebra.workshop_link.as_deref(),
        Some("https://steamcommunity.com/workshop/2")
    );
    assert_eq!(zebra.tier, Tier::Medium);
}

#[test]
fn empty_query_matches_everything() {
    let maps = vec![global_map(1, "kz_beta"), global_map(2, "kz_alpha"), global_map(3, "kz_gamma")];
    let found = GlobalMap::fuzzy_match("", &maps);
    assert_eq!(found, maps);
}

#[test]
fn fuzzy_match_is_case_insensitive_and_filters() {
    let maps = vec![global_map(1, "kz_apricity"), global_map(2, "kz_zebra")];
    let found = GlobalMap::fuzzy_match("KZ_APRICITY", &maps);
    assert_eq!(found.len(), 1);
    assert_eq!(found[0].name, "kz_apricity");
    let nothing = GlobalMap::fuzzy_match("qqqqwwww", &maps);
    assert!(nothing.is_empty());
}

#[test]
fn search_by_exact_id() {
    let maps = vec![global_map(1, "kz_beta"), global_map(7, "kz_alpha")];
    let found = GlobalMap::fuzzy_search(&maps, MapIdentifier::ID(7)).unwrap();
    assert_eq!(found.id, 7);
    assert_eq!(found.name, "kz_alpha");
    assert!(GlobalMap::fuzzy_search(&maps, MapIdentifier::ID(42)).is_none());
}

#[test]
fn search_by_name() {
    let maps = vec![global_map(1, "kz_beta"), global_map(2, "kz_alpha")];
    let found =
        GlobalMap::fuzzy_search(&maps, MapIdentifier::Name("kz_alpha".to_string())).unwrap();
    assert_eq!(found.id, 2);
    assert!(
        GlobalMap::fuzzy_search(&maps, MapIdentifier::Name("wwwwqqqq".to_string())).is_none()
    );
}

#[test]
fn links_are_built_from_the_record() {
    let map = global_map(1, "kz_apricity");
    assert_eq!(map.kzgo_link(), "https://kzgo.eu/maps/kz_apricity");
    assert_eq!(
        map.thumbnail(),
        "https://raw.githubusercontent.com/KZGlobalTeam/map-images/master/images/kz_apricity.jpg"
    );
    assert_eq!(
        map.mapper_steamids(),
        vec!["https://steamcommunity.com/profiles/76561198000000001".to_string()]
    );
    assert_eq!(
        map.approver_steam().as_deref(),
        Some("https://steamcommunity.com/profiles/76561198000000002")
    );
    let mut unapproved = global_map(2, "kz_other");
    unapproved.approver_steam_id = None;
    assert_eq!(unapproved.approver_steam(), None);
}

#[test]
fn error_carries_its_message() {
    let err = Error::GlobalAPI { message: "GlobalAPI request failed: boom".to_string() };
    assert_eq!(err.message(), "GlobalAPI request failed: boom");
}
