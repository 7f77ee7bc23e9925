use forest::drops::{drops_for_draw, get_drops, select_drop_entry, total_weight};
use forest::plants::{ConfigError, DropEntry, PlantCatalog, PlantSpecies, default_catalog};

fn species(name: &str, max_age: u32, drops: Vec<DropEntry>) -> PlantSpecies {
    PlantSpecies {
        name: name.to_owned(),
        max_age,
        size_per_turn: 1,
        points_per_size: 1,
        class: 's',
        short_display: 'x',
        drops,
    }
}

fn five_one_table() -> Vec<DropEntry> {
    vec![
        DropEntry { chance: 5, plants: vec![0, 0] },
        DropEntry { chance: 1, plants: vec![0, 1] },
    ]
}

#[test]
fn total_weight_sums_the_table() {
    assert_eq!(total_weight(&five_one_table()), 6);
    assert_eq!(total_weight(&vec![]), 0);
}

#[test]
fn selection_walks_cumulative_intervals() {
    let table = five_one_table();
    // The first entry owns (0, 5], the second (5, 6].
    assert_eq!(select_drop_entry(&table, 0), None);
    assert_eq!(select_drop_entry(&table, 1), Some(0));
    assert_eq!(select_drop_entry(&table, 5), Some(0));
    assert_eq!(select_drop_entry(&table, 6), Some(1));
    assert_eq!(select_drop_entry(&table, 7), None);
}

#[test]
fn selection_on_empty_table_finds_nothing() {
    assert_eq!(select_drop_entry(&vec![], 1), None);
}

#[test]
fn draws_resolve_to_fresh_instances() {
    let cat = default_catalog();
    // Tall grass (species 1): weight 5 drops two tall grass, weight 1
    // drops tall grass and a shrub.
    let low = drops_for_draw(&cat, 1, 5).unwrap();
    assert_eq!(low.len(), 2);
    assert_eq!(low[0].species, 1);
    assert_eq!(low[1].species, 1);
    let high = drops_for_draw(&cat, 1, 6).unwrap();
    assert_eq!(high[0].species, 1);
    assert_eq!(high[1].species, 2);
    assert!(high.iter().all(|p| p.age == 0 && p.size == 0));
    assert_eq!(drops_for_draw(&cat, 1, 0), None);
}

#[test]
fn empty_or_weightless_tables_drop_nothing() {
    let cat = PlantCatalog::new(vec![
        species("Bare", 2, vec![]),
        species("Weightless", 2, vec![DropEntry { chance: 0, plants: vec![0] }]),
    ])
    .unwrap();
    assert_eq!(get_drops(0, &cat), None);
    assert_eq!(get_drops(1, &cat), None);
}

#[test]
fn drops_follow_the_weight_distribution() {
    // Tall grass drops by a five-to-one table; over many draws the
    // rare entry (the one producing a shrub) comes up about one sixth
    // of the time.
    let cat = default_catalog();
    let trials: u32 = 6000;
    let mut rare: u32 = 0;
    for _ in 0..trials {
        let produced = get_drops(1, &cat).expect("a weighted table always drops");
        assert_eq!(produced.len(), 2);
        assert_eq!(produced[0].species, 1);
        if produced[1].species == 2 {
            rare += 1;
        } else {
            assert_eq!(produced[1].species, 1);
        }
    }
    // Expected 1000 of 6000; allow a generous statistical margin.
    assert!(rare > 600 && rare < 1450, "rare entry drawn {} times of {}", rare, trials);
}

#[test]
fn catalog_rejects_unknown_drop_references() {
    let bad = vec![species("Lonely", 2, vec![DropEntry { chance: 1, plants: vec![5] }])];
    assert_eq!(PlantCatalog::new(bad).unwrap_err(), ConfigError::UnknownSpecies);
}

#[test]
fn catalog_rejects_unusable_species_numbers() {
    let zero_age = vec![species("Ephemeral", 0, vec![])];
    assert_eq!(PlantCatalog::new(zero_age).unwrap_err(), ConfigError::MalformedSpecies);
    let mut overgrown = species("Overgrown", u32::MAX, vec![]);
    overgrown.size_per_turn = u32::MAX;
    assert_eq!(
        PlantCatalog::new(vec![overgrown]).unwrap_err(),
        ConfigError::MalformedSpecies
    );
}

#[test]
fn lookup_finds_known_species_only() {
    let cat = default_catalog();
    assert_eq!(cat.lookup(0).unwrap().name, "Grass");
    assert_eq!(cat.lookup(1).unwrap().name, "Tall Grass");
    assert_eq!(cat.lookup(2).unwrap().name, "Shrub");
    assert_eq!(cat.lookup(3).unwrap_err(), ConfigError::UnknownSpecies);
}
