use monster_defs::biome::BiomeDefinition;
use monster_defs::def_database::{DefDatabase, DefId};
use monster_defs::def_pipeline::{
    add_defs_to_database, build_definitions, create_biome_defs, create_monster_defs,
    create_monster_move_defs, create_monster_type_defs, DefinitionSet,
};
use monster_defs::def_types::{flatten_defs, DefTypes, DefsRoot};
use monster_defs::link_error::{DefCategory, LinkError, RefSlot};
use monster_defs::monster_definition::{
    MonsterRawDefinition, MonsterRawSpawnLocation, MoveLearnCondition, RawLearnedMove,
    RawMoveLearnCondition,
};
use monster_defs::monster_move::{MoveCategory, RawMonsterMove};
use monster_defs::monster_type::{MonsterType, RawMonsterType, RawMonsterTypeDamageScale};
use monster_defs::scalar::Scalar;

fn scalar(x: f32) -> Scalar {
    Scalar { bits: x.to_bits() }
}

fn biome(name: &str) -> DefTypes {
    DefTypes::Biome(BiomeDefinition {
        def_name: name.to_string(),
        min_height: Some(scalar(1.5)),
        max_height: None,
        min_humidity: None,
        max_humidity: Some(scalar(0.75)),
        min_temperature: None,
        max_temperature: None,
    })
}

fn monster_type(name: &str, scales: &[(&str, f32)]) -> DefTypes {
    DefTypes::MonsterType(RawMonsterType {
        def_name: name.to_string(),
        damage_scales: scales
            .iter()
            .map(|(target, factor)| RawMonsterTypeDamageScale {
                damage_scale: scalar(*factor),
                target_type_def_name: target.to_string(),
            })
            .collect(),
    })
}

fn monster_move(name: &str, move_type: &str) -> DefTypes {
    DefTypes::MonsterMove(RawMonsterMove {
        def_name: name.to_string(),
        move_type_def_name: move_type.to_string(),
        base_mp_usage: scalar(3.0),
        base_damage: scalar(40.0),
        base_accuracy: scalar(0.9),
        base_crit_chance: scalar(0.1),
        base_crit_multiplier: scalar(2.0),
        post_move_speed: scalar(1.0),
        category: MoveCategory::Physical,
    })
}

fn monster(name: &str, biomes: &[&str], moves: &[(&str, u32)], types: &[&str]) -> DefTypes {
    DefTypes::Monster(MonsterRawDefinition {
        def_name: name.to_string(),
        model_path: format!("monsters/{}.glb#Scene0", name),
        spawn_locations: biomes
            .iter()
            .map(|b| MonsterRawSpawnLocation { biome_def: b.to_string() })
            .collect(),
        move_learn_set: moves
            .iter()
            .map(|(m, level)| RawLearnedMove {
                monster_move_def_name: m.to_string(),
                conditions: vec![RawMoveLearnCondition::Level(*level)],
            })
            .collect(),
        types: types.iter().map(|t| t.to_string()).collect(),
    })
}

fn type_named<'a>(db: &'a DefDatabase<MonsterType>, name: &str) -> &'a MonsterType {
    db.get_by_id(&db.get_def_id(name).unwrap()).unwrap()
}

fn target_name(db: &DefDatabase<MonsterType>, id: &DefId<MonsterType>) -> String {
    db.get_by_id(id).unwrap().def_name.clone()
}

fn fire_water_grass() -> Vec<(String, Vec<(String, f32)>)> {
    vec![
        ("Fire".to_string(), vec![("Water".to_string(), 2.0)]),
        ("Water".to_string(), vec![("Fire".to_string(), 0.5)]),
        ("Grass".to_string(), vec![]),
    ]
}

fn check_fire_water_grass(set: &DefinitionSet) {
    assert!(set.errors.is_empty());
    assert_eq!(set.monster_types.len(), 3);
    let fire = type_named(&set.monster_types, "Fire");
    assert_eq!(fire.damage_scales.len(), 1);
    assert_eq!(target_name(&set.monster_types, &fire.damage_scales[0].target_type), "Water");
    assert_eq!(f32::from_bits(fire.damage_scales[0].damage_scale.bits), 2.0);
    let water = type_named(&set.monster_types, "Water");
    assert_eq!(water.damage_scales.len(), 1);
    assert_eq!(target_name(&set.monster_types, &water.damage_scales[0].target_type), "Fire");
    assert_eq!(f32::from_bits(water.damage_scales[0].damage_scale.bits), 0.5);
    let grass = type_named(&set.monster_types, "Grass");
    assert!(grass.damage_scales.is_empty());
}

#[test]
fn self_referential_types_link_in_every_order() {
    let base = fire_water_grass();
    let orders = [[0, 1, 2], [0, 2, 1], [1, 0, 2], [1, 2, 0], [2, 0, 1], [2, 1, 0]];
    for order in orders.iter() {
        let defs: Vec<DefTypes> = order
            .iter()
            .map(|&i| {
                let (name, scales) = &base[i];
                let scales: Vec<(&str, f32)> =
                    scales.iter().map(|(t, f)| (t.as_str(), *f)).collect();
                monster_type(name, &scales)
            })
            .collect();
        let set = build_definitions(&defs);
        check_fire_water_grass(&set);
    }
}

#[test]
fn forward_references_resolve() {
    let defs = vec![monster_type("A", &[("B", 1.0)]), monster_type("B", &[("A", 1.0)])];
    let mut errors = Vec::new();
    let types = create_monster_type_defs(&defs, &mut errors);
    assert!(errors.is_empty());
    let a = type_named(&types, "A");
    let b = type_named(&types, "B");
    assert_eq!(a.damage_scales[0].target_type, types.get_def_id("B").unwrap());
    assert_eq!(b.damage_scales[0].target_type, types.get_def_id("A").unwrap());
    assert_eq!(types.get_def_id("A"), Some(DefId::new(1)));
    assert_eq!(types.get_def_id("B"), Some(DefId::new(2)));
}

#[test]
fn type_scaling_itself_links() {
    let defs = vec![monster_type("Ghost", &[("Ghost", 2.0)])];
    let set = build_definitions(&defs);
    assert!(set.errors.is_empty());
    let ghost = type_named(&set.monster_types, "Ghost");
    assert_eq!(ghost.damage_scales[0].target_type, DefId::new(1));
}

#[test]
fn unresolved_move_type_is_reported_and_dropped() {
    let defs = vec![
        biome("Forest"),
        monster_type("Normal", &[]),
        monster_move("Tackle", "Ghost"),
        monster_move("Scratch", "Normal"),
        monster("Rat", &["Forest"], &[("Scratch", 1)], &["Normal"]),
    ];
    let set = build_definitions(&defs);
    assert_eq!(set.errors.len(), 1);
    let err = &set.errors[0];
    assert_eq!(err.category, DefCategory::MonsterMove);
    assert_eq!(err.record, "Tackle");
    assert_eq!(err.missing, "Ghost");
    assert_eq!(err.slot, RefSlot::MoveType);
    assert!(set.monster_moves.get_def_id("Tackle").is_none());
    assert_eq!(set.monster_moves.len(), 1);
    assert_eq!(set.monsters.len(), 1);
    assert!(set.monsters.get_def_id("Rat").is_some());
}

#[test]
fn unresolved_type_target_is_dropped() {
    let defs = vec![
        monster_type("Fire", &[("Water", 2.0), ("Ice", 0.5)]),
        monster_type("Water", &[("Fire", 0.5)]),
        monster_move("Ember", "Fire"),
        monster_move("Splash", "Water"),
    ];
    let set = build_definitions(&defs);
    assert_eq!(set.errors.len(), 2);
    assert_eq!(set.errors[0].category, DefCategory::MonsterType);
    assert_eq!(set.errors[0].record, "Fire");
    assert_eq!(set.errors[0].missing, "Ice");
    assert_eq!(set.errors[0].slot, RefSlot::DamageScaleTarget);
    assert!(set.monster_types.get_def_id("Fire").is_none());
    assert!(set.monster_types.get_by_id(&DefId::new(1)).is_none());
    assert_eq!(set.monster_types.len(), 1);
    let water_id = set.monster_types.get_def_id("Water").unwrap();
    assert_eq!(water_id, DefId::new(2));
    let water = set.monster_types.get_by_id(&water_id).unwrap();
    assert_eq!(water.damage_scales[0].target_type, DefId::new(1));
    assert_eq!(set.errors[1].category, DefCategory::MonsterMove);
    assert_eq!(set.errors[1].record, "Ember");
    assert_eq!(set.errors[1].missing, "Fire");
    assert!(set.monster_moves.get_def_id("Ember").is_none());
    assert!(set.monster_moves.get_def_id("Splash").is_some());
}

#[test]
fn duplicate_type_names_keep_the_last_that_links() {
    let defs = vec![
        monster_type("X", &[("X", 1.0)]),
        monster_type("X", &[("Missing", 2.0)]),
    ];
    let set = build_definitions(&defs);
    assert_eq!(set.errors.len(), 1);
    let x = set.monster_types.get_def_id("X").unwrap();
    assert_eq!(x, DefId::new(2));
    let linked = set.monster_types.get_by_id(&x).unwrap();
    assert_eq!(f32::from_bits(linked.damage_scales[0].damage_scale.bits), 1.0);
    assert_eq!(linked.damage_scales[0].target_type, DefId::new(2));
    assert_eq!(set.monster_types.len(), 2);

    let defs = vec![monster_type("Y", &[("Missing", 1.0)]), monster_type("Y", &[("Gone", 1.0)])];
    let set = build_definitions(&defs);
    assert_eq!(set.errors.len(), 2);
    assert!(set.monster_types.get_def_id("Y").is_none());
    assert_eq!(set.monster_types.len(), 0);
}

#[test]
fn monster_errors_name_the_first_missing_reference() {
    let defs = vec![
        biome("Forest"),
        monster_type("Normal", &[]),
        monster_move("Scratch", "Normal"),
        monster("NoBiome", &["Forest", "Desert"], &[("Bite", 1)], &["Rock"]),
        monster("NoMove", &["Forest"], &[("Scratch", 1), ("Bite", 3)], &["Rock"]),
        monster("NoType", &["Forest"], &[("Scratch", 1)], &["Normal", "Rock"]),
    ];
    let set = build_definitions(&defs);
    assert_eq!(set.monsters.len(), 0);
    let expected = [
        ("NoBiome", "Desert", RefSlot::SpawnBiome),
        ("NoMove", "Bite", RefSlot::LearnedMove),
        ("NoType", "Rock", RefSlot::MonsterType),
    ];
    assert_eq!(set.errors.len(), 3);
    for (err, (record, missing, slot)) in set.errors.iter().zip(expected.iter()) {
        assert_eq!(err.category, DefCategory::Monster);
        assert_eq!(err.record, *record);
        assert_eq!(err.missing, *missing);
        assert_eq!(err.slot, *slot);
    }
}

#[test]
fn errors_come_by_category_in_build_order() {
    let defs = vec![
        monster("Rat", &["Nowhere"], &[], &[]),
        monster_move("Tackle", "Ghost"),
        monster_type("Fire", &[("Ice", 2.0)]),
    ];
    let set = build_definitions(&defs);
    let categories: Vec<DefCategory> = set.errors.iter().map(|e| e.category).collect();
    assert_eq!(
        categories,
        vec![DefCategory::MonsterType, DefCategory::MonsterMove, DefCategory::Monster]
    );
}

#[test]
fn monsters_link_against_finished_registries() {
    let defs = vec![
        monster("Pup", &["Forest", "Plains"], &[("Bite", 1), ("Howl", 5)], &["Normal"]),
        monster_move("Howl", "Normal"),
        biome("Plains"),
        monster_type("Normal", &[]),
        monster_move("Bite", "Normal"),
        biome("Forest"),
    ];
    let mut errors: Vec<LinkError> = Vec::new();
    let biomes = create_biome_defs(&defs);
    let types = create_monster_type_defs(&defs, &mut errors);
    let moves = create_monster_move_defs(&defs, &types, &mut errors);
    let monsters = create_monster_defs(&defs, &biomes, &moves, &types, &mut errors);
    assert!(errors.is_empty());
    let pup = monsters.get_by_id(&monsters.get_def_id("Pup").unwrap()).unwrap();
    assert_eq!(pup.model_path, "monsters/Pup.glb#Scene0");
    assert_eq!(pup.spawn_locations[0].biome_def, biomes.get_def_id("Forest").unwrap());
    assert_eq!(pup.spawn_locations[1].biome_def, biomes.get_def_id("Plains").unwrap());
    assert_eq!(pup.move_learn_set[0].monster_move, moves.get_def_id("Bite").unwrap());
    assert_eq!(pup.move_learn_set[1].monster_move, moves.get_def_id("Howl").unwrap());
    assert_eq!(pup.move_learn_set[1].conditions, vec![MoveLearnCondition::Level(5)]);
    assert_eq!(pup.types, vec![types.get_def_id("Normal").unwrap()]);
    let howl = moves.get_by_id(&moves.get_def_id("Howl").unwrap()).unwrap();
    assert_eq!(howl.move_type, types.get_def_id("Normal").unwrap());
    assert_eq!(f32::from_bits(howl.base_damage.bits), 40.0);
    assert_eq!(howl.category, MoveCategory::Physical);
}

#[test]
fn clean_input_builds_every_record() {
    let defs = vec![
        biome("Forest"),
        biome("Cave"),
        monster_type("Fire", &[("Water", 2.0)]),
        monster_type("Water", &[("Fire", 0.5)]),
        monster_move("Ember", "Fire"),
        monster_move("Splash", "Water"),
        monster_move("Bubble", "Water"),
        monster("Salamander", &["Cave"], &[("Ember", 1)], &["Fire"]),
        monster("Frog", &["Forest"], &[("Splash", 1), ("Bubble", 7)], &["Water"]),
    ];
    let set = build_definitions(&defs);
    assert!(set.errors.is_empty());
    assert_eq!(set.biomes.len(), 2);
    assert_eq!(set.monster_types.len(), 2);
    assert_eq!(set.monster_moves.len(), 3);
    assert_eq!(set.monsters.len(), 2);
}

#[test]
fn biomes_keep_their_values() {
    let defs = vec![biome("Forest")];
    let biomes = create_biome_defs(&defs);
    let forest = biomes.get_by_id(&DefId::new(1)).unwrap();
    assert_eq!(forest.def_name, "Forest");
    assert_eq!(forest.min_height, Some(scalar(1.5)));
    assert_eq!(forest.max_humidity, Some(scalar(0.75)));
    assert_eq!(forest.max_height, None);
}

#[test]
fn empty_input_builds_empty_registries() {
    let set = build_definitions(&Vec::new());
    assert!(set.errors.is_empty());
    assert_eq!(set.biomes.len(), 0);
    assert_eq!(set.monster_types.len(), 0);
    assert_eq!(set.monster_moves.len(), 0);
    assert_eq!(set.monsters.len(), 0);
}

#[test]
fn files_are_flattened_in_order() {
    let roots = vec![
        DefsRoot { defs: vec![biome("A"), monster_type("T", &[])] },
        DefsRoot { defs: vec![] },
        DefsRoot { defs: vec![biome("B")] },
    ];
    let all = flatten_defs(roots);
    assert_eq!(all.len(), 3);
    match &all[2] {
        DefTypes::Biome(b) => assert_eq!(b.def_name, "B"),
        other => panic!("unexpected record {:?}", other),
    }
}

#[test]
fn records_from_several_files_link_together() {
    let roots = vec![
        DefsRoot { defs: vec![monster("Bat", &["Cave"], &[("Bite", 1)], &["Dark"])] },
        DefsRoot { defs: vec![biome("Cave"), monster_type("Dark", &[])] },
        DefsRoot { defs: vec![monster_move("Bite", "Dark")] },
    ];
    let set = add_defs_to_database(roots);
    assert!(set.errors.is_empty());
    assert_eq!(set.monsters.len(), 1);
}
