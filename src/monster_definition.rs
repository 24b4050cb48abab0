use crate::biome::BiomeDefinition;
use crate::def_database::{id_for_name, DefDatabase, DefId, Definition};
use crate::link_error::{all_known, first_unknown, lemma_first_unknown, DefCategory, LinkError, RefSlot};
use crate::monster_move::MonsterMove;
use crate::monster_type::MonsterType;
use vstd::prelude::*;

verus! {

/// A monster species as authored: biomes, moves and types are given by name.
#[derive(Debug)]
pub struct MonsterRawDefinition {
    pub def_name: String,
    pub model_path: String,
    pub spawn_locations: Vec<MonsterRawSpawnLocation>,
    pub move_learn_set: Vec<RawLearnedMove>,
    pub types: Vec<String>,
}

#[derive(Clone, Copy, Debug, PartialEq, Eq, Structural)]
pub enum RawMoveLearnCondition {
    Level(u32),
}

#[derive(Debug)]
pub struct RawLearnedMove {
    pub monster_move_def_name: String,
    pub conditions: Vec<RawMoveLearnCondition>,
}

#[derive(Debug)]
pub struct MonsterRawSpawnLocation {
    pub biome_def: String,
}

#[derive(Clone, Copy, Debug, PartialEq, Eq, Structural)]
pub enum MoveLearnCondition {
    Level(u32),
}

#[derive(Debug)]
pub struct LearnedMove {
    pub monster_move: DefId<MonsterMove>,
    pub conditions: Vec<MoveLearnCondition>,
}

/// A resolved monster species. `model_path` names the scene that the renderer loads.
#[derive(Debug)]
pub struct MonsterDefinition {
    pub def_name: String,
    pub model_path: String,
    pub spawn_locations: Vec<MonsterSpawnLocation>,
    pub move_learn_set: Vec<LearnedMove>,
    pub types: Vec<DefId<MonsterType>>,
}

#[derive(Debug)]
pub struct MonsterSpawnLocation {
    pub biome_def: DefId<BiomeDefinition>,
}

impl Definition for MonsterDefinition {
    open spec fn def_name(&self) -> Seq<char> {
        self.def_name@
    }

    fn get_def_name(&self) -> (r: &str) {
        self.def_name.as_str()
    }
}

pub open spec fn condition_of(c: RawMoveLearnCondition) -> MoveLearnCondition {
    match c {
        RawMoveLearnCondition::Level(level) => MoveLearnCondition::Level(level),
    }
}

/// The biome names of `raw`'s spawn locations, in order.
pub open spec fn spawn_refs(raw: MonsterRawDefinition) -> Seq<Seq<char>> {
    raw.spawn_locations@.map_values(|l: MonsterRawSpawnLocation| l.biome_def@)
}

/// The move names of `raw`'s learn set, in order.
pub open spec fn move_refs(raw: MonsterRawDefinition) -> Seq<Seq<char>> {
    raw.move_learn_set@.map_values(|m: RawLearnedMove| m.monster_move_def_name@)
}

/// The type names of `raw`, in order.
pub open spec fn type_refs(raw: MonsterRawDefinition) -> Seq<Seq<char>> {
    raw.types@.map_values(|t: String| t@)
}

/// Every name of `raw` leads to a record of its registry (biomes, moves, types).
pub open spec fn monster_links(
    raw: MonsterRawDefinition,
    biomes: Seq<Option<Seq<char>>>,
    moves: Seq<Option<Seq<char>>>,
    types: Seq<Option<Seq<char>>>,
) -> bool {
    &&& all_known(biomes, spawn_refs(raw))
    &&& all_known(moves, move_refs(raw))
    &&& all_known(types, type_refs(raw))
}

/// `m` is `raw` with every name replaced by the identifier that its registry gives it.
pub open spec fn links_monster(
    raw: MonsterRawDefinition,
    biomes: Seq<Option<Seq<char>>>,
    moves: Seq<Option<Seq<char>>>,
    types: Seq<Option<Seq<char>>>,
    m: MonsterDefinition,
) -> bool {
    &&& m.def_name == raw.def_name
    &&& m.model_path == raw.model_path
    &&& m.spawn_locations@.len() == raw.spawn_locations@.len()
    &&& forall|i: int|
        #![trigger m.spawn_locations@[i]]
        0 <= i < raw.spawn_locations@.len() ==> Some(m.spawn_locations@[i].biome_def@ as int)
            == id_for_name(biomes, raw.spawn_locations@[i].biome_def@)
    &&& m.move_learn_set@.len() == raw.move_learn_set@.len()
    &&& forall|i: int|
        #![trigger m.move_learn_set@[i]]
        0 <= i < raw.move_learn_set@.len() ==> Some(m.move_learn_set@[i].monster_move@ as int)
            == id_for_name(moves, raw.move_learn_set@[i].monster_move_def_name@)
            && m.move_learn_set@[i].conditions@ == raw.move_learn_set@[i].conditions@.map_values(
            |c: RawMoveLearnCondition| condition_of(c),
        )
    &&& m.types@.len() == raw.types@.len()
    &&& forall|i: int|
        #![trigger m.types@[i]]
        0 <= i < raw.types@.len() ==> Some(m.types@[i]@ as int) == id_for_name(types, raw.types@[i]@)
}

/// The error for `raw` when some name is missing: the first missing biome, else the
/// first missing move, else the first missing type.
pub open spec fn monster_link_error(
    raw: MonsterRawDefinition,
    biomes: Seq<Option<Seq<char>>>,
    moves: Seq<Option<Seq<char>>>,
    types: Seq<Option<Seq<char>>>,
) -> LinkError {
    if !all_known(biomes, spawn_refs(raw)) {
        LinkError {
            category: DefCategory::Monster,
            record: raw.def_name,
            missing: raw.spawn_locations@[first_unknown(biomes, spawn_refs(raw))].biome_def,
            slot: RefSlot::SpawnBiome,
        }
    } else if !all_known(moves, move_refs(raw)) {
        LinkError {
            category: DefCategory::Monster,
            record: raw.def_name,
            missing: raw.move_learn_set@[first_unknown(
                moves,
                move_refs(raw),
            )].monster_move_def_name,
            slot: RefSlot::LearnedMove,
        }
    } else {
        LinkError {
            category: DefCategory::Monster,
            record: raw.def_name,
            missing: raw.types@[first_unknown(types, type_refs(raw))],
            slot: RefSlot::MonsterType,
        }
    }
}

fn convert_conditions(conditions: &Vec<RawMoveLearnCondition>) -> (r: Vec<MoveLearnCondition>)
    ensures
        r@ == conditions@.map_values(|c: RawMoveLearnCondition| condition_of(c)),
{
    let mut r: Vec<MoveLearnCondition> = Vec::new();
    let mut i: usize = 0;
    while i < conditions.len()
        invariant
            i <= conditions@.len(),
            r@ == conditions@.take(i as int).map_values(|c: RawMoveLearnCondition| condition_of(c)),
        decreases conditions@.len() - i,
    {
        let converted = match conditions[i] {
            RawMoveLearnCondition::Level(level) => MoveLearnCondition::Level(level),
        };
        r.push(converted);
        proof {
            assert(conditions@.take(i + 1) =~= conditions@.take(i as int).push(conditions@[i as int]));
            assert(r@ =~= conditions@.take(i + 1).map_values(|c: RawMoveLearnCondition| condition_of(c)));
        }
        i = i + 1;
    }
    proof {
        assert(conditions@.take(i as int) =~= conditions@);
    }
    r
}

impl MonsterRawDefinition {
    /// Resolves the biome, move and type names against their registries.
    pub fn to_definition(
        &self,
        biomes: &DefDatabase<BiomeDefinition>,
        moves: &DefDatabase<MonsterMove>,
        types: &DefDatabase<MonsterType>,
    ) -> (r: Result<MonsterDefinition, LinkError>)
        requires
            biomes.well_formed(),
            moves.well_formed(),
            types.well_formed(),
        ensures
            r.is_ok() == monster_links(*self, biomes.name_seq(), moves.name_seq(), types.name_seq()),
            r.is_ok() ==> links_monster(
                *self,
                biomes.name_seq(),
                moves.name_seq(),
                types.name_seq(),
                r.unwrap(),
            ),
            r.is_err() ==> r.unwrap_err() == monster_link_error(
                *self,
                biomes.name_seq(),
                moves.name_seq(),
                types.name_seq(),
            ),
    {
        let ghost bn = biomes.name_seq();
        let ghost mn = moves.name_seq();
        let ghost tn = types.name_seq();
        let ghost srefs = spawn_refs(*self);
        let ghost mrefs = move_refs(*self);
        let ghost trefs = type_refs(*self);

        let mut spawn_locations: Vec<MonsterSpawnLocation> = Vec::new();
        let mut i: usize = 0;
        while i < self.spawn_locations.len()
            invariant
                i <= self.spawn_locations@.len(),
                biomes.well_formed(),
                bn == biomes.name_seq(),
                srefs == spawn_refs(*self),
                spawn_locations@.len() == i,
                forall|j: int| 0 <= j < i ==> (#[trigger] id_for_name(bn, srefs[j])).is_some(),
                forall|j: int|
                    #![trigger spawn_locations@[j]]
                    0 <= j < i ==> Some(spawn_locations@[j].biome_def@ as int) == id_for_name(
                        bn,
                        self.spawn_locations@[j].biome_def@,
                    ),
            decreases self.spawn_locations@.len() - i,
        {
            let location = &self.spawn_locations[i];
            assert(srefs[i as int] == location.biome_def@);
            match biomes.get_def_id(location.biome_def.as_str()) {
                Some(biome_def) => {
                    spawn_locations.push(MonsterSpawnLocation { biome_def });
                },
                None => {
                    proof {
                        lemma_first_unknown(bn, srefs, i as int);
                    }
                    return Err(
                        LinkError {
                            category: DefCategory::Monster,
                            record: self.def_name.clone(),
                            missing: location.biome_def.clone(),
                            slot: RefSlot::SpawnBiome,
                        },
                    );
                },
            }
            i = i + 1;
        }
        proof {
            lemma_first_unknown(bn, srefs, i as int);
        }

        let mut move_learn_set: Vec<LearnedMove> = Vec::new();
        let mut i: usize = 0;
        while i < self.move_learn_set.len()
            invariant
                i <= self.move_learn_set@.len(),
                moves.well_formed(),
                mn == moves.name_seq(),
                mrefs == move_refs(*self),
                bn == biomes.name_seq(),
                srefs == spawn_refs(*self),
                all_known(bn, srefs),
                move_learn_set@.len() == i,
                forall|j: int| 0 <= j < i ==> (#[trigger] id_for_name(mn, mrefs[j])).is_some(),
                forall|j: int|
                    #![trigger move_learn_set@[j]]
                    0 <= j < i ==> Some(move_learn_set@[j].monster_move@ as int) == id_for_name(
                        mn,
                        self.move_learn_set@[j].monster_move_def_name@,
                    ) && move_learn_set@[j].conditions@
                        == self.move_learn_set@[j].conditions@.map_values(
                        |c: RawMoveLearnCondition| condition_of(c),
                    ),
            decreases self.move_learn_set@.len() - i,
        {
            let learned_move = &self.move_learn_set[i];
            assert(mrefs[i as int] == learned_move.monster_move_def_name@);
            match moves.get_def_id(learned_move.monster_move_def_name.as_str()) {
                Some(monster_move) => {
                    let conditions = convert_conditions(&learned_move.conditions);
                    move_learn_set.push(LearnedMove { monster_move, conditions });
                },
                None => {
                    proof {
                        lemma_first_unknown(mn, mrefs, i as int);
                    }
                    return Err(
                        LinkError {
                            category: DefCategory::Monster,
                            record: self.def_name.clone(),
                            missing: learned_move.monster_move_def_name.clone(),
                            slot: RefSlot::LearnedMove,
                        },
                    );
                },
            }
            i = i + 1;
        }
        proof {
            lemma_first_unknown(mn, mrefs, i as int);
        }

        let mut monster_types: Vec<DefId<MonsterType>> = Vec::new();
        let mut i: usize = 0;
        while i < self.types.len()
            invariant
                i <= self.types@.len(),
                types.well_formed(),
                tn == types.name_seq(),
                trefs == type_refs(*self),
                bn == biomes.name_seq(),
                srefs == spawn_refs(*self),
                mn == moves.name_seq(),
                mrefs == move_refs(*self),
                all_known(bn, srefs),
                all_known(mn, mrefs),
                monster_types@.len() == i,
                forall|j: int| 0 <= j < i ==> (#[trigger] id_for_name(tn, trefs[j])).is_some(),
                forall|j: int|
                    #![trigger monster_types@[j]]
                    0 <= j < i ==> Some(monster_types@[j]@ as int) == id_for_name(tn, self.types@[j]@),
            decreases self.types@.len() - i,
        {
            let monster_type = &self.types[i];
            assert(trefs[i as int] == monster_type@);
            match types.get_def_id(monster_type.as_str()) {
                Some(id) => {
                    monster_types.push(id);
                },
                None => {
                    proof {
                        lemma_first_unknown(tn, trefs, i as int);
                    }
                    return Err(
                        LinkError {
                            category: DefCategory::Monster,
                            record: self.def_name.clone(),
                            missing: monster_type.clone(),
                            slot: RefSlot::MonsterType,
                        },
                    );
                },
            }
            i = i + 1;
        }
        proof {
            lemma_first_unknown(tn, trefs, i as int);
        }

        Ok(
            MonsterDefinition {
                def_name: self.def_name.clone(),
                model_path: self.model_path.clone(),
                spawn_locations,
                move_learn_set,
                types: monster_types,
            },
        )
    }
}

} // verus!
