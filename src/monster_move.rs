use crate::def_database::{id_for_name, DefDatabase, DefId, Definition};
use crate::link_error::{DefCategory, LinkError, RefSlot};
use crate::monster_type::MonsterType;
use crate::scalar::Scalar;
use vstd::prelude::*;

verus! {

#[derive(Clone, Copy, Debug, PartialEq, Eq, Structural)]
pub enum MoveCategory {
    Physical,
    Magical,
}

/// A monster move as authored: its type is given by name.
#[derive(Debug)]
pub struct RawMonsterMove {
    pub def_name: String,
    pub move_type_def_name: String,
    pub base_mp_usage: Scalar,
    pub base_damage: Scalar,
    pub base_accuracy: Scalar,
    pub base_crit_chance: Scalar,
    pub base_crit_multiplier: Scalar,
    pub post_move_speed: Scalar,
    pub category: MoveCategory,
}

/// A resolved monster move.
#[derive(Debug)]
pub struct MonsterMove {
    pub def_name: String,
    pub move_type: DefId<MonsterType>,
    pub base_mp_usage: Scalar,
    pub base_damage: Scalar,
    pub base_accuracy: Scalar,
    pub base_crit_chance: Scalar,
    pub base_crit_multiplier: Scalar,
    pub category: MoveCategory,
}

impl Definition for MonsterMove {
    open spec fn def_name(&self) -> Seq<char> {
        self.def_name@
    }

    fn get_def_name(&self) -> (r: &str) {
        self.def_name.as_str()
    }
}

/// The type name of `raw` leads to a monster type of the registry whose names are `names`.
pub open spec fn move_links(raw: RawMonsterMove, names: Seq<Option<Seq<char>>>) -> bool {
    id_for_name(names, raw.move_type_def_name@).is_some()
}

/// `m` is `raw` with its type name replaced by the identifier that `names` gives it.
/// (`post_move_speed` has no place in the resolved move.)
pub open spec fn links_move(raw: RawMonsterMove, names: Seq<Option<Seq<char>>>, m: MonsterMove) -> bool {
    &&& m.def_name == raw.def_name
    &&& Some(m.move_type@ as int) == id_for_name(names, raw.move_type_def_name@)
    &&& m.base_mp_usage == raw.base_mp_usage
    &&& m.base_damage == raw.base_damage
    &&& m.base_accuracy == raw.base_accuracy
    &&& m.base_crit_chance == raw.base_crit_chance
    &&& m.base_crit_multiplier == raw.base_crit_multiplier
    &&& m.category == raw.category
}

/// The error for `raw` when its type name is missing.
pub open spec fn move_link_error(raw: RawMonsterMove) -> LinkError {
    LinkError {
        category: DefCategory::MonsterMove,
        record: raw.def_name,
        missing: raw.move_type_def_name,
        slot: RefSlot::MoveType,
    }
}

impl RawMonsterMove {
    /// Resolves the type name against `db`.
    pub fn to_definition(&self, db: &DefDatabase<MonsterType>) -> (r: Result<MonsterMove, LinkError>)
        requires
            db.well_formed(),
        ensures
            r.is_ok() == move_links(*self, db.name_seq()),
            r.is_ok() ==> links_move(*self, db.name_seq(), r.unwrap()),
            r.is_err() ==> r.unwrap_err() == move_link_error(*self),
    {
        match db.get_def_id(self.move_type_def_name.as_str()) {
            Some(move_type) => Ok(
                MonsterMove {
                    def_name: self.def_name.clone(),
                    move_type,
                    base_mp_usage: self.base_mp_usage,
                    base_damage: self.base_damage,
                    base_accuracy: self.base_accuracy,
                    base_crit_chance: self.base_crit_chance,
                    base_crit_multiplier: self.base_crit_multiplier,
                    category: self.category,
                },
            ),
            None => Err(
                LinkError {
                    category: DefCategory::MonsterMove,
                    record: self.def_name.clone(),
                    missing: self.move_type_def_name.clone(),
                    slot: RefSlot::MoveType,
                },
            ),
        }
    }
}

} // verus!
