use crate::def_database::{id_for_name, DefDatabase, DefId, Definition};
use crate::link_error::{all_known, first_unknown, lemma_first_unknown, DefCategory, LinkError, RefSlot};
use crate::scalar::Scalar;
use vstd::prelude::*;

verus! {

/// A monster type as authored: its damage factors name their target types.
#[derive(Debug)]
pub struct RawMonsterType {
    pub def_name: String,
    pub damage_scales: Vec<RawMonsterTypeDamageScale>,
}

#[derive(Debug)]
pub struct RawMonsterTypeDamageScale {
    pub damage_scale: Scalar,
    pub target_type_def_name: String,
}

/// A resolved monster type. Its damage factors may refer to any monster type,
/// itself included.
#[derive(Debug)]
pub struct MonsterType {
    pub def_name: String,
    pub damage_scales: Vec<MonsterTypeDamageScale>,
}

#[derive(Debug)]
pub struct MonsterTypeDamageScale {
    pub damage_scale: Scalar,
    pub target_type: DefId<MonsterType>,
}

impl Definition for MonsterType {
    open spec fn def_name(&self) -> Seq<char> {
        self.def_name@
    }

    fn get_def_name(&self) -> (r: &str) {
        self.def_name.as_str()
    }
}

/// The names that the damage factors of `raw` refer to, in order.
pub open spec fn scale_targets(raw: RawMonsterType) -> Seq<Seq<char>> {
    raw.damage_scales@.map_values(|s: RawMonsterTypeDamageScale| s.target_type_def_name@)
}

/// `t` is the monster type with the name of `raw` and no damage factors.
pub open spec fn is_type_stub(raw: RawMonsterType, t: MonsterType) -> bool {
    t.def_name == raw.def_name && t.damage_scales@.len() == 0
}

/// `t` is `raw` with each target name replaced by the identifier that `names` gives it.
pub open spec fn links_type(raw: RawMonsterType, names: Seq<Option<Seq<char>>>, t: MonsterType) -> bool {
    &&& t.def_name == raw.def_name
    &&& t.damage_scales@.len() == raw.damage_scales@.len()
    &&& forall|i: int|
        #![trigger t.damage_scales@[i]]
        0 <= i < raw.damage_scales@.len() ==> t.damage_scales@[i].damage_scale
            == raw.damage_scales@[i].damage_scale && Some(t.damage_scales@[i].target_type@ as int)
            == id_for_name(names, raw.damage_scales@[i].target_type_def_name@)
}

/// The error for `raw` when some target name is missing from `names`.
pub open spec fn type_link_error(raw: RawMonsterType, names: Seq<Option<Seq<char>>>) -> LinkError {
    LinkError {
        category: DefCategory::MonsterType,
        record: raw.def_name,
        missing: raw.damage_scales@[first_unknown(names, scale_targets(raw))].target_type_def_name,
        slot: RefSlot::DamageScaleTarget,
    }
}

impl RawMonsterType {
    /// The stub of this type: its name, with no damage factors yet.
    pub fn to_definition(&self) -> (r: MonsterType)
        ensures
            is_type_stub(*self, r),
    {
        MonsterType { def_name: self.def_name.clone(), damage_scales: Vec::new() }
    }

    /// Resolves every target name against `monster_types`.
    pub fn link_definitions(&self, monster_types: &DefDatabase<MonsterType>) -> (r: Result<
        MonsterType,
        LinkError,
    >)
        requires
            monster_types.well_formed(),
        ensures
            r.is_ok() == all_known(monster_types.name_seq(), scale_targets(*self)),
            r.is_ok() ==> links_type(*self, monster_types.name_seq(), r.unwrap()),
            r.is_err() ==> r.unwrap_err() == type_link_error(*self, monster_types.name_seq()),
    {
        let ghost names = monster_types.name_seq();
        let ghost targets = scale_targets(*self);
        let mut damage_scales: Vec<MonsterTypeDamageScale> = Vec::new();
        let mut i: usize = 0;
        while i < self.damage_scales.len()
            invariant
                i <= self.damage_scales@.len(),
                monster_types.well_formed(),
                names == monster_types.name_seq(),
                targets == scale_targets(*self),
                damage_scales@.len() == i,
                forall|j: int| 0 <= j < i ==> (#[trigger] id_for_name(names, targets[j])).is_some(),
                forall|j: int|
                    #![trigger damage_scales@[j]]
                    0 <= j < i ==> damage_scales@[j].damage_scale
                        == self.damage_scales@[j].damage_scale && Some(damage_scales@[j].target_type@ as int)
                        == id_for_name(names, self.damage_scales@[j].target_type_def_name@),
            decreases self.damage_scales@.len() - i,
        {
            let scale = &self.damage_scales[i];
            assert(targets[i as int] == scale.target_type_def_name@);
            match monster_types.get_def_id(scale.target_type_def_name.as_str()) {
                Some(target_type) => {
                    damage_scales.push(
                        MonsterTypeDamageScale { damage_scale: scale.damage_scale, target_type },
                    );
                },
                None => {
                    proof {
                        lemma_first_unknown(names, targets, i as int);
                    }
                    return Err(
                        LinkError {
                            category: DefCategory::MonsterType,
                            record: self.def_name.clone(),
                            missing: scale.target_type_def_name.clone(),
                            slot: RefSlot::DamageScaleTarget,
                        },
                    );
                },
            }
            i = i + 1;
        }
        proof {
            lemma_first_unknown(names, targets, i as int);
        }
        Ok(MonsterType { def_name: self.def_name.clone(), damage_scales })
    }
}

} // verus!
