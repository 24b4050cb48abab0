use crate::def_database::id_for_name;
use vstd::prelude::*;

verus! {

/// The categories of records, in the order in which they are built.
#[derive(Clone, Copy, Debug, PartialEq, Eq, Structural)]
pub enum DefCategory {
    Biome,
    MonsterType,
    MonsterMove,
    Monster,
}

/// The reference field of a raw record that named a missing record.
#[derive(Clone, Copy, Debug, PartialEq, Eq, Structural)]
pub enum RefSlot {
    /// `damage_scales[..].target_type_def_name` of a monster type.
    DamageScaleTarget,
    /// `move_type_def_name` of a monster move.
    MoveType,
    /// `spawn_locations[..].biome_def` of a monster.
    SpawnBiome,
    /// `move_learn_set[..].monster_move_def_name` of a monster.
    LearnedMove,
    /// `types[..]` of a monster.
    MonsterType,
}

/// A reference that could not be resolved: the record of `category` named `record`
/// refers, through `slot`, to the name `missing`, which its target registry lacks.
#[derive(Debug)]
pub struct LinkError {
    pub category: DefCategory,
    pub record: String,
    pub missing: String,
    pub slot: RefSlot,
}

impl Clone for LinkError {
    fn clone(&self) -> (r: Self)
        ensures
            r == *self,
    {
        LinkError {
            category: self.category,
            record: self.record.clone(),
            missing: self.missing.clone(),
            slot: self.slot,
        }
    }
}

/// Every name of `refs` leads to a record of the registry whose names are `names`.
pub open spec fn all_known(names: Seq<Option<Seq<char>>>, refs: Seq<Seq<char>>) -> bool {
    forall|i: int| 0 <= i < refs.len() ==> (#[trigger] id_for_name(names, refs[i])).is_some()
}

/// The position of the first name of `refs` that `names` lacks (`refs.len()` if none).
pub open spec fn first_unknown(names: Seq<Option<Seq<char>>>, refs: Seq<Seq<char>>) -> int
    decreases refs.len(),
{
    if refs.len() == 0 {
        0
    } else if id_for_name(names, refs[0]).is_none() {
        0
    } else {
        1 + first_unknown(names, refs.skip(1))
    }
}

/// A name of `refs` that `names` lacks, with every name before it known, is the first unknown.
pub proof fn lemma_first_unknown(names: Seq<Option<Seq<char>>>, refs: Seq<Seq<char>>, k: int)
    requires
        0 <= k <= refs.len(),
        forall|j: int| 0 <= j < k ==> (#[trigger] id_for_name(names, refs[j])).is_some(),
        k < refs.len() ==> id_for_name(names, refs[k]).is_none(),
    ensures
        first_unknown(names, refs) == k,
        k == refs.len() <==> all_known(names, refs),
    decreases refs.len(),
{
    if refs.len() > 0 && k > 0 {
        let rest = refs.skip(1);
        assert forall|j: int| 0 <= j < k - 1 implies (#[trigger] id_for_name(names, rest[j])).is_some() by {
            assert(rest[j] == refs[j + 1]);
        }
        if k < refs.len() {
            assert(rest[k - 1] == refs[k]);
        }
        lemma_first_unknown(names, rest, k - 1);
        assert(id_for_name(names, refs[0]).is_some());
    }
}

} // verus!
