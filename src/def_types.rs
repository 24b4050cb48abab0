use crate::biome::BiomeDefinition;
use crate::monster_definition::MonsterRawDefinition;
use crate::monster_move::RawMonsterMove;
use crate::monster_type::RawMonsterType;
use vstd::prelude::*;

verus! {

/// One raw record of any category.
#[derive(Debug)]
pub enum DefTypes {
    Monster(MonsterRawDefinition),
    Biome(BiomeDefinition),
    MonsterType(RawMonsterType),
    MonsterMove(RawMonsterMove),
}

/// The raw records of one data file.
#[derive(Debug)]
pub struct DefsRoot {
    pub defs: Vec<DefTypes>,
}

/// The records of all `roots`, file after file, each file's records in order.
pub open spec fn all_defs(roots: Seq<DefsRoot>) -> Seq<DefTypes>
    decreases roots.len(),
{
    if roots.len() == 0 {
        Seq::empty()
    } else {
        all_defs(roots.drop_last()) + roots.last().defs@
    }
}

/// Gathers the records of all files into one list.
pub fn flatten_defs(roots: Vec<DefsRoot>) -> (r: Vec<DefTypes>)
    ensures
        r@ == all_defs(roots@),
{
    let mut r: Vec<DefTypes> = Vec::new();
    for root in it: roots.into_iter()
        invariant
            it.seq() == roots@,
            r@ == all_defs(roots@.take(it.index() as int)),
    {
        proof {
            assert(roots@.take(it.index() + 1).drop_last() =~= roots@.take(it.index() as int));
        }
        let ghost before = r@;
        for d in dit: root.defs.into_iter()
            invariant
                dit.seq() == root.defs@,
                r@ == before + root.defs@.take(dit.index() as int),
        {
            proof {
                assert(root.defs@.take(dit.index() + 1) =~= root.defs@.take(dit.index() as int).push(d));
            }
            r.push(d);
            proof {
                assert(r@ =~= before + root.defs@.take(dit.index() + 1));
            }
        }
        proof {
            assert(root.defs@.take(root.defs@.len() as int) =~= root.defs@);
        }
    }
    proof {
        assert(roots@.take(roots@.len() as int) =~= roots@);
    }
    r
}

} // verus!
