use crate::biome::BiomeDefinition;
use crate::def_database::{
    id_for_name,
    law_found_id_is_present,
    last_named,
    lemma_last_named_bounds,
    lemma_last_named_unique,
    lemma_live_count_present,
    live_count,
    names_of,
    present,
    record_for_id,
    DefDatabase,
    DefId,
    Definition,
};
use crate::def_types::{all_defs, flatten_defs, DefTypes, DefsRoot};
use crate::link_error::{all_known, DefCategory, LinkError};
use crate::monster_definition::{
    links_monster,
    monster_link_error,
    monster_links,
    MonsterDefinition,
    MonsterRawDefinition,
};
use crate::monster_move::{links_move, move_link_error, move_links, MonsterMove, RawMonsterMove};
use crate::monster_type::{
    is_type_stub,
    links_type,
    scale_targets,
    type_link_error,
    MonsterType,
    RawMonsterType,
};
use crate::shared::{after_build, GameState};
use vstd::prelude::*;

verus! {

// ----- Biomes -----

/// The biomes among `defs`, in order.
pub open spec fn biome_raws(defs: Seq<DefTypes>) -> Seq<BiomeDefinition> {
    defs.filter_map(
        |d: DefTypes|
            match d {
                DefTypes::Biome(b) => Some(b),
                _ => None,
            },
    )
}

/// Builds the biome registry: every biome of `all_definitions`, in order.
pub fn create_biome_defs(all_definitions: &Vec<DefTypes>) -> (r: DefDatabase<BiomeDefinition>)
    ensures
        r.well_formed(),
        r@ == present(biome_raws(all_definitions@)),
{
    let ghost defs = all_definitions@;
    let mut db = DefDatabase::new();
    let mut i: usize = 0;
    while i < all_definitions.len()
        invariant
            i <= defs.len(),
            defs == all_definitions@,
            db.well_formed(),
            db@ == present(biome_raws(defs.take(i as int))),
            db@.len() <= i,
        decreases defs.len() - i,
    {
        proof {
            assert(defs.take(i + 1).drop_last() =~= defs.take(i as int));
        }
        if let DefTypes::Biome(b) = &all_definitions[i] {
            db.insert(b.clone());
        }
        proof {
            assert(db@ =~= present(biome_raws(defs.take(i + 1))));
        }
        i = i + 1;
    }
    proof {
        assert(defs.take(i as int) =~= defs);
    }
    db
}

// ----- Monster types -----

/// The raw monster types among `defs`, in order.
pub open spec fn type_raws(defs: Seq<DefTypes>) -> Seq<RawMonsterType> {
    defs.filter_map(
        |d: DefTypes|
            match d {
                DefTypes::MonsterType(t) => Some(t),
                _ => None,
            },
    )
}

/// The names of the raw monster types among `defs`, in order: the names of the
/// monster type registry after the stub pass.
pub open spec fn type_names(defs: Seq<DefTypes>) -> Seq<Option<Seq<char>>> {
    type_raws(defs).map_values(|t: RawMonsterType| Some(t.def_name@))
}

/// The last raw monster type of `defs` named `n` whose targets all lead into `names`.
pub open spec fn last_linked_type(
    defs: Seq<DefTypes>,
    names: Seq<Option<Seq<char>>>,
    n: Seq<char>,
) -> Option<RawMonsterType>
    decreases defs.len(),
{
    if defs.len() == 0 {
        None
    } else {
        match defs.last() {
            DefTypes::MonsterType(t) => if t.def_name@ == n && all_known(names, scale_targets(t)) {
                Some(t)
            } else {
                last_linked_type(defs.drop_last(), names, n)
            },
            _ => last_linked_type(defs.drop_last(), names, n),
        }
    }
}

/// Some raw monster type of `defs` named `n` links against the stubs of `defs`.
pub open spec fn type_links(defs: Seq<DefTypes>, n: Seq<char>) -> bool {
    last_linked_type(defs, type_names(defs), n).is_some()
}

/// What the monster type registry built from `defs` holds at position `k` once the
/// records `upto` (a prefix of `defs`) have been through the link pass.
///
/// The stub of the `k`-th raw type, unless `k` is the last position of its name and some
/// raw type of that name in `upto` links: then the last such type, linked.
pub open spec fn type_entry(defs: Seq<DefTypes>, upto: Seq<DefTypes>, k: int, t: MonsterType) -> bool {
    let names = type_names(defs);
    let n = type_raws(defs)[k].def_name@;
    if k == last_named(names, n) && last_linked_type(upto, names, n).is_some() {
        links_type(last_linked_type(upto, names, n).unwrap(), names, t)
    } else {
        is_type_stub(type_raws(defs)[k], t)
    }
}

/// What the finished monster type registry built from `defs` holds at position `k`:
/// nothing where no raw type of that name links, else the entry of the link pass.
pub open spec fn type_slot(defs: Seq<DefTypes>, k: int, slot: Option<MonsterType>) -> bool {
    if type_links(defs, type_raws(defs)[k].def_name@) {
        slot.is_some() && type_entry(defs, defs, k, slot.unwrap())
    } else {
        slot.is_none()
    }
}

/// The names of the finished monster type registry built from `defs`.
pub open spec fn built_type_names(defs: Seq<DefTypes>) -> Seq<Option<Seq<char>>> {
    type_raws(defs).map_values(
        |t: RawMonsterType|
            if type_links(defs, t.def_name@) {
                Some(t.def_name@)
            } else {
                None
            },
    )
}

/// The errors of the monster types among `defs` whose targets do not all lead into `names`.
pub open spec fn type_errors(defs: Seq<DefTypes>, names: Seq<Option<Seq<char>>>) -> Seq<LinkError> {
    defs.filter_map(
        |d: DefTypes|
            match d {
                DefTypes::MonsterType(t) => if all_known(names, scale_targets(t)) {
                    None
                } else {
                    Some(type_link_error(t, names))
                },
                _ => None,
            },
    )
}

proof fn lemma_type_raw_listed(defs: Seq<DefTypes>, i: int)
    requires
        0 <= i < defs.len(),
        defs[i] is MonsterType,
    ensures
        type_names(defs).contains(Some(defs[i]->MonsterType_0.def_name@)),
    decreases defs.len(),
{
    let rest = defs.drop_last();
    if i < defs.len() - 1 {
        lemma_type_raw_listed(rest, i);
        let k = choose|k: int|
            0 <= k < type_names(rest).len() && type_names(rest)[k] == Some(
                rest[i]->MonsterType_0.def_name@,
            );
        assert(type_names(defs)[k] == type_names(rest)[k]);
    } else {
        assert(type_names(defs)[type_names(defs).len() - 1] == Some(
            defs[i]->MonsterType_0.def_name@,
        ));
    }
}

/// Builds the monster type registry in two passes: first a stub of every type, so
/// that every name has its identifier, then each type linked against those names
/// and put in place of its stub. A type whose link fails adds an error; a name that
/// no type links is then dropped, every slot of it emptied, so that no stub stays.
pub fn create_monster_type_defs(all_definitions: &Vec<DefTypes>, errors: &mut Vec<LinkError>) -> (r:
    DefDatabase<MonsterType>)
    ensures
        r.well_formed(),
        r@.len() == type_raws(all_definitions@).len(),
        forall|k: int|
            0 <= k < r@.len() ==> type_slot(all_definitions@, k, #[trigger] r@[k]),
        r.name_seq() == built_type_names(all_definitions@),
        final(errors)@ == old(errors)@ + type_errors(
            all_definitions@,
            type_names(all_definitions@),
        ),
{
    let ghost defs = all_definitions@;
    let ghost raws = type_raws(defs);
    let ghost names = type_names(defs);

    // Stub pass.
    let mut monster_types = DefDatabase::new();
    let mut count: usize = 0;
    let mut i: usize = 0;
    while i < all_definitions.len()
        invariant
            i <= defs.len(),
            defs == all_definitions@,
            monster_types.well_formed(),
            monster_types@.len() == type_raws(defs.take(i as int)).len(),
            count == monster_types@.len(),
            monster_types@.len() <= i,
            forall|k: int|
                0 <= k < monster_types@.len() ==> (#[trigger] monster_types@[k]).is_some()
                    && is_type_stub(type_raws(defs.take(i as int))[k], monster_types@[k].unwrap()),
        decreases defs.len() - i,
    {
        proof {
            assert(defs.take(i + 1).drop_last() =~= defs.take(i as int));
        }
        if let DefTypes::MonsterType(t) = &all_definitions[i] {
            monster_types.insert(t.to_definition());
            count = count + 1;
        }
        i = i + 1;
    }
    proof {
        assert(defs.take(i as int) =~= defs);
        assert(monster_types.name_seq() =~= names);
    }

    // Link pass. `linked[p]` records that slot `p` now holds a linked type.
    let mut linked: Vec<bool> = Vec::new();
    while linked.len() < count
        invariant
            linked@.len() <= count,
            forall|p: int| 0 <= p < linked@.len() ==> !(#[trigger] linked@[p]),
        decreases count - linked@.len(),
    {
        linked.push(false);
    }
    proof {
        assert(defs.take(0) =~= Seq::<DefTypes>::empty());
    }
    let mut i: usize = 0;
    while i < all_definitions.len()
        invariant
            i <= defs.len(),
            defs == all_definitions@,
            raws == type_raws(defs),
            names == type_names(defs),
            monster_types.well_formed(),
            monster_types.name_seq() == names,
            monster_types@.len() == raws.len(),
            count == raws.len(),
            linked@.len() == raws.len(),
            forall|k: int|
                0 <= k < monster_types@.len() ==> (#[trigger] monster_types@[k]).is_some()
                    && type_entry(defs, defs.take(i as int), k, monster_types@[k].unwrap()),
            forall|p: int|
                0 <= p < linked@.len() ==> #[trigger] linked@[p] == (p == last_named(
                    names,
                    raws[p].def_name@,
                ) && last_linked_type(defs.take(i as int), names, raws[p].def_name@).is_some()),
            errors@ == old(errors)@ + type_errors(defs.take(i as int), names),
        decreases defs.len() - i,
    {
        let ghost upto = defs.take(i as int);
        let ghost next = defs.take(i + 1);
        proof {
            assert(next.drop_last() =~= upto);
            assert(next.last() == defs[i as int]);
        }
        if let DefTypes::MonsterType(t) = &all_definitions[i] {
            match t.link_definitions(&monster_types) {
                Ok(def) => {
                    let ghost before = monster_types@;
                    let ghost linked_type = def;
                    proof {
                        assert(linked_type.def_name() == t.def_name@);
                        assert(last_linked_type(next, names, t.def_name@) == Some(*t));
                        lemma_type_raw_listed(defs, i as int);
                        lemma_last_named_bounds(names, t.def_name@);
                    }
                    let slot = monster_types.get_def_id(t.def_name.as_str()).unwrap();
                    monster_types.replace(def);
                    let ghost p = last_named(names, t.def_name@);
                    assert(slot@ - 1 == p);
                    linked.set((slot.get() - 1) as usize, true);
                    proof {
                        assert(names[p] == Some(t.def_name@));
                        assert(raws[p].def_name@ == t.def_name@);
                        assert(monster_types@ == before.update(p, Some(linked_type)));
                        assert(type_entry(defs, next, p, linked_type));
                        assert forall|k: int| 0 <= k < monster_types@.len() implies (#[trigger] monster_types@[k]).is_some()
                            && type_entry(defs, next, k, monster_types@[k].unwrap()) by {
                            let n = raws[k].def_name@;
                            assert(names[k] == Some(n));
                            if k != p {
                                assert(monster_types@[k] == before[k]);
                                if n == t.def_name@ {
                                    lemma_last_named_bounds(names, n);
                                }
                            }
                        }
                        assert forall|q: int| 0 <= q < linked@.len() implies #[trigger] linked@[q] == (q
                            == last_named(names, raws[q].def_name@) && last_linked_type(
                            next,
                            names,
                            raws[q].def_name@,
                        ).is_some()) by {
                            assert(names[q] == Some(raws[q].def_name@));
                            if q != p && raws[q].def_name@ == t.def_name@ {
                                lemma_last_named_bounds(names, t.def_name@);
                            }
                        }
                    }
                },
                Err(err) => {
                    errors.push(err);
                },
            }
        }
        proof {
            assert(errors@ =~= old(errors)@ + type_errors(next, names));
        }
        i = i + 1;
    }
    proof {
        assert(defs.take(i as int) =~= defs);
    }

    // Drop every name that no type linked.
    let mut keep: Vec<bool> = Vec::new();
    let mut k: usize = 0;
    while k < count
        invariant
            k <= count,
            count == raws.len(),
            raws == type_raws(defs),
            names == type_names(defs),
            monster_types.well_formed(),
            monster_types.name_seq() == names,
            monster_types@.len() == raws.len(),
            linked@.len() == raws.len(),
            forall|p: int|
                0 <= p < linked@.len() ==> #[trigger] linked@[p] == (p == last_named(
                    names,
                    raws[p].def_name@,
                ) && last_linked_type(defs, names, raws[p].def_name@).is_some()),
            keep@.len() == k,
            forall|j: int| 0 <= j < k ==> #[trigger] keep@[j] == type_links(defs, raws[j].def_name@),
        decreases count - k,
    {
        let ghost n = raws[k as int].def_name@;
        proof {
            assert(names[k as int] == Some(n));
            assert(monster_types@[k as int].is_some());
        }
        let record = monster_types.get_by_id(&DefId::new(k as u64 + 1)).unwrap();
        assert(record.def_name() == n) by {
            assert(monster_types.name_seq()[k as int] == Some(record.def_name()));
        }
        proof {
            assert(names.contains(Some(n)));
            lemma_last_named_bounds(names, n);
        }
        let slot = monster_types.get_def_id(record.get_def_name()).unwrap();
        proof {
            assert(names[last_named(names, n)] == Some(raws[last_named(names, n)].def_name@));
        }
        keep.push(linked[(slot.get() - 1) as usize]);
        k = k + 1;
    }

    let ghost linked_slots = monster_types@;
    let mut k: usize = 0;
    while k < count
        invariant
            k <= count,
            count == raws.len(),
            raws == type_raws(defs),
            keep@.len() == raws.len(),
            forall|j: int| 0 <= j < raws.len() ==> #[trigger] keep@[j] == type_links(defs, raws[j].def_name@),
            monster_types.well_formed(),
            linked_slots.len() == raws.len(),
            monster_types@.len() == raws.len(),
            forall|j: int|
                0 <= j < raws.len() ==> (#[trigger] linked_slots[j]).is_some() && type_entry(
                    defs,
                    defs,
                    j,
                    linked_slots[j].unwrap(),
                ),
            forall|j: int|
                0 <= j < raws.len() ==> #[trigger] monster_types@[j] == if j < k && !keep@[j] {
                    None
                } else {
                    linked_slots[j]
                },
        decreases count - k,
    {
        if !keep[k] {
            monster_types.remove(&DefId::new(k as u64 + 1));
        }
        k = k + 1;
    }
    proof {
        assert forall|j: int| 0 <= j < monster_types@.len() implies type_slot(defs, j, #[trigger] monster_types@[j]) by {
            assert(keep@[j] == type_links(defs, raws[j].def_name@));
        }
        assert forall|j: int| 0 <= j < raws.len() implies #[trigger] monster_types.name_seq()[j]
            == built_type_names(defs)[j] by {
            assert(keep@[j] == type_links(defs, raws[j].def_name@));
            let n = raws[j].def_name@;
            if type_links(defs, n) {
                let t = linked_slots[j].unwrap();
                assert(type_entry(defs, defs, j, t));
                if j == last_named(names, n) {
                    let raw = last_linked_type(defs, names, n);
                    lemma_last_linked_named(defs, names, n);
                }
            }
        }
        assert(monster_types.name_seq() =~= built_type_names(defs));
    }
    monster_types
}

// ----- Monster moves -----

/// The raw moves among `defs` whose type name leads into `type_names`, in order.
pub open spec fn linked_move_raws(defs: Seq<DefTypes>, type_names: Seq<Option<Seq<char>>>) -> Seq<
    RawMonsterMove,
> {
    defs.filter_map(
        |d: DefTypes|
            match d {
                DefTypes::MonsterMove(m) => if move_links(m, type_names) {
                    Some(m)
                } else {
                    None
                },
                _ => None,
            },
    )
}

/// The errors of the raw moves among `defs` whose type name `type_names` lacks.
pub open spec fn move_errors(defs: Seq<DefTypes>, type_names: Seq<Option<Seq<char>>>) -> Seq<LinkError> {
    defs.filter_map(
        |d: DefTypes|
            match d {
                DefTypes::MonsterMove(m) => if move_links(m, type_names) {
                    None
                } else {
                    Some(move_link_error(m))
                },
                _ => None,
            },
    )
}

/// Builds the move registry from the finished monster type registry: each move that
/// links, in order; each that does not is left out and adds an error.
pub fn create_monster_move_defs(
    all_definitions: &Vec<DefTypes>,
    move_types: &DefDatabase<MonsterType>,
    errors: &mut Vec<LinkError>,
) -> (r: DefDatabase<MonsterMove>)
    requires
        move_types.well_formed(),
    ensures
        r.well_formed(),
        r@.len() == linked_move_raws(all_definitions@, move_types.name_seq()).len(),
        forall|k: int|
            0 <= k < r@.len() ==> (#[trigger] r@[k]).is_some() && links_move(
                linked_move_raws(all_definitions@, move_types.name_seq())[k],
                move_types.name_seq(),
                r@[k].unwrap(),
            ),
        final(errors)@ == old(errors)@ + move_errors(all_definitions@, move_types.name_seq()),
{
    let ghost defs = all_definitions@;
    let ghost names = move_types.name_seq();
    let mut db = DefDatabase::new();
    let mut i: usize = 0;
    while i < all_definitions.len()
        invariant
            i <= defs.len(),
            defs == all_definitions@,
            move_types.well_formed(),
            names == move_types.name_seq(),
            db.well_formed(),
            db@.len() == linked_move_raws(defs.take(i as int), names).len(),
            db@.len() <= i,
            forall|k: int|
                0 <= k < db@.len() ==> (#[trigger] db@[k]).is_some() && links_move(
                    linked_move_raws(defs.take(i as int), names)[k],
                    names,
                    db@[k].unwrap(),
                ),
            errors@ == old(errors)@ + move_errors(defs.take(i as int), names),
        decreases defs.len() - i,
    {
        proof {
            assert(defs.take(i + 1).drop_last() =~= defs.take(i as int));
        }
        if let DefTypes::MonsterMove(m) = &all_definitions[i] {
            match m.to_definition(move_types) {
                Ok(def) => {
                    db.insert(def);
                },
                Err(err) => {
                    errors.push(err);
                },
            }
        }
        proof {
            assert(errors@ =~= old(errors)@ + move_errors(defs.take(i + 1), names));
        }
        i = i + 1;
    }
    proof {
        assert(defs.take(i as int) =~= defs);
    }
    db
}

// ----- Monsters -----

/// The raw monsters among `defs` whose names all lead into their registries, in order.
pub open spec fn linked_monster_raws(
    defs: Seq<DefTypes>,
    biomes: Seq<Option<Seq<char>>>,
    moves: Seq<Option<Seq<char>>>,
    types: Seq<Option<Seq<char>>>,
) -> Seq<MonsterRawDefinition> {
    defs.filter_map(
        |d: DefTypes|
            match d {
                DefTypes::Monster(m) => if monster_links(m, biomes, moves, types) {
                    Some(m)
                } else {
                    None
                },
                _ => None,
            },
    )
}

/// The errors of the raw monsters among `defs` that name a missing record.
pub open spec fn monster_errors(
    defs: Seq<DefTypes>,
    biomes: Seq<Option<Seq<char>>>,
    moves: Seq<Option<Seq<char>>>,
    types: Seq<Option<Seq<char>>>,
) -> Seq<LinkError> {
    defs.filter_map(
        |d: DefTypes|
            match d {
                DefTypes::Monster(m) => if monster_links(m, biomes, moves, types) {
                    None
                } else {
                    Some(monster_link_error(m, biomes, moves, types))
                },
                _ => None,
            },
    )
}

/// Builds the monster registry from the finished biome, move and type registries:
/// each monster that links, in order; each that does not is left out and adds an error.
pub fn create_monster_defs(
    all_definitions: &Vec<DefTypes>,
    biomes: &DefDatabase<BiomeDefinition>,
    moves: &DefDatabase<MonsterMove>,
    types: &DefDatabase<MonsterType>,
    errors: &mut Vec<LinkError>,
) -> (r: DefDatabase<MonsterDefinition>)
    requires
        biomes.well_formed(),
        moves.well_formed(),
        types.well_formed(),
    ensures
        r.well_formed(),
        r@.len() == linked_monster_raws(
            all_definitions@,
            biomes.name_seq(),
            moves.name_seq(),
            types.name_seq(),
        ).len(),
        forall|k: int|
            0 <= k < r@.len() ==> (#[trigger] r@[k]).is_some() && links_monster(
                linked_monster_raws(
                    all_definitions@,
                    biomes.name_seq(),
                    moves.name_seq(),
                    types.name_seq(),
                )[k],
                biomes.name_seq(),
                moves.name_seq(),
                types.name_seq(),
                r@[k].unwrap(),
            ),
        final(errors)@ == old(errors)@ + monster_errors(
            all_definitions@,
            biomes.name_seq(),
            moves.name_seq(),
            types.name_seq(),
        ),
{
    let ghost defs = all_definitions@;
    let ghost bn = biomes.name_seq();
    let ghost mn = moves.name_seq();
    let ghost tn = types.name_seq();
    let mut db = DefDatabase::new();
    let mut i: usize = 0;
    while i < all_definitions.len()
        invariant
            i <= defs.len(),
            defs == all_definitions@,
            biomes.well_formed(),
            moves.well_formed(),
            types.well_formed(),
            bn == biomes.name_seq(),
            mn == moves.name_seq(),
            tn == types.name_seq(),
            db.well_formed(),
            db@.len() == linked_monster_raws(defs.take(i as int), bn, mn, tn).len(),
            db@.len() <= i,
            forall|k: int|
                0 <= k < db@.len() ==> (#[trigger] db@[k]).is_some() && links_monster(
                    linked_monster_raws(defs.take(i as int), bn, mn, tn)[k],
                    bn,
                    mn,
                    tn,
                    db@[k].unwrap(),
                ),
            errors@ == old(errors)@ + monster_errors(defs.take(i as int), bn, mn, tn),
        decreases defs.len() - i,
    {
        proof {
            assert(defs.take(i + 1).drop_last() =~= defs.take(i as int));
        }
        if let DefTypes::Monster(m) = &all_definitions[i] {
            match m.to_definition(biomes, moves, types) {
                Ok(def) => {
                    db.insert(def);
                },
                Err(err) => {
                    errors.push(err);
                },
            }
        }
        proof {
            assert(errors@ =~= old(errors)@ + monster_errors(defs.take(i + 1), bn, mn, tn));
        }
        i = i + 1;
    }
    proof {
        assert(defs.take(i as int) =~= defs);
    }
    db
}

// ----- The whole build -----

/// The finished registries of every category, with the errors met while linking.
pub struct DefinitionSet {
    pub biomes: DefDatabase<BiomeDefinition>,
    pub monster_types: DefDatabase<MonsterType>,
    pub monster_moves: DefDatabase<MonsterMove>,
    pub monsters: DefDatabase<MonsterDefinition>,
    pub errors: Vec<LinkError>,
}

/// The names of the biome registry built from `defs`.
pub open spec fn biome_names(defs: Seq<DefTypes>) -> Seq<Option<Seq<char>>> {
    names_of(present(biome_raws(defs)))
}

/// The raw moves of `defs` that the build keeps: those whose type survived.
pub open spec fn built_move_raws(defs: Seq<DefTypes>) -> Seq<RawMonsterMove> {
    linked_move_raws(defs, built_type_names(defs))
}

/// The names of the move registry built from `defs`.
pub open spec fn move_names(defs: Seq<DefTypes>) -> Seq<Option<Seq<char>>> {
    built_move_raws(defs).map_values(|m: RawMonsterMove| Some(m.def_name@))
}

/// The raw monsters of `defs` that the build keeps.
pub open spec fn built_monster_raws(defs: Seq<DefTypes>) -> Seq<MonsterRawDefinition> {
    linked_monster_raws(defs, biome_names(defs), move_names(defs), built_type_names(defs))
}

/// Every error of a build from `defs`: monster types, then moves, then monsters, each
/// in the order of `defs`.
pub open spec fn all_errors(defs: Seq<DefTypes>) -> Seq<LinkError> {
    type_errors(defs, type_names(defs)) + move_errors(defs, built_type_names(defs))
        + monster_errors(defs, biome_names(defs), move_names(defs), built_type_names(defs))
}

impl DefinitionSet {
    /// The registries and errors are those of a build from `defs`.
    pub open spec fn built_from(&self, defs: Seq<DefTypes>) -> bool {
        &&& self.biomes.well_formed()
        &&& self.monster_types.well_formed()
        &&& self.monster_moves.well_formed()
        &&& self.monsters.well_formed()
        &&& self.biomes@ == present(biome_raws(defs))
        &&& self.monster_types@.len() == type_raws(defs).len()
        &&& forall|k: int|
            0 <= k < self.monster_types@.len() ==> type_slot(
                defs,
                k,
                #[trigger] self.monster_types@[k],
            )
        &&& self.monster_types.name_seq() == built_type_names(defs)
        &&& self.monster_moves@.len() == built_move_raws(defs).len()
        &&& forall|k: int|
            0 <= k < self.monster_moves@.len() ==> (#[trigger] self.monster_moves@[k]).is_some()
                && links_move(
                built_move_raws(defs)[k],
                built_type_names(defs),
                self.monster_moves@[k].unwrap(),
            )
        &&& self.monster_moves.name_seq() == move_names(defs)
        &&& self.monsters@.len() == built_monster_raws(defs).len()
        &&& forall|k: int|
            0 <= k < self.monsters@.len() ==> (#[trigger] self.monsters@[k]).is_some()
                && links_monster(
                built_monster_raws(defs)[k],
                biome_names(defs),
                move_names(defs),
                built_type_names(defs),
                self.monsters@[k].unwrap(),
            )
        &&& self.errors@ == all_errors(defs)
    }
}

/// Builds every registry from `all_definitions`, category after category in dependency
/// order (biomes, monster types, moves, monsters), each from the finished registries
/// of the categories it refers to. Records that fail to link are reported and left
/// out, never fatal.
pub fn build_definitions(all_definitions: &Vec<DefTypes>) -> (r: DefinitionSet)
    ensures
        r.built_from(all_definitions@),
{
    let ghost defs = all_definitions@;
    let mut errors: Vec<LinkError> = Vec::new();
    let biomes = create_biome_defs(all_definitions);
    let monster_types = create_monster_type_defs(all_definitions, &mut errors);
    let monster_moves = create_monster_move_defs(all_definitions, &monster_types, &mut errors);
    proof {
        let linked = built_move_raws(defs);
        assert forall|k: int| 0 <= k < monster_moves@.len() implies #[trigger] monster_moves.name_seq()[k]
            == move_names(defs)[k] by {
            assert(links_move(linked[k], built_type_names(defs), monster_moves@[k].unwrap()));
        }
        assert(monster_moves.name_seq() =~= move_names(defs));
    }
    let monsters = create_monster_defs(
        all_definitions,
        &biomes,
        &monster_moves,
        &monster_types,
        &mut errors,
    );
    proof {
        assert(errors@ =~= all_errors(defs));
    }
    DefinitionSet { biomes, monster_types, monster_moves, monsters, errors }
}

/// Builds every registry from the records of all loaded data files.
pub fn add_defs_to_database(roots: Vec<DefsRoot>) -> (r: DefinitionSet)
    ensures
        r.built_from(all_defs(roots@)),
{
    let all_definitions = flatten_defs(roots);
    build_definitions(&all_definitions)
}

proof fn lemma_last_linked_named(defs: Seq<DefTypes>, names: Seq<Option<Seq<char>>>, n: Seq<char>)
    ensures
        last_linked_type(defs, names, n).is_some() ==> last_linked_type(defs, names, n).unwrap().def_name@
            == n && all_known(names, scale_targets(last_linked_type(defs, names, n).unwrap())),
    decreases defs.len(),
{
    if defs.len() > 0 {
        lemma_last_linked_named(defs.drop_last(), names, n);
    }
}

// ----- Laws of the build -----

proof fn lemma_last_linked_listed(defs: Seq<DefTypes>, names: Seq<Option<Seq<char>>>, n: Seq<char>)
    ensures
        last_linked_type(defs, names, n).is_some() ==> type_raws(defs).contains(
            last_linked_type(defs, names, n).unwrap(),
        ),
    decreases defs.len(),
{
    if defs.len() > 0 {
        let rest = defs.drop_last();
        lemma_last_linked_listed(rest, names, n);
        let found = last_linked_type(defs, names, n);
        if found.is_some() {
            let raws = type_raws(defs);
            if found == last_linked_type(rest, names, n) {
                let k = choose|k: int| 0 <= k < type_raws(rest).len() && type_raws(rest)[k] == found.unwrap();
                assert(raws[k] == found.unwrap());
            } else {
                assert(raws[raws.len() - 1] == found.unwrap());
            }
        }
    }
}

/// Whatever the order of the records, each damage factor of a built monster type leads
/// to the identifier of the monster type named where the raw record wrote it: a record
/// of that name where some raw type of that name linked, and an emptied slot where none did.
pub proof fn law_type_targets_follow_names(defs: Seq<DefTypes>, r: DefinitionSet, k: int, j: int)
    requires
        r.built_from(defs),
        0 <= k < r.monster_types@.len(),
        r.monster_types@[k].is_some(),
        0 <= j < r.monster_types@[k].unwrap().damage_scales@.len(),
    ensures
        exists|raw: RawMonsterType|
            #![trigger type_raws(defs).contains(raw)]
            {
                let target = r.monster_types@[k].unwrap().damage_scales@[j].target_type@ as int;
                let found = record_for_id(r.monster_types@, target);
                &&& type_raws(defs).contains(raw)
                &&& raw.def_name == r.monster_types@[k].unwrap().def_name
                &&& j < raw.damage_scales@.len()
                &&& found.is_some() ==> found.unwrap().def_name@
                    == raw.damage_scales@[j].target_type_def_name@
                &&& found.is_none() <==> !type_links(defs, raw.damage_scales@[j].target_type_def_name@)
            },
{
    let names = type_names(defs);
    let t = r.monster_types@[k].unwrap();
    assert(type_slot(defs, k, r.monster_types@[k]));
    let n = type_raws(defs)[k].def_name@;
    let raw = last_linked_type(defs, names, n).unwrap();
    lemma_last_linked_listed(defs, names, n);
    assert(links_type(raw, names, t));
    let target_name = raw.damage_scales@[j].target_type_def_name@;
    lemma_last_named_bounds(names, target_name);
    let p = last_named(names, target_name);
    assert(t.damage_scales@[j].target_type@ == p + 1);
    assert(type_raws(defs)[p].def_name@ == target_name);
    assert(names_of(r.monster_types@)[p] == built_type_names(defs)[p]);
    assert(type_raws(defs).contains(raw));
}

/// Every reference that a monster of the finished build holds leads to a record of
/// the registry it points into: no biome, move or type identifier dangles.
pub proof fn law_monster_references_present(defs: Seq<DefTypes>, r: DefinitionSet, k: int)
    requires
        r.built_from(defs),
        0 <= k < r.monsters@.len(),
    ensures
        r.monsters@[k].is_some(),
        forall|i: int|
            0 <= i < r.monsters@[k].unwrap().spawn_locations@.len() ==> record_for_id(
                r.biomes@,
                (#[trigger] r.monsters@[k].unwrap().spawn_locations@[i]).biome_def@ as int,
            ).is_some(),
        forall|i: int|
            0 <= i < r.monsters@[k].unwrap().move_learn_set@.len() ==> record_for_id(
                r.monster_moves@,
                (#[trigger] r.monsters@[k].unwrap().move_learn_set@[i]).monster_move@ as int,
            ).is_some(),
        forall|i: int|
            0 <= i < r.monsters@[k].unwrap().types@.len() ==> record_for_id(
                r.monster_types@,
                (#[trigger] r.monsters@[k].unwrap().types@[i])@ as int,
            ).is_some(),
{
    let m = r.monsters@[k].unwrap();
    let raw = built_monster_raws(defs)[k];
    assert(links_monster(raw, biome_names(defs), move_names(defs), built_type_names(defs), m));
    assert forall|i: int| 0 <= i < m.spawn_locations@.len() implies record_for_id(
        r.biomes@,
        (#[trigger] m.spawn_locations@[i]).biome_def@ as int,
    ).is_some() by {
        law_found_id_is_present(r.biomes@, raw.spawn_locations@[i].biome_def@);
    }
    assert forall|i: int| 0 <= i < m.move_learn_set@.len() implies record_for_id(
        r.monster_moves@,
        (#[trigger] m.move_learn_set@[i]).monster_move@ as int,
    ).is_some() by {
        law_found_id_is_present(r.monster_moves@, raw.move_learn_set@[i].monster_move_def_name@);
    }
    assert forall|i: int| 0 <= i < m.types@.len() implies record_for_id(
        r.monster_types@,
        (#[trigger] m.types@[i])@ as int,
    ).is_some() by {
        law_found_id_is_present(r.monster_types@, raw.types@[i]@);
    }
}

pub open spec fn category_of(d: DefTypes) -> DefCategory {
    match d {
        DefTypes::Biome(_) => DefCategory::Biome,
        DefTypes::MonsterType(_) => DefCategory::MonsterType,
        DefTypes::MonsterMove(_) => DefCategory::MonsterMove,
        DefTypes::Monster(_) => DefCategory::Monster,
    }
}

/// How many records of `defs` belong to category `c`.
pub open spec fn count_of(defs: Seq<DefTypes>, c: DefCategory) -> nat
    decreases defs.len(),
{
    if defs.len() == 0 {
        0
    } else {
        count_of(defs.drop_last(), c) + if category_of(defs.last()) == c {
            1nat
        } else {
            0nat
        }
    }
}

/// The names of all raw moves among `defs`, in order.
pub open spec fn move_raw_names(defs: Seq<DefTypes>) -> Seq<Option<Seq<char>>> {
    defs.filter_map(
        |d: DefTypes|
            match d {
                DefTypes::MonsterMove(m) => Some(Some(m.def_name@)),
                _ => None,
            },
    )
}

/// Every name that a record of `defs` refers to is the name of a record of the right
/// category in `defs`.
pub open spec fn references_resolve(defs: Seq<DefTypes>) -> bool {
    forall|i: int|
        0 <= i < defs.len() ==> match #[trigger] defs[i] {
            DefTypes::MonsterType(t) => all_known(type_names(defs), scale_targets(t)),
            DefTypes::MonsterMove(m) => move_links(m, type_names(defs)),
            DefTypes::Monster(m) => monster_links(
                m,
                biome_names(defs),
                move_raw_names(defs),
                type_names(defs),
            ),
            DefTypes::Biome(_) => true,
        }
}

proof fn lemma_clean_counts(
    defs: Seq<DefTypes>,
    bn: Seq<Option<Seq<char>>>,
    mn: Seq<Option<Seq<char>>>,
    tn: Seq<Option<Seq<char>>>,
)
    requires
        forall|i: int|
            0 <= i < defs.len() ==> match #[trigger] defs[i] {
                DefTypes::MonsterType(t) => all_known(tn, scale_targets(t)),
                DefTypes::MonsterMove(m) => move_links(m, tn),
                DefTypes::Monster(m) => monster_links(m, bn, mn, tn),
                DefTypes::Biome(_) => true,
            },
    ensures
        biome_raws(defs).len() == count_of(defs, DefCategory::Biome),
        type_raws(defs).len() == count_of(defs, DefCategory::MonsterType),
        linked_move_raws(defs, tn).len() == count_of(defs, DefCategory::MonsterMove),
        linked_monster_raws(defs, bn, mn, tn).len() == count_of(defs, DefCategory::Monster),
        linked_move_raws(defs, tn).map_values(|m: RawMonsterMove| Some(m.def_name@))
            == move_raw_names(defs),
        type_errors(defs, tn).len() == 0,
        move_errors(defs, tn).len() == 0,
        monster_errors(defs, bn, mn, tn).len() == 0,
    decreases defs.len(),
{
    if defs.len() > 0 {
        let rest = defs.drop_last();
        assert forall|i: int| 0 <= i < rest.len() implies match #[trigger] rest[i] {
            DefTypes::MonsterType(t) => all_known(tn, scale_targets(t)),
            DefTypes::MonsterMove(m) => move_links(m, tn),
            DefTypes::Monster(m) => monster_links(m, bn, mn, tn),
            DefTypes::Biome(_) => true,
        } by {
            assert(rest[i] == defs[i]);
        }
        lemma_clean_counts(rest, bn, mn, tn);
        let last = defs[defs.len() - 1];
        assert(defs.last() == last);
    }
    assert(linked_move_raws(defs, tn).map_values(|m: RawMonsterMove| Some(m.def_name@))
        =~= move_raw_names(defs));
}

/// Where every raw monster type's targets are known, each name of a raw type links.
proof fn lemma_clean_types_link(defs: Seq<DefTypes>, all: Seq<DefTypes>, k: int)
    requires
        0 <= k < type_raws(defs).len(),
        forall|i: int|
            0 <= i < defs.len() ==> match #[trigger] defs[i] {
                DefTypes::MonsterType(t) => all_known(type_names(all), scale_targets(t)),
                _ => true,
            },
    ensures
        last_linked_type(defs, type_names(all), type_raws(defs)[k].def_name@).is_some(),
    decreases defs.len(),
{
    let rest = defs.drop_last();
    let n = type_raws(defs)[k].def_name@;
    assert forall|i: int| 0 <= i < rest.len() implies match #[trigger] rest[i] {
        DefTypes::MonsterType(t) => all_known(type_names(all), scale_targets(t)),
        _ => true,
    } by {
        assert(rest[i] == defs[i]);
    }
    let last = defs[defs.len() - 1];
    assert(defs.last() == last);
    if k < type_raws(rest).len() {
        assert(type_raws(defs)[k] == type_raws(rest)[k]);
        lemma_clean_types_link(rest, all, k);
    }
}

/// A build from records whose references all resolve reports no error, and each
/// registry holds as many records as `defs` has of its category. Linking then ends in
/// the playing state.
pub proof fn law_clean_build(defs: Seq<DefTypes>, r: DefinitionSet)
    requires
        r.built_from(defs),
        references_resolve(defs),
    ensures
        r.errors@.len() == 0,
        live_count(r.biomes@) == count_of(defs, DefCategory::Biome),
        live_count(r.monster_types@) == count_of(defs, DefCategory::MonsterType),
        live_count(r.monster_moves@) == count_of(defs, DefCategory::MonsterMove),
        live_count(r.monsters@) == count_of(defs, DefCategory::Monster),
        after_build(GameState::AddingToDatabase) == GameState::Playing,
{
    let tn = type_names(defs);
    let bn = biome_names(defs);
    let raws = type_raws(defs);
    assert forall|i: int| 0 <= i < defs.len() implies match #[trigger] defs[i] {
        DefTypes::MonsterType(t) => all_known(type_names(defs), scale_targets(t)),
        _ => true,
    } by {
    }
    assert forall|k: int| 0 <= k < raws.len() implies #[trigger] type_links(defs, raws[k].def_name@) by {
        lemma_clean_types_link(defs, defs, k);
    }
    assert(built_type_names(defs) =~= tn);
    lemma_clean_counts(defs, bn, move_raw_names(defs), tn);
    assert(move_names(defs) == move_raw_names(defs));
    lemma_clean_counts(defs, bn, move_names(defs), tn);

    lemma_live_count_present(biome_raws(defs));
    let types = r.monster_types@;
    assert forall|k: int| 0 <= k < types.len() implies (#[trigger] types[k]).is_some() by {
        assert(type_slot(defs, k, types[k]));
    }
    assert(types =~= present(types.map_values(|o: Option<MonsterType>| o.unwrap())));
    lemma_live_count_present(types.map_values(|o: Option<MonsterType>| o.unwrap()));
    let moves = r.monster_moves@;
    assert(moves =~= present(moves.map_values(|o: Option<MonsterMove>| o.unwrap())));
    lemma_live_count_present(moves.map_values(|o: Option<MonsterMove>| o.unwrap()));
    let monsters = r.monsters@;
    assert(monsters =~= present(monsters.map_values(|o: Option<MonsterDefinition>| o.unwrap())));
    lemma_live_count_present(monsters.map_values(|o: Option<MonsterDefinition>| o.unwrap()));
}

/// No two raw monster types of `defs` share a name.
pub open spec fn type_names_distinct(defs: Seq<DefTypes>) -> bool {
    forall|i: int, j: int|
        0 <= i < j < type_raws(defs).len() ==> (#[trigger] type_raws(defs)[i]).def_name@
            != (#[trigger] type_raws(defs)[j]).def_name@
}

/// Some raw monster type of `defs` is named `x`.
pub open spec fn has_type(defs: Seq<DefTypes>, x: Seq<char>) -> bool {
    exists|k: int| 0 <= k < type_raws(defs).len() && (#[trigger] type_raws(defs)[k]).def_name@ == x
}

/// The monster type that the name `n` leads to in a finished build.
pub open spec fn type_named(r: DefinitionSet, n: Seq<char>) -> Option<MonsterType> {
    match id_for_name(r.monster_types.name_seq(), n) {
        Some(id) => record_for_id(r.monster_types@, id),
        None => None,
    }
}

/// The name of the monster type under `id` in a finished build, if there is one.
pub open spec fn type_name_at(r: DefinitionSet, id: int) -> Option<Seq<char>> {
    match record_for_id(r.monster_types@, id) {
        Some(t) => Some(t.def_name@),
        None => None,
    }
}

proof fn lemma_type_name_known(defs: Seq<DefTypes>, x: Seq<char>)
    ensures
        id_for_name(type_names(defs), x).is_some() == has_type(defs, x),
{
    let names = type_names(defs);
    lemma_last_named_bounds(names, x);
    if has_type(defs, x) {
        let k = choose|k: int| 0 <= k < type_raws(defs).len() && (#[trigger] type_raws(defs)[k]).def_name@ == x;
        assert(names[k] == Some(x));
    }
    if names.contains(Some(x)) {
        let k = choose|k: int| 0 <= k < names.len() && names[k] == Some(x);
        assert(type_raws(defs)[k].def_name@ == x);
    }
}

proof fn lemma_linked_when_known(defs: Seq<DefTypes>, names: Seq<Option<Seq<char>>>, k: int)
    requires
        0 <= k < type_raws(defs).len(),
        all_known(names, scale_targets(type_raws(defs)[k])),
    ensures
        last_linked_type(defs, names, type_raws(defs)[k].def_name@).is_some(),
    decreases defs.len(),
{
    let rest = defs.drop_last();
    let last = defs[defs.len() - 1];
    assert(defs.last() == last);
    if k < type_raws(rest).len() {
        assert(type_raws(defs)[k] == type_raws(rest)[k]);
        lemma_linked_when_known(rest, names, k);
    }
}

/// With distinct names, the raw type named `n` at position `k` is the one that links
/// under `n`, and it links exactly when its targets are known.
proof fn lemma_distinct_link(defs: Seq<DefTypes>, names: Seq<Option<Seq<char>>>, k: int)
    requires
        type_names_distinct(defs),
        0 <= k < type_raws(defs).len(),
    ensures
        last_linked_type(defs, names, type_raws(defs)[k].def_name@).is_some() == all_known(
            names,
            scale_targets(type_raws(defs)[k]),
        ),
        last_linked_type(defs, names, type_raws(defs)[k].def_name@).is_some()
            ==> last_linked_type(defs, names, type_raws(defs)[k].def_name@).unwrap() == type_raws(
            defs,
        )[k],
{
    let raws = type_raws(defs);
    let n = raws[k].def_name@;
    lemma_last_linked_listed(defs, names, n);
    lemma_last_linked_named(defs, names, n);
    if last_linked_type(defs, names, n).is_some() {
        let t = last_linked_type(defs, names, n).unwrap();
        let j = choose|j: int| 0 <= j < raws.len() && raws[j] == t;
        if j < k {
            assert(raws[j].def_name@ != raws[k].def_name@);
        } else if k < j {
            assert(raws[k].def_name@ != raws[j].def_name@);
        }
    }
    if all_known(names, scale_targets(raws[k])) {
        lemma_linked_when_known(defs, names, k);
    }
}

/// In a build from records with distinct type names: the name of the `k`-th raw type
/// leads to a record exactly when the type links, that record is the type linked, and
/// each of its targets leads to the type of the written name where that type links,
/// to nothing where it does not.
proof fn lemma_type_named(defs: Seq<DefTypes>, r: DefinitionSet, k: int)
    requires
        r.built_from(defs),
        type_names_distinct(defs),
        0 <= k < type_raws(defs).len(),
    ensures
        type_named(r, type_raws(defs)[k].def_name@).is_some() == all_known(
            type_names(defs),
            scale_targets(type_raws(defs)[k]),
        ),
        type_named(r, type_raws(defs)[k].def_name@).is_some() ==> links_type(
            type_raws(defs)[k],
            type_names(defs),
            type_named(r, type_raws(defs)[k].def_name@).unwrap(),
        ),
        type_named(r, type_raws(defs)[k].def_name@).is_some() ==> forall|j: int|
            0 <= j < type_raws(defs)[k].damage_scales@.len() ==> type_name_at(
                r,
                (#[trigger] type_named(r, type_raws(defs)[k].def_name@).unwrap().damage_scales@[j]).target_type@ as int,
            ) == if type_links(defs, type_raws(defs)[k].damage_scales@[j].target_type_def_name@) {
                Some(type_raws(defs)[k].damage_scales@[j].target_type_def_name@)
            } else {
                None
            },
{
    let raws = type_raws(defs);
    let names = type_names(defs);
    let built = built_type_names(defs);
    let n = raws[k].def_name@;
    lemma_distinct_link(defs, names, k);
    assert(names[k] == Some(n));
    assert forall|j: int| 0 <= j < names.len() && j != k implies names[j] != Some(n) by {
        if j < k {
            assert(raws[j].def_name@ != raws[k].def_name@);
        } else {
            assert(raws[k].def_name@ != raws[j].def_name@);
        }
    }
    lemma_last_named_unique(names, n, k);
    assert(r.monster_types.name_seq() == built);
    if type_links(defs, n) {
        assert(built[k] == Some(n));
        assert forall|j: int| k < j < built.len() implies built[j] != Some(n) by {
            assert(names[j] != Some(n));
        }
        lemma_last_named_unique(built, n, k);
        assert(type_slot(defs, k, r.monster_types@[k]));
        let t = r.monster_types@[k].unwrap();
        assert(type_named(r, n) == Some(t));
        assert forall|j: int| 0 <= j < raws[k].damage_scales@.len() implies type_name_at(
            r,
            (#[trigger] type_named(r, n).unwrap().damage_scales@[j]).target_type@ as int,
        ) == if type_links(defs, raws[k].damage_scales@[j].target_type_def_name@) {
            Some(raws[k].damage_scales@[j].target_type_def_name@)
        } else {
            None
        } by {
            let x = raws[k].damage_scales@[j].target_type_def_name@;
            lemma_last_named_bounds(names, x);
            let p = last_named(names, x);
            assert(t.damage_scales@[j].target_type@ == p + 1);
            assert(raws[p].def_name@ == x);
            assert(names_of(r.monster_types@)[p] == built[p]);
        }
    } else {
        lemma_last_named_bounds(built, n);
        assert forall|j: int| 0 <= j < built.len() implies built[j] != Some(n) by {
            assert(names[j] == Some(raws[j].def_name@));
        }
        assert(!built.contains(Some(n)));
    }
}

/// The monster type registry does not depend on the order of the raw records: two
/// builds from the same raw types with distinct names, in any order, lead each name to
/// a record in both or in neither, and to records with the same damage factors whose
/// targets carry the same names.
pub proof fn law_type_build_order_independent(
    defs1: Seq<DefTypes>,
    defs2: Seq<DefTypes>,
    r1: DefinitionSet,
    r2: DefinitionSet,
    n: Seq<char>,
)
    requires
        r1.built_from(defs1),
        r2.built_from(defs2),
        type_names_distinct(defs1),
        type_names_distinct(defs2),
        forall|raw: RawMonsterType|
            type_raws(defs1).contains(raw) <==> #[trigger] type_raws(defs2).contains(raw),
    ensures
        type_named(r1, n).is_some() == type_named(r2, n).is_some(),
        type_named(r1, n).is_some() ==> {
            let t1 = type_named(r1, n).unwrap();
            let t2 = type_named(r2, n).unwrap();
            &&& t1.damage_scales@.len() == t2.damage_scales@.len()
            &&& forall|j: int|
                0 <= j < t1.damage_scales@.len() ==> (#[trigger] t1.damage_scales@[j]).damage_scale
                    == t2.damage_scales@[j].damage_scale && type_name_at(
                    r1,
                    t1.damage_scales@[j].target_type@ as int,
                ) == type_name_at(r2, t2.damage_scales@[j].target_type@ as int)
        },
{
    let raws1 = type_raws(defs1);
    let raws2 = type_raws(defs2);
    // The same names are known in both builds.
    assert forall|x: Seq<char>| #[trigger] has_type(defs1, x) == has_type(defs2, x) by {
        if has_type(defs1, x) {
            let k = choose|k: int| 0 <= k < raws1.len() && (#[trigger] raws1[k]).def_name@ == x;
            assert(raws1.contains(raws1[k]));
            assert(raws2.contains(raws1[k]));
            let j = choose|j: int| 0 <= j < raws2.len() && raws2[j] == raws1[k];
            assert(raws2[j].def_name@ == x);
        }
        if has_type(defs2, x) {
            let k = choose|k: int| 0 <= k < raws2.len() && (#[trigger] raws2[k]).def_name@ == x;
            assert(raws2.contains(raws2[k]));
            let j = choose|j: int| 0 <= j < raws1.len() && raws1[j] == raws2[k];
            assert(raws1[j].def_name@ == x);
        }
    }
    assert forall|refs: Seq<Seq<char>>| #[trigger] all_known(type_names(defs1), refs) == all_known(type_names(defs2), refs) by {
        assert forall|i: int| 0 <= i < refs.len() implies (#[trigger] id_for_name(type_names(defs1), refs[i])).is_some()
            == id_for_name(type_names(defs2), refs[i]).is_some() by {
            lemma_type_name_known(defs1, refs[i]);
            lemma_type_name_known(defs2, refs[i]);
            assert(has_type(defs1, refs[i]) == has_type(defs2, refs[i]));
        }
        if all_known(type_names(defs1), refs) {
            assert forall|i: int| 0 <= i < refs.len() implies (#[trigger] id_for_name(type_names(defs2), refs[i])).is_some() by {
                assert(id_for_name(type_names(defs1), refs[i]).is_some());
            }
        }
        if all_known(type_names(defs2), refs) {
            assert forall|i: int| 0 <= i < refs.len() implies (#[trigger] id_for_name(type_names(defs1), refs[i])).is_some() by {
                assert(id_for_name(type_names(defs2), refs[i]).is_some());
            }
        }
    }
    // Each known name is carried by the same raw type in both.
    assert forall|x: Seq<char>| #[trigger] type_links(defs1, x) == type_links(defs2, x) by {
        if has_type(defs1, x) {
            let k = choose|k: int| 0 <= k < raws1.len() && (#[trigger] raws1[k]).def_name@ == x;
            assert(raws1.contains(raws1[k]));
            assert(raws2.contains(raws1[k]));
            let j = choose|j: int| 0 <= j < raws2.len() && raws2[j] == raws1[k];
            lemma_distinct_link(defs1, type_names(defs1), k);
            lemma_distinct_link(defs2, type_names(defs2), j);
            assert(all_known(type_names(defs1), scale_targets(raws1[k])) == all_known(
                type_names(defs2),
                scale_targets(raws1[k]),
            ));
        } else {
            lemma_last_linked_listed(defs1, type_names(defs1), x);
            lemma_last_linked_named(defs1, type_names(defs1), x);
            lemma_last_linked_listed(defs2, type_names(defs2), x);
            lemma_last_linked_named(defs2, type_names(defs2), x);
            if type_links(defs1, x) {
                let t = last_linked_type(defs1, type_names(defs1), x).unwrap();
                let k = choose|k: int| 0 <= k < raws1.len() && raws1[k] == t;
                assert(has_type(defs1, x));
            }
            if type_links(defs2, x) {
                let t = last_linked_type(defs2, type_names(defs2), x).unwrap();
                let k = choose|k: int| 0 <= k < raws2.len() && raws2[k] == t;
                assert(has_type(defs2, x));
            }
        }
    }
    if has_type(defs1, n) {
        let k = choose|k: int| 0 <= k < raws1.len() && (#[trigger] raws1[k]).def_name@ == n;
        assert(raws1.contains(raws1[k]));
        assert(raws2.contains(raws1[k]));
        let j = choose|j: int| 0 <= j < raws2.len() && raws2[j] == raws1[k];
        lemma_type_named(defs1, r1, k);
        lemma_type_named(defs2, r2, j);
        assert(all_known(type_names(defs1), scale_targets(raws1[k])) == all_known(
            type_names(defs2),
            scale_targets(raws1[k]),
        ));
        if type_named(r1, n).is_some() {
            let t1 = type_named(r1, n).unwrap();
            let t2 = type_named(r2, n).unwrap();
            assert forall|i: int| 0 <= i < t1.damage_scales@.len() implies (#[trigger] t1.damage_scales@[i]).damage_scale
                == t2.damage_scales@[i].damage_scale && type_name_at(
                r1,
                t1.damage_scales@[i].target_type@ as int,
            ) == type_name_at(r2, t2.damage_scales@[i].target_type@ as int) by {
                let x = raws1[k].damage_scales@[i].target_type_def_name@;
                assert(type_links(defs1, x) == type_links(defs2, x));
            }
        }
    } else {
        lemma_type_not_named(defs1, r1, n);
        lemma_type_not_named(defs2, r2, n);
    }
}

proof fn lemma_type_not_named(defs: Seq<DefTypes>, r: DefinitionSet, n: Seq<char>)
    requires
        r.built_from(defs),
        !has_type(defs, n),
    ensures
        type_named(r, n).is_none(),
{
    let built = built_type_names(defs);
    assert forall|j: int| 0 <= j < built.len() implies built[j] != Some(n) by {
        if built[j] == Some(n) {
            assert(type_raws(defs)[j].def_name@ == n);
        }
    }
    lemma_last_named_bounds(built, n);
}

/// No two raw moves of `defs` share a name.
pub open spec fn move_names_distinct(defs: Seq<DefTypes>) -> bool {
    forall|i: int, j: int|
        0 <= i < defs.len() && 0 <= j < defs.len() && i != j && defs[i] is MonsterMove
            && defs[j] is MonsterMove ==> (#[trigger] defs[i])->MonsterMove_0.def_name@
            != (#[trigger] defs[j])->MonsterMove_0.def_name@
}

proof fn lemma_linked_move_source(defs: Seq<DefTypes>, names: Seq<Option<Seq<char>>>, k: int)
    requires
        0 <= k < linked_move_raws(defs, names).len(),
    ensures
        exists|j: int|
            0 <= j < defs.len() && #[trigger] defs[j] == DefTypes::MonsterMove(
                linked_move_raws(defs, names)[k],
            ) && move_links(linked_move_raws(defs, names)[k], names),
    decreases defs.len(),
{
    let rest = defs.drop_last();
    let last = defs[defs.len() - 1];
    assert(defs.last() == last);
    if k < linked_move_raws(rest, names).len() {
        assert(linked_move_raws(defs, names)[k] == linked_move_raws(rest, names)[k]);
        lemma_linked_move_source(rest, names, k);
        let j = choose|j: int|
            0 <= j < rest.len() && #[trigger] rest[j] == DefTypes::MonsterMove(
                linked_move_raws(rest, names)[k],
            ) && move_links(linked_move_raws(rest, names)[k], names);
        assert(defs[j] == rest[j]);
    } else {
        assert(defs[defs.len() - 1] == DefTypes::MonsterMove(linked_move_raws(defs, names)[k]));
    }
}

proof fn lemma_move_error_listed(defs: Seq<DefTypes>, names: Seq<Option<Seq<char>>>, i: int)
    requires
        0 <= i < defs.len(),
        defs[i] is MonsterMove,
        !move_links(defs[i]->MonsterMove_0, names),
    ensures
        move_errors(defs, names).contains(move_link_error(defs[i]->MonsterMove_0)),
    decreases defs.len(),
{
    let rest = defs.drop_last();
    let errs = move_errors(defs, names);
    if i < defs.len() - 1 {
        assert(rest[i] == defs[i]);
        lemma_move_error_listed(rest, names, i);
        let k = choose|k: int|
            0 <= k < move_errors(rest, names).len() && move_errors(rest, names)[k] == move_link_error(
                defs[i]->MonsterMove_0,
            );
        assert(errs[k] == move_errors(rest, names)[k]);
    } else {
        assert(errs[errs.len() - 1] == move_link_error(defs[i]->MonsterMove_0));
    }
}

/// A move whose type name leads to no monster type of the finished build is reported,
/// and no record of the move registry carries its name (where move names are
/// distinct); the monsters are built from the finished move registry all the same.
pub proof fn law_unresolved_move_dropped(defs: Seq<DefTypes>, r: DefinitionSet, i: int)
    requires
        r.built_from(defs),
        move_names_distinct(defs),
        0 <= i < defs.len(),
        defs[i] is MonsterMove,
        id_for_name(built_type_names(defs), defs[i]->MonsterMove_0.move_type_def_name@).is_none(),
    ensures
        r.errors@.contains(move_link_error(defs[i]->MonsterMove_0)),
        id_for_name(r.monster_moves.name_seq(), defs[i]->MonsterMove_0.def_name@).is_none(),
{
    let m = defs[i]->MonsterMove_0;
    let tn = built_type_names(defs);
    lemma_move_error_listed(defs, tn, i);
    let k = choose|k: int| 0 <= k < move_errors(defs, tn).len() && move_errors(defs, tn)[k] == move_link_error(m);
    let before = type_errors(defs, type_names(defs));
    assert(r.errors@[before.len() + k] == move_link_error(m));
    let names = r.monster_moves.name_seq();
    let kept = built_move_raws(defs);
    assert forall|q: int| 0 <= q < names.len() implies names[q] != Some(m.def_name@) by {
        lemma_linked_move_source(defs, tn, q);
        let j = choose|j: int|
            0 <= j < defs.len() && #[trigger] defs[j] == DefTypes::MonsterMove(kept[q]) && move_links(
                kept[q],
                tn,
            );
        if j != i {
            assert(defs[j]->MonsterMove_0.def_name@ != defs[i]->MonsterMove_0.def_name@);
        }
        assert(names[q] == move_names(defs)[q]);
    }
    lemma_last_named_bounds(names, m.def_name@);
}

} // verus!
