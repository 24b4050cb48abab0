use std::marker::PhantomData;
use vstd::prelude::*;

verus! {

/// A record that can be stored in a [`DefDatabase`]: it reports the name it is known by.
pub trait Definition {
    /// The record's name as a sequence of characters.
    ///
    /// Every record type of this crate states it. The default exists only because a
    /// trait's spec function without a body stays a required method in compiled code,
    /// which record types written outside verified code (tests, callers) could not
    /// provide; nothing is proved about such types.
    closed spec fn def_name(&self) -> Seq<char> {
        Seq::empty()
    }

    fn get_def_name(&self) -> (r: &str)
        ensures
            r@ == self.def_name(),
    ;
}

/// An identifier of a record of category `T`, issued by a `DefDatabase<T>`.
///
/// Identifiers of different categories have different types, so they cannot be mixed up.
#[derive(Debug)]
pub struct DefId<TDef> {
    id: u64,
    _phantom: PhantomData<TDef>,
}

impl<TDef> View for DefId<TDef> {
    type V = u64;

    closed spec fn view(&self) -> u64 {
        self.id
    }
}

impl<TDef> DefId<TDef> {
    pub fn new(id: u64) -> (r: Self)
        ensures
            r@ == id,
    {
        DefId { id, _phantom: PhantomData }
    }
}

impl<TDef> DefId<TDef> {
    /// The identifier's number.
    pub fn get(&self) -> (r: u64)
        ensures
            r == self@,
    {
        self.id
    }
}

impl<TDef> Clone for DefId<TDef> {
    fn clone(&self) -> (r: Self)
        ensures
            r@ == self@,
    {
        DefId::new(self.id)
    }
}

impl<TDef> Copy for DefId<TDef> {

}

impl<TDef> PartialEq for DefId<TDef> {
    fn eq(&self, other: &Self) -> (r: bool) {
        self.id == other.id
    }
}

impl<TDef> vstd::std_specs::cmp::PartialEqSpecImpl for DefId<TDef> {
    open spec fn obeys_eq_spec() -> bool {
        true
    }

    open spec fn eq_spec(&self, other: &Self) -> bool {
        self@ == other@
    }
}

impl<TDef> Eq for DefId<TDef> {

}

impl<TDef> core::hash::Hash for DefId<TDef> {
    /// Relies on `u64`'s `Hash`: an identifier hashes as its number, so it agrees with `==`.
    #[verifier::external_body]
    fn hash<H: core::hash::Hasher>(&self, state: &mut H) {
        self.id.hash(state);
    }
}

/// A stored record together with the identifier it was issued.
pub struct DefInfo<T> {
    pub id: DefId<T>,
    pub definition: T,
}

impl<T: Definition> Definition for DefInfo<T> {
    open spec fn def_name(&self) -> Seq<char> {
        self.definition.def_name()
    }

    fn get_def_name(&self) -> (r: &str) {
        self.definition.get_def_name()
    }
}

/// The names of a registry's slots, in identifier order (`None` for an emptied slot).
pub open spec fn names_of<T: Definition>(slots: Seq<Option<T>>) -> Seq<Option<Seq<char>>> {
    slots.map_values(
        |s: Option<T>|
            match s {
                Some(t) => Some(t.def_name()),
                None => None,
            },
    )
}

/// Every record present, in order.
pub open spec fn present<T>(records: Seq<T>) -> Seq<Option<T>> {
    records.map_values(|t: T| Some(t))
}

/// The position of the last slot named `n`, or -1 where there is none.
pub open spec fn last_named(names: Seq<Option<Seq<char>>>, n: Seq<char>) -> int
    decreases names.len(),
{
    if names.len() == 0 {
        -1
    } else if names.last() == Some(n) {
        names.len() - 1
    } else {
        last_named(names.drop_last(), n)
    }
}

/// The identifier that a registry whose slots carry `names` (in identifier order)
/// gives to the name `n`: the one of the last record so named.
pub open spec fn id_for_name(names: Seq<Option<Seq<char>>>, n: Seq<char>) -> Option<int> {
    if last_named(names, n) >= 0 {
        Some(last_named(names, n) + 1)
    } else {
        None
    }
}

/// The record that a registry with `slots` (in identifier order) stores under `id`.
pub open spec fn record_for_id<T>(slots: Seq<Option<T>>, id: int) -> Option<T> {
    if 1 <= id && id <= slots.len() {
        slots[id - 1]
    } else {
        None
    }
}

/// How many slots hold a record.
pub open spec fn live_count<T>(slots: Seq<Option<T>>) -> nat
    decreases slots.len(),
{
    if slots.len() == 0 {
        0
    } else {
        live_count(slots.drop_last()) + if slots.last().is_some() {
            1nat
        } else {
            0nat
        }
    }
}

pub proof fn lemma_live_count_bound<T>(slots: Seq<Option<T>>)
    ensures
        live_count(slots) <= slots.len(),
    decreases slots.len(),
{
    if slots.len() > 0 {
        lemma_live_count_bound(slots.drop_last());
    }
}

/// Setting one slot changes the count by what leaves and what comes.
pub proof fn lemma_live_count_update<T>(slots: Seq<Option<T>>, i: int, x: Option<T>)
    requires
        0 <= i < slots.len(),
    ensures
        live_count(slots.update(i, x)) + (if slots[i].is_some() {
            1int
        } else {
            0int
        }) == live_count(slots) + (if x.is_some() {
            1int
        } else {
            0int
        }),
    decreases slots.len(),
{
    let after = slots.update(i, x);
    if i < slots.len() - 1 {
        assert(after.drop_last() =~= slots.drop_last().update(i, x));
        lemma_live_count_update(slots.drop_last(), i, x);
    } else {
        assert(after.drop_last() =~= slots.drop_last());
    }
}

/// With every record present, the count is the number of records.
pub proof fn lemma_live_count_present<T>(records: Seq<T>)
    ensures
        live_count(present(records)) == records.len(),
    decreases records.len(),
{
    if records.len() > 0 {
        assert(present(records).drop_last() =~= present(records.drop_last()));
        lemma_live_count_present(records.drop_last());
    }
}

pub proof fn lemma_last_named_bounds(names: Seq<Option<Seq<char>>>, n: Seq<char>)
    ensures
        -1 <= last_named(names, n) < names.len(),
        last_named(names, n) >= 0 ==> names[last_named(names, n)] == Some(n),
        last_named(names, n) == -1 <==> !names.contains(Some(n)),
        forall|j: int| last_named(names, n) < j < names.len() ==> names[j] != Some(n),
    decreases names.len(),
{
    if names.len() > 0 {
        let prefix = names.drop_last();
        lemma_last_named_bounds(prefix, n);
        if names.last() != Some(n) {
            if prefix.contains(Some(n)) {
                let j = choose|j: int| 0 <= j < prefix.len() && prefix[j] == Some(n);
                assert(names[j] == Some(n));
            }
            if names.contains(Some(n)) {
                let j = choose|j: int| 0 <= j < names.len() && names[j] == Some(n);
                assert(prefix[j] == Some(n));
            }
            assert forall|j: int| last_named(names, n) < j < names.len() implies names[j] != Some(n) by {
                if j < prefix.len() {
                    assert(prefix[j] == names[j]);
                }
            }
        } else {
            assert(names[names.len() - 1] == Some(n));
        }
    }
}

/// The last slot named `n` is the one that `last_named` finds.
pub proof fn lemma_last_named_unique(names: Seq<Option<Seq<char>>>, n: Seq<char>, p: int)
    requires
        0 <= p < names.len(),
        names[p] == Some(n),
        forall|j: int| p < j < names.len() ==> names[j] != Some(n),
    ensures
        last_named(names, n) == p,
{
    lemma_last_named_bounds(names, n);
    assert(names.contains(Some(n)));
}

/// A registry: the records of one category, indexed by identifier and by name.
///
/// Identifiers are issued in order from 1 and never reused; the slot with identifier
/// `k` holds the `k`-th record inserted, unless it was removed. A name leads to the
/// last record present under it.
pub struct DefDatabase<T: Definition> {
    entries: Vec<Option<DefInfo<T>>>,
    names: Vec<String>,
    live: usize,
}

impl<T: Definition> View for DefDatabase<T> {
    type V = Seq<Option<T>>;

    /// The slots in identifier order.
    closed spec fn view(&self) -> Seq<Option<T>> {
        self.entries@.map_values(
            |e: Option<DefInfo<T>>|
                match e {
                    Some(info) => Some(info.definition),
                    None => None,
                },
        )
    }
}

impl<T: Definition> DefDatabase<T> {
    /// Each present entry carries the identifier of its slot and the name of its record;
    /// `live` counts the present entries.
    pub closed spec fn well_formed(&self) -> bool {
        &&& self.names@.len() == self.entries@.len()
        &&& self.entries@.len() <= u64::MAX
        &&& self.live == live_count(self@)
        &&& forall|i: int|
            #![trigger self.entries@[i]]
            0 <= i < self.entries@.len() && self.entries@[i].is_some() ==> self.entries@[i].unwrap().id@
                == i + 1 && self.names@[i]@ == self.entries@[i].unwrap().definition.def_name()
    }

    /// The names of the slots, in identifier order.
    pub open spec fn name_seq(&self) -> Seq<Option<Seq<char>>> {
        names_of(self@)
    }

    pub fn new() -> (r: Self)
        ensures
            r.well_formed(),
            r@ == Seq::<Option<T>>::empty(),
    {
        let r = DefDatabase { entries: Vec::new(), names: Vec::new(), live: 0 };
        assert(r@ =~= Seq::<Option<T>>::empty());
        r
    }

    pub fn get_by_id(&self, id: &DefId<T>) -> (r: Option<&T>)
        requires
            self.well_formed(),
        ensures
            r.is_some() == record_for_id(self@, id@ as int).is_some(),
            r.is_some() ==> *r.unwrap() == record_for_id(self@, id@ as int).unwrap(),
    {
        if id.id >= 1 && id.id - 1 < self.entries.len() as u64 {
            let i = (id.id - 1) as usize;
            match &self.entries[i] {
                Some(info) => Some(&info.definition),
                None => None,
            }
        } else {
            None
        }
    }

    pub fn get_def_id(&self, name: &str) -> (r: Option<DefId<T>>)
        requires
            self.well_formed(),
        ensures
            r.is_some() == id_for_name(self.name_seq(), name@).is_some(),
            r.is_some() ==> r.unwrap()@ == id_for_name(self.name_seq(), name@).unwrap(),
    {
        let wanted = name.to_owned();
        let mut i: usize = self.names.len();
        proof {
            assert(self.name_seq().take(i as int) =~= self.name_seq());
        }
        while i > 0
            invariant
                i <= self.names@.len(),
                self.well_formed(),
                wanted@ == name@,
                last_named(self.name_seq(), name@) == last_named(self.name_seq().take(i as int), name@),
            decreases i,
        {
            let ghost prefix = self.name_seq().take(i as int);
            assert(prefix.drop_last() =~= self.name_seq().take(i - 1));
            let found = match &self.entries[i - 1] {
                Some(_) => self.names[i - 1] == wanted,
                None => false,
            };
            assert(found == (prefix.last() == Some(name@)));
            if found {
                proof {
                    lemma_last_named_bounds(self.name_seq(), name@);
                }
                return Some(DefId::new(i as u64));
            }
            i = i - 1;
        }
        proof {
            assert(self.name_seq().take(0) =~= Seq::<Option<Seq<char>>>::empty());
        }
        None
    }

    /// Stores `value` under the next identifier and returns that identifier.
    pub fn insert(&mut self, value: T) -> (id: DefId<T>)
        requires
            old(self).well_formed(),
            old(self)@.len() < u64::MAX,
        ensures
            final(self).well_formed(),
            final(self)@ == old(self)@.push(Some(value)),
            id@ == old(self)@.len() + 1,
    {
        let key = value.get_def_name().to_owned();
        let next = self.entries.len() as u64 + 1;
        let info = DefInfo { id: DefId::new(next), definition: value };
        proof {
            lemma_live_count_bound(self@);
        }
        self.entries.push(Some(info));
        self.names.push(key);
        proof {
            assert(self@ =~= old(self)@.push(Some(value)));
            assert(self@.drop_last() =~= old(self)@);
        }
        let count = self.entries.len();
        assert(self.live < count);
        self.live = self.live + 1;
        DefId::new(next)
    }

    /// Puts `value` in place of the record that its name leads to; the identifier stays.
    pub fn replace(&mut self, value: T)
        requires
            old(self).well_formed(),
            id_for_name(old(self).name_seq(), value.def_name()).is_some(),
        ensures
            final(self).well_formed(),
            final(self)@ == old(self)@.update(
                id_for_name(old(self).name_seq(), value.def_name()).unwrap() - 1,
                Some(value),
            ),
            final(self).name_seq() == old(self).name_seq(),
    {
        let ghost names = self.name_seq();
        let existing = self.get_def_id(value.get_def_name()).unwrap();
        proof {
            lemma_last_named_bounds(names, value.def_name());
        }
        let stored = self.entries.len();
        assert(existing.id - 1 < stored);
        let idx = (existing.id - 1) as usize;
        let ghost k = idx as int;
        assert(names[k] == Some(value.def_name()));
        let info = DefInfo { id: existing, definition: value };
        self.entries.set(idx, Some(info));
        proof {
            assert(self.entries@ == old(self).entries@.update(k, Some(info)));
            assert(self@ =~= old(self)@.update(k, Some(value)));
            lemma_live_count_update(old(self)@, k, Some(value));
            assert forall|i: int| 0 <= i < names.len() implies #[trigger] self.name_seq()[i] == names[i] by {
                if i != k {
                    assert(self@[i] == old(self)@[i]);
                }
            }
            assert(self.name_seq() =~= names);
        }
    }

    /// Empties the slot of `id`, if there is one; every other identifier keeps its record.
    pub fn remove(&mut self, id: &DefId<T>)
        requires
            old(self).well_formed(),
        ensures
            final(self).well_formed(),
            final(self)@ == if 1 <= id@ && id@ <= old(self)@.len() {
                old(self)@.update(id@ - 1, None)
            } else {
                old(self)@
            },
    {
        if id.id >= 1 && id.id - 1 < self.entries.len() as u64 {
            let i = (id.id - 1) as usize;
            let was_present = self.entries[i].is_some();
            self.entries.set(i, None);
            proof {
                assert(self@ =~= old(self)@.update(i as int, None));
                lemma_live_count_update(old(self)@, i as int, None);
                lemma_live_count_bound(old(self)@);
            }
            if was_present {
                self.live = self.live - 1;
            }
        }
    }

    /// The number of records present.
    pub fn len(&self) -> (r: usize)
        requires
            self.well_formed(),
        ensures
            r == live_count(self@),
    {
        self.live
    }

    /// A registry holding `records`, inserted in order.
    pub fn from_records(records: Vec<T>) -> (r: Self)
        ensures
            r.well_formed(),
            r@ == present(records@),
    {
        let mut db = Self::new();
        let total = records.len();
        for item in it: records.into_iter()
            invariant
                total == records@.len(),
                db.well_formed(),
                it.seq() == records@,
                db@ == present(records@.take(it.index() as int)),
        {
            proof {
                assert(present(records@.take(it.index() + 1)) =~= present(
                    records@.take(it.index() as int),
                ).push(Some(item)));
            }
            db.insert(item);
        }
        proof {
            assert(records@.take(records@.len() as int) =~= records@);
        }
        db
    }
}

/// A registry filled by insertions into an empty one holds its records in insertion
/// order, so the `k`-th insertion is issued identifier `k`: identifiers start at 1 and
/// increase strictly, and each leads to the record inserted with it.
pub proof fn law_ids_follow_insertion_order<T>(records: Seq<T>, k: int)
    requires
        0 <= k < records.len(),
    ensures
        record_for_id(present(records), k + 1) == Some(records[k]),
        record_for_id(present(records), 0).is_none(),
{
}

/// Inserting issues the identifier after every identifier issued before (replaced
/// and removed ones included); it leads to the inserted record, and every other
/// identifier keeps its record.
pub proof fn law_insert_issues_next_id<T>(before: Seq<Option<T>>, value: T)
    ensures
        forall|id: int| #[trigger]
            record_for_id(before, id).is_some() ==> 1 <= id < before.len() + 1,
        record_for_id(before.push(Some(value)), before.len() + 1int) == Some(value),
        forall|id: int|
            id != before.len() + 1 ==> #[trigger] record_for_id(before.push(Some(value)), id)
                == record_for_id(before, id),
{
}

/// Right after a record is inserted, looking up its name gives the identifier that
/// the insertion issued.
pub proof fn law_name_leads_to_inserted<T: Definition>(before: Seq<Option<T>>, value: T)
    ensures
        id_for_name(names_of(before.push(Some(value))), value.def_name()) == Some(
            before.len() + 1int,
        ),
{
    assert(names_of(before.push(Some(value))).drop_last() =~= names_of(before));
}

/// Replacing a record by name keeps every name's identifier, puts the new record
/// under the identifier of its name, and leaves every other identifier's record.
pub proof fn law_replace_keeps_identifiers<T: Definition>(before: Seq<Option<T>>, value: T)
    requires
        id_for_name(names_of(before), value.def_name()).is_some(),
    ensures
        ({
            let id = id_for_name(names_of(before), value.def_name()).unwrap();
            let after = before.update(id - 1, Some(value));
            &&& forall|n: Seq<char>|
                #[trigger] id_for_name(names_of(after), n) == id_for_name(names_of(before), n)
            &&& record_for_id(after, id) == Some(value)
            &&& forall|other: int|
                other != id ==> #[trigger] record_for_id(after, other) == record_for_id(
                    before,
                    other,
                )
        }),
{
    let names = names_of(before);
    let id = id_for_name(names, value.def_name()).unwrap();
    lemma_last_named_bounds(names, value.def_name());
    let after = before.update(id - 1, Some(value));
    assert(names_of(after) =~= names);
}

/// An identifier that a registry gives to a name leads to a record of that name.
pub proof fn law_found_id_is_present<T: Definition>(slots: Seq<Option<T>>, n: Seq<char>)
    requires
        id_for_name(names_of(slots), n).is_some(),
    ensures
        record_for_id(slots, id_for_name(names_of(slots), n).unwrap()).is_some(),
        record_for_id(slots, id_for_name(names_of(slots), n).unwrap()).unwrap().def_name() == n,
{
    let names = names_of(slots);
    lemma_last_named_bounds(names, n);
    let p = last_named(names, n);
    assert(names[p] == Some(n));
}

} // verus!
