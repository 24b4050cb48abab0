use monster_defs::def_database::{DefDatabase, DefId, Definition};

#[derive(Debug)]
struct SimpleTestDef {
    name: String,
    value: u32,
}

impl Definition for SimpleTestDef {
    fn get_def_name(&self) -> &str {
        &self.name
    }
}

fn def(name: &str, value: u32) -> SimpleTestDef {
    SimpleTestDef { name: name.to_string(), value }
}

#[test]
fn insert_and_get() {
    let mut db = DefDatabase::<SimpleTestDef>::new();
    db.insert(SimpleTestDef { name: "test".to_string(), value: 42 });
    let id = db.get_def_id("test").unwrap();
    let def = db.get_by_id(&id).unwrap();
    assert_eq!(def.name, "test");
    assert_eq!(def.value, 42);
}

#[test]
fn replace() {
    let mut db = DefDatabase::<SimpleTestDef>::new();
    db.insert(SimpleTestDef { name: "test".to_string(), value: 42 });
    let id = db.get_def_id("test").unwrap();
    let def = db.get_by_id(&id).unwrap();
    assert_eq!(def.name, "test");
    assert_eq!(def.value, 42);
    db.replace(SimpleTestDef { name: "test".to_string(), value: 43 });
    let def = db.get_by_id(&id).unwrap();
    assert_eq!(def.name, "test");
    assert_eq!(def.value, 43);
}

#[test]
fn ids_start_at_one_and_increase() {
    let mut db = DefDatabase::<SimpleTestDef>::new();
    let names = ["a", "b", "c", "d"];
    for (k, name) in names.iter().enumerate() {
        let id = db.insert(def(name, k as u32));
        assert_eq!(id, DefId::new(k as u64 + 1));
        assert_eq!(db.get_by_id(&id).unwrap().value, k as u32);
        assert_eq!(db.get_by_id(&id).unwrap().name, *name);
    }
    assert_eq!(db.len(), 4);
}

#[test]
fn lookup_by_name_right_after_insert() {
    let mut db = DefDatabase::<SimpleTestDef>::new();
    for name in ["x", "y", "z"] {
        let id = db.insert(def(name, 0));
        assert_eq!(db.get_def_id(name), Some(id));
    }
}

#[test]
fn replace_keeps_every_identifier() {
    let mut db = DefDatabase::<SimpleTestDef>::new();
    let a = db.insert(def("A", 1));
    let b = db.insert(def("B", 2));
    let c = db.insert(def("C", 3));
    db.replace(def("B", 20));
    assert_eq!(db.get_def_id("A"), Some(a));
    assert_eq!(db.get_def_id("B"), Some(b));
    assert_eq!(db.get_def_id("C"), Some(c));
    assert_eq!(db.get_by_id(&a).unwrap().value, 1);
    assert_eq!(db.get_by_id(&b).unwrap().value, 20);
    assert_eq!(db.get_by_id(&c).unwrap().value, 3);
    assert_eq!(db.len(), 3);
}

#[test]
fn empty_registry_finds_nothing() {
    let db = DefDatabase::<SimpleTestDef>::new();
    assert_eq!(db.len(), 0);
    assert!(db.get_def_id("anything").is_none());
    assert!(db.get_by_id(&DefId::new(0)).is_none());
    assert!(db.get_by_id(&DefId::new(1)).is_none());
}

#[test]
fn unknown_ids_find_nothing() {
    let mut db = DefDatabase::<SimpleTestDef>::new();
    db.insert(def("A", 1));
    assert!(db.get_by_id(&DefId::new(0)).is_none());
    assert!(db.get_by_id(&DefId::new(2)).is_none());
    assert!(db.get_by_id(&DefId::new(u64::MAX)).is_none());
}

#[test]
fn duplicate_name_leads_to_last_insert() {
    let mut db = DefDatabase::<SimpleTestDef>::new();
    let first = db.insert(def("dup", 1));
    let second = db.insert(def("dup", 2));
    assert_eq!(db.get_def_id("dup"), Some(second));
    assert_eq!(db.get_by_id(&first).unwrap().value, 1);
    assert_eq!(db.get_by_id(&second).unwrap().value, 2);
    assert_eq!(db.len(), 2);
    db.replace(def("dup", 3));
    assert_eq!(db.get_by_id(&first).unwrap().value, 1);
    assert_eq!(db.get_by_id(&second).unwrap().value, 3);
}

#[test]
fn from_records_inserts_in_order() {
    let db = DefDatabase::from_records(vec![def("p", 7), def("q", 8)]);
    assert_eq!(db.len(), 2);
    assert_eq!(db.get_def_id("p"), Some(DefId::new(1)));
    assert_eq!(db.get_def_id("q"), Some(DefId::new(2)));
    assert_eq!(db.get_by_id(&DefId::new(2)).unwrap().value, 8);
}

#[test]
fn ids_compare_by_number() {
    let one: DefId<SimpleTestDef> = DefId::new(1);
    let also_one: DefId<SimpleTestDef> = DefId::new(1);
    let two: DefId<SimpleTestDef> = DefId::new(2);
    assert_eq!(one, also_one);
    assert_ne!(one, two);
    let copied = one;
    assert_eq!(copied.clone(), one);
}

#[test]
fn remove_empties_one_slot() {
    let mut db = DefDatabase::<SimpleTestDef>::new();
    let a = db.insert(def("A", 1));
    let b = db.insert(def("B", 2));
    db.remove(&a);
    assert!(db.get_by_id(&a).is_none());
    assert!(db.get_def_id("A").is_none());
    assert_eq!(db.get_def_id("B"), Some(b));
    assert_eq!(db.get_by_id(&b).unwrap().value, 2);
    assert_eq!(db.len(), 1);
    db.remove(&a);
    db.remove(&DefId::new(9));
    assert_eq!(db.len(), 1);
    let c = db.insert(def("A", 3));
    assert_eq!(c, DefId::new(3));
    assert_eq!(c.get(), 3);
    assert_eq!(db.get_def_id("A"), Some(c));
}

#[test]
fn removing_the_last_of_a_name_uncovers_an_earlier_one() {
    let mut db = DefDatabase::<SimpleTestDef>::new();
    let first = db.insert(def("dup", 1));
    let second = db.insert(def("dup", 2));
    db.remove(&second);
    assert_eq!(db.get_def_id("dup"), Some(first));
}
