use abbr::database::{Database, DbOperation, Record};

fn record(origin: &str, alias: &str, mappings: &[(&str, &str)]) -> Record {
    Record {
        origin: origin.to_string(),
        alias: alias.to_string(),
        mappings: mappings.iter().map(|(k, v)| (k.to_string(), v.to_string())).collect(),
    }
}

fn sorted(mappings: &[(String, String)]) -> Vec<(String, String)> {
    let mut pairs = mappings.to_vec();
    pairs.sort();
    pairs
}

fn aliases(db: &Database) -> Vec<String> {
    db.records().iter().map(|r| r.alias.clone()).collect()
}

#[test]
fn new_store_is_empty() {
    assert!(Database::new().records().is_empty());
}

#[test]
fn add_record_appends_in_order() {
    let mut db = Database::new();
    db.add_record(record("echo", "e", &[]));
    db.add_record(record("docker", "dk", &[]));
    db.add_record(record("cargo", "ca", &[]));
    assert_eq!(aliases(&db), vec!["e", "dk", "ca"]);
}

#[test]
fn add_record_replaces_in_place() {
    let mut db = Database::new();
    db.add_record(record("echo", "e", &[]));
    db.add_record(record("docker", "dk", &[]));
    db.add_record(record("cargo", "ca", &[]));
    db.add_record(record("podman", "dk", &[("i", "image")]));
    assert_eq!(aliases(&db), vec!["e", "dk", "ca"]);
    assert_eq!(db.records()[1], record("podman", "dk", &[("i", "image")]));
}

#[test]
fn add_record_twice_changes_nothing_more() {
    let mut db = Database::new();
    db.add_record(record("echo", "e", &[]));
    db.add_record(record("docker", "dk", &[("l", "ls")]));
    let once: Vec<Record> = db.records().to_vec();
    db.add_record(record("docker", "dk", &[("l", "ls")]));
    assert_eq!(db.records(), once.as_slice());
}

#[test]
fn aliases_stay_unique() {
    let mut db = Database::new();
    for alias in ["a", "b", "a", "c", "b", "a", "d", "c"] {
        db.add_record(record("origin", alias, &[]));
    }
    let mut seen = aliases(&db);
    assert_eq!(seen, vec!["a", "b", "c", "d"]);
    seen.dedup();
    assert_eq!(seen.len(), 4);
}

#[test]
fn position_finds_the_first_match() {
    let db = Database::from_records(vec![
        record("one", "x", &[]),
        record("two", "y", &[]),
        record("three", "x", &[]),
    ]);
    assert_eq!(db.position("x"), Some(0));
    assert_eq!(db.position("y"), Some(1));
    assert_eq!(db.position("z"), None);
}

#[test]
fn add_params_merges_and_overwrites() {
    let mut db = Database::new();
    db.add_record(record("docker", "dk", &[("i", "image"), ("l", "ls")]));
    db.add_record(record("cargo", "ca", &[("a", "add")]));
    db.add_params("dk", &[("list", "l"), ("compose", "cmp"), ("container", "cmp")]);
    assert_eq!(db.records()[0].origin, "docker");
    assert_eq!(db.records()[0].alias, "dk");
    assert_eq!(
        sorted(&db.records()[0].mappings),
        sorted(&record("", "", &[("i", "image"), ("l", "list"), ("cmp", "container")]).mappings)
    );
    assert_eq!(db.records()[1], record("cargo", "ca", &[("a", "add")]));
}

#[test]
fn add_params_on_unknown_alias_is_silent() {
    let mut db = Database::new();
    db.add_record(record("docker", "dk", &[("i", "image")]));
    db.add_params("nope", &[("list", "l")]);
    assert_eq!(db.records(), &[record("docker", "dk", &[("i", "image")])]);
}

#[test]
fn add_params_collapses_repeated_keys() {
    let mut db = Database::from_records(vec![record("k", "k", &[("g", "get"), ("g", "describe")])]);
    db.add_params("k", &[]);
    assert_eq!(db.records()[0].mappings, record("", "", &[("g", "describe")]).mappings);
}

#[test]
fn rem_params_removes_named_keys() {
    let mut db = Database::new();
    db.add_record(record("docker", "dk", &[("i", "image"), ("l", "ls"), ("cmp", "compose")]));
    db.rem_params("dk", &["l", "missing", "i"]);
    assert_eq!(db.records(), &[record("docker", "dk", &[("cmp", "compose")])]);
}

#[test]
fn rem_params_on_unknown_alias_is_silent() {
    let mut db = Database::new();
    db.add_record(record("docker", "dk", &[("i", "image")]));
    db.rem_params("nope", &["i"]);
    assert_eq!(db.records(), &[record("docker", "dk", &[("i", "image")])]);
}

#[test]
fn del_record_keeps_the_order_of_the_rest() {
    let mut db = Database::new();
    for alias in ["a", "b", "c", "d"] {
        db.add_record(record("origin", alias, &[]));
    }
    db.del_record("b");
    assert_eq!(aliases(&db), vec!["a", "c", "d"]);
    db.del_record("a");
    assert_eq!(aliases(&db), vec!["c", "d"]);
    db.del_record("d");
    assert_eq!(aliases(&db), vec!["c"]);
}

#[test]
fn del_record_on_unknown_alias_is_silent() {
    let mut db = Database::new();
    db.add_record(record("echo", "e", &[]));
    db.del_record("nope");
    assert_eq!(aliases(&db), vec!["e"]);
}

#[test]
fn swap_remove_moves_the_last_record_in() {
    let mut db = Database::new();
    for alias in ["a", "b", "c", "d"] {
        db.add_record(record("origin", alias, &[]));
    }
    db.swap_remove(1);
    assert_eq!(aliases(&db), vec!["a", "d", "c"]);
    db.swap_remove(2);
    assert_eq!(aliases(&db), vec!["a", "d"]);
}
