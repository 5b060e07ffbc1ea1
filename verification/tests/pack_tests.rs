use lazy_modman_cli::mod_entry::ModEntry;
use lazy_modman_cli::modpack::{MetadataRun, Modpack};

fn e(id: &str, name: &str) -> ModEntry {
    ModEntry { id: Some(id.to_string()), name: Some(name.to_string()), ..ModEntry::default() }
}

fn pack(mods: Vec<ModEntry>) -> Modpack {
    Modpack { name: "qol".to_string(), loader: "fabric".to_string(), mods, version: None }
}

#[test]
fn purge_keeps_first_of_each_id() {
    let mut p = pack(vec![e("a", "1"), e("b", "2"), e("a", "3"), e("c", "4"), e("b", "5")]);
    p.purge_duplicates();
    assert_eq!(p.mods, vec![e("a", "1"), e("b", "2"), e("c", "4")]);
    assert_eq!(p.name, "qol");
    assert_eq!(p.loader, "fabric");
}

#[test]
fn purge_twice_is_purge_once() {
    let mut p = pack(vec![e("a", "1"), e("a", "2"), e("b", "3")]);
    p.purge_duplicates();
    let once = p.clone();
    p.purge_duplicates();
    assert_eq!(p, once);
}

#[test]
fn purge_of_distinct_is_identity() {
    let mut p = pack(vec![e("a", "1"), e("b", "2")]);
    p.purge_duplicates();
    assert_eq!(p.mods, vec![e("a", "1"), e("b", "2")]);
    let mut q = pack(vec![]);
    q.purge_duplicates();
    assert!(q.mods.is_empty());
}

#[test]
fn round_spawns_only_unknown_dependencies() {
    let originals = vec![e("iris", ""), e("sodium", "")];
    let mut run = MetadataRun::new(&originals);
    assert_eq!(run.processed_count(), 0);
    assert_eq!(run.pending_count(), 2);
    assert!(run.is_pending(&Some("iris".to_string())));
    assert!(!run.is_pending(&Some("indium".to_string())));
    let spawn = run.on_result(
        e("iris", "Iris"),
        vec![e("sodium", ""), e("fabric-api", ""), e("iris", ""), e("fabric-api", "")],
    );
    assert_eq!(spawn, vec![e("fabric-api", ""), e("fabric-api", "")]);
    assert_eq!(run.processed_count(), 1);
    assert_eq!(run.pending_count(), 3);
    let spawn = run.on_result(e("fabric-api", "API"), vec![e("fabric-api", ""), e("indium", "")]);
    assert_eq!(spawn, vec![e("indium", "")]);
    assert_eq!(run.pending_count(), 3);
    let spawn = run.on_result(e("fabric-api", "API"), vec![]);
    assert!(spawn.is_empty());
    assert!(!run.is_pending(&Some("fabric-api".to_string())));
    let spawn = run.on_result(e("indium", "Indium"), vec![e("sodium", "")]);
    assert!(spawn.is_empty());
    let spawn = run.on_result(e("sodium", "Sodium"), vec![]);
    assert!(spawn.is_empty());
    assert_eq!(run.pending_count(), 0);
    let mut p = pack(originals);
    p.finish_metadata(run);
    assert_eq!(
        p.mods,
        vec![e("iris", "Iris"), e("fabric-api", "API"), e("indium", "Indium"), e("sodium", "Sodium")]
    );
    assert_eq!(p.name, "qol");
}

#[test]
fn round_keeps_mods_whose_request_failed() {
    let originals = vec![e("gone", "")];
    let mut run = MetadataRun::new(&originals);
    let spawn = run.on_result(e("gone", ""), vec![]);
    assert!(spawn.is_empty());
    let mut p = pack(originals);
    p.finish_metadata(run);
    assert_eq!(p.mods, vec![e("gone", "")]);
}

#[test]
fn pack_duplicate_is_equal() {
    let p = pack(vec![e("a", "1")]);
    assert_eq!(p.duplicate(), p);
}
