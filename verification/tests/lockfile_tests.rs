use nmm_cli::lockfile::{LockProvider, Lockfile, ModLock};
use nmm_cli::provider::Limits;
use nmm_cli::strmap::StrMap;

fn lock(mod_id: i32, file_id: i32, sha: &str) -> ModLock {
    ModLock::new(mod_id, file_id, sha.to_string(), format!("/nix/store/{sha}"))
}

#[test]
fn modlock_new_keeps_fields() {
    let m = ModLock::new(112, 7364, "abc".to_string(), "/nix/store/x".to_string());
    assert_eq!(m.mod_id, 112);
    assert_eq!(m.file_id, 7364);
    assert_eq!(m.sha, "abc");
    assert_eq!(m.store_path, "/nix/store/x");
    let c = m.clone();
    assert_eq!(c.mod_id, 112);
    assert_eq!(c.sha, "abc");
}

#[test]
fn limits_default_values() {
    let l = Limits::default();
    assert_eq!(l, Limits { limit: 2500, remaining: 2500, reset: usize::MAX });
}

#[test]
fn new_lockfile_has_empty_nexus_provider() {
    let lf = Lockfile::new();
    assert_eq!(lf.revision, 0);
    assert_eq!(lf.providers.entries().len(), 1);
    let p = lf.get_provider("nexus").expect("nexus provider");
    assert_eq!(p.name, "");
    assert!(p.mods.entries().is_empty());
    assert_eq!(p.limits, Limits::default());
    assert!(lf.get_provider("other").is_none());
}

#[test]
fn add_mod_then_lookup() {
    let mut lf = Lockfile::new();
    assert_eq!(lf.add_mod("nexus", lock(112, 7364, "h1")), Ok(()));
    let m = lf.get_mod_id("nexus", "112", "7364").expect("entry");
    assert_eq!(m.sha, "h1");
    assert_eq!(m.store_path, "/nix/store/h1");
    assert!(lf.get_mod_id("nexus", "112", "7365").is_none());
    assert!(lf.get_mod_id("nexus", "113", "7364").is_none());
    assert!(lf.get_mod_id("other", "112", "7364").is_none());
}

#[test]
fn add_mod_negative_ids_use_decimal_keys() {
    let mut lf = Lockfile::new();
    lf.add_mod("nexus", lock(-5, -2147483648, "neg")).unwrap();
    assert!(lf.get_mod_id("nexus", "-5", "-2147483648").is_some());
}

#[test]
fn add_mod_to_new_provider_creates_unnamed_record() {
    let mut lf = Lockfile::new();
    lf.add_mod("thunderstore", lock(1, 2, "t")).unwrap();
    let p = lf.get_provider("thunderstore").expect("created");
    assert_eq!(p.name, "");
    assert_eq!(p.limits, Limits::default());
    assert!(lf.get_mod_id("thunderstore", "1", "2").is_some());
    assert_eq!(lf.providers.entries().len(), 2);
}

#[test]
fn add_mod_replaces_same_ids() {
    let mut lf = Lockfile::new();
    lf.add_mod("nexus", lock(1, 2, "old")).unwrap();
    lf.add_mod("nexus", lock(1, 2, "new")).unwrap();
    assert_eq!(lf.get_mod_id("nexus", "1", "2").unwrap().sha, "new");
    let p = lf.get_provider("nexus").unwrap();
    assert_eq!(p.mods.entries().len(), 1);
    assert_eq!(p.mods.get("1").unwrap().entries().len(), 1);
}

#[test]
fn add_mod_twice_is_same_as_once() {
    let mut a = Lockfile::new();
    a.add_mod("nexus", lock(3, 4, "x")).unwrap();
    a.add_mod("nexus", lock(3, 4, "x")).unwrap();
    let p = a.get_provider("nexus").unwrap();
    assert_eq!(p.mods.entries().len(), 1);
    assert_eq!(p.mods.get("3").unwrap().entries().len(), 1);
    assert_eq!(a.get_mod_id("nexus", "3", "4").unwrap().sha, "x");
}

#[test]
fn add_mod_keeps_other_files() {
    let mut lf = Lockfile::new();
    lf.add_mod("nexus", lock(1, 2, "a")).unwrap();
    lf.add_mod("nexus", lock(1, 3, "b")).unwrap();
    lf.add_mod("nexus", lock(12, 3, "c")).unwrap();
    assert_eq!(lf.get_mod_id("nexus", "1", "2").unwrap().sha, "a");
    assert_eq!(lf.get_mod_id("nexus", "1", "3").unwrap().sha, "b");
    assert_eq!(lf.get_mod_id("nexus", "12", "3").unwrap().sha, "c");
}

#[test]
fn remove_fileid_after_add() {
    let mut lf = Lockfile::new();
    lf.add_mod("nexus", lock(112, 7364, "h")).unwrap();
    assert_eq!(lf.remove_fileid("112", "7364"), Ok(()));
    assert!(lf.get_mod_id("nexus", "112", "7364").is_none());
    // the mod key stays, with no files
    let p = lf.get_provider("nexus").unwrap();
    assert!(p.mods.get("112").unwrap().entries().is_empty());
    // a second removal finds nothing
    assert_eq!(lf.remove_fileid("112", "7364"), Err(()));
}

#[test]
fn remove_fileid_restores_previous_state() {
    let mut lf = Lockfile::new();
    lf.add_mod("nexus", lock(1, 1, "keep")).unwrap();
    lf.add_mod("nexus", lock(1, 2, "tmp")).unwrap();
    lf.remove_fileid("1", "2").unwrap();
    let p = lf.get_provider("nexus").unwrap();
    let files = p.mods.get("1").unwrap();
    assert_eq!(files.entries().len(), 1);
    assert_eq!(files.get("1").unwrap().sha, "keep");
}

#[test]
fn remove_fileid_without_nexus_provider_fails() {
    let mut lf = Lockfile { revision: 7, providers: StrMap::new() };
    assert_eq!(lf.remove_fileid("1", "2"), Err(()));
    assert_eq!(lf.revision, 7);
    assert!(lf.providers.entries().is_empty());
}

#[test]
fn remove_fileid_only_acts_on_nexus() {
    let mut lf = Lockfile::new();
    lf.add_mod("other", lock(1, 2, "o")).unwrap();
    lf.add_mod("nexus", lock(1, 5, "n")).unwrap();
    assert_eq!(lf.remove_fileid("1", "2"), Err(()));
    assert!(lf.get_mod_id("other", "1", "2").is_some());
}

#[test]
fn provider_remove_modlock_by_fileid() {
    let mut p = LockProvider::default();
    p.insert_modlock(lock(10, 20, "s")).unwrap();
    assert_eq!(p.remove_modlock_by_fileid("10", "21"), Err(()));
    assert_eq!(p.remove_modlock_by_fileid("10", "20"), Ok(()));
    assert!(p.mods.get("10").unwrap().get("20").is_none());
}

#[test]
fn provider_insert_keeps_name_and_limits() {
    let mut p = LockProvider {
        name: "nexus".to_string(),
        mods: StrMap::new(),
        limits: Limits { limit: 1, remaining: 0, reset: 9 },
    };
    assert_eq!(p.insert_modlock(lock(5, 6, "z")), Ok(()));
    assert_eq!(p.name, "nexus");
    assert_eq!(p.limits, Limits { limit: 1, remaining: 0, reset: 9 });
    assert_eq!(p.mods.get("5").unwrap().get("6").unwrap().sha, "z");
}
