use patch_mirror::asset::{Asset, AssetList};
use patch_mirror::revision::LocalRevision;
use patch_mirror::serve::{
    file_response_plan, mirror_auth, mirror_file_plan, parse_ipv4, revisions_json, ConnectionAddr,
    MirrorAuth,
};
use patch_mirror::store::RevisionStore;

fn asset(name: &str, crc: u64, size: u64) -> Asset {
    Asset {
        filename: name.to_string(),
        file_type: String::new(),
        size,
        header_size: 0,
        compressed_header_size: 0,
        crc,
        header_crc: 0,
    }
}

fn revision(name: &str, assets: Vec<Asset>) -> LocalRevision {
    LocalRevision::new(name, "data", AssetList { wads: assets, utils: Vec::new() }).unwrap()
}

#[test]
fn test_store_insert_sorted_and_newest() {
    let mut store = RevisionStore::new();
    store.insert(revision("V_r200.Wizard_X", Vec::new()));
    store.insert(revision("V_r100.Wizard_X", Vec::new()));
    store.insert(revision("V_r300.Wizard_X", Vec::new()));
    let names = store.revision_names();
    assert_eq!(names, vec!["V_r100.Wizard_X", "V_r200.Wizard_X", "V_r300.Wizard_X"]);
    assert_eq!(store.newest().unwrap().name, "V_r300.Wizard_X");
}

#[test]
fn test_store_insert_replaces_same_number() {
    let mut store = RevisionStore::new();
    store.insert(revision("V_r100.Wizard_X", Vec::new()));
    store.insert(revision("V_r100.Wizard_X", vec![asset("f1", 1, 10)]));
    assert_eq!(store.revision_names().len(), 1);
    assert_eq!(store.newest().unwrap().assets.wads.len(), 1);
}

#[test]
fn test_find_revision_for_asset_prefers_oldest_copy() {
    // two revisions share one identical asset content: the older physical
    // copy answers
    let mut store = RevisionStore::new();
    store.insert(revision("V_r100.Wizard_X", vec![asset("f1", 1, 10)]));
    store.insert(revision("V_r200.Wizard_X", vec![asset("f1", 1, 10), asset("f2", 2, 20)]));
    let resolved = store
        .find_revision_for_asset("V_r200.Wizard_X", "f1")
        .unwrap();
    assert_eq!(resolved, "V_r100.Wizard_X");
    let resolved = store
        .find_revision_for_asset("V_r200.Wizard_X", "f2")
        .unwrap();
    assert_eq!(resolved, "V_r200.Wizard_X");
}

#[test]
fn test_find_revision_for_asset_unknown() {
    let mut store = RevisionStore::new();
    store.insert(revision("V_r100.Wizard_X", vec![asset("f1", 1, 10)]));
    assert!(store.find_revision_for_asset("V_r999.Wizard_X", "f1").is_none());
    assert!(store.find_revision_for_asset("V_r100.Wizard_X", "nope").is_none());
}

#[test]
fn test_file_response_plan_streams_older_copy() {
    let mut store = RevisionStore::new();
    store.insert(revision("V_r100.Wizard_X", vec![asset("f1", 1, 10)]));
    store.insert(revision("V_r200.Wizard_X", vec![asset("f1", 1, 10)]));
    let plan = file_response_plan(&store, "data", "V_r200.Wizard_X", "f1").unwrap();
    assert_eq!(plan.resolved_revision, "V_r100.Wizard_X");
    assert_eq!(plan.path, "data/V_r100.Wizard_X/f1");
    assert_eq!(plan.file_name, "f1");
    assert_eq!(plan.content_disposition, "attachment; filename=\"f1\"");
}

#[test]
fn test_file_response_plan_basename_of_nested_path() {
    let mut store = RevisionStore::new();
    store.insert(revision("V_r100.Wizard_X", vec![asset("Data/GameData/a.wad", 1, 10)]));
    let plan = file_response_plan(&store, "data", "V_r100.Wizard_X", "Data/GameData/a.wad")
        .unwrap();
    assert_eq!(plan.path, "data/V_r100.Wizard_X/Data/GameData/a.wad");
    assert_eq!(plan.file_name, "a.wad");
}

#[test]
fn test_file_response_plan_unknown_is_none() {
    let store = RevisionStore::new();
    assert!(file_response_plan(&store, "data", "V_r100.Wizard_X", "f1").is_none());
}

#[test]
fn test_mirror_file_plan() {
    let plan = mirror_file_plan("data", "V_r100.Wizard_X", "Data/a.wad");
    assert_eq!(plan.path, "data/V_r100.Wizard_X/Data/a.wad");
    assert_eq!(plan.file_name, "a.wad");
    assert_eq!(plan.content_disposition, "attachment; filename=\"a.wad\"");
}

#[test]
fn test_parse_ipv4() {
    assert_eq!(parse_ipv4("127.0.0.1"), Some((127, 0, 0, 1)));
    assert_eq!(parse_ipv4("255.255.255.255"), Some((255, 255, 255, 255)));
    assert_eq!(parse_ipv4("256.0.0.1"), None);
    assert_eq!(parse_ipv4("01.2.3.4"), None);
    assert_eq!(parse_ipv4("1.2.3"), None);
    assert_eq!(parse_ipv4("1.2.3.4.5"), None);
    assert_eq!(parse_ipv4("a.b.c.d"), None);
    assert_eq!(parse_ipv4(""), None);
}

#[test]
fn test_mirror_auth() {
    let allow = vec![(10, 0, 0, 2)];
    // a malformed address is off the allowlist like any other stranger
    assert_eq!(mirror_auth("not-an-ip", &allow), MirrorAuth::Forbidden);
    assert_eq!(mirror_auth("10.0.0.3", &allow), MirrorAuth::Forbidden);
    assert_eq!(mirror_auth("10.0.0.2", &allow), MirrorAuth::Allowed);
}

#[test]
fn test_connection_addr_prefers_forwarded_header() {
    let a = ConnectionAddr::resolve(Some("1.2.3.4".to_string()), "5.6.7.8".to_string());
    assert_eq!(a.0, "1.2.3.4");
    let b = ConnectionAddr::resolve(None, "5.6.7.8".to_string());
    assert_eq!(b.0, "5.6.7.8");
}

#[test]
fn test_revisions_json() {
    let mut store = RevisionStore::new();
    store.insert(revision("V_r200.Wizard_X", Vec::new()));
    store.insert(revision("V_r100.Wizard_X", Vec::new()));
    let json = revisions_json(&store);
    assert_eq!(json, "[\"V_r100.Wizard_X\",\"V_r200.Wizard_X\"]");
    assert_eq!(revisions_json(&RevisionStore::new()), "[]");
}
