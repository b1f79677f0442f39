use patch_mirror::asset::{Asset, AssetList};
use patch_mirror::diff::{
    compare_revisions, format_changed_assets, format_new_assets, format_removed_assets, DiffError,
    RevisionDiff,
};
use patch_mirror::revision::LocalRevision;
use patch_mirror::store::RevisionStore;

fn asset(name: &str, crc: u64, size: u64) -> Asset {
    Asset {
        filename: name.to_string(),
        file_type: String::new(),
        size,
        header_size: 0,
        compressed_header_size: 0,
        crc,
        header_crc: 0,
    }
}

fn revision(name: &str, assets: Vec<Asset>) -> LocalRevision {
    LocalRevision::new(name, "data", AssetList { wads: assets, utils: Vec::new() }).unwrap()
}

#[test]
fn test_compare_one_new_one_unchanged() {
    let a = revision("V_r100.Wizard_X", vec![asset("f1", 1, 10)]);
    let b = revision("V_r200.Wizard_X", vec![asset("f1", 1, 10), asset("f2", 2, 20)]);
    let store = RevisionStore::new();
    let diff = compare_revisions(&store, &b, Some(&a)).unwrap();
    assert_eq!(diff.new_assets.len(), 1);
    assert_eq!(diff.new_assets[0].filename, "f2");
    assert_eq!(diff.changed_assets.len(), 0);
    assert_eq!(diff.unchanged_assets.len(), 1);
    assert_eq!(diff.unchanged_assets[0].filename, "f1");
    assert_eq!(diff.removed_assets.len(), 0);
}

#[test]
fn test_compare_changed_checksum() {
    let a = revision("V_r100.Wizard_X", vec![asset("f1", 1, 10)]);
    let b = revision("V_r200.Wizard_X", vec![asset("f1", 9, 10)]);
    let store = RevisionStore::new();
    let diff = compare_revisions(&store, &b, Some(&a)).unwrap();
    assert_eq!(diff.changed_assets.len(), 1);
    assert_eq!(diff.changed_assets[0].filename, "f1");
    assert_eq!(diff.removed_assets.len(), 0);
    assert_eq!(diff.new_assets.len(), 0);
    assert_eq!(diff.unchanged_assets.len(), 0);
}

#[test]
fn test_compare_removed() {
    let a = revision("V_r100.Wizard_X", vec![asset("f1", 1, 10), asset("f3", 3, 30)]);
    let b = revision("V_r200.Wizard_X", vec![asset("f1", 1, 10)]);
    let store = RevisionStore::new();
    let diff = compare_revisions(&store, &b, Some(&a)).unwrap();
    assert_eq!(diff.removed_assets.len(), 1);
    assert_eq!(diff.removed_assets[0].filename, "f3");
}

#[test]
fn test_compare_empty_new_revision_fails() {
    let a = revision("V_r100.Wizard_X", vec![asset("f1", 1, 10)]);
    let b = revision("V_r200.Wizard_X", Vec::new());
    let store = RevisionStore::new();
    assert_eq!(compare_revisions(&store, &b, Some(&a)).unwrap_err(), DiffError::NoAssets);
}

#[test]
fn test_compare_without_reference_everything_new() {
    let b = revision("V_r200.Wizard_X", vec![asset("f1", 1, 10), asset("f2", 2, 20)]);
    let store = RevisionStore::new();
    let diff = compare_revisions(&store, &b, None).unwrap();
    assert_eq!(diff.new_assets.len(), 2);
    assert_eq!(diff.removed_assets.len(), 0);
}

#[test]
fn test_compare_same_number_falls_back_to_store() {
    // reference carries the new revision's own number: the store's next
    // newest revision takes its place
    let older = revision("V_r100.Wizard_X", vec![asset("f1", 1, 10)]);
    let same = revision("V_r200.Wizard_X", vec![asset("f1", 1, 10)]);
    let b = revision("V_r200.Wizard_X", vec![asset("f1", 1, 10), asset("f2", 2, 20)]);
    let mut store = RevisionStore::new();
    store.insert(revision("V_r100.Wizard_X", vec![asset("f1", 1, 10)]));
    store.insert(revision("V_r200.Wizard_X", vec![asset("f1", 1, 10)]));
    let diff = compare_revisions(&store, &b, Some(&same)).unwrap();
    assert_eq!(diff.new_assets.len(), 1);
    assert_eq!(diff.new_assets[0].filename, "f2");
    assert_eq!(diff.unchanged_assets.len(), 1);
    drop(older);
}

#[test]
fn test_compare_same_number_store_only_has_it() {
    let same = revision("V_r200.Wizard_X", vec![asset("f1", 1, 10)]);
    let b = revision("V_r200.Wizard_X", vec![asset("f1", 1, 10)]);
    let mut store = RevisionStore::new();
    store.insert(revision("V_r200.Wizard_X", vec![asset("f1", 1, 10)]));
    let diff = compare_revisions(&store, &b, Some(&same)).unwrap();
    // no other revision to compare against: everything is new again
    assert_eq!(diff.new_assets.len(), 1);
    assert_eq!(diff.unchanged_assets.len(), 0);
}

#[test]
fn test_diff_size_conservation() {
    let a = revision(
        "V_r100.Wizard_X",
        vec![asset("f1", 1, 10), asset("f2", 2, 20), asset("f3", 3, 30)],
    );
    let b = revision(
        "V_r200.Wizard_X",
        vec![asset("f1", 1, 10), asset("f2", 9, 20), asset("f4", 4, 40)],
    );
    let store = RevisionStore::new();
    let diff = compare_revisions(&store, &b, Some(&a)).unwrap();
    assert_eq!(
        diff.new_assets.len() + diff.changed_assets.len() + diff.unchanged_assets.len(),
        3
    );
    assert_eq!(
        diff.unchanged_assets.len() + diff.changed_assets.len() + diff.removed_assets.len(),
        3
    );
}

#[test]
fn test_assets_to_download_order() {
    let diff = RevisionDiff {
        new_assets: vec![asset("n1", 1, 1), asset("n2", 2, 2)],
        changed_assets: vec![asset("c1", 3, 3)],
        unchanged_assets: vec![asset("u1", 4, 4)],
        removed_assets: Vec::new(),
    };
    let dl = diff.assets_to_download();
    assert_eq!(dl.len(), 3);
    assert_eq!(dl[0].filename, "n1");
    assert_eq!(dl[1].filename, "n2");
    assert_eq!(dl[2].filename, "c1");
}

#[test]
fn test_quiet_cycle_downloads_nothing() {
    let diff = RevisionDiff {
        new_assets: Vec::new(),
        changed_assets: Vec::new(),
        unchanged_assets: vec![asset("u1", 4, 4)],
        removed_assets: Vec::new(),
    };
    assert_eq!(diff.assets_to_download().len(), 0);
}

#[test]
fn test_format_new_assets() {
    let diff = RevisionDiff {
        new_assets: vec![asset("a.wad", 1, 1), asset("b.wad", 2, 2)],
        changed_assets: Vec::new(),
        unchanged_assets: Vec::new(),
        removed_assets: Vec::new(),
    };
    assert_eq!(
        format_new_assets(&diff),
        "```ansi\n\u{1b}[2;32ma.wad\nb.wad\n\u{1b}[0m```"
    );
    let empty = RevisionDiff {
        new_assets: Vec::new(),
        changed_assets: Vec::new(),
        unchanged_assets: Vec::new(),
        removed_assets: Vec::new(),
    };
    assert_eq!(format_new_assets(&empty), "No new assets.");
}

#[test]
fn test_format_changed_and_removed_assets() {
    let diff = RevisionDiff {
        new_assets: Vec::new(),
        changed_assets: vec![asset("c.wad", 1, 1)],
        unchanged_assets: Vec::new(),
        removed_assets: vec![asset("r.wad", 2, 2)],
    };
    assert_eq!(
        format_changed_assets(&diff),
        "```ansi\n\u{1b}[2;32m\u{1b}[2;33m\u{1b}[0m\u{1b}[2;32m\u{1b}[2;33mc.wad\n\u{1b}[0m\u{1b}[2;32m\u{1b}[0m```"
    );
    assert_eq!(
        format_removed_assets(&diff),
        "```ansi\n\u{1b}[2;32m\u{1b}[2;33m\u{1b}[0m\u{1b}[2;32m\u{1b}[2;33m\u{1b}[2;31mr.wad\n\u{1b}[0m\u{1b}[2;33m\u{1b}[0m\u{1b}[2;32m\u{1b}[0m```"
    );
    assert_eq!(format_changed_assets(&RevisionDiff {
        new_assets: Vec::new(),
        changed_assets: Vec::new(),
        unchanged_assets: Vec::new(),
        removed_assets: Vec::new(),
    }), "No changed assets.");
}
