use patch_mirror::asset::{Asset, AssetList};
use patch_mirror::backup::{
    backup_job, missing_files, BackupAction, BackupClient, BackupEvent, BackupState,
};
use patch_mirror::fetcher::AssetFetcher;
use patch_mirror::http_request::{
    Crc, CrcType, HttpRequest, LatestFileList, LatestFiles, Name, PurpleRecord, RecordElement,
    RecordUnion, SrcFileNameType,
};
use patch_mirror::patch_info::{PatchInfo, Revision};
use patch_mirror::rate_limiter::RateLimiter;
use patch_mirror::backup::sse_data_lines;
use patch_mirror::revision::LocalRevision;

fn patch_info() -> PatchInfo {
    PatchInfo {
        list_file_url: "http://h/WizPatcher/V_r1.Wizard_X/Windows/LatestFileList.bin".to_string(),
        url_prefix: "http://h/WizPatcher/V_r1.Wizard_X/LatestBuild".to_string(),
        revision: "V_r1.Wizard_X".to_string(),
    }
}

#[test]
fn test_fetcher_new_and_index_url() {
    let fetcher = AssetFetcher::new(&patch_info(), 2, "data");
    assert_eq!(fetcher.save_directory, "data/V_r1.Wizard_X");
    assert_eq!(
        fetcher.xml_index_url(),
        "http://h/WizPatcher/V_r1.Wizard_X/Windows/LatestFileList.xml"
    );
}

#[test]
fn test_fetcher_index_url_without_bin_suffix() {
    let mut info = patch_info();
    info.list_file_url = "http://h/latest".to_string();
    let fetcher = AssetFetcher::new(&info, 2, "data");
    assert_eq!(fetcher.xml_index_url(), "http://h/latest");
}

#[test]
fn test_fetcher_process_xml_populates_assets() {
    let mut fetcher = AssetFetcher::new(&patch_info(), 2, "data");
    let xml = "<LatestFileList><Z><RECORD><SrcFileName>a.wad</SrcFileName>\
        <Size>10</Size><CRC>1</CRC></RECORD><RECORD><SrcFileName>b.txt</SrcFileName>\
        <Size>20</Size><CRC>2</CRC></RECORD></Z></LatestFileList>";
    let sanitized = fetcher.process_xml(xml).unwrap();
    assert!(sanitized.starts_with("<?xml version=\"1.0\" ?>\n<LatestFileList>"));
    assert_eq!(fetcher.assets.wads.len(), 1);
    assert_eq!(fetcher.assets.wads[0].filename, "a.wad");
    assert_eq!(fetcher.assets.utils.len(), 1);
    assert_eq!(fetcher.assets.utils[0].filename, "b.txt");
    assert!(fetcher.process_xml("not xml").is_err());
}

#[test]
fn test_fetcher_download_jobs() {
    let fetcher = AssetFetcher::new(&patch_info(), 2, "data");
    let list = vec![Asset {
        filename: "Data/GameData/a.wad".to_string(),
        file_type: String::new(),
        size: 1,
        header_size: 0,
        compressed_header_size: 0,
        crc: 1,
        header_crc: 0,
    }];
    let jobs = fetcher.download_jobs(&list);
    assert_eq!(jobs.len(), 1);
    assert_eq!(
        jobs[0].url,
        "http://h/WizPatcher/V_r1.Wizard_X/LatestBuild/Data/GameData/a.wad"
    );
    assert_eq!(jobs[0].dest_path, "data/V_r1.Wizard_X/Data/GameData/a.wad");
}

#[test]
fn test_backup_state_machine() {
    let mut client = BackupClient::new();
    assert_eq!(client.state, BackupState::Disconnected);
    assert!(matches!(client.step(BackupEvent::Connect), BackupAction::OpenStream));
    assert_eq!(client.state, BackupState::Awaiting);
    assert!(matches!(client.step(BackupEvent::Connected), BackupAction::Ignore));
    assert_eq!(client.state, BackupState::Streaming);
    match client.step(BackupEvent::Event("[\"f1\"]".to_string())) {
        BackupAction::DecodeAndFetch(data) => assert_eq!(data, "[\"f1\"]"),
        _ => panic!("expected a decode action"),
    }
    assert_eq!(client.state, BackupState::Fetching);
    assert!(matches!(client.step(BackupEvent::StreamError), BackupAction::Wait));
    assert_eq!(client.state, BackupState::Backoff);
    assert!(matches!(client.step(BackupEvent::BackoffElapsed), BackupAction::Reconnect));
    assert_eq!(client.state, BackupState::Disconnected);
    // a comment while disconnected changes nothing
    assert!(matches!(client.step(BackupEvent::Comment), BackupAction::Ignore));
    assert_eq!(client.state, BackupState::Disconnected);
}

#[test]
fn test_backup_decode_event() {
    let files = BackupClient::decode_event("[\"a/b.wad\",\"c.txt\"]").unwrap();
    assert_eq!(files, vec!["a/b.wad", "c.txt"]);
    assert!(BackupClient::decode_event("not json").is_none());
}

#[test]
fn test_missing_files() {
    let advertised = vec!["a".to_string(), "b".to_string(), "c".to_string()];
    let present = vec!["b".to_string()];
    let missing = missing_files(&advertised, &present);
    assert_eq!(missing, vec!["a", "c"]);
}

#[test]
fn test_backup_job() {
    let job = backup_job("10.0.0.1:8080", "V_r1.Wizard_X/Data/a.wad", "data");
    assert_eq!(job.url, "http://10.0.0.1:8080/mirror/files/V_r1.Wizard_X/Data/a.wad");
    assert_eq!(job.dest_path, "data/V_r1.Wizard_X/Data/a.wad");
}

#[test]
fn test_rate_limiter() {
    let mut limiter = RateLimiter::new(3, 60, false);
    // exactly three requests per window are admitted
    assert!(limiter.check_rate_limit(7));
    assert!(limiter.check_rate_limit(7));
    assert!(limiter.check_rate_limit(7));
    assert!(!limiter.check_rate_limit(7));
    assert!(limiter.check_rate_limit(8));
    limiter.reset();
    assert!(limiter.check_rate_limit(7));

    // a ceiling of zero admits nothing
    let mut closed = RateLimiter::new(0, 60, false);
    assert!(!closed.check_rate_limit(7));

    let mut off = RateLimiter::new(0, 60, true);
    assert!(off.check_rate_limit(7));
    assert!(off.check_rate_limit(7));
}

#[test]
fn test_rate_limiter_default() {
    let limiter = RateLimiter::default();
    assert_eq!(limiter.max_requests, 100);
    assert_eq!(limiter.reset_duration_secs, 60);
    assert!(!limiter.disabled);
}

#[test]
fn test_local_revision_from_name() {
    let xml = "<LatestFileList><Z><RECORD><SrcFileName>a.wad</SrcFileName>\
        <Size>10</Size><CRC>1</CRC></RECORD></Z></LatestFileList>";
    let rev = LocalRevision::from_name("V_r5.Wizard_X", "data", Some(xml)).unwrap();
    assert_eq!(rev.revision_number, 5);
    assert_eq!(rev.path, "data/V_r5.Wizard_X");
    assert_eq!(rev.assets.wads.len(), 1);

    let bare = LocalRevision::from_name("V_r5.Wizard_X", "data", None).unwrap();
    assert!(bare.assets.wads.is_empty() && bare.assets.utils.is_empty());

    assert!(LocalRevision::from_name("NotARevision", "data", None).is_none());
}

fn name_field(v: &str) -> Option<Name> {
    Some(Name { value: Some(v.to_string()), type_: SrcFileNameType::Str })
}

fn crc_field(v: i64) -> Option<Crc> {
    Some(Crc { value: v, type_: CrcType::Uint })
}

#[test]
fn test_http_request_propogate_filelist() {
    let revision = Revision {
        list_file_url: "http://h/V_r1.Wizard_X/l.bin".to_string(),
        url_prefix: "http://h/V_r1.Wizard_X".to_string(),
        revision: "V_r1.Wizard_X".to_string(),
    };
    let mut request = HttpRequest::new(revision, 2);
    assert_eq!(request.revision, "V_r1.Wizard_X");

    let parsed = LatestFiles {
        latest_file_list: vec![
            (
                "ZoneA".to_string(),
                LatestFileList {
                    record: RecordUnion::PurpleRecord(PurpleRecord {
                        version: None,
                        crc: crc_field(1),
                        compressed_header_size: crc_field(0),
                        file_type: None,
                        header_crc: crc_field(0),
                        header_size: crc_field(0),
                        size: crc_field(10),
                        src_file_name: name_field("single.dat"),
                        tar_file_name: None,
                    }),
                },
            ),
            (
                "ZoneB".to_string(),
                LatestFileList {
                    record: RecordUnion::RecordElementArray(vec![
                        RecordElement {
                            crc: crc_field(2),
                            compressed_header_size: crc_field(0),
                            file_type: None,
                            header_crc: crc_field(0),
                            header_size: crc_field(0),
                            size: crc_field(20),
                            src_file_name: name_field("big.wad"),
                            tar_file_name: None,
                            name: None,
                        },
                        RecordElement {
                            crc: crc_field(3),
                            compressed_header_size: crc_field(0),
                            file_type: None,
                            header_crc: crc_field(0),
                            header_size: crc_field(0),
                            size: crc_field(30),
                            src_file_name: name_field("small.txt"),
                            tar_file_name: None,
                            name: None,
                        },
                        RecordElement {
                            crc: None,
                            compressed_header_size: None,
                            file_type: None,
                            header_crc: None,
                            header_size: None,
                            size: None,
                            src_file_name: None,
                            tar_file_name: None,
                            name: None,
                        },
                    ]),
                },
            ),
        ],
    };
    assert!(parsed.wf_check());
    request.propogate_filelist(&parsed);
    // every named record is partitioned by the .wad suffix, single
    // records included
    assert_eq!(request.files.wad_list.len(), 1);
    assert_eq!(request.files.wad_list[0].filename, "big.wad");
    assert_eq!(request.files.wad_list[0].size, 20);
    assert_eq!(request.files.util_list.len(), 2);
    assert_eq!(request.files.util_list[0].filename, "single.dat");
    assert_eq!(request.files.util_list[1].filename, "small.txt");
}

#[test]
fn test_asset_list_lookup() {
    let list = AssetList {
        wads: vec![Asset {
            filename: "a.wad".to_string(),
            file_type: String::new(),
            size: 1,
            header_size: 0,
            compressed_header_size: 0,
            crc: 1,
            header_crc: 0,
        }],
        utils: vec![Asset {
            filename: "b.txt".to_string(),
            file_type: String::new(),
            size: 2,
            header_size: 0,
            compressed_header_size: 0,
            crc: 2,
            header_crc: 0,
        }],
    };
    assert!(!list.is_empty());
    let all = list.all();
    assert_eq!(all.len(), 2);
    assert_eq!(all[0].filename, "a.wad");
    assert_eq!(all[1].filename, "b.txt");
    assert_eq!(list.find_by_name("b.txt").unwrap().crc, 2);
    assert!(list.find_by_name("c").is_none());
    let empty = AssetList { wads: Vec::new(), utils: Vec::new() };
    assert!(empty.is_empty());
}

#[test]
fn test_sse_data_lines() {
    let chunk = ": keep-alive\ndata: [\"f1\"]\n\ndata:[\"f2\"]\nother\n";
    assert_eq!(sse_data_lines(chunk), vec!["[\"f1\"]", "[\"f2\"]"]);
    assert!(sse_data_lines(": nothing here\n\n").is_empty());
}

#[test]
fn test_http_request_download_jobs() {
    let revision = Revision {
        list_file_url: "http://h/V_r1.Wizard_X/l.bin".to_string(),
        url_prefix: "http://h/LatestBuild".to_string(),
        revision: "V_r1.Wizard_X".to_string(),
    };
    let mut request = HttpRequest::new(revision, 2);
    request.files.wad_list.push(patch_mirror::http_request::File {
        filename: "Data/GameData/a.wad".to_string(),
        size: 1,
        header_size: 0,
        compressed_header_size: 0,
        crc: 1,
        header_crc: 0,
    });
    request.files.util_list.push(patch_mirror::http_request::File {
        filename: "u.dat".to_string(),
        size: 2,
        header_size: 0,
        compressed_header_size: 0,
        crc: 2,
        header_crc: 0,
    });
    let wads = request.fetch_wads_jobs("files/V_r1.Wizard_X");
    assert_eq!(wads.len(), 1);
    assert_eq!(wads[0].url, "http://h/LatestBuild/Data/GameData/a.wad");
    assert_eq!(wads[0].dest_path, "files/V_r1.Wizard_X/wads/a.wad");
    let utils = request.fetch_utils_jobs("files/V_r1.Wizard_X");
    assert_eq!(utils.len(), 1);
    assert_eq!(utils[0].url, "http://h/LatestBuild/u.dat");
    assert_eq!(utils[0].dest_path, "files/V_r1.Wizard_X/utils/u.dat");
}
