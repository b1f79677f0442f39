use patch_mirror::errors::{PatchInfoError, RevisionError};
use patch_mirror::patch_info::{Checker, PatchInfo, Revision};

fn put_bytes(buf: &mut [u8; 256], pos: usize, bytes: &[u8]) -> usize {
    let mut p = pos;
    for b in bytes {
        buf[p] = *b;
        p += 1;
    }
    p
}

fn put_bytestring(buf: &mut [u8; 256], pos: usize, s: &str) -> usize {
    let len = s.len() as u16;
    let p = put_bytes(buf, pos, &len.to_le_bytes());
    put_bytes(buf, p, s.as_bytes())
}

fn frame(list_file_url: &str, url_prefix: &str) -> [u8; 256] {
    let mut buf = [0u8; 256];
    let mut p = put_bytes(&mut buf, 0, &[0x0D, 0xF0]);
    p = put_bytes(&mut buf, p, &0u16.to_le_bytes());
    p = put_bytes(&mut buf, p, &0u32.to_le_bytes());
    buf[p] = 8;
    buf[p + 1] = 2;
    p += 2;
    p = put_bytes(&mut buf, p, &0u16.to_le_bytes());
    p = put_bytes(&mut buf, p, &0u32.to_le_bytes());
    p = put_bytestring(&mut buf, p, "LatestFileList.bin");
    p = put_bytes(&mut buf, p, &[0u8; 16]);
    p = put_bytestring(&mut buf, p, list_file_url);
    put_bytestring(&mut buf, p, url_prefix);
    buf
}

#[test]
fn test_parse_response_recorded_frame() {
    let buf = frame(
        "http://h/WizPatcher/V_r1.Wizard_X/Windows/LatestFileList.bin",
        "http://h/WizPatcher/V_r1.Wizard_X/LatestBuild",
    );
    let info = PatchInfo::parse_response(&buf).unwrap();
    assert_eq!(
        info.list_file_url,
        "http://h/WizPatcher/V_r1.Wizard_X/Windows/LatestFileList.bin"
    );
    assert_eq!(info.url_prefix, "http://h/WizPatcher/V_r1.Wizard_X/LatestBuild");
    assert_eq!(info.revision, "V_r1.Wizard_X");
}

#[test]
fn test_parse_response_bad_magic() {
    let mut buf = frame("http://h/V_r1.Wizard_X/f.bin", "http://h");
    buf[0] = 0xFF;
    assert_eq!(
        PatchInfo::parse_response(&buf).unwrap_err(),
        PatchInfoError::InvalidHeaderSequence
    );
}

#[test]
fn test_parse_response_bad_ids() {
    let mut buf = frame("http://h/V_r1.Wizard_X/f.bin", "http://h");
    buf[8] = 9;
    assert_eq!(
        PatchInfo::parse_response(&buf).unwrap_err(),
        PatchInfoError::InvalidProtocol(9, 2)
    );
}

#[test]
fn test_parse_response_overlong_string_is_io() {
    let mut buf = frame("http://h/V_r1.Wizard_X/f.bin", "http://h");
    // stretch the first bytestring's length far past the buffer
    buf[16] = 0xFF;
    buf[17] = 0xFF;
    assert_eq!(PatchInfo::parse_response(&buf).unwrap_err(), PatchInfoError::IO);
}

#[test]
fn test_parse_response_without_revision_segment() {
    let buf = frame("http://h/files/latest.bin", "http://h");
    assert_eq!(
        PatchInfo::parse_response(&buf).unwrap_err(),
        PatchInfoError::InvalidRevisionFormat
    );
}

#[test]
fn test_parse_revision_valid() {
    let url = "http://versionak.us.wizard101.com/WizPatcher/V_r778979.Wizard_1_580_0_Live/Windows/LatestFileList.bin";
    let result = PatchInfo::parse_revision(url).unwrap();

    assert_eq!(result, "V_r778979.Wizard_1_580_0_Live");
}

#[test]
fn test_parse_revision_missing() {
    assert_eq!(
        PatchInfo::parse_revision("http://h/files/latest.bin").unwrap_err(),
        PatchInfoError::InvalidRevisionFormat
    );
}

#[test]
fn test_revision_parse_server_response() {
    let buf = frame(
        "http://h/WizPatcher/V_r2.Wizard_Y/Windows/LatestFileList.bin",
        "http://h",
    );
    let rev = Revision::parse_server_response(&buf).unwrap();
    assert_eq!(rev.revision, "V_r2.Wizard_Y");
    assert_eq!(
        rev.list_file_url,
        "http://h/WizPatcher/V_r2.Wizard_Y/Windows/LatestFileList.bin"
    );

    // no revision segment in the URL: the handshake fails
    let plain = frame("http://h/files/latest.bin", "http://h");
    assert_eq!(
        Revision::parse_server_response(&plain).unwrap_err(),
        RevisionError::InvalidRevisionFormat
    );

    let mut bad = frame("http://h/files/latest.bin", "http://h");
    bad[9] = 7;
    assert_eq!(
        Revision::parse_server_response(&bad).unwrap_err(),
        RevisionError::InvalidProtocol(8, 7)
    );
}

#[test]
fn test_revision_parse_revision() {
    assert_eq!(
        Revision::parse_revision("http://h/V_r2.Wizard_Y/x").unwrap(),
        "V_r2.Wizard_Y"
    );
    assert_eq!(
        Revision::parse_revision("http://h/x/y").unwrap_err(),
        RevisionError::InvalidRevisionFormat
    );
}

#[test]
fn test_checker_new() {
    let checker = Checker::new(4);
    assert_eq!(checker.concurrent_downloads, 4);
}
