//! The vendor-protocol client model: the layout of the handshake response
//! frame, its parser, and the extraction of the revision name from the list
//! file URL.
//!
//! The frame, all integers little-endian: a FOOD magic, a content length, a
//! four-byte control block, a service id (8, PATCH) and message id (2, the
//! latest-file-list message), a DML length, a latest version, a
//! length-prefixed list file name, sixteen bytes of file metadata, then two
//! length-prefixed strings: the list file URL and the URL prefix.
use vstd::prelude::*;
use crate::cursor::{ByteCursor, WizIntegration, food_magic, le_u16_at};
use crate::errors::{PatchInfoError, RevisionError};
use crate::strutil::{chars_range_to_string, str_to_chars, utf8_lossy_of};

verus! {

/// How many bytes of the response are kept and parsed.
pub const BUFFER_SIZE: usize = 256;

/// The fixed session-accept frame, as hex: a FOOD header announcing the
/// latest-file-list request.
pub const SESSION_ACCEPT: &'static str =
    "0DF02700000000000802220000000000000000000000000000000000000000000000000000000000000000";

/// The PATCH service id the response must carry.
pub const SERVICE_ID: u8 = 8;

/// The latest-file-list message id the response must carry.
pub const MESSAGE_ID: u8 = 2;

/// The length of the frame's first string, the list file name.
pub open spec fn frame_a_len(b: Seq<u8>) -> int {
    le_u16_at(b, 16) as int
}

/// Where the sixteen-byte file metadata block ends.
pub open spec fn frame_meta_end(b: Seq<u8>) -> int {
    18 + frame_a_len(b) + 16
}

pub open spec fn frame_url_len(b: Seq<u8>) -> int {
    le_u16_at(b, frame_meta_end(b)) as int
}

pub open spec fn frame_url_start(b: Seq<u8>) -> int {
    frame_meta_end(b) + 2
}

pub open spec fn frame_url_end(b: Seq<u8>) -> int {
    frame_url_start(b) + frame_url_len(b)
}

pub open spec fn frame_prefix_len(b: Seq<u8>) -> int {
    le_u16_at(b, frame_url_end(b)) as int
}

pub open spec fn frame_prefix_start(b: Seq<u8>) -> int {
    frame_url_end(b) + 2
}

pub open spec fn frame_prefix_end(b: Seq<u8>) -> int {
    frame_prefix_start(b) + frame_prefix_len(b)
}

/// The frame opens with the FOOD magic.
pub open spec fn frame_magic_ok(b: Seq<u8>) -> bool {
    le_u16_at(b, 0) == food_magic()
}

/// The frame carries the PATCH service id and the latest-file-list message
/// id.
pub open spec fn frame_ids_ok(b: Seq<u8>) -> bool {
    b[8] == SERVICE_ID && b[9] == MESSAGE_ID
}

/// All three length-prefixed strings and the metadata block fit inside the
/// buffer.
pub open spec fn frame_strings_ok(b: Seq<u8>) -> bool {
    &&& 18 + frame_a_len(b) <= b.len()
    &&& frame_meta_end(b) + 2 <= b.len()
    &&& frame_url_end(b) + 2 <= b.len()
    &&& frame_prefix_end(b) <= b.len()
}

/// The bytes of the list file URL.
pub open spec fn frame_url_bytes(b: Seq<u8>) -> Seq<u8> {
    b.subrange(frame_url_start(b), frame_url_end(b))
}

/// The bytes of the URL prefix.
pub open spec fn frame_prefix_bytes(b: Seq<u8>) -> Seq<u8> {
    b.subrange(frame_prefix_start(b), frame_prefix_end(b))
}

/// The first position at or after `i` holding a forward slash.
pub open spec fn nonslash_run_end(s: Seq<char>, i: int) -> int
    decreases s.len() - i,
    when 0 <= i <= s.len()
{
    if i == s.len() {
        i
    } else if s[i] != '/' {
        nonslash_run_end(s, i + 1)
    } else {
        i
    }
}

proof fn lemma_nonslash_run_end_at(s: Seq<char>, i0: int, e: int)
    requires
        0 <= i0 <= e <= s.len(),
        forall|k: int| i0 <= k < e ==> s[k] != '/',
        e == s.len() || s[e] == '/',
    ensures
        nonslash_run_end(s, i0) == e,
    decreases e - i0,
{
    if i0 < e {
        lemma_nonslash_run_end_at(s, i0 + 1, e);
    }
}

/// A revision segment starts at `i`: a slash, then `V_`, then at least one
/// more character, none of them slashes, closed by another slash.
pub open spec fn url_rev_match_at(s: Seq<char>, i: int) -> bool {
    &&& 0 <= i
    &&& i + 2 < s.len()
    &&& s[i] == '/'
    &&& s[i + 1] == 'V'
    &&& s[i + 2] == '_'
    &&& nonslash_run_end(s, i + 3) > i + 3
    &&& nonslash_run_end(s, i + 3) < s.len()
}

/// The revision name the first matching segment at or after `i` captures:
/// everything between its two slashes.
pub open spec fn url_revision_from(s: Seq<char>, i: int) -> Option<Seq<char>>
    decreases s.len() - i,
    when 0 <= i <= s.len()
{
    if i >= s.len() {
        None
    } else if url_rev_match_at(s, i) {
        Some(s.subrange(i + 1, nonslash_run_end(s, i + 3)))
    } else {
        url_revision_from(s, i + 1)
    }
}

/// The revision name a URL carries: the first path segment of the shape
/// `V_<non-slashes>` closed by a slash.
pub open spec fn url_revision_spec(s: Seq<char>) -> Option<Seq<char>> {
    url_revision_from(s, 0)
}

/// The first `V_` path segment of `url`, or nothing when the URL has none.
fn find_url_revision(url: &str) -> (r: Option<String>)
    ensures
        match r {
            Some(s) => url_revision_spec(url@) == Some(s@),
            None => url_revision_spec(url@) is None,
        },
{
    let chars: Vec<char> = str_to_chars(url);
    let n: usize = chars.len();
    let mut i: usize = 0;
    while i < n
        invariant
            n == url@.len(),
            chars@ == url@,
            i <= n,
            url_revision_from(url@, 0) == url_revision_from(url@, i as int),
        decreases n - i,
    {
        if chars[i] == '/' && n - i > 2 && chars[i + 1] == 'V' && chars[i + 2] == '_' {
            let mut j: usize = i + 3;
            while j < n
                invariant
                    i + 3 <= j <= n,
                    n == url@.len(),
                    chars@ == url@,
                    forall|k: int| i + 3 <= k < j ==> url@[k] != '/',
                ensures
                    i + 3 <= j <= n,
                    n == url@.len(),
                    chars@ == url@,
                    forall|k: int| i + 3 <= k < j ==> url@[k] != '/',
                    j == n || url@[j as int] == '/',
                decreases n - j,
            {
                if chars[j] == '/' {
                    break;
                }
                j = j + 1;
            }
            proof {
                lemma_nonslash_run_end_at(url@, i + 3, j as int);
            }
            if j > i + 3 && j < n {
                proof {
                    assert(url_rev_match_at(url@, i as int));
                    assert(url_revision_from(url@, i as int) == Some(
                        url@.subrange(i + 1, j as int),
                    ));
                }
                return Some(chars_range_to_string(&chars, i + 1, j));
            }
            proof {
                assert(!url_rev_match_at(url@, i as int));
                assert(url_revision_from(url@, i as int) == url_revision_from(url@, i + 1));
            }
        } else {
            proof {
                assert(!url_rev_match_at(url@, i as int));
                assert(url_revision_from(url@, i as int) == url_revision_from(url@, i + 1));
            }
        }
        i = i + 1;
    }
    proof {
        assert(url_revision_from(url@, n as int) is None);
    }
    None
}

/// What the frame parser hands back on success: a frame whose magic, ids
/// and string bounds all checked out, and the two decoded strings.
fn parse_frame(buffer: &[u8; 256]) -> (r: Result<(String, String), PatchInfoError>)
    ensures
        ({
            let b = buffer@;
            match r {
                Ok(pair) => frame_magic_ok(b) && frame_ids_ok(b) && frame_strings_ok(b)
                    && pair.0@ == utf8_lossy_of(frame_url_bytes(b)) && pair.1@ == utf8_lossy_of(
                    frame_prefix_bytes(b),
                ),
                Err(e) => match e {
                    PatchInfoError::InvalidHeaderSequence => !frame_magic_ok(b),
                    PatchInfoError::InvalidProtocol(s, m) => frame_magic_ok(b) && !frame_ids_ok(b)
                        && s == b[8] && m == b[9],
                    PatchInfoError::IO => frame_magic_ok(b) && frame_ids_ok(b)
                        && !frame_strings_ok(b),
                    _ => false,
                },
            }
        }),
{
    proof {
        assert(buffer@.len() == 256);
    }
    let data: Vec<u8> = vstd::slice::slice_to_vec(buffer.as_slice());
    let mut cursor = ByteCursor::new(data);
    let magic_ok: bool = match cursor.verify_food_header() {
        Some(v) => v,
        None => {
            return Err(PatchInfoError::IO);
        },
    };
    if !magic_ok {
        return Err(PatchInfoError::InvalidHeaderSequence);
    }
    let _content_length: u16 = match cursor.read_u16_le() {
        Some(v) => v,
        None => {
            return Err(PatchInfoError::IO);
        },
    };
    let _control: u32 = match cursor.read_u32_le() {
        Some(v) => v,
        None => {
            return Err(PatchInfoError::IO);
        },
    };
    let service_id: u8 = match cursor.read_u8() {
        Some(v) => v,
        None => {
            return Err(PatchInfoError::IO);
        },
    };
    let message_id: u8 = match cursor.read_u8() {
        Some(v) => v,
        None => {
            return Err(PatchInfoError::IO);
        },
    };
    if service_id != SERVICE_ID || message_id != MESSAGE_ID {
        return Err(PatchInfoError::InvalidProtocol(service_id, message_id));
    }
    let _dml_length: u16 = match cursor.read_u16_le() {
        Some(v) => v,
        None => {
            return Err(PatchInfoError::IO);
        },
    };
    let _latest_version: u32 = match cursor.read_u32_le() {
        Some(v) => v,
        None => {
            return Err(PatchInfoError::IO);
        },
    };
    let _list_file_name: String = match cursor.read_bytestring() {
        Some(v) => v,
        None => {
            return Err(PatchInfoError::IO);
        },
    };
    let _file_metadata: Vec<u8> = match cursor.read_exact(16) {
        Some(v) => v,
        None => {
            return Err(PatchInfoError::IO);
        },
    };
    let list_file_url: String = match cursor.read_bytestring() {
        Some(v) => v,
        None => {
            return Err(PatchInfoError::IO);
        },
    };
    let url_prefix: String = match cursor.read_bytestring() {
        Some(v) => v,
        None => {
            return Err(PatchInfoError::IO);
        },
    };
    Ok((list_file_url, url_prefix))
}

/// The result of one handshake: the manifest URL, the base URL assets are
/// served under, and the revision name the manifest URL carries.
#[derive(Debug)]
pub struct PatchInfo {
    pub list_file_url: String,
    pub url_prefix: String,
    pub revision: String,
}

impl PatchInfo {
    /// Parses one handshake response frame. Fails with
    /// `InvalidHeaderSequence` on a wrong magic, `InvalidProtocol` on wrong
    /// service or message ids, `IO` when a read runs past the buffer, and
    /// `InvalidRevisionFormat` when the list file URL carries no revision
    /// segment.
    pub fn parse_response(buffer: &[u8; 256]) -> (r: Result<PatchInfo, PatchInfoError>)
        ensures
            ({
                let b = buffer@;
                match r {
                    Ok(pi) => frame_magic_ok(b) && frame_ids_ok(b) && frame_strings_ok(b)
                        && pi.list_file_url@ == utf8_lossy_of(frame_url_bytes(b))
                        && pi.url_prefix@ == utf8_lossy_of(frame_prefix_bytes(b))
                        && url_revision_spec(utf8_lossy_of(frame_url_bytes(b))) == Some(
                        pi.revision@,
                    ),
                    Err(e) => match e {
                        PatchInfoError::InvalidHeaderSequence => !frame_magic_ok(b),
                        PatchInfoError::InvalidProtocol(s, m) => frame_magic_ok(b)
                            && !frame_ids_ok(b) && s == b[8] && m == b[9],
                        PatchInfoError::IO => frame_magic_ok(b) && frame_ids_ok(b)
                            && !frame_strings_ok(b),
                        PatchInfoError::InvalidRevisionFormat => frame_magic_ok(b) && frame_ids_ok(
                            b,
                        ) && frame_strings_ok(b) && url_revision_spec(
                            utf8_lossy_of(frame_url_bytes(b)),
                        ) is None,
                        _ => false,
                    },
                }
            }),
    {
        let (list_file_url, url_prefix) = match parse_frame(buffer) {
            Ok(pair) => pair,
            Err(e) => {
                return Err(e);
            },
        };
        let revision: String = match find_url_revision(list_file_url.as_str()) {
            Some(rev) => rev,
            None => {
                return Err(PatchInfoError::InvalidRevisionFormat);
            },
        };
        Ok(PatchInfo { list_file_url, url_prefix, revision })
    }

    /// The revision name a list file URL carries, or
    /// `InvalidRevisionFormat` when it has none.
    pub fn parse_revision(url: &str) -> (r: Result<String, PatchInfoError>)
        ensures
            match r {
                Ok(s) => url_revision_spec(url@) == Some(s@),
                Err(e) => url_revision_spec(url@) is None && e
                    == PatchInfoError::InvalidRevisionFormat,
            },
    {
        match find_url_revision(url) {
            Some(rev) => Ok(rev),
            None => Err(PatchInfoError::InvalidRevisionFormat),
        }
    }
}

/// The older protocol client's view of one handshake: the same three
/// strings as the newer client's.
#[derive(Debug)]
pub struct Revision {
    pub list_file_url: String,
    pub url_prefix: String,
    pub revision: String,
}

impl Revision {
    /// Parses one handshake response frame; a URL without a revision
    /// segment fails with `InvalidRevisionFormat`.
    pub fn parse_server_response(buffer: &[u8; 256]) -> (r: Result<Revision, RevisionError>)
        ensures
            ({
                let b = buffer@;
                match r {
                    Ok(rev) => frame_magic_ok(b) && frame_ids_ok(b) && frame_strings_ok(b)
                        && rev.list_file_url@ == utf8_lossy_of(frame_url_bytes(b))
                        && rev.url_prefix@ == utf8_lossy_of(frame_prefix_bytes(b))
                        && url_revision_spec(utf8_lossy_of(frame_url_bytes(b))) == Some(
                        rev.revision@,
                    ),
                    Err(e) => match e {
                        RevisionError::InvalidHeaderSequence => !frame_magic_ok(b),
                        RevisionError::InvalidProtocol(s, m) => frame_magic_ok(b)
                            && !frame_ids_ok(b) && s == b[8] && m == b[9],
                        RevisionError::IO => frame_magic_ok(b) && frame_ids_ok(b)
                            && !frame_strings_ok(b),
                        RevisionError::InvalidRevisionFormat => frame_magic_ok(b) && frame_ids_ok(
                            b,
                        ) && frame_strings_ok(b) && url_revision_spec(
                            utf8_lossy_of(frame_url_bytes(b)),
                        ) is None,
                    },
                }
            }),
    {
        let (list_file_url, url_prefix) = match parse_frame(buffer) {
            Ok(pair) => pair,
            Err(e) => {
                return Err(
                    match e {
                        PatchInfoError::InvalidHeaderSequence => RevisionError::InvalidHeaderSequence,
                        PatchInfoError::InvalidProtocol(s, m) => RevisionError::InvalidProtocol(
                            s,
                            m,
                        ),
                        _ => RevisionError::IO,
                    },
                );
            },
        };
        let revision: String = match Self::parse_revision(list_file_url.as_str()) {
            Ok(rev) => rev,
            Err(e) => {
                return Err(e);
            },
        };
        Ok(Revision { list_file_url, url_prefix, revision })
    }

    /// The revision name a URL carries, or `InvalidRevisionFormat` when it
    /// has none.
    pub fn parse_revision(url: &str) -> (r: Result<String, RevisionError>)
        ensures
            match r {
                Ok(s) => url_revision_spec(url@) == Some(s@),
                Err(e) => url_revision_spec(url@) is None && e
                    == RevisionError::InvalidRevisionFormat,
            },
    {
        match find_url_revision(url) {
            Some(rev) => Ok(rev),
            None => Err(RevisionError::InvalidRevisionFormat),
        }
    }
}

/// Drives periodic revision checks with a fixed download concurrency.
#[derive(Debug)]
pub struct Checker {
    pub concurrent_downloads: usize,
}

impl Checker {
    pub fn new(concurrent_downloads: usize) -> (r: Checker)
        ensures
            r.concurrent_downloads == concurrent_downloads,
    {
        Checker { concurrent_downloads }
    }
}

} // verus!
