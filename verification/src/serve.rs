//! The serving layer's decisions: which peer a request came from, whether
//! a mirror peer is allowed, and which physical file answers a request —
//! the streaming itself happens outside the library.
use vstd::prelude::*;
use crate::jsonio::{encode_name_list, json_of_names};
use crate::store::{RevisionStore, has_match, rev_by_name};
use crate::strutil::{
    all_dec_digits, basename, basename_spec, dec_digits_value, parse_u64_digits, path_join,
    path_join_spec, run_end, str_to_chars,
};

verus! {

/// The address a request is attributed to: the `X-Forwarded-For` header
/// when one came, else the connection's peer address.
#[derive(Debug)]
pub struct ConnectionAddr(pub String);

impl ConnectionAddr {
    pub fn resolve(forwarded_for: Option<String>, peer: String) -> (r: ConnectionAddr)
        ensures
            match forwarded_for {
                Some(f) => r.0 == f,
                None => r.0 == peer,
            },
    {
        match forwarded_for {
            Some(f) => ConnectionAddr(f),
            None => ConnectionAddr(peer),
        }
    }
}

/// One octet of a dotted-quad address: one to three digits, no leading
/// zero, value at most 255.
pub open spec fn octet_spec(s: Seq<char>) -> Option<u8> {
    if 1 <= s.len() <= 3 && all_dec_digits(s) && !(s.len() > 1 && s[0] == '0')
        && dec_digits_value(s) <= 255 {
        Some(dec_digits_value(s) as u8)
    } else {
        None
    }
}

pub open spec fn not_dot(c: char) -> bool {
    c != '.'
}

/// The literal IPv4 address `s` writes: four octets separated by three
/// dots, nothing else.
pub open spec fn ipv4_spec(s: Seq<char>) -> Option<(u8, u8, u8, u8)> {
    let p1 = run_end(s, 0, |c: char| not_dot(c));
    if p1 >= s.len() {
        None
    } else {
        let p2 = run_end(s, p1 + 1, |c: char| not_dot(c));
        if p2 >= s.len() {
            None
        } else {
            let p3 = run_end(s, p2 + 1, |c: char| not_dot(c));
            if p3 >= s.len() || run_end(s, p3 + 1, |c: char| not_dot(c)) != s.len() {
                None
            } else {
                match (
                    octet_spec(s.subrange(0, p1)),
                    octet_spec(s.subrange(p1 + 1, p2)),
                    octet_spec(s.subrange(p2 + 1, p3)),
                    octet_spec(s.subrange(p3 + 1, s.len() as int)),
                ) {
                    (Some(a), Some(b), Some(c), Some(d)) => Some((a, b, c, d)),
                    _ => None,
                }
            }
        }
    }
}

fn scan_dot(chars: &Vec<char>, i: usize) -> (r: usize)
    requires
        i <= chars@.len(),
    ensures
        r == run_end(chars@, i as int, |c: char| not_dot(c)),
        i <= r <= chars@.len(),
        forall|k: int| i <= k < r ==> chars@[k] != '.',
        r < chars@.len() ==> chars@[r as int] == '.',
{
    let n: usize = chars.len();
    let mut j: usize = i;
    while j < n
        invariant
            i <= j <= n,
            n == chars@.len(),
            forall|k: int| i <= k < j ==> chars@[k] != '.',
        ensures
            i <= j <= n,
            forall|k: int| i <= k < j ==> chars@[k] != '.',
            j == n || chars@[j as int] == '.',
        decreases n - j,
    {
        if chars[j] == '.' {
            break;
        }
        j = j + 1;
    }
    proof {
        crate::strutil::lemma_run_end_at(chars@, i as int, j as int, |c: char| not_dot(c));
    }
    j
}

fn parse_octet(chars: &Vec<char>, from: usize, to: usize) -> (r: Option<u8>)
    requires
        from <= to <= chars@.len(),
    ensures
        r == octet_spec(chars@.subrange(from as int, to as int)),
{
    let ghost body = chars@.subrange(from as int, to as int);
    if to - from < 1 || to - from > 3 {
        return None;
    }
    if to - from > 1 && chars[from] == '0' {
        proof {
            assert(body[0] == '0');
        }
        return None;
    }
    match parse_u64_digits(chars, from, to) {
        Some(v) => {
            proof {
                if body.len() > 1 {
                    assert(body[0] == chars@[from as int]);
                }
            }
            if v <= 255 {
                Some(v as u8)
            } else {
                None
            }
        },
        None => {
            proof {
                assert(body.len() >= 1);
                if all_dec_digits(body) {
                    crate::strutil::lemma_dec_bounded(body);
                }
            }
            None
        },
    }
}

/// Reads a literal IPv4 address, exactly four dotted octets.
pub fn parse_ipv4(addr: &str) -> (r: Option<(u8, u8, u8, u8)>)
    ensures
        r == ipv4_spec(addr@),
{
    let chars: Vec<char> = str_to_chars(addr);
    let n: usize = chars.len();
    let p1: usize = scan_dot(&chars, 0);
    if p1 >= n {
        return None;
    }
    let p2: usize = scan_dot(&chars, p1 + 1);
    if p2 >= n {
        return None;
    }
    let p3: usize = scan_dot(&chars, p2 + 1);
    if p3 >= n {
        return None;
    }
    let p4: usize = scan_dot(&chars, p3 + 1);
    if p4 != n {
        return None;
    }
    let a: u8 = match parse_octet(&chars, 0, p1) {
        Some(v) => v,
        None => {
            return None;
        },
    };
    let b: u8 = match parse_octet(&chars, p1 + 1, p2) {
        Some(v) => v,
        None => {
            return None;
        },
    };
    let c: u8 = match parse_octet(&chars, p2 + 1, p3) {
        Some(v) => v,
        None => {
            return None;
        },
    };
    let d: u8 = match parse_octet(&chars, p3 + 1, n) {
        Some(v) => v,
        None => {
            return None;
        },
    };
    Some((a, b, c, d))
}

/// How a mirror route answers a peer: anyone not on the allowlist is
/// forbidden.
#[derive(Debug, PartialEq, Eq, Structural, Clone, Copy)]
pub enum MirrorAuth {
    Forbidden,
    Allowed,
}

/// Authorises a mirror peer: its address must be a literal IPv4 address
/// on the allowlist; anything else, a malformed address included, is
/// forbidden.
pub fn mirror_auth(addr: &str, allowlist: &Vec<(u8, u8, u8, u8)>) -> (r: MirrorAuth)
    ensures
        match ipv4_spec(addr@) {
            None => r == MirrorAuth::Forbidden,
            Some(ip) => if allowlist@.contains(ip) {
                r == MirrorAuth::Allowed
            } else {
                r == MirrorAuth::Forbidden
            },
        },
{
    let ip: (u8, u8, u8, u8) = match parse_ipv4(addr) {
        Some(ip) => ip,
        None => {
            return MirrorAuth::Forbidden;
        },
    };
    let mut i: usize = 0;
    while i < allowlist.len()
        invariant
            i <= allowlist@.len(),
            ipv4_spec(addr@) == Some(ip),
            forall|k: int| 0 <= k < i ==> allowlist@[k] != ip,
        decreases allowlist@.len() - i,
    {
        let e: (u8, u8, u8, u8) = allowlist[i];
        if e.0 == ip.0 && e.1 == ip.1 && e.2 == ip.2 && e.3 == ip.3 {
            proof {
                assert(allowlist@[i as int] == ip);
                assert(allowlist@.contains(ip)) by {
                    assert(0 <= i < allowlist@.len() && allowlist@[i as int] == ip);
                }
            }
            return MirrorAuth::Allowed;
        }
        i = i + 1;
    }
    proof {
        assert(!allowlist@.contains(ip)) by {
            if allowlist@.contains(ip) {
                let k = choose|k: int| 0 <= k < allowlist@.len() && allowlist@[k] == ip;
            }
        }
    }
    MirrorAuth::Forbidden
}

/// One planned file response: where the bytes live on disk, the basename
/// the response advertises, and the attachment header value.
#[derive(Debug)]
pub struct FilePlan {
    pub resolved_revision: String,
    pub path: String,
    pub file_name: String,
    pub content_disposition: String,
}

/// The attachment header for a basename.
pub open spec fn content_disposition_spec(name: Seq<char>) -> Seq<char> {
    "attachment; filename=\""@ + name + "\""@
}

/// Resolves a public file request content-by-identity: the requested
/// revision's asset gives a checksum and size, and the first revision in
/// ascending order holding a matching asset provides the physical copy.
/// Nothing when the revision, the filename, or a physical copy is
/// missing.
pub fn file_response_plan(
    store: &RevisionStore,
    save_directory: &str,
    revision: &str,
    file_path: &str,
) -> (r: Option<FilePlan>)
    requires
        store.wf(),
    ensures
        match r {
            Some(plan) => {
                &&& rev_by_name(store.revs(), revision@) matches Some(lr)
                &&& lr.assets.find_by_name_spec(file_path@) matches Some(a)
                &&& exists|j: int|
                    0 <= j < store.revs().len() && plan.resolved_revision@ == (
                    #[trigger] store.revs()[j]).name@ && has_match(
                        store.revs()[j].assets,
                        a.crc,
                        a.size,
                    ) && forall|k: int|
                        0 <= k < j ==> !has_match((#[trigger] store.revs()[k]).assets, a.crc, a.size)
                &&& plan.path@ == path_join_spec(
                    path_join_spec(save_directory@, plan.resolved_revision@),
                    file_path@,
                )
                &&& plan.file_name@ == basename_spec(plan.path@)
                &&& plan.content_disposition@ == content_disposition_spec(plan.file_name@)
            },
            None => match rev_by_name(store.revs(), revision@) {
                None => true,
                Some(lr) => match lr.assets.find_by_name_spec(file_path@) {
                    None => true,
                    Some(a) => forall|j: int|
                        0 <= j < store.revs().len() ==> !has_match(
                            (#[trigger] store.revs()[j]).assets,
                            a.crc,
                            a.size,
                        ),
                },
            },
        },
{
    let resolved: String = match store.find_revision_for_asset(revision, file_path) {
        Some(name) => name,
        None => {
            return None;
        },
    };
    let path: String = path_join(path_join(save_directory, resolved.as_str()).as_str(), file_path);
    let file_name: String = basename(path.as_str());
    proof {
        reveal_strlit("attachment; filename=\"");
        reveal_strlit("\"");
    }
    let mut content_disposition: String = "attachment; filename=\"".to_owned();
    content_disposition.append(file_name.as_str());
    content_disposition.append("\"");
    proof {
        assert(content_disposition@ =~= content_disposition_spec(file_name@));
    }
    Some(FilePlan { resolved_revision: resolved, path, file_name, content_disposition })
}

/// Resolves a mirror file request: no content lookup, the raw
/// `<revision>/<path>` under the save root.
pub fn mirror_file_plan(save_directory: &str, revision: &str, file_path: &str) -> (r: FilePlan)
    ensures
        r.resolved_revision@ == revision@,
        r.path@ == path_join_spec(path_join_spec(save_directory@, revision@), file_path@),
        r.file_name@ == basename_spec(r.path@),
        r.content_disposition@ == content_disposition_spec(r.file_name@),
{
    let path: String = path_join(path_join(save_directory, revision).as_str(), file_path);
    let file_name: String = basename(path.as_str());
    proof {
        reveal_strlit("attachment; filename=\"");
        reveal_strlit("\"");
    }
    let mut content_disposition: String = "attachment; filename=\"".to_owned();
    content_disposition.append(file_name.as_str());
    content_disposition.append("\"");
    proof {
        assert(content_disposition@ =~= content_disposition_spec(file_name@));
    }
    FilePlan { resolved_revision: revision.to_owned(), path, file_name, content_disposition }
}

/// The JSON array of known revision names the `/revisions` route serves:
/// one element per store entry, in ascending number order.
pub fn revisions_json(store: &RevisionStore) -> (r: String)
    ensures
        r@ == json_of_names(Seq::new(store.revs().len(), |i: int| store.revs()[i].name@)),
{
    let names: Vec<String> = store.revision_names();
    let r: String = encode_name_list(&names);
    proof {
        assert(names.deep_view() =~= Seq::new(store.revs().len(), |i: int| store.revs()[i].name@));
    }
    r
}

} // verus!
