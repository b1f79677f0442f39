//! The backup client's decisions: its connection state machine, the
//! decoding of one advertisement, and which advertised files are still
//! missing locally. The stream and the transfers run outside the library.
use vstd::prelude::*;
use crate::fetcher::DownloadJob;
use crate::jsonio::{decode_name_list, names_of_json};
use crate::strutil::{chars_subvec, chars_to_string, path_join, path_join_spec, run_end, str_eq, str_to_chars};

verus! {

/// Where the backup client stands in its stream lifecycle.
#[derive(Debug, PartialEq, Eq, Structural, Clone, Copy)]
pub enum BackupState {
    Disconnected,
    Awaiting,
    Streaming,
    Fetching,
    Backoff,
}

/// What the outside loop observed.
#[derive(Debug)]
pub enum BackupEvent {
    /// The loop is ready to open the stream.
    Connect,
    /// The stream reported a connection.
    Connected,
    /// The stream delivered an advertisement payload.
    Event(String),
    /// The loop finished fetching one advertisement's files.
    EventHandled,
    /// The stream reported a comment; nothing to do.
    Comment,
    /// The stream failed.
    StreamError,
    /// The reconnect pause ran out.
    BackoffElapsed,
}

/// What the outside loop must do next.
pub enum BackupAction {
    /// Open the event stream.
    OpenStream,
    /// Decode this payload and fetch what is missing.
    DecodeAndFetch(String),
    /// Pause before reconnecting.
    Wait,
    /// Connect anew.
    Reconnect,
    /// Nothing.
    Ignore,
}

/// The backup client's transition relation: connect, await, stream,
/// fetch on each advertisement, and back off on any stream error.
pub open spec fn backup_step_spec(s: BackupState, e: BackupEvent) -> (BackupState, BackupAction) {
    match (s, e) {
        (BackupState::Disconnected, BackupEvent::Connect) => (
            BackupState::Awaiting,
            BackupAction::OpenStream,
        ),
        (BackupState::Awaiting, BackupEvent::Connected) => (
            BackupState::Streaming,
            BackupAction::Ignore,
        ),
        (BackupState::Streaming, BackupEvent::Event(data)) => (
            BackupState::Fetching,
            BackupAction::DecodeAndFetch(data),
        ),
        (BackupState::Fetching, BackupEvent::EventHandled) => (
            BackupState::Streaming,
            BackupAction::Ignore,
        ),
        (BackupState::Streaming, BackupEvent::StreamError) => (
            BackupState::Backoff,
            BackupAction::Wait,
        ),
        (BackupState::Fetching, BackupEvent::StreamError) => (
            BackupState::Backoff,
            BackupAction::Wait,
        ),
        (BackupState::Backoff, BackupEvent::BackoffElapsed) => (
            BackupState::Disconnected,
            BackupAction::Reconnect,
        ),
        (s2, _) => (s2, BackupAction::Ignore),
    }
}

/// A secondary node keeping its file tree synchronised with a primary.
#[derive(Debug)]
pub struct BackupClient {
    pub state: BackupState,
}

impl BackupClient {
    /// A client that has not connected yet.
    pub fn new() -> (r: BackupClient)
        ensures
            r.state == BackupState::Disconnected,
    {
        BackupClient { state: BackupState::Disconnected }
    }

    /// Takes one observed event and answers with the action the outside
    /// loop must perform, moving through the transition relation.
    pub fn step(&mut self, event: BackupEvent) -> (a: BackupAction)
        ensures
            (final(self).state, a) == backup_step_spec(old(self).state, event),
    {
        let (next, action): (BackupState, BackupAction) = match (self.state, event) {
            (BackupState::Disconnected, BackupEvent::Connect) => (
                BackupState::Awaiting,
                BackupAction::OpenStream,
            ),
            (BackupState::Awaiting, BackupEvent::Connected) => (
                BackupState::Streaming,
                BackupAction::Ignore,
            ),
            (BackupState::Streaming, BackupEvent::Event(data)) => (
                BackupState::Fetching,
                BackupAction::DecodeAndFetch(data),
            ),
            (BackupState::Fetching, BackupEvent::EventHandled) => (
                BackupState::Streaming,
                BackupAction::Ignore,
            ),
            (BackupState::Streaming, BackupEvent::StreamError) => (
                BackupState::Backoff,
                BackupAction::Wait,
            ),
            (BackupState::Fetching, BackupEvent::StreamError) => (
                BackupState::Backoff,
                BackupAction::Wait,
            ),
            (BackupState::Backoff, BackupEvent::BackoffElapsed) => (
                BackupState::Disconnected,
                BackupAction::Reconnect,
            ),
            (s2, _) => (s2, BackupAction::Ignore),
        };
        self.state = next;
        action
    }

    /// Reads one advertisement payload as a JSON array of relative
    /// paths.
    pub fn decode_event(data: &str) -> (r: Option<Vec<String>>)
        ensures
            r.deep_view() == names_of_json(data@),
    {
        decode_name_list(data)
    }
}

/// Whether some string of `s` reads `x`.
pub open spec fn has_string(s: Seq<Seq<char>>, x: Seq<char>) -> bool {
    exists|i: int| 0 <= i < s.len() && s[i] == x
}

/// The advertised paths not present locally, in advertisement order.
pub open spec fn missing_spec(advertised: Seq<Seq<char>>, present: Seq<Seq<char>>) -> Seq<
    Seq<char>,
> {
    advertised.filter(|f: Seq<char>| !has_string(present, f))
}

fn present_contains(present: &Vec<String>, x: &str) -> (r: bool)
    ensures
        r == has_string(present.deep_view(), x@),
{
    let mut i: usize = 0;
    while i < present.len()
        invariant
            i <= present@.len(),
            forall|k: int| 0 <= k < i ==> present.deep_view()[k] != x@,
        decreases present@.len() - i,
    {
        if str_eq(present[i].as_str(), x) {
            proof {
                assert(present.deep_view()[i as int] == x@);
            }
            return true;
        }
        proof {
            assert(present.deep_view()[i as int] == present@[i as int]@);
        }
        i = i + 1;
    }
    proof {
        assert(!has_string(present.deep_view(), x@)) by {
            if has_string(present.deep_view(), x@) {
                let k = choose|k: int|
                    0 <= k < present.deep_view().len() && present.deep_view()[k] == x@;
            }
        }
    }
    false
}

/// The advertised paths that are not in the local list, in order.
pub fn missing_files(advertised: &Vec<String>, present: &Vec<String>) -> (r: Vec<String>)
    ensures
        r.deep_view() == missing_spec(advertised.deep_view(), present.deep_view()),
{
    let ghost adv = advertised.deep_view();
    let ghost pres = present.deep_view();
    let mut r: Vec<String> = Vec::new();
    let mut i: usize = 0;
    while i < advertised.len()
        invariant
            i <= advertised@.len(),
            adv == advertised.deep_view(),
            pres == present.deep_view(),
            r.deep_view() == missing_spec(adv.take(i as int), pres),
        decreases advertised@.len() - i,
    {
        proof {
            crate::diff::lemma_filter_take_step(adv, |f: Seq<char>| !has_string(pres, f), i as int);
            assert(adv[i as int] == advertised@[i as int]@);
        }
        let ghost r0 = r.deep_view();
        if !present_contains(present, advertised[i].as_str()) {
            r.push(advertised[i].clone());
            proof {
                assert(r.deep_view() =~= r0.push(adv[i as int]));
            }
        }
        i = i + 1;
    }
    proof {
        assert(adv.take(advertised@.len() as int) =~= adv);
    }
    r
}

/// The planned transfer for one advertised path: from the primary's
/// mirror file route to the same relative path under the save root.
pub fn backup_job(mirror_host: &str, file: &str, save_directory: &str) -> (r: DownloadJob)
    ensures
        r.url@ == "http://"@ + mirror_host@ + "/mirror/files/"@ + file@,
        r.dest_path@ == path_join_spec(save_directory@, file@),
{
    proof {
        reveal_strlit("http://");
        reveal_strlit("/mirror/files/");
    }
    let mut url: String = "http://".to_owned();
    url.append(mirror_host);
    url.append("/mirror/files/");
    url.append(file);
    DownloadJob { url, dest_path: path_join(save_directory, file) }
}

/// Whether an event-stream line carries a data field.
pub open spec fn sse_is_data_line(l: Seq<char>) -> bool {
    l.len() >= 5 && l.subrange(0, 5) == seq!['d', 'a', 't', 'a', ':']
}

/// The payload of a data line: what follows `data:` and one optional
/// space.
pub open spec fn sse_payload_of(l: Seq<char>) -> Seq<char> {
    let rest = l.subrange(5, l.len() as int);
    if rest.len() > 0 && rest[0] == ' ' {
        rest.subrange(1, rest.len() as int)
    } else {
        rest
    }
}

pub open spec fn not_newline(c: char) -> bool {
    c != '\n'
}

/// The data payloads of the stream text from `i` on, line by line.
pub open spec fn sse_data_spec(s: Seq<char>, i: int) -> Seq<Seq<char>>
    decreases s.len() - i,
    when 0 <= i <= s.len()
{
    if i >= s.len() {
        Seq::empty()
    } else {
        let e = run_end(s, i, |c: char| not_newline(c));
        let line = s.subrange(i, e);
        let rest = if i < e + 1 <= s.len() {
            sse_data_spec(s, e + 1)
        } else {
            Seq::empty()
        };
        if sse_is_data_line(line) {
            seq![sse_payload_of(line)] + rest
        } else {
            rest
        }
    }
}

fn sse_take_payload(line: &Vec<char>) -> (r: Option<Vec<char>>)
    ensures
        match r {
            Some(p) => sse_is_data_line(line@) && p@ == sse_payload_of(line@),
            None => !sse_is_data_line(line@),
        },
{
    let n: usize = line.len();
    if n < 5 || line[0] != 'd' || line[1] != 'a' || line[2] != 't' || line[3] != 'a' || line[4]
        != ':' {
        proof {
            if line@.len() >= 5 && line@.subrange(0, 5) == seq!['d', 'a', 't', 'a', ':'] {
                assert forall|k: int| 0 <= k < 5 implies line@[k] == seq![
                    'd',
                    'a',
                    't',
                    'a',
                    ':',
                ][k] by {
                    assert(line@.subrange(0, 5)[k] == line@[k]);
                }
            }
        }
        return None;
    }
    proof {
        assert(line@.subrange(0, 5) =~= seq!['d', 'a', 't', 'a', ':']);
    }
    let from: usize = if n > 5 && line[5] == ' ' {
        6
    } else {
        5
    };
    let p: Vec<char> = chars_subvec(line, from, n);
    proof {
        let rest = line@.subrange(5, line@.len() as int);
        assert(rest.len() > 0 ==> rest[0] == line@[5]);
        if rest.len() > 0 && rest[0] == ' ' {
            assert(p@ =~= rest.subrange(1, rest.len() as int));
        } else {
            assert(p@ =~= rest);
        }
    }
    Some(p)
}

/// The `data:` payloads of one chunk of event-stream text, in order; the
/// outside loop buffers partial lines and hands whole ones in.
pub fn sse_data_lines(text: &str) -> (r: Vec<String>)
    ensures
        r.deep_view() == sse_data_spec(text@, 0),
{
    let chars: Vec<char> = str_to_chars(text);
    let n: usize = chars.len();
    let mut r: Vec<String> = Vec::new();
    let mut i: usize = 0;
    while i < n
        invariant
            i <= n,
            n == text@.len(),
            chars@ == text@,
            sse_data_spec(text@, 0) == r.deep_view() + sse_data_spec(text@, i as int),
        decreases n - i,
    {
        let mut e: usize = i;
        while e < n
            invariant
                i <= e <= n,
                n == text@.len(),
                chars@ == text@,
                forall|k: int| i <= k < e ==> text@[k] != '\n',
            ensures
                i <= e <= n,
                forall|k: int| i <= k < e ==> text@[k] != '\n',
                e == n || text@[e as int] == '\n',
            decreases n - e,
        {
            if chars[e] == '\n' {
                break;
            }
            e = e + 1;
        }
        proof {
            crate::strutil::lemma_run_end_at(text@, i as int, e as int, |c: char| not_newline(c));
        }
        let line: Vec<char> = chars_subvec(&chars, i, e);
        let ghost r0 = r.deep_view();
        match sse_take_payload(&line) {
            Some(p) => {
                r.push(chars_to_string(&p));
                proof {
                    assert(r.deep_view() =~= r0.push(sse_payload_of(line@)));
                }
            },
            None => {},
        }
        if e < n {
            i = e + 1;
        } else {
            i = n;
            proof {
                assert(sse_data_spec(text@, i as int) =~= Seq::<Seq<char>>::empty());
            }
        }
        proof {
            assert(r.deep_view() + sse_data_spec(text@, i as int) =~= sse_data_spec(text@, 0));
        }
    }
    proof {
        assert(sse_data_spec(text@, n as int) =~= Seq::<Seq<char>>::empty());
        assert(r.deep_view() + Seq::<Seq<char>>::empty() =~= r.deep_view());
    }
    r
}

} // verus!
