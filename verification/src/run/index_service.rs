//! The decisions inside indexing, rebuilding and searching.
//!
//! The commands themselves read the filesystem, the store and the search
//! index; what they decide from what they read lives here: whether the
//! derived index can serve searches, whether the store can, when a removal is
//! retried, which file keeps a contested source key, whether a file is
//! skipped, refreshed or appended, and what a search is answered when it
//! cannot run.

use vstd::prelude::*;

use crate::contracts::{
    HealthReport, IndexFileError, IndexFileErrorKind, IndexReport, SourceRevision,
    WorkspaceStatus, workspace_status_name,
};
use crate::text::{debug_quoted, debug_text, decimal, owned, push_decimal, push_str, same_text};

verus! {

/// Tool tag embedded in every revision fingerprint.
pub const FINGERPRINT_TOOL: &'static str = "momotaro-index-v1";

/// Longest excerpt, in characters, attached to a search hit.
pub const EXCERPT_CHARS: usize = 200;

/// Most removal attempts a discard makes before it reports the failure.
pub const DISCARD_ATTEMPTS: u32 = 50;

/// Milliseconds a discard waits before it tries again.
pub const DISCARD_WAIT_MS: u64 = 20;

/// The excerpt of a chunk text: the first [`EXCERPT_CHARS`] characters, and
/// an ellipsis when the text was cut.
pub open spec fn excerpt(text: Seq<char>) -> Seq<char> {
    if text.len() <= EXCERPT_CHARS {
        text
    } else {
        text.take(EXCERPT_CHARS as int).push('\u{2026}')
    }
}

/// First 200 characters of `text`, with an ellipsis when it was cut.
pub fn excerpt_of(text: &str) -> (out: String)
    ensures
        out@ == excerpt(text@),
{
    let chars = crate::text::chars_of(text);
    if chars.len() <= EXCERPT_CHARS {
        return crate::text::string_of(chars.as_slice());
    }
    let mut out = crate::text::string_of(chars.as_slice().split_at(EXCERPT_CHARS).0);
    crate::text::push_char(&mut out, '\u{2026}');
    proof {
        assert(chars@.subrange(0, EXCERPT_CHARS as int) =~= text@.take(EXCERPT_CHARS as int));
    }
    out
}

/// The remedy every report of an unusable index ends with.
pub open spec fn with_rebuild_remedy(reason: Seq<char>) -> Seq<char> {
    reason + "; run `momotaro rebuild-index` to rebuild it"@
}

/// The user-facing sentence for an unusable index, remedy included: `doctor`,
/// `index` and `search` all report this state with the same words.
pub fn index_unusable_message(fault: Option<String>) -> (message: Option<String>)
    ensures
        match fault {
            Some(reason) => message matches Some(m) && m@ == with_rebuild_remedy(reason@),
            None => message is None,
        },
{
    match fault {
        Some(reason) => {
            let mut m = reason;
            push_str(&mut m, "; run `momotaro rebuild-index` to rebuild it");
            Some(m)
        },
        None => None,
    }
}

/// Why the derived index cannot serve searches, from what was found on disk.
///
/// No index directory, or a directory with no index in it, is a fault only
/// when the store holds chunks (a workspace that was never indexed has nothing
/// to serve); an index that exists is a fault exactly when opening it failed.
pub open spec fn index_fault_text(
    dir_is_dir: bool,
    index_exists: bool,
    stored_chunks: Option<u64>,
    open_error: Option<Seq<char>>,
) -> Option<Seq<char>> {
    if !dir_is_dir {
        match stored_chunks {
            Some(n) if n > 0 => Some(
                "the index is missing while the store holds "@ + decimal(n as nat) + " chunks"@,
            ),
            _ => None,
        }
    } else if !index_exists {
        match stored_chunks {
            Some(n) if n > 0 => Some("index directory holds no index"@),
            _ => None,
        }
    } else {
        open_error
    }
}

/// Why the derived index cannot serve searches. `stored_chunks` is what the
/// store answers when it can answer for itself, and `open_error` what opening
/// an existing index reported; each is only looked at on the path that needs
/// it.
pub fn index_fault(
    dir_is_dir: bool,
    index_exists: bool,
    stored_chunks: Option<u64>,
    open_error: Option<String>,
) -> (fault: Option<String>)
    ensures
        match fault {
            Some(f) => index_fault_text(
                dir_is_dir,
                index_exists,
                stored_chunks,
                match open_error {
                    Some(e) => Some(e@),
                    None => None,
                },
            ) == Some(f@),
            None => index_fault_text(
                dir_is_dir,
                index_exists,
                stored_chunks,
                match open_error {
                    Some(e) => Some(e@),
                    None => None,
                },
            ) is None,
        },
{
    if !dir_is_dir {
        match stored_chunks {
            Some(n) => {
                if n > 0 {
                    let mut m = owned("the index is missing while the store holds ");
                    push_decimal(&mut m, n);
                    push_str(&mut m, " chunks");
                    Some(m)
                } else {
                    None
                }
            },
            None => None,
        }
    } else if !index_exists {
        match stored_chunks {
            Some(n) => {
                if n > 0 {
                    Some(owned("index directory holds no index"))
                } else {
                    None
                }
            },
            None => None,
        }
    } else {
        open_error
    }
}

/// What the database file is, decided without opening it.
#[derive(Debug, Clone, Copy, PartialEq, Eq, Structural)]
pub enum StoreFile {
    /// No database at all.
    Absent,
    /// The file exists with no content: a database that was never written.
    Empty,
    /// The file has content; opening it is safe.
    Present,
}

impl StoreFile {
    /// Classifies the database file from its length, `None` when its metadata
    /// could not be read.
    pub fn from_len(len: Option<u64>) -> (file: StoreFile)
        ensures
            file == match len {
                None => StoreFile::Absent,
                Some(n) => if n == 0 {
                    StoreFile::Empty
                } else {
                    StoreFile::Present
                },
            },
    {
        match len {
            None => StoreFile::Absent,
            Some(n) => if n == 0 {
                StoreFile::Empty
            } else {
                StoreFile::Present
            },
        }
    }
}

/// Why the store itself is not usable, from the file's shape and, for a file
/// with content, the health it reported (`None` when it could not be opened
/// or asked).
pub open spec fn store_fault_text(file: StoreFile, health: Option<HealthReport>) -> Option<
    Seq<char>,
> {
    match file {
        StoreFile::Absent => None,
        StoreFile::Empty => Some("database has not been initialized"@),
        StoreFile::Present => match health {
            None => None,
            Some(h) => if h.status == WorkspaceStatus::Ready {
                None
            } else {
                match h.message {
                    Some(m) => Some(m@),
                    None => Some(workspace_status_name(h.status)),
                }
            },
        },
    }
}

/// Why the store is not usable, when it is not. An absent store is
/// uninitialized, which reads as "run `init`", so it is no fault here.
pub fn store_fault(file: StoreFile, health: Option<HealthReport>) -> (fault: Option<String>)
    ensures
        match fault {
            Some(f) => store_fault_text(file, health) == Some(f@),
            None => store_fault_text(file, health) is None,
        },
{
    match file {
        StoreFile::Absent => None,
        StoreFile::Empty => Some(owned("database has not been initialized")),
        StoreFile::Present => match health {
            None => None,
            Some(h) => {
                if h.status == WorkspaceStatus::Ready {
                    None
                } else {
                    match h.message {
                        Some(m) => Some(m),
                        None => Some(owned(h.status.debug_name())),
                    }
                }
            },
        },
    }
}

/// The chunks the store holds, when the store can answer for itself: a file
/// with content whose health is ready. `chunks` is what counting reported.
pub fn store_chunk_count(file: StoreFile, status: Option<WorkspaceStatus>, chunks: Option<u64>) -> (n:
    Option<u64>)
    ensures
        n == if file == StoreFile::Present && status == Some(WorkspaceStatus::Ready) {
            chunks
        } else {
            None
        },
{
    match file {
        StoreFile::Present => match status {
            Some(WorkspaceStatus::Ready) => chunks,
            _ => None,
        },
        _ => None,
    }
}

/// How one removal attempt of a derived directory went.
#[derive(Debug, Clone, Copy, PartialEq, Eq, Structural)]
pub enum RemoveOutcome {
    /// The directory is gone.
    Removed,
    /// There was nothing to remove.
    NotFound,
    /// Refused while a handle is still draining.
    PermissionDenied,
    /// Refused while the directory is still being emptied.
    DirectoryNotEmpty,
    /// Any other failure.
    Failed,
}

/// What a discard does after an attempt.
#[derive(Debug, Clone, Copy, PartialEq, Eq, Structural)]
pub enum DiscardStep {
    /// The directory is gone: success.
    Done,
    /// Wait [`DISCARD_WAIT_MS`] and try again; carries the attempts so far.
    Retry(u32),
    /// Report the failure of the last attempt.
    GiveUp,
}

/// Whether waiting can help: the two refusals a closing handle produces.
pub open spec fn waiting_helps(outcome: RemoveOutcome) -> bool {
    outcome == RemoveOutcome::PermissionDenied || outcome == RemoveOutcome::DirectoryNotEmpty
}

/// The discard decision after a removal attempt, `failed` failed attempts
/// before it: success and "already gone" end the loop; a failure that waiting
/// can help is retried until [`DISCARD_ATTEMPTS`] attempts have failed; any
/// other failure is reported at once.
pub fn discard_next(failed: u32, outcome: RemoveOutcome) -> (step: DiscardStep)
    requires
        failed < DISCARD_ATTEMPTS,
    ensures
        step == match outcome {
            RemoveOutcome::Removed | RemoveOutcome::NotFound => DiscardStep::Done,
            _ => if waiting_helps(outcome) && failed + 1 < DISCARD_ATTEMPTS {
                DiscardStep::Retry((failed + 1) as u32)
            } else {
                DiscardStep::GiveUp
            },
        },
{
    match outcome {
        RemoveOutcome::Removed | RemoveOutcome::NotFound => DiscardStep::Done,
        RemoveOutcome::PermissionDenied | RemoveOutcome::DirectoryNotEmpty => {
            let attempts = failed + 1;
            if attempts >= DISCARD_ATTEMPTS {
                DiscardStep::GiveUp
            } else {
                DiscardStep::Retry(attempts)
            }
        },
        RemoveOutcome::Failed => DiscardStep::GiveUp,
    }
}

/// Law: a discard never makes more than [`DISCARD_ATTEMPTS`] removal
/// attempts — every retry carries one more failed attempt and stays below the
/// bound, so the attempt that follows is at most the last one allowed.
pub proof fn law_discard_is_bounded(failed: u32, outcome: RemoveOutcome, step: DiscardStep)
    requires
        failed < DISCARD_ATTEMPTS,
        step == match outcome {
            RemoveOutcome::Removed | RemoveOutcome::NotFound => DiscardStep::Done,
            _ => if waiting_helps(outcome) && failed + 1 < DISCARD_ATTEMPTS {
                DiscardStep::Retry((failed + 1) as u32)
            } else {
                DiscardStep::GiveUp
            },
        },
    ensures
        step matches DiscardStep::Retry(n) ==> n == failed + 1 && n < DISCARD_ATTEMPTS,
        outcome == RemoveOutcome::Failed ==> step == DiscardStep::GiveUp,
        outcome == RemoveOutcome::NotFound ==> step == DiscardStep::Done,
{
}

/// The first spelling that claimed `key`, if any claimed it.
pub open spec fn first_claimant(claims: Seq<(Seq<char>, Seq<char>)>, key: Seq<char>) -> Option<
    Seq<char>,
>
    decreases claims.len(),
{
    if claims.len() == 0 {
        None
    } else {
        match first_claimant(claims.drop_last(), key) {
            Some(raw) => Some(raw),
            None => if claims.last().0 == key {
                Some(claims.last().1)
            } else {
                None
            },
        }
    }
}

/// The message of a refused second claimant.
pub open spec fn collision_text(first: Seq<char>, raw: Seq<char>) -> Seq<char> {
    "claimed by both "@ + debug_quoted(first) + " and "@ + debug_quoted(raw)
}

/// The source keys claimed so far in one index run, with the raw name of the
/// file that claimed each, in claim order.
pub struct KeyClaims {
    entries: Vec<(String, String)>,
}

impl View for KeyClaims {
    type V = Seq<(Seq<char>, Seq<char>)>;

    closed spec fn view(&self) -> Seq<(Seq<char>, Seq<char>)> {
        self.entries@.map_values(|e: (String, String)| (e.0@, e.1@))
    }
}

impl KeyClaims {
    /// No key claimed yet.
    pub fn new() -> (claims: KeyClaims)
        ensures
            claims@ == Seq::<(Seq<char>, Seq<char>)>::empty(),
    {
        let claims = KeyClaims { entries: Vec::new() };
        assert(claims@ =~= Seq::<(Seq<char>, Seq<char>)>::empty());
        claims
    }

    /// The raw name that first claimed `source_key`.
    fn claimant(&self, source_key: &str) -> (raw: Option<String>)
        ensures
            match raw {
                Some(r) => first_claimant(self@, source_key@) == Some(r@),
                None => first_claimant(self@, source_key@) is None,
            },
    {
        let ghost v = self@;
        let mut i: usize = 0;
        while i < self.entries.len()
            invariant
                i <= self.entries@.len(),
                v == self@,
                v.len() == self.entries@.len(),
                first_claimant(v.take(i as int), source_key@) is None,
            decreases self.entries@.len() - i,
        {
            proof {
                assert(v.take(i + 1).drop_last() =~= v.take(i as int));
                assert(v[i as int] == (self.entries@[i as int].0@, self.entries@[i as int].1@));
            }
            if same_text(self.entries[i].0.as_str(), source_key) {
                proof {
                    lemma_first_claimant_prefix(v, i + 1, source_key@);
                }
                return Some(owned(self.entries[i].1.as_str()));
            }
            i = i + 1;
        }
        proof {
            assert(v.take(i as int) =~= v);
        }
        None
    }

    /// Claims `source_key` for the file spelled `raw_name`.
    ///
    /// Two distinct files must never fold into one identity: the first claim
    /// stands, and a later one is refused with a `KeyCollision` that names
    /// both spellings, leaving the claims unchanged.
    pub fn claim(&mut self, source_key: &str, raw_name: &str) -> (refused: Option<IndexFileError>)
        ensures
            match first_claimant(old(self)@, source_key@) {
                Some(first) => {
                    &&& final(self)@ == old(self)@
                    &&& refused matches Some(e)
                    &&& e.kind == IndexFileErrorKind::KeyCollision
                    &&& e.source_key matches Some(k)
                    &&& k@ == source_key@
                    &&& e.message@ == collision_text(first, raw_name@)
                },
                None => refused is None && final(self)@ == old(self)@.push(
                    (source_key@, raw_name@),
                ),
            },
    {
        match self.claimant(source_key) {
            Some(first) => {
                let mut message = owned("claimed by both ");
                push_str(&mut message, debug_text(first.as_str()).as_str());
                push_str(&mut message, " and ");
                push_str(&mut message, debug_text(raw_name).as_str());
                Some(
                    IndexFileError {
                        source_key: Some(owned(source_key)),
                        kind: IndexFileErrorKind::KeyCollision,
                        message,
                    },
                )
            },
            None => {
                self.entries.push((owned(source_key), owned(raw_name)));
                proof {
                    assert(self@ =~= old(self)@.push((source_key@, raw_name@)));
                }
                None
            },
        }
    }
}

/// A claim found in a prefix is the first claim of any longer sequence.
proof fn lemma_first_claimant_prefix(v: Seq<(Seq<char>, Seq<char>)>, n: int, key: Seq<char>)
    requires
        0 <= n <= v.len(),
        first_claimant(v.take(n), key) is Some,
    ensures
        first_claimant(v, key) == first_claimant(v.take(n), key),
    decreases v.len() - n,
{
    if n < v.len() {
        assert(v.take(n + 1).drop_last() =~= v.take(n));
        lemma_first_claimant_prefix(v, n + 1, key);
    } else {
        assert(v.take(n) =~= v);
    }
}

/// Law: a key keeps its first claimant. Once claimed, every later claim —
/// refused or not — leaves the answer for that key unchanged.
pub proof fn law_first_claim_stands(
    claims: Seq<(Seq<char>, Seq<char>)>,
    key: Seq<char>,
    raw: Seq<char>,
    other: Seq<char>,
)
    requires
        first_claimant(claims, key) is Some,
    ensures
        first_claimant(claims.push((other, raw)), key) == first_claimant(claims, key),
{
    assert(claims.push((other, raw)).drop_last() =~= claims);
}

/// What one index run's claims hold after the files of its walk, each a
/// `(source key, raw name)` pair in walk order, have claimed their keys in
/// turn: a file is kept only where no earlier file holds its key.
pub open spec fn claims_after(files: Seq<(Seq<char>, Seq<char>)>) -> Seq<(Seq<char>, Seq<char>)>
    decreases files.len(),
{
    if files.len() == 0 {
        Seq::empty()
    } else {
        let kept = claims_after(files.drop_last());
        if first_claimant(kept, files.last().0) is None {
            kept.push(files.last())
        } else {
            kept
        }
    }
}

proof fn lemma_claims_after(files: Seq<(Seq<char>, Seq<char>)>, key: Seq<char>)
    ensures
        first_claimant(claims_after(files), key) == first_claimant(files, key),
    decreases files.len(),
{
    if files.len() > 0 {
        let init = files.drop_last();
        let f = files.last();
        lemma_claims_after(init, key);
        lemma_claims_after(init, f.0);
        let kept = claims_after(init);
        if first_claimant(kept, f.0) is None {
            assert(kept.push(f).drop_last() =~= kept);
        }
    }
}

/// The first claimant of a key is the earliest entry that carries it, and
/// there is none when no entry carries it.
proof fn lemma_first_claimant_is_earliest(v: Seq<(Seq<char>, Seq<char>)>, key: Seq<char>)
    ensures
        forall|j: int|
            0 <= j < v.len() && #[trigger] v[j].0 == key && (forall|m: int| 0 <= m < j ==> v[m].0 != key)
                ==> first_claimant(v, key) == Some(v[j].1),
        (forall|j: int| 0 <= j < v.len() ==> v[j].0 != key) ==> first_claimant(v, key) is None,
    decreases v.len(),
{
    if v.len() > 0 {
        let init = v.drop_last();
        lemma_first_claimant_is_earliest(init, key);
        assert forall|j: int|
            0 <= j < v.len() && #[trigger] v[j].0 == key && (forall|m: int| 0 <= m < j ==> v[m].0 != key)
                implies first_claimant(v, key) == Some(v[j].1) by {
            if j < init.len() {
                assert(init[j] == v[j]);
                assert forall|m: int| 0 <= m < j implies init[m].0 != key by {
                    assert(init[m] == v[m]);
                }
            } else {
                assert forall|m: int| 0 <= m < init.len() implies init[m].0 != key by {
                    assert(init[m] == v[m]);
                }
            }
        }
        if forall|j: int| 0 <= j < v.len() ==> v[j].0 != key {
            assert forall|m: int| 0 <= m < init.len() implies init[m].0 != key by {
                assert(init[m] == v[m]);
            }
            assert(v.last() == v[v.len() - 1]);
        }
    }
}

/// Law: the first file in walk order keeps its key, in every run. Each run
/// starts from empty claims and claims its files, each a `(source key, raw
/// name)` pair, in walk order. What a run holds for a key is the first file of
/// the walk that carries it. When file `i` comes to claim, the claims hold for
/// its key the earliest earlier file `j` with that key, so [`KeyClaims::claim`]
/// refuses it with a `KeyCollision` naming both files; when no earlier file has
/// its key, nothing is held and its claim is taken. A rerun over the same walk
/// therefore keeps the same winner and refuses the same files again.
pub proof fn law_first_in_walk_order_wins(files: Seq<(Seq<char>, Seq<char>)>, key: Seq<char>)
    ensures
        first_claimant(claims_after(files), key) == first_claimant(files, key),
        forall|i: int|
            0 <= i < files.len() ==> #[trigger] first_claimant(claims_after(files.take(i)), files[i].0)
                == first_claimant(files.take(i), files[i].0),
        forall|i: int, j: int|
            #![trigger files[i], files[j]]
            0 <= j < i < files.len() && files[j].0 == files[i].0 && (forall|m: int|
                0 <= m < j ==> files[m].0 != files[i].0) ==> first_claimant(
                claims_after(files.take(i)),
                files[i].0,
            ) == Some(files[j].1),
        forall|i: int|
            0 <= i < files.len() && (forall|m: int| 0 <= m < i ==> files[m].0 != files[i].0)
                ==> #[trigger] first_claimant(claims_after(files.take(i)), files[i].0) is None,
{
    lemma_claims_after(files, key);
    assert forall|i: int| 0 <= i < files.len() implies #[trigger] first_claimant(
        claims_after(files.take(i)),
        files[i].0,
    ) == first_claimant(files.take(i), files[i].0) by {
        lemma_claims_after(files.take(i), files[i].0);
    }
    assert forall|i: int, j: int|
        #![trigger files[i], files[j]]
        0 <= j < i < files.len() && files[j].0 == files[i].0 && (forall|m: int|
            0 <= m < j ==> files[m].0 != files[i].0) implies first_claimant(
        claims_after(files.take(i)),
        files[i].0,
    ) == Some(files[j].1) by {
        let v = files.take(i);
        lemma_claims_after(v, files[i].0);
        lemma_first_claimant_is_earliest(v, files[i].0);
        assert(v[j] == files[j]);
        assert forall|m: int| 0 <= m < j implies v[m].0 != files[i].0 by {
            assert(v[m] == files[m]);
        }
    }
    assert forall|i: int|
        0 <= i < files.len() && (forall|m: int| 0 <= m < i ==> files[m].0 != files[i].0)
            implies #[trigger] first_claimant(claims_after(files.take(i)), files[i].0) is None by {
        let v = files.take(i);
        lemma_claims_after(v, files[i].0);
        lemma_first_claimant_is_earliest(v, files[i].0);
        assert forall|m: int| 0 <= m < v.len() implies v[m].0 != files[i].0 by {
            assert(v[m] == files[m]);
        }
    }
}

/// The fingerprint stored with a revision: the file's modification time and
/// size and the tool tag, as the JSON object the store keeps.
pub open spec fn fingerprint_text(mtime_ms: u64, size_bytes: u64) -> Seq<char> {
    "{\"mtime_ms\":"@ + decimal(mtime_ms as nat) + ",\"size_bytes\":"@ + decimal(
        size_bytes as nat,
    ) + ",\"tool\":\"momotaro-index-v1\"}"@
}

/// The fingerprint JSON for a file of `size_bytes` bytes last modified at
/// `mtime_ms` milliseconds after the epoch.
pub fn fingerprint_json(mtime_ms: u64, size_bytes: u64) -> (json: String)
    ensures
        json@ == fingerprint_text(mtime_ms, size_bytes),
{
    let mut json = owned("{\"mtime_ms\":");
    push_decimal(&mut json, mtime_ms);
    push_str(&mut json, ",\"size_bytes\":");
    push_decimal(&mut json, size_bytes);
    push_str(&mut json, ",\"tool\":\"momotaro-index-v1\"}");
    json
}

/// What `serde_json` reads as the unsigned integer under `field` of the JSON
/// object spelled by `json` (`None` when the text is not JSON, is not an
/// object, lacks the field, or holds something else there).
pub uninterp spec fn json_u64_field(json: Seq<char>, field: Seq<char>) -> Option<u64>;

/// Parses `json` with `serde_json` and reads `field` as a `u64`; the answer is
/// named [`json_u64_field`]. One fact of it is stated: on the fingerprint
/// object that [`fingerprint_json`] writes, `serde_json` reads the decimal
/// numbers it holds under `mtime_ms` and `size_bytes` back as those `u64`
/// values (a decimal integer within `u64` parses as one, `Value::get` finds the
/// key, `as_u64` returns it).
#[verifier::external_body]
fn read_u64_field(json: &str, field: &str) -> (value: Option<u64>)
    ensures
        value == json_u64_field(json@, field@),
        forall|m: u64, s: u64|
            #[trigger] fingerprint_text(m, s) == json@ ==> (field@ == "mtime_ms"@ ==> value == Some(m))
                && (field@ == "size_bytes"@ ==> value == Some(s)),
{
    match serde_json::from_str::<serde_json::Value>(json) {
        Ok(parsed) => parsed.get(field).and_then(serde_json::Value::as_u64),
        Err(_) => None,
    }
}

/// Whether a stored fingerprint records this modification time and size.
pub open spec fn fingerprint_agrees(metadata_json: Seq<char>, mtime_ms: u64, size_bytes: u64) -> bool {
    json_u64_field(metadata_json, "mtime_ms"@) == Some(mtime_ms) && json_u64_field(
        metadata_json,
        "size_bytes"@,
    ) == Some(size_bytes)
}

/// Matches a stored fingerprint against a file's current mtime and size.
///
/// A fingerprint written for this very time and size always matches.
pub fn fingerprint_matches(metadata_json: &str, mtime_ms: u64, size_bytes: u64) -> (r: bool)
    ensures
        r == fingerprint_agrees(metadata_json@, mtime_ms, size_bytes),
        metadata_json@ == fingerprint_text(mtime_ms, size_bytes) ==> r,
{
    let mtime = read_u64_field(metadata_json, "mtime_ms");
    let size = read_u64_field(metadata_json, "size_bytes");
    mtime == Some(mtime_ms) && size == Some(size_bytes)
}

/// Whether an optional stored string holds exactly `value`.
pub open spec fn holds_text(stored: Option<String>, value: Seq<char>) -> bool {
    match stored {
        Some(s) => s@ == value,
        None => false,
    }
}

fn stored_is(stored: &Option<String>, value: &str) -> (r: bool)
    ensures
        r == holds_text(*stored, value@),
{
    match stored {
        Some(s) => same_text(s.as_str(), value),
        None => false,
    }
}

/// Whether a file can be skipped: its current revision's fingerprint still
/// matches, and the stored path and raw name are the ones just derived (a
/// directory move keeps the fingerprint, so the path has to be compared too).
pub open spec fn unchanged(
    current: Option<SourceRevision>,
    mtime_ms: u64,
    size_bytes: u64,
    local_path: Seq<char>,
    raw_name: Seq<char>,
) -> bool {
    match current {
        Some(r) => fingerprint_agrees(r.metadata_json@, mtime_ms, size_bytes) && holds_text(
            r.local_path,
            local_path,
        ) && holds_text(r.raw_name, raw_name),
        None => false,
    }
}

/// Decides the skip: `true` when nothing about the file changed.
pub fn skip_unchanged(
    current: &Option<SourceRevision>,
    mtime_ms: u64,
    size_bytes: u64,
    local_path: &str,
    raw_name: &str,
) -> (skip: bool)
    ensures
        skip == unchanged(*current, mtime_ms, size_bytes, local_path@, raw_name@),
        match *current {
            Some(r) => r.metadata_json@ == fingerprint_text(mtime_ms, size_bytes) && holds_text(
                r.local_path,
                local_path@,
            ) && holds_text(r.raw_name, raw_name@) ==> skip,
            None => !skip,
        },
{
    match current {
        Some(r) => fingerprint_matches(r.metadata_json.as_str(), mtime_ms, size_bytes)
            && stored_is(&r.local_path, local_path) && stored_is(&r.raw_name, raw_name),
        None => false,
    }
}

/// Decides the refresh: the bytes hash to the current revision, so the
/// mutable columns are refreshed in place instead of appending a revision
/// that would say nothing new.
pub fn refresh_only(current: &Option<SourceRevision>, revision_hash: &str) -> (refresh: bool)
    ensures
        refresh == match *current {
            Some(r) => r.revision_hash@ == revision_hash@,
            None => false,
        },
{
    match current {
        Some(r) => same_text(r.revision_hash.as_str(), revision_hash),
        None => false,
    }
}

/// How one file of an index run ended.
#[derive(Debug, Clone, PartialEq, Eq)]
pub enum FileOutcome {
    /// Unchanged: skipped.
    Skipped,
    /// Same content, moved or re-spelled: refreshed in place.
    Refreshed,
    /// New content: a revision appended with this many chunks.
    Appended(u64),
    /// The file failed; the batch goes on.
    Failed(IndexFileError),
}

/// An empty report for a run over `files_scanned` files.
pub fn start_report(files_scanned: u64) -> (report: IndexReport)
    ensures
        report.files_scanned == files_scanned,
        report.files_skipped == 0,
        report.files_indexed == 0,
        report.revisions_created == 0,
        report.chunks_written == 0,
        report.errors@.len() == 0,
        report.duration_ms == 0,
        report_counts(report) == tallied(Seq::empty()),
{
    IndexReport {
        files_scanned,
        files_skipped: 0,
        files_indexed: 0,
        revisions_created: 0,
        chunks_written: 0,
        errors: Vec::new(),
        duration_ms: 0,
    }
}

/// Whether recording `outcome` keeps every counter in range.
pub open spec fn tally_fits(report: IndexReport, outcome: FileOutcome) -> bool {
    match outcome {
        FileOutcome::Skipped => report.files_skipped < u64::MAX,
        FileOutcome::Refreshed => report.files_indexed < u64::MAX,
        FileOutcome::Appended(n) => report.files_indexed < u64::MAX && report.revisions_created
            < u64::MAX && report.chunks_written + n <= u64::MAX,
        FileOutcome::Failed(_) => true,
    }
}

/// Decides whether recording `outcome` keeps every counter in range.
pub fn can_tally(report: &IndexReport, outcome: &FileOutcome) -> (r: bool)
    ensures
        r == tally_fits(*report, *outcome),
{
    match outcome {
        FileOutcome::Skipped => report.files_skipped < u64::MAX,
        FileOutcome::Refreshed => report.files_indexed < u64::MAX,
        FileOutcome::Appended(n) => report.files_indexed < u64::MAX && report.revisions_created
            < u64::MAX && report.chunks_written <= u64::MAX - *n,
        FileOutcome::Failed(_) => true,
    }
}

/// The counters that [`tally`] adds up over a run whose files ended as
/// `outcomes`, in order: skipped, indexed, revisions, chunks, failed.
pub open spec fn tallied(outcomes: Seq<FileOutcome>) -> (nat, nat, nat, nat, nat)
    decreases outcomes.len(),
{
    if outcomes.len() == 0 {
        (0, 0, 0, 0, 0)
    } else {
        let c = tallied(outcomes.drop_last());
        match outcomes.last() {
            FileOutcome::Skipped => ((c.0 + 1) as nat, c.1, c.2, c.3, c.4),
            FileOutcome::Refreshed => (c.0, (c.1 + 1) as nat, c.2, c.3, c.4),
            FileOutcome::Appended(n) => (c.0, (c.1 + 1) as nat, (c.2 + 1) as nat, (c.3 + n) as nat, c.4),
            FileOutcome::Failed(_) => (c.0, c.1, c.2, c.3, (c.4 + 1) as nat),
        }
    }
}

/// Law: re-indexing an unchanged vault writes nothing. A report that
/// [`start_report`] opened for `n` files and [`tally`] then fed with the
/// outcomes of those `n` files holds `report_counts == tallied(outcomes)` and
/// `files_scanned == n` (both functions state it). When every outcome is a
/// skip or a failure, the report shows no file indexed, no revision created,
/// no chunk written, and every scanned file that did not fail as skipped.
pub proof fn law_rerun_report_writes_nothing(report: IndexReport, outcomes: Seq<FileOutcome>)
    requires
        report_counts(report) == tallied(outcomes),
        report.files_scanned == outcomes.len(),
        forall|i: int|
            0 <= i < outcomes.len() ==> #[trigger] outcomes[i] == FileOutcome::Skipped
                || outcomes[i] is Failed,
    ensures
        report.files_indexed == 0,
        report.revisions_created == 0,
        report.chunks_written == 0,
        report.files_skipped == report.files_scanned - report.errors@.len(),
{
    law_quiet_run_writes_nothing(outcomes);
}

/// The counters of `report`, in the order of [`tallied`].
pub open spec fn report_counts(report: IndexReport) -> (nat, nat, nat, nat, nat) {
    (
        report.files_skipped as nat,
        report.files_indexed as nat,
        report.revisions_created as nat,
        report.chunks_written as nat,
        report.errors@.len(),
    )
}

/// Law: a rerun over files that did not change writes nothing. When every
/// file of a run is skipped (as [`skip_unchanged`] decides for a file whose
/// stored revision carries its fingerprint, path and name) or fails, the run
/// indexes no file, creates no revision and writes no chunk, and every file
/// is counted once, as skipped or as an error.
pub proof fn law_quiet_run_writes_nothing(outcomes: Seq<FileOutcome>)
    requires
        forall|i: int|
            0 <= i < outcomes.len() ==> #[trigger] outcomes[i] == FileOutcome::Skipped
                || outcomes[i] is Failed,
    ensures
        tallied(outcomes).1 == 0,
        tallied(outcomes).2 == 0,
        tallied(outcomes).3 == 0,
        tallied(outcomes).0 + tallied(outcomes).4 == outcomes.len(),
    decreases outcomes.len(),
{
    if outcomes.len() > 0 {
        let init = outcomes.drop_last();
        assert forall|i: int| 0 <= i < init.len() implies #[trigger] init[i] == FileOutcome::Skipped
            || init[i] is Failed by {
            assert(init[i] == outcomes[i]);
        }
        law_quiet_run_writes_nothing(init);
        assert(outcomes[outcomes.len() - 1] == outcomes.last());
    }
}

/// Records how one file ended: a skip, a refresh (indexed, no revision), an
/// append (indexed, one revision, its chunks), or a failure (kept in order).
pub fn tally(report: &mut IndexReport, outcome: FileOutcome)
    requires
        tally_fits(*old(report), outcome),
    ensures
        final(report).files_scanned == old(report).files_scanned,
        final(report).duration_ms == old(report).duration_ms,
        final(report).files_skipped == old(report).files_skipped + if outcome
            == FileOutcome::Skipped {
            1int
        } else {
            0int
        },
        final(report).files_indexed == old(report).files_indexed + match outcome {
            FileOutcome::Refreshed | FileOutcome::Appended(_) => 1int,
            _ => 0int,
        },
        final(report).revisions_created == old(report).revisions_created + match outcome {
            FileOutcome::Appended(_) => 1int,
            _ => 0int,
        },
        final(report).chunks_written == old(report).chunks_written + match outcome {
            FileOutcome::Appended(n) => n as int,
            _ => 0int,
        },
        final(report).errors@ == match outcome {
            FileOutcome::Failed(e) => old(report).errors@.push(e),
            _ => old(report).errors@,
        },
        forall|outcomes: Seq<FileOutcome>|
            report_counts(*old(report)) == #[trigger] tallied(outcomes) ==> report_counts(
                *final(report),
            ) == tallied(outcomes.push(outcome)),
{
    let ghost o = outcome;
    match outcome {
        FileOutcome::Skipped => {
            report.files_skipped = report.files_skipped + 1;
        },
        FileOutcome::Refreshed => {
            report.files_indexed = report.files_indexed + 1;
        },
        FileOutcome::Appended(n) => {
            report.files_indexed = report.files_indexed + 1;
            report.revisions_created = report.revisions_created + 1;
            report.chunks_written = report.chunks_written + n;
        },
        FileOutcome::Failed(e) => {
            report.errors.push(e);
        },
    }
    proof {
        assert forall|outcomes: Seq<FileOutcome>|
            report_counts(*old(report)) == #[trigger] tallied(outcomes) implies report_counts(
                *report,
            ) == tallied(outcomes.push(o)) by {
            assert(outcomes.push(o).drop_last() =~= outcomes);
            assert(outcomes.push(o).last() == o);
        }
    }
}

/// Why a search cannot run, with the text its error carries.
#[derive(Debug, Clone, PartialEq, Eq)]
pub enum SearchRefusal {
    /// An index directory exists but cannot be used: only a rebuild helps.
    IndexUnusable(String),
    /// The store is what is not ready.
    StoreUnhealthy(String),
    /// No index was ever built; carries the index directory as text.
    IndexNotBuilt(String),
}

/// The refusal a search gets before it opens the index: an unusable index is
/// named first (the store may still hold its chunks), then a store that is not
/// ready, and only then the advice to build an index at all.
pub fn search_refusal(
    unusable: Option<String>,
    index_exists: bool,
    store_fault: Option<String>,
    index_dir: &str,
) -> (refusal: Option<SearchRefusal>)
    ensures
        match unusable {
            Some(m) => refusal matches Some(SearchRefusal::IndexUnusable(x)) && x@ == m@,
            None => if index_exists {
                refusal is None
            } else {
                match store_fault {
                    Some(f) => refusal matches Some(SearchRefusal::StoreUnhealthy(x)) && x@ == f@,
                    None => refusal matches Some(SearchRefusal::IndexNotBuilt(x)) && x@
                        == index_dir@,
                }
            },
        },
{
    match unusable {
        Some(m) => Some(SearchRefusal::IndexUnusable(m)),
        None => {
            if index_exists {
                None
            } else {
                match store_fault {
                    Some(f) => Some(SearchRefusal::StoreUnhealthy(f)),
                    None => Some(SearchRefusal::IndexNotBuilt(owned(index_dir))),
                }
            }
        },
    }
}

/// The refusal a search gets after the index answered but before the hits are
/// cited: the citations come from the store, and a read path may not create
/// the database it has to read.
pub fn citation_refusal(file: StoreFile) -> (refusal: Option<SearchRefusal>)
    ensures
        file == StoreFile::Present <==> refusal is None,
        refusal matches Some(SearchRefusal::StoreUnhealthy(x)) ==> x@
            == "the database is missing or empty; run `momotaro index` to rebuild it and the index it feeds"@,
        refusal is None || refusal matches Some(SearchRefusal::StoreUnhealthy(_)),
{
    match file {
        StoreFile::Present => None,
        _ => Some(
            SearchRefusal::StoreUnhealthy(
                owned(
                    "the database is missing or empty; run `momotaro index` to rebuild it and the index it feeds",
                ),
            ),
        ),
    }
}

} // verus!
