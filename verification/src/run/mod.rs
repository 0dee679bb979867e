//! What the workspace commands decide and print: policy validation, the
//! `doctor` state machine, and every terminal line.

use vstd::prelude::*;

use crate::contracts::{
    error_kind_wire, workspace_status_name, HealthReport, IndexFileError, IndexFileErrorKind,
    IndexPolicy, IndexReport, SchemaVersion, SqliteFacts, WorkspaceStatus,
};
use crate::text::{
    chars_of, control_char, debug_quoted, debug_text, decimal, is_control_char, is_white_space,
    owned, push_char, push_decimal, push_str, white_space,
};

pub mod index_service;

verus! {

/// The vault name used when the configuration names none.
pub fn default_vault_name() -> (name: String)
    ensures
        name@ == "default"@,
{
    owned("default")
}

/// The reason a configured policy is refused, when it is.
pub open spec fn policy_refusal(policy: IndexPolicy) -> Option<Seq<char>> {
    if policy.lexical@ != "tantivy_bm25"@ {
        Some(
            "index.lexical "@ + debug_quoted(policy.lexical@)
                + " is not supported; only \"tantivy_bm25\""@,
        )
    } else if policy.hybrid {
        Some("index.hybrid must be false until a dense baseline exists"@)
    } else if policy.cjk_tokenizer@ != "cjk"@ {
        Some(
            "index.cjk_tokenizer "@ + debug_quoted(policy.cjk_tokenizer@)
                + " is not supported; only \"cjk\""@,
        )
    } else if policy.max_chunk_tokens < 2 * policy.chunk_overlap_tokens {
        Some(
            "index.max_chunk_tokens ("@ + decimal(policy.max_chunk_tokens as nat)
                + ") must be at least twice index.chunk_overlap_tokens ("@ + decimal(
                policy.chunk_overlap_tokens as nat,
            ) + ")"@,
        )
    } else {
        None
    }
}

/// Validates a configured policy against what this build implements: the
/// `tantivy_bm25` engine, no hybrid retrieval, the `cjk` tokenizer, and a
/// budget at least twice the overlap. `Err` carries the configuration message.
pub fn validate_policy(policy: &IndexPolicy) -> (r: Result<(), String>)
    ensures
        match r {
            Ok(()) => policy_refusal(*policy) is None,
            Err(message) => policy_refusal(*policy) == Some(message@),
        },
{
    if !crate::text::same_text(policy.lexical.as_str(), "tantivy_bm25") {
        let mut message = owned("index.lexical ");
        let quoted = debug_text(policy.lexical.as_str());
        push_str(&mut message, quoted.as_str());
        push_str(&mut message, " is not supported; only \"tantivy_bm25\"");
        return Err(message);
    }
    if policy.hybrid {
        return Err(owned("index.hybrid must be false until a dense baseline exists"));
    }
    if !crate::text::same_text(policy.cjk_tokenizer.as_str(), "cjk") {
        let mut message = owned("index.cjk_tokenizer ");
        let quoted = debug_text(policy.cjk_tokenizer.as_str());
        push_str(&mut message, quoted.as_str());
        push_str(&mut message, " is not supported; only \"cjk\"");
        return Err(message);
    }
    if (policy.max_chunk_tokens as u64) < 2 * (policy.chunk_overlap_tokens as u64) {
        let mut message = owned("index.max_chunk_tokens (");
        push_decimal(&mut message, policy.max_chunk_tokens as u64);
        push_str(&mut message, ") must be at least twice index.chunk_overlap_tokens (");
        push_decimal(&mut message, policy.chunk_overlap_tokens as u64);
        push_str(&mut message, ")");
        return Err(message);
    }
    Ok(())
}

/// A copy of a list of strings.
fn copy_strings(v: &Vec<String>) -> (out: Vec<String>)
    ensures
        out@ == v@,
{
    let mut out: Vec<String> = Vec::new();
    let mut i: usize = 0;
    while i < v.len()
        invariant
            i <= v@.len(),
            out@ == v@.take(i as int),
        decreases v@.len() - i,
    {
        out.push(v[i].clone());
        assert(out@ =~= v@.take(i + 1));
        i = i + 1;
    }
    assert(v@.take(v@.len() as int) =~= v@);
    out
}

/// Whether two sets of engine facts say the same thing.
pub open spec fn facts_match(a: SqliteFacts, b: SqliteFacts) -> bool {
    &&& a.version@ == b.version@
    &&& a.version_number == b.version_number
    &&& a.source_id@ == b.source_id@
    &&& a.compile_options@ == b.compile_options@
    &&& a.wal_reset_window == b.wal_reset_window
    &&& a.withdrawn_release == b.withdrawn_release
}

/// Whether a report carries `facts`.
pub open spec fn carries(r: HealthReport, facts: SqliteFacts) -> bool {
    r.sqlite matches Some(f) && facts_match(f, facts)
}

/// Whether `r` is `health` with the engine facts filled in.
pub open spec fn health_with(r: HealthReport, health: HealthReport, facts: SqliteFacts) -> bool {
    &&& r.status == health.status
    &&& r.schema_version == health.schema_version
    &&& r.message == health.message
    &&& carries(r, facts)
}

/// A copy of the engine facts.
pub fn copy_facts(facts: &SqliteFacts) -> (out: SqliteFacts)
    ensures
        facts_match(out, *facts),
{
    SqliteFacts {
        version: facts.version.clone(),
        version_number: facts.version_number,
        source_id: facts.source_id.clone(),
        compile_options: copy_strings(&facts.compile_options),
        wal_reset_window: facts.wal_reset_window,
        withdrawn_release: facts.withdrawn_release,
    }
}

/// The refusal sentence for an engine that must not write the workspace.
pub open spec fn refusal_text(facts: SqliteFacts) -> Option<Seq<char>> {
    if facts.withdrawn_release {
        Some(
            "bundled SQLite "@ + facts.version@
                + " is part of the withdrawn 3.52 series, which misreports integrity_check corruption; upgrade rusqlite to a release bundling 3.51.3 or newer"@,
        )
    } else if facts.wal_reset_window {
        Some(
            "bundled SQLite "@ + facts.version@
                + " sits in the WAL-reset window (3.7.0\u{2013}3.51.2, fixed in 3.51.3) and can corrupt a WAL database; upgrade rusqlite to a release bundling 3.51.3 or newer"@,
        )
    } else {
        None
    }
}

/// The refusal message for an engine that must not write this workspace.
///
/// Two distinct reasons with distinct advice, and neither ever names the
/// withdrawn 3.52 series as the way out.
pub fn engine_refusal_message(facts: &SqliteFacts) -> (r: Option<String>)
    ensures
        match r {
            Some(m) => refusal_text(*facts) == Some(m@),
            None => refusal_text(*facts) is None,
        },
{
    if facts.withdrawn_release {
        let mut m = owned("bundled SQLite ");
        push_str(&mut m, facts.version.as_str());
        push_str(
            &mut m,
            " is part of the withdrawn 3.52 series, which misreports integrity_check corruption; upgrade rusqlite to a release bundling 3.51.3 or newer",
        );
        return Some(m);
    }
    if facts.wal_reset_window {
        let mut m = owned("bundled SQLite ");
        push_str(&mut m, facts.version.as_str());
        push_str(
            &mut m,
            " sits in the WAL-reset window (3.7.0\u{2013}3.51.2, fixed in 3.51.3) and can corrupt a WAL database; upgrade rusqlite to a release bundling 3.51.3 or newer",
        );
        return Some(m);
    }
    None
}

/// What `doctor` has just learned.
#[derive(Debug, Clone, PartialEq, Eq)]
pub enum DoctorEvent {
    /// Nothing yet.
    Start,
    /// The configuration file could not be read; the path as text.
    ConfigMissing(String),
    /// The configuration file did not parse; the parser's message.
    ConfigInvalid(String),
    /// The configuration loaded.
    ConfigLoaded,
    /// The vault could not be resolved inside the workspace; the error text.
    VaultRefused(String),
    /// The vault resolved inside the workspace.
    VaultResolved,
    /// The vault directory does not exist; its path as text.
    VaultDirMissing(String),
    /// The vault directory exists.
    VaultDirPresent,
    /// The database file does not exist; its path as text.
    DatabaseMissing(String),
    /// The database file exists.
    DatabasePresent,
    /// The store's own health report.
    StoreHealth(HealthReport),
    /// The index check after a ready store: the store's report and the index
    /// problem, if any.
    IndexChecked(HealthReport, Option<String>),
}

/// What `doctor` must do next.
#[derive(Debug, Clone, PartialEq, Eq)]
pub enum DoctorStep {
    /// Read and parse the configuration.
    LoadConfig,
    /// Resolve the vault and prove it lies inside the workspace.
    ResolveVault,
    /// Check that the vault directory exists.
    CheckVaultDir,
    /// Check that the database file exists.
    CheckDatabase,
    /// Open the store and read its health.
    ReadStoreHealth,
    /// Check the derived index; carries the store's report.
    CheckIndex(HealthReport),
    /// The answer.
    Finish(HealthReport),
}

/// A report that carries the engine facts.
pub open spec fn report_with(
    r: HealthReport,
    facts: SqliteFacts,
    status: WorkspaceStatus,
    schema_version: Option<SchemaVersion>,
    message: Option<Seq<char>>,
) -> bool {
    &&& r.status == status
    &&& r.schema_version == schema_version
    &&& carries(r, facts)
    &&& match r.message {
        Some(m) => message == Some(m@),
        None => message is None,
    }
}

/// The step `doctor` takes after `event`.
pub open spec fn doctor_step_ok(facts: SqliteFacts, event: DoctorEvent, step: DoctorStep) -> bool {
    match event {
        DoctorEvent::Start => match refusal_text(facts) {
            Some(m) => step matches DoctorStep::Finish(r) && report_with(
                r,
                facts,
                WorkspaceStatus::Invalid,
                None,
                Some(m),
            ),
            None => step == DoctorStep::LoadConfig,
        },
        DoctorEvent::ConfigMissing(path) => step matches DoctorStep::Finish(r) && report_with(
                r,
            facts,
            WorkspaceStatus::Invalid,
            None,
            Some("configuration file is missing: "@ + path@),
        ),
        DoctorEvent::ConfigInvalid(detail) => step matches DoctorStep::Finish(r) && report_with(
                r,
            facts,
            WorkspaceStatus::Invalid,
            None,
            Some("configuration file is invalid: "@ + detail@),
        ),
        DoctorEvent::ConfigLoaded => step == DoctorStep::ResolveVault,
        DoctorEvent::VaultRefused(text) => step matches DoctorStep::Finish(r) && report_with(
                r,
            facts,
            WorkspaceStatus::Invalid,
            None,
            Some(text@),
        ),
        DoctorEvent::VaultResolved => step == DoctorStep::CheckVaultDir,
        DoctorEvent::VaultDirMissing(path) => step matches DoctorStep::Finish(r) && report_with(
                r,
            facts,
            WorkspaceStatus::Invalid,
            None,
            Some("vault path does not exist: "@ + path@),
        ),
        DoctorEvent::VaultDirPresent => step == DoctorStep::CheckDatabase,
        DoctorEvent::DatabaseMissing(path) => step matches DoctorStep::Finish(r) && report_with(
                r,
            facts,
            WorkspaceStatus::Uninitialized,
            None,
            Some("database is not initialized: "@ + path@),
        ),
        DoctorEvent::DatabasePresent => step == DoctorStep::ReadStoreHealth,
        DoctorEvent::StoreHealth(health) => if health.status == WorkspaceStatus::Ready {
            step == DoctorStep::CheckIndex(health)
        } else {
            step matches DoctorStep::Finish(r) && health_with(r, health, facts)
        },
        DoctorEvent::IndexChecked(health, problem) => match problem {
            Some(reason) => step matches DoctorStep::Finish(r) && report_with(
                r,
                facts,
                WorkspaceStatus::Invalid,
                health.schema_version,
                Some(reason@),
            ),
            None => step matches DoctorStep::Finish(r) && health_with(r, health, facts),
        },
    }
}

fn prefixed(prefix: &str, tail: &String) -> (s: String)
    ensures
        s@ == prefix@ + tail@,
{
    let mut s = owned(prefix);
    push_str(&mut s, tail.as_str());
    s
}

/// The `doctor` decisions: the engine refusal first, then configuration,
/// vault, database, store health and index, each answered or handed on.
/// Every report carries the engine facts.
pub fn doctor_next(facts: &SqliteFacts, event: DoctorEvent) -> (step: DoctorStep)
    ensures
        doctor_step_ok(*facts, event, step),
{
    match event {
        DoctorEvent::Start => match engine_refusal_message(facts) {
            Some(m) => DoctorStep::Finish(
                HealthReport {
                    status: WorkspaceStatus::Invalid,
                    schema_version: None,
                    sqlite: Some(copy_facts(facts)),
                    message: Some(m),
                },
            ),
            None => DoctorStep::LoadConfig,
        },
        DoctorEvent::ConfigMissing(path) => DoctorStep::Finish(
            HealthReport {
                status: WorkspaceStatus::Invalid,
                schema_version: None,
                sqlite: Some(copy_facts(facts)),
                message: Some(prefixed("configuration file is missing: ", &path)),
            },
        ),
        DoctorEvent::ConfigInvalid(detail) => DoctorStep::Finish(
            HealthReport {
                status: WorkspaceStatus::Invalid,
                schema_version: None,
                sqlite: Some(copy_facts(facts)),
                message: Some(prefixed("configuration file is invalid: ", &detail)),
            },
        ),
        DoctorEvent::ConfigLoaded => DoctorStep::ResolveVault,
        DoctorEvent::VaultRefused(text) => DoctorStep::Finish(
            HealthReport {
                status: WorkspaceStatus::Invalid,
                schema_version: None,
                sqlite: Some(copy_facts(facts)),
                message: Some(text),
            },
        ),
        DoctorEvent::VaultResolved => DoctorStep::CheckVaultDir,
        DoctorEvent::VaultDirMissing(path) => DoctorStep::Finish(
            HealthReport {
                status: WorkspaceStatus::Invalid,
                schema_version: None,
                sqlite: Some(copy_facts(facts)),
                message: Some(prefixed("vault path does not exist: ", &path)),
            },
        ),
        DoctorEvent::VaultDirPresent => DoctorStep::CheckDatabase,
        DoctorEvent::DatabaseMissing(path) => DoctorStep::Finish(
            HealthReport {
                status: WorkspaceStatus::Uninitialized,
                schema_version: None,
                sqlite: Some(copy_facts(facts)),
                message: Some(prefixed("database is not initialized: ", &path)),
            },
        ),
        DoctorEvent::DatabasePresent => DoctorStep::ReadStoreHealth,
        DoctorEvent::StoreHealth(health) => {
            if health.status == WorkspaceStatus::Ready {
                DoctorStep::CheckIndex(health)
            } else {
                DoctorStep::Finish(HealthReport { sqlite: Some(copy_facts(facts)), ..health })
            }
        },
        DoctorEvent::IndexChecked(health, problem) => match problem {
            Some(reason) => DoctorStep::Finish(
                HealthReport {
                    status: WorkspaceStatus::Invalid,
                    schema_version: health.schema_version,
                    sqlite: Some(copy_facts(facts)),
                    message: Some(reason),
                },
            ),
            None => DoctorStep::Finish(HealthReport { sqlite: Some(copy_facts(facts)), ..health }),
        },
    }
}

/// Law: every answer `doctor` gives carries the engine facts it was given.
pub proof fn law_every_doctor_report_names_the_engine(
    facts: SqliteFacts,
    event: DoctorEvent,
    step: DoctorStep,
)
    requires
        doctor_step_ok(facts, event, step),
    ensures
        step matches DoctorStep::Finish(r) ==> carries(r, facts),
{
}

/// Law: an engine that must not write the workspace invalidates every other
/// answer — it is decided before anything about the workspace is read.
pub proof fn law_refused_engine_is_decided_first(facts: SqliteFacts, step: DoctorStep)
    requires
        doctor_step_ok(facts, DoctorEvent::Start, step),
        facts.withdrawn_release || facts.wal_reset_window,
    ensures
        step matches DoctorStep::Finish(r) && r.status == WorkspaceStatus::Invalid,
{
}

/// Law: `doctor` reports a ready workspace only after a ready store and an
/// index with nothing wrong.
pub proof fn law_ready_only_with_usable_index(
    facts: SqliteFacts,
    event: DoctorEvent,
    step: DoctorStep,
)
    requires
        doctor_step_ok(facts, event, step),
        step matches DoctorStep::Finish(r) && r.status == WorkspaceStatus::Ready,
    ensures
        event matches DoctorEvent::IndexChecked(health, problem) && problem is None && health.status
            == WorkspaceStatus::Ready,
{
}

/// Whether a health report says the workspace is usable.
pub fn is_healthy(report: &HealthReport) -> (r: bool)
    ensures
        r == (report.status == WorkspaceStatus::Ready),
{
    report.status == WorkspaceStatus::Ready
}

/// The format characters that reorder or hide text: soft hyphen, Arabic letter
/// mark, Mongolian vowel separator, zero-width and directional marks, bidi
/// embeddings and overrides, word joiner through invisible operators, the BOM
/// and the tag characters.
pub open spec fn is_hiding_format(u: u32) -> bool {
    ||| u == 0xad
    ||| u == 0x61c
    ||| u == 0x180e
    ||| 0x200b <= u <= 0x200f
    ||| 0x202a <= u <= 0x202e
    ||| 0x2060 <= u <= 0x206f
    ||| u == 0xfeff
    ||| 0xe0000 <= u <= 0xe007f
}

/// Whether `c` must never reach a terminal: controls plus the hiding formats.
pub open spec fn is_unprintable_char(c: char) -> bool {
    is_control_char(c) || is_hiding_format(c as u32)
}

/// Whether `c` must never reach a terminal.
pub fn is_unprintable(c: char) -> (r: bool)
    ensures
        r == is_unprintable_char(c),
{
    let u = c as u32;
    control_char(c) || u == 0xad || u == 0x61c || u == 0x180e || (0x200b <= u && u <= 0x200f) || (
    0x202a <= u && u <= 0x202e) || (0x2060 <= u && u <= 0x206f) || u == 0xfeff || (0xe0000 <= u
        && u <= 0xe007f)
}

/// `s` with line breaks and other whitespace turned into spaces and every
/// unprintable character dropped.
pub open spec fn sanitized(s: Seq<char>) -> Seq<char>
    decreases s.len(),
{
    if s.len() == 0 {
        seq![]
    } else {
        let c = if is_white_space(s.last()) {
            ' '
        } else {
            s.last()
        };
        if is_unprintable_char(c) {
            sanitized(s.drop_last())
        } else {
            sanitized(s.drop_last()).push(c)
        }
    }
}

/// Removes characters that could drive or spoof a printed line.
pub fn sanitize(text: &str) -> (out: String)
    ensures
        out@ == sanitized(text@),
{
    let chars = chars_of(text);
    let mut out = String::new();
    let mut i: usize = 0;
    while i < chars.len()
        invariant
            i <= chars@.len(),
            out@ == sanitized(chars@.take(i as int)),
        decreases chars@.len() - i,
    {
        assert(chars@.take(i + 1).drop_last() =~= chars@.take(i as int));
        let c = if white_space(chars[i]) {
            ' '
        } else {
            chars[i]
        };
        if !is_unprintable(c) {
            push_char(&mut out, c);
        }
        i = i + 1;
    }
    assert(chars@.take(chars@.len() as int) =~= text@);
    out
}

/// Law: a sanitized line holds no unprintable character and no whitespace but
/// the plain space.
pub proof fn law_sanitized_is_printable(s: Seq<char>)
    ensures
        forall|i: int|
            0 <= i < sanitized(s).len() ==> !is_unprintable_char(#[trigger] sanitized(s)[i]) && (
            is_white_space(sanitized(s)[i]) ==> sanitized(s)[i] == ' '),
    decreases s.len(),
{
    if s.len() > 0 {
        law_sanitized_is_printable(s.drop_last());
        let init = sanitized(s.drop_last());
        let out = sanitized(s);
        assert forall|i: int| 0 <= i < out.len() implies !is_unprintable_char(#[trigger] out[i]) && (
        is_white_space(out[i]) ==> out[i] == ' ') by {
            if i < init.len() {
                assert(out[i] == init[i]);
            }
        }
    }
}

/// Text that is already printable, with plain spaces only, is left as it is.
proof fn lemma_sanitized_keeps_clean(t: Seq<char>)
    requires
        forall|i: int|
            0 <= i < t.len() ==> !is_unprintable_char(#[trigger] t[i]) && (is_white_space(t[i])
                ==> t[i] == ' '),
    ensures
        sanitized(t) == t,
    decreases t.len(),
{
    if t.len() > 0 {
        let init = t.drop_last();
        assert forall|i: int| 0 <= i < init.len() implies !is_unprintable_char(#[trigger] init[i])
            && (is_white_space(init[i]) ==> init[i] == ' ') by {
            assert(init[i] == t[i]);
        }
        lemma_sanitized_keeps_clean(init);
        assert(t.last() == t[t.len() - 1]);
        assert(init.push(t.last()) =~= t);
    }
}

/// Law: sanitizing a sanitized line changes nothing.
pub proof fn law_sanitize_is_idempotent(s: Seq<char>)
    ensures
        sanitized(sanitized(s)) == sanitized(s),
{
    law_sanitized_is_printable(s);
    lemma_sanitized_keeps_clean(sanitized(s));
}

/// Longest excerpt printed on the excerpt line, in characters.
pub const EXCERPT_LINE_CHARS: usize = 100;

/// The excerpt line: sanitized, cut to 100 characters with `...` when cut.
pub open spec fn excerpt_line(excerpt: Seq<char>) -> Seq<char> {
    let cleaned = sanitized(excerpt);
    if cleaned.len() <= 100 {
        cleaned
    } else {
        cleaned.take(100) + "..."@
    }
}

/// Renders the excerpt line under one search hit.
pub fn format_search_excerpt(excerpt: &str) -> (line: String)
    ensures
        line@ == excerpt_line(excerpt@),
{
    let cleaned = sanitize(excerpt);
    let chars = chars_of(cleaned.as_str());
    if chars.len() <= EXCERPT_LINE_CHARS {
        return cleaned;
    }
    let mut line = String::new();
    let mut i: usize = 0;
    while i < EXCERPT_LINE_CHARS
        invariant
            i <= 100,
            chars@.len() > 100,
            line@ == chars@.take(i as int),
        decreases 100 - i,
    {
        push_char(&mut line, chars[i]);
        assert(chars@.take(i + 1) =~= chars@.take(i as int).push(chars@[i as int]));
        i = i + 1;
    }
    push_str(&mut line, "...");
    line
}

/// Outcome of one `momotaro rebuild-index` invocation.
#[derive(Debug, Clone, PartialEq, Eq)]
pub struct RebuildReport {
    /// Chunks re-indexed from canonical storage.
    pub chunks: u64,
    /// Wall-clock duration of the run.
    pub duration_ms: u64,
    /// Why the previous index had to be thrown away, when it did.
    pub replaced_stale: Option<String>,
}

/// The rebuild line.
pub open spec fn rebuild_line(r: RebuildReport) -> Seq<char> {
    let base = "rebuilt index over "@ + decimal(r.chunks as nat) + " chunks in "@ + decimal(
        r.duration_ms as nat,
    ) + " ms"@;
    match r.replaced_stale {
        Some(reason) => base + " (discarded an unusable index: "@ + sanitized(reason@) + ")"@,
        None => base,
    }
}

/// Renders one rebuild report as a terminal line; a replaced stale index is
/// said out loud, its reason sanitized.
pub fn format_rebuild(report: &RebuildReport) -> (line: String)
    ensures
        line@ == rebuild_line(*report),
{
    let mut line = owned("rebuilt index over ");
    push_decimal(&mut line, report.chunks);
    push_str(&mut line, " chunks in ");
    push_decimal(&mut line, report.duration_ms);
    push_str(&mut line, " ms");
    match &report.replaced_stale {
        Some(reason) => {
            push_str(&mut line, " (discarded an unusable index: ");
            let cleaned = sanitize(reason.as_str());
            push_str(&mut line, cleaned.as_str());
            push_str(&mut line, ")");
        },
        None => {},
    }
    line
}

/// The health line.
pub open spec fn health_line(r: HealthReport) -> Seq<char> {
    let line = if r.status == WorkspaceStatus::Ready {
        "workspace is ready"@
    } else {
        match r.message {
            Some(m) => "workspace "@ + workspace_status_name(r.status) + ": "@ + sanitized(m@),
            None => "workspace "@ + workspace_status_name(r.status),
        }
    };
    match r.sqlite {
        Some(facts) => line + " (SQLite "@ + facts.version@ + ")"@,
        None => line,
    }
}

/// Law: a report that is not ready is never rendered as ready — its line
/// opens with the status name where a ready line says "is ready".
pub proof fn law_unready_is_not_rendered_ready(r: HealthReport)
    requires
        r.status != WorkspaceStatus::Ready,
    ensures
        !"workspace is ready"@.is_prefix_of(health_line(r)),
        health_line(r).take(10) == "workspace "@,
{
    reveal_strlit("workspace is ready");
    reveal_strlit("workspace ");
    reveal_strlit("Invalid");
    reveal_strlit("Uninitialized");
    let line = health_line(r);
    let name = workspace_status_name(r.status);
    assert(line[10] == name[0]);
    assert("workspace is ready"@[10] == 'i');
    assert(line.take(10) =~= "workspace "@);
    if "workspace is ready"@.is_prefix_of(line) {
        assert(line[10] == "workspace is ready"@[10]);
    }
}

/// Renders one workspace health report as a terminal line; a report that is
/// not ready says why, and the engine version is always named when known.
pub fn format_health(report: &HealthReport) -> (line: String)
    ensures
        line@ == health_line(*report),
{
    let mut line = String::new();
    if report.status == WorkspaceStatus::Ready {
        push_str(&mut line, "workspace is ready");
    } else {
        push_str(&mut line, "workspace ");
        push_str(&mut line, report.status.debug_name());
        match &report.message {
            Some(m) => {
                push_str(&mut line, ": ");
                let cleaned = sanitize(m.as_str());
                push_str(&mut line, cleaned.as_str());
            },
            None => {},
        }
    }
    match &report.sqlite {
        Some(facts) => {
            push_str(&mut line, " (SQLite ");
            push_str(&mut line, facts.version.as_str());
            push_str(&mut line, ")");
        },
        None => {},
    }
    line
}

/// The index-error line: the key quoted and escaped, the typed kind, and the
/// sanitized message.
pub open spec fn index_error_line(e: IndexFileError) -> Seq<char> {
    let key = match e.source_key {
        Some(k) => k@,
        None => "<no key>"@,
    };
    debug_quoted(key) + ": "@ + error_kind_wire(e.kind) + ": "@ + sanitized(e.message@)
}

/// Renders one per-file index failure as a terminal line.
pub fn format_index_error(error: &IndexFileError) -> (line: String)
    ensures
        line@ == index_error_line(*error),
{
    let mut line = match &error.source_key {
        Some(k) => debug_text(k.as_str()),
        None => debug_text("<no key>"),
    };
    push_str(&mut line, ": ");
    push_str(&mut line, error.kind.as_str());
    push_str(&mut line, ": ");
    let cleaned = sanitize(error.message.as_str());
    push_str(&mut line, cleaned.as_str());
    line
}

/// How many errors are key collisions.
pub open spec fn collision_count(errors: Seq<IndexFileError>) -> nat
    decreases errors.len(),
{
    if errors.len() == 0 {
        0
    } else {
        collision_count(errors.drop_last()) + if errors.last().kind
            == IndexFileErrorKind::KeyCollision {
            1nat
        } else {
            0nat
        }
    }
}

proof fn lemma_collision_count_bound(errors: Seq<IndexFileError>)
    ensures
        collision_count(errors) <= errors.len(),
    decreases errors.len(),
{
    if errors.len() > 0 {
        lemma_collision_count_bound(errors.drop_last());
    }
}

/// The index summary line.
pub open spec fn summary_line(r: IndexReport) -> Seq<char> {
    "indexed "@ + decimal(r.files_indexed as nat) + " of "@ + decimal(r.files_scanned as nat)
        + " files ("@ + decimal(r.revisions_created as nat) + " new revisions, "@ + decimal(
        r.files_skipped as nat,
    ) + " unchanged), "@ + decimal(r.chunks_written as nat) + " chunks, "@ + decimal(
        r.errors@.len(),
    ) + " errors ("@ + decimal(collision_count(r.errors@)) + " key collisions) in "@ + decimal(
        r.duration_ms as nat,
    ) + " ms"@
}

/// Renders the human one-line summary of an index run, collision count
/// included: collisions stay exit-code neutral, so this line is how a caller
/// notices them.
pub fn format_index_summary(report: &IndexReport) -> (line: String)
    ensures
        line@ == summary_line(*report),
{
    let mut collisions: usize = 0;
    let mut i: usize = 0;
    while i < report.errors.len()
        invariant
            i <= report.errors@.len(),
            collisions == collision_count(report.errors@.take(i as int)),
        decreases report.errors@.len() - i,
    {
        assert(report.errors@.take(i + 1).drop_last() =~= report.errors@.take(i as int));
        proof {
            lemma_collision_count_bound(report.errors@.take(i as int));
        }
        if report.errors[i].kind == IndexFileErrorKind::KeyCollision {
            collisions = collisions + 1;
        }
        i = i + 1;
    }
    assert(report.errors@.take(report.errors@.len() as int) =~= report.errors@);
    let mut line = owned("indexed ");
    push_decimal(&mut line, report.files_indexed);
    push_str(&mut line, " of ");
    push_decimal(&mut line, report.files_scanned);
    push_str(&mut line, " files (");
    push_decimal(&mut line, report.revisions_created);
    push_str(&mut line, " new revisions, ");
    push_decimal(&mut line, report.files_skipped);
    push_str(&mut line, " unchanged), ");
    push_decimal(&mut line, report.chunks_written);
    push_str(&mut line, " chunks, ");
    push_decimal(&mut line, report.errors.len() as u64);
    push_str(&mut line, " errors (");
    push_decimal(&mut line, collisions as u64);
    push_str(&mut line, " key collisions) in ");
    push_decimal(&mut line, report.duration_ms);
    push_str(&mut line, " ms");
    line
}

} // verus!
