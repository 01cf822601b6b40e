//! Importing a published playbook into a repository, updating an import, and previewing
//! one: the decisions taken at each step. The app performs each step's reads and writes
//! and hands the outcome to the next decision.
use vstd::prelude::*;
use crate::community::{
    not_found, publication_id, publication_id_spec, safe_transport, safe_transport_spec, service_role_key, str_contains,
    unavailable, CommunityImportRecord, Diagnostic, SourceDetail,
};
use crate::text::{contains_seq, owned, str_eq};
use vstd::string::StringSliceAdditionalSpecFns;

verus! {

pub open spec fn no_repo() -> Seq<char> {
    "select a repository before saving a repo playbook"@
}

/// The outcome of importing a publication.
pub enum ImportResult {
    /// Saved as the repository playbook `key`.
    Saved { key: String, imported_version: u64, local_sha256: String },
    NeedsAccount,
    Conflict { local_key: String },
    AlreadyDownloaded,
    Invalid { diagnostics: Vec<Diagnostic> },
    Failed { message: String },
}

/// The outcome of updating an import.
pub enum UpdateResult {
    Saved { key: String, imported_version: u64, local_sha256: String },
    NeedsAccount,
    Edited,
    Invalid { diagnostics: Vec<Diagnostic> },
    Failed { message: String },
}

/// The outcome of previewing a publication.
pub enum PreviewResult {
    Loaded { source: String },
    NeedsAccount,
    Failed { message: String },
}

/// Why downloading a publication's source stopped.
pub enum DownloadError {
    /// The library answered, and this is what to tell the user.
    Message(String),
    /// No usable account token.
    NeedsAccount,
    /// The request did not complete; the transport's own words.
    Transport(String),
}

/// Why saving the downloaded document as a repository playbook failed.
pub enum SaveError {
    Invalid { diagnostics: Vec<Diagnostic> },
    Conflict { key: String },
    Io { message: String },
    ReadOnly,
    Unknown,
}

/// Failed with this message.
pub open spec fn import_failed(r: ImportResult, m: Seq<char>) -> bool {
    r matches ImportResult::Failed { message } && message@ == m
}

pub open spec fn update_failed(r: UpdateResult, m: Seq<char>) -> bool {
    r matches UpdateResult::Failed { message } && message@ == m
}

/// What is checked before anything is read: the id names a publication, an account is
/// signed in, and a repository is selected.
pub fn import_gate(id: &str, token_present: bool, repo_selected: bool) -> (r: Option<ImportResult>)
    ensures
        !publication_id_spec(id.spec_bytes()) ==> (r matches Some(x) && import_failed(x, not_found())),
        publication_id_spec(id.spec_bytes()) && !token_present ==> r matches Some(ImportResult::NeedsAccount),
        publication_id_spec(id.spec_bytes()) && token_present && !repo_selected ==> (r matches Some(x)
            && import_failed(x, no_repo())),
        publication_id_spec(id.spec_bytes()) && token_present && repo_selected ==> r is None,
{
    if !publication_id(id) {
        Some(ImportResult::Failed { message: owned("Playbook not found.") })
    } else if !token_present {
        Some(ImportResult::NeedsAccount)
    } else if !repo_selected {
        Some(ImportResult::Failed { message: owned("select a repository before saving a repo playbook") })
    } else {
        None
    }
}

/// Whether some record imports publication `id`.
pub open spec fn has_id(records: Seq<CommunityImportRecord>, id: Seq<char>) -> bool {
    exists|k: int| 0 <= k < records.len() && (#[trigger] records[k]).id@ == id
}

/// The registry step of an import: a publication already imported is not downloaded
/// again, and a registry that cannot be read stops the import with its message.
pub fn import_registry_step(records: &Result<Vec<CommunityImportRecord>, String>, id: &str) -> (r: Option<ImportResult>)
    ensures
        match records {
            Ok(v) => if has_id(v@, id@) {
                r matches Some(ImportResult::AlreadyDownloaded)
            } else {
                r is None
            },
            Err(m) => r matches Some(x) && import_failed(x, m@),
        },
{
    match records {
        Err(m) => Some(ImportResult::Failed { message: owned(m.as_str()) }),
        Ok(v) => {
            let mut i: usize = 0;
            while i < v.len()
                invariant
                    records matches Ok(w) && w@ == v@,
                    i <= v@.len(),
                    forall|k: int| 0 <= k < i ==> (#[trigger] v@[k]).id@ != id@,
                decreases v@.len() - i,
            {
                if str_eq(v[i].id.as_str(), id) {
                    assert(v@[i as int].id@ == id@);
                    return Some(ImportResult::AlreadyDownloaded);
                }
                i = i + 1;
            }
            None
        },
    }
}

/// What a stopped download tells the user of an import: a missing account, the
/// library's own message, or a transport failure named without its details.
pub open spec fn download_stop_ok(r: ImportResult, e: DownloadError) -> bool {
    match e {
        DownloadError::NeedsAccount => r matches ImportResult::NeedsAccount,
        DownloadError::Message(m) => import_failed(r, m@),
        DownloadError::Transport(t) => import_failed(r, safe_transport_spec(t@)),
    }
}

pub fn download_stop(e: DownloadError) -> (r: ImportResult)
    ensures
        download_stop_ok(r, e),
{
    match e {
        DownloadError::NeedsAccount => ImportResult::NeedsAccount,
        DownloadError::Message(m) => ImportResult::Failed { message: m },
        DownloadError::Transport(t) => ImportResult::Failed { message: safe_transport(t.as_str()) },
    }
}

/// A repository playbook already at the key is only replaced when the user said so.
pub fn conflict_step(key: &str, previous_exists: bool, overwrite: bool) -> (r: Option<ImportResult>)
    ensures
        previous_exists && !overwrite ==> (r matches Some(ImportResult::Conflict { local_key }) && local_key@ == key@),
        !(previous_exists && !overwrite) ==> r is None,
{
    if previous_exists && !overwrite {
        Some(ImportResult::Conflict { local_key: owned(key) })
    } else {
        None
    }
}

/// What a failed save tells the user.
pub open spec fn save_failure_ok(r: ImportResult, e: SaveError) -> bool {
    match e {
        SaveError::Invalid { diagnostics } => r matches ImportResult::Invalid { diagnostics: d } && d == diagnostics,
        SaveError::Conflict { key } => r matches ImportResult::Conflict { local_key } && local_key@ == key@,
        SaveError::Io { message } => import_failed(r, message@),
        SaveError::ReadOnly | SaveError::Unknown => import_failed(r, crate::community::unreachable()),
    }
}

pub fn save_failure(e: SaveError) -> (r: ImportResult)
    ensures
        save_failure_ok(r, e),
{
    match e {
        SaveError::Invalid { diagnostics } => ImportResult::Invalid { diagnostics },
        SaveError::Conflict { key } => ImportResult::Conflict { local_key: key },
        SaveError::Io { message } => ImportResult::Failed { message },
        SaveError::ReadOnly | SaveError::Unknown => ImportResult::Failed {
            message: owned("Could not reach the playbook library."),
        },
    }
}

/// The registry entry of a saved import.
pub open spec fn import_record_ok(
    r: CommunityImportRecord,
    detail: SourceDetail,
    key: Seq<char>,
    id: Seq<char>,
    sha: Seq<char>,
    at: Seq<char>,
) -> bool {
    &&& r.id@ == id
    &&& r.label@ == detail.label@
    &&& r.playbook_key@ == detail.playbook_key@
    &&& r.local_scope@ == "repo"@
    &&& r.local_key@ == key
    &&& r.imported_version == detail.version
    &&& r.local_sha256@ == sha
    &&& r.imported_at@ == at
}

pub fn import_record(detail: &SourceDetail, key: &str, id: &str, sha: &str, imported_at: &str) -> (r:
    CommunityImportRecord)
    ensures
        import_record_ok(r, *detail, key@, id@, sha@, imported_at@),
{
    CommunityImportRecord {
        id: owned(id),
        label: owned(detail.label.as_str()),
        playbook_key: owned(detail.playbook_key.as_str()),
        local_scope: owned("repo"),
        local_key: owned(key),
        imported_version: detail.version,
        local_sha256: owned(sha),
        imported_at: owned(imported_at),
    }
}

/// The end of an import once the document is saved: the saved text's hash, then the
/// registry write. A failure at either step undoes the save (the app restores the
/// previous file or deletes the new one) and is reported; a registry message that names
/// the service-role key is not shown.
pub open spec fn finish_ok(
    r: ImportResult,
    hash: Result<Seq<char>, ()>,
    registry_write: Option<Result<(), Seq<char>>>,
    key: Seq<char>,
    version: u64,
) -> bool {
    match hash {
        Err(_) => import_failed(r, crate::community::unreachable()),
        Ok(sha) => match registry_write {
            None => false,
            Some(Err(m)) => import_failed(
                r,
                if contains_seq(m, service_role_key()) {
                    unavailable()
                } else {
                    m
                },
            ),
            Some(Ok(())) => r matches ImportResult::Saved { key: k, imported_version: v, local_sha256: s } && k@
                == key && v == version && s@ == sha,
        },
    }
}

/// The outcome of the last two steps; `registry_write` is the result of writing the
/// registry, which happens only when the hash was computed.
pub fn finish_import(
    hash: Result<String, ()>,
    registry_write: Option<Result<(), String>>,
    key: &str,
    version: u64,
) -> (r: ImportResult)
    requires
        hash is Ok ==> registry_write is Some,
    ensures
        finish_ok(
            r,
            match hash {
                Ok(h) => Ok(h@),
                Err(()) => Err(()),
            },
            match registry_write {
                Some(Ok(())) => Some(Ok(())),
                Some(Err(m)) => Some(Err(m@)),
                None => None,
            },
            key@,
            version,
        ),
{
    match hash {
        Err(()) => ImportResult::Failed { message: owned("Could not reach the playbook library.") },
        Ok(sha) => match registry_write {
            Some(Err(m)) => ImportResult::Failed {
                message: if str_contains(m.as_str(), "SUPABASE_SERVICE_ROLE_KEY") {
                    owned("Playbook library is unavailable.")
                } else {
                    m
                },
            },
            Some(Ok(())) => ImportResult::Saved { key: owned(key), imported_version: version, local_sha256: sha },
            None => ImportResult::Failed { message: owned("Could not reach the playbook library.") },
        },
    }
}

/// What is checked before an update reads anything.
pub fn update_gate(id: &str, token_present: bool, repo_selected: bool) -> (r: Option<UpdateResult>)
    ensures
        !publication_id_spec(id.spec_bytes()) ==> (r matches Some(x) && update_failed(x, not_found())),
        publication_id_spec(id.spec_bytes()) && !token_present ==> r matches Some(UpdateResult::NeedsAccount),
        publication_id_spec(id.spec_bytes()) && token_present && !repo_selected ==> (r matches Some(x)
            && update_failed(x, no_repo())),
        publication_id_spec(id.spec_bytes()) && token_present && repo_selected ==> r is None,
{
    match import_gate(id, token_present, repo_selected) {
        Some(x) => Some(update_from_import(x)),
        None => None,
    }
}

/// The first record of publication `id`.
pub open spec fn first_with_id(records: Seq<CommunityImportRecord>, id: Seq<char>) -> Option<int>
    decreases records.len(),
{
    if records.len() == 0 {
        None
    } else {
        match first_with_id(records.drop_last(), id) {
            Some(k) => Some(k),
            None => if records.last().id@ == id {
                Some(records.len() - 1)
            } else {
                None
            },
        }
    }
}

proof fn lemma_first_with_id(records: Seq<CommunityImportRecord>, id: Seq<char>, i: int)
    requires
        0 <= i < records.len(),
        records[i].id@ == id,
        forall|k: int| 0 <= k < i ==> (#[trigger] records[k]).id@ != id,
    ensures
        first_with_id(records, id) == Some(i),
    decreases records.len(),
{
    if records.len() - 1 != i {
        lemma_first_with_id(records.drop_last(), id, i);
    } else {
        lemma_first_with_id_none(records.drop_last(), id);
    }
}

proof fn lemma_first_with_id_none(records: Seq<CommunityImportRecord>, id: Seq<char>)
    requires
        forall|k: int| 0 <= k < records.len() ==> (#[trigger] records[k]).id@ != id,
    ensures
        first_with_id(records, id) is None,
    decreases records.len(),
{
    if records.len() > 0 {
        lemma_first_with_id_none(records.drop_last(), id);
    }
}

/// The registry step of an update: the import record of publication `id`.
pub fn update_registry_step(records: Result<Vec<CommunityImportRecord>, String>, id: &str) -> (r: Result<
    CommunityImportRecord,
    UpdateResult,
>)
    ensures
        match records {
            Err(m) => r matches Err(x) && update_failed(x, m@),
            Ok(v) => match first_with_id(v@, id@) {
                Some(k) => r == Ok::<CommunityImportRecord, UpdateResult>(v@[k]),
                None => r matches Err(x) && update_failed(x, not_found()),
            },
        },
{
    match records {
        Err(m) => Err(UpdateResult::Failed { message: m }),
        Ok(v) => {
            let ghost all = v@;
            let n = v.len();
            let mut rest = v;
            let mut i: usize = 0;
            while rest.len() > 0
                invariant
                    records matches Ok(w) && w@ == all,
                    all.len() == n,
                    i <= all.len(),
                    rest@ == all.skip(i as int),
                    forall|k: int| 0 <= k < i ==> (#[trigger] all[k]).id@ != id@,
                decreases rest@.len(),
            {
                let r = rest.remove(0);
                assert(all.skip(i as int)[0] == all[i as int]);
                assert(all.skip(i as int).drop_first() =~= all.skip(i + 1));
                if str_eq(r.id.as_str(), id) {
                    proof {
                        lemma_first_with_id(all, id@, i as int);
                    }
                    return Ok(r);
                }
                i = i + 1;
            }
            proof {
                lemma_first_with_id_none(all, id@);
            }
            Err(UpdateResult::Failed { message: owned("Playbook not found.") })
        },
    }
}

/// A local copy that was edited since it was imported is only overwritten when the user
/// said so. `previous_hash` is the hash of the local copy, when there is one.
pub fn edited_step(previous_hash: Option<Result<String, ()>>, record_sha: &str, overwrite_edited: bool) -> (r:
    Option<UpdateResult>)
    ensures
        match previous_hash {
            None => r is None,
            Some(Err(())) => r matches Some(x) && update_failed(x, crate::community::unreachable()),
            Some(Ok(h)) => if h@ != record_sha@ && !overwrite_edited {
                r matches Some(UpdateResult::Edited)
            } else {
                r is None
            },
        },
{
    match previous_hash {
        None => None,
        Some(Err(())) => Some(UpdateResult::Failed { message: owned("Could not reach the playbook library.") }),
        Some(Ok(h)) => if !str_eq(h.as_str(), record_sha) && !overwrite_edited {
            Some(UpdateResult::Edited)
        } else {
            None
        },
    }
}

/// An import outcome as an update reports it; outcomes an update cannot meet are
/// reported as the library being unreachable.
pub open spec fn update_from_import_ok(u: UpdateResult, r: ImportResult) -> bool {
    match r {
        ImportResult::Saved { key, imported_version, local_sha256 } => u matches UpdateResult::Saved {
            key: k,
            imported_version: v,
            local_sha256: s,
        } && k@ == key@ && v == imported_version && s@ == local_sha256@,
        ImportResult::NeedsAccount => u matches UpdateResult::NeedsAccount,
        ImportResult::Invalid { diagnostics } => u matches UpdateResult::Invalid { diagnostics: d } && d
            == diagnostics,
        ImportResult::Failed { message } => update_failed(u, message@),
        ImportResult::Conflict { .. } | ImportResult::AlreadyDownloaded => update_failed(u, crate::community::unreachable()),
    }
}

pub fn update_from_import(r: ImportResult) -> (u: UpdateResult)
    ensures
        update_from_import_ok(u, r),
{
    match r {
        ImportResult::Saved { key, imported_version, local_sha256 } => UpdateResult::Saved {
            key,
            imported_version,
            local_sha256,
        },
        ImportResult::NeedsAccount => UpdateResult::NeedsAccount,
        ImportResult::Invalid { diagnostics } => UpdateResult::Invalid { diagnostics },
        ImportResult::Failed { message } => UpdateResult::Failed { message },
        ImportResult::Conflict { .. } | ImportResult::AlreadyDownloaded => UpdateResult::Failed {
            message: owned("Could not reach the playbook library."),
        },
    }
}

/// What is checked before a preview downloads anything.
pub fn preview_gate(id: &str, token_present: bool) -> (r: Option<PreviewResult>)
    ensures
        !publication_id_spec(id.spec_bytes()) ==> (r matches Some(PreviewResult::Failed { message }) && message@
            == not_found()),
        publication_id_spec(id.spec_bytes()) && !token_present ==> r matches Some(PreviewResult::NeedsAccount),
        publication_id_spec(id.spec_bytes()) && token_present ==> r is None,
{
    if !publication_id(id) {
        Some(PreviewResult::Failed { message: owned("Playbook not found.") })
    } else if !token_present {
        Some(PreviewResult::NeedsAccount)
    } else {
        None
    }
}

/// A preview shows the downloaded document, or says why there is none.
pub fn preview_outcome(download: Result<SourceDetail, DownloadError>) -> (r: PreviewResult)
    ensures
        match download {
            Ok(d) => r matches PreviewResult::Loaded { source } && source@ == d.document@,
            Err(DownloadError::NeedsAccount) => r matches PreviewResult::NeedsAccount,
            Err(DownloadError::Message(m)) => r matches PreviewResult::Failed { message } && message@ == m@,
            Err(DownloadError::Transport(t)) => r matches PreviewResult::Failed { message } && message@
                == safe_transport_spec(t@),
        },
{
    match download {
        Ok(d) => PreviewResult::Loaded { source: d.document },
        Err(DownloadError::NeedsAccount) => PreviewResult::NeedsAccount,
        Err(DownloadError::Message(m)) => PreviewResult::Failed { message: m },
        Err(DownloadError::Transport(t)) => PreviewResult::Failed { message: safe_transport(t.as_str()) },
    }
}


// ---- the update, step by step ---------------------------------------------------

/// Where an update stands: what it waits for, and what it knows so far.
pub enum UpdateStage {
    /// Nothing checked yet.
    Opening,
    /// Waiting for the registry of imports.
    Registry,
    /// Waiting for the hash of the local copy of `record`'s playbook.
    LocalCopy { record: CommunityImportRecord },
    /// Waiting for the publication's source.
    Download { record: CommunityImportRecord },
    /// Waiting for the downloaded document to be checked and saved over the local copy.
    Save { record: CommunityImportRecord, detail: SourceDetail },
    /// Waiting for the saved text's hash and the registry write.
    Finish { record: CommunityImportRecord, detail: SourceDetail },
    /// Reported.
    Done,
}

/// An update of the import of publication `id`.
pub struct UpdateState {
    pub id: String,
    pub overwrite_edited: bool,
    pub stage: UpdateStage,
}

/// What the app found when it did what the last action asked.
pub enum UpdateEvent {
    /// Whether an account token is present and a repository selected.
    Opened { token_present: bool, repo_selected: bool },
    /// The registry of imports, or why it could not be read.
    Registry(Result<Vec<CommunityImportRecord>, String>),
    /// The hash of the local copy when there is one (`Err` when it could not be read).
    LocalCopy(Option<Result<String, ()>>),
    /// The downloaded source, or why the download stopped.
    Downloaded(Result<SourceDetail, DownloadError>),
    /// Whether checking and saving the document worked.
    Saved(Result<(), SaveError>),
    /// The saved text's hash, and the registry write made when there was one.
    Finished { hash: Result<String, ()>, registry_write: Option<Result<(), String>> },
}

/// What the app is to do next.
pub enum UpdateAction {
    ReadRegistry,
    HashLocalCopy { local_key: String },
    Download { id: String },
    Save { local_key: String, document: String },
    /// Hash the saved text, record the import, and hand back both outcomes.
    Finish { local_key: String, version: u64 },
    Report(UpdateResult),
}

/// `event` is what `stage` waits for.
pub open spec fn event_fits(stage: UpdateStage, event: UpdateEvent) -> bool {
    match stage {
        UpdateStage::Opening => event is Opened,
        UpdateStage::Registry => event is Registry,
        UpdateStage::LocalCopy { .. } => event is LocalCopy,
        UpdateStage::Download { .. } => event is Downloaded,
        UpdateStage::Save { .. } => event is Saved,
        UpdateStage::Finish { .. } => (event matches UpdateEvent::Finished { hash, registry_write } && (hash is Ok
            ==> registry_write is Some)),
        UpdateStage::Done => false,
    }
}

/// What a stopped download tells the user of an update.
pub open spec fn download_update_ok(u: UpdateResult, e: DownloadError) -> bool {
    match e {
        DownloadError::NeedsAccount => u matches UpdateResult::NeedsAccount,
        DownloadError::Message(m) => update_failed(u, m@),
        DownloadError::Transport(t) => update_failed(u, safe_transport_spec(t@)),
    }
}

/// What a failed save tells the user of an update.
pub open spec fn save_update_ok(u: UpdateResult, e: SaveError) -> bool {
    match e {
        SaveError::Invalid { diagnostics } => u matches UpdateResult::Invalid { diagnostics: d } && d == diagnostics,
        SaveError::Io { message } => update_failed(u, message@),
        SaveError::Conflict { .. } | SaveError::ReadOnly | SaveError::Unknown => update_failed(
            u,
            crate::community::unreachable(),
        ),
    }
}

/// How an update ends once the document is saved.
pub open spec fn finish_update_ok(
    u: UpdateResult,
    hash: Result<String, ()>,
    registry_write: Option<Result<(), String>>,
    key: Seq<char>,
    version: u64,
) -> bool {
    match hash {
        Err(_) => update_failed(u, crate::community::unreachable()),
        Ok(sha) => match registry_write {
            None => false,
            Some(Err(m)) => update_failed(
                u,
                if contains_seq(m@, service_role_key()) {
                    unavailable()
                } else {
                    m@
                },
            ),
            Some(Ok(())) => u matches UpdateResult::Saved { key: k, imported_version: v, local_sha256: s } && k@
                == key && v == version && s@ == sha@,
        },
    }
}

/// The next step of an update after `event`: the checks before anything is read, then
/// the import record, the local copy (an edited one is kept unless the user said
/// otherwise), the download, the save, and the registry; each step that fails reports,
/// and the update is then done.
pub fn update_step(state: UpdateState, event: UpdateEvent) -> (r: (UpdateState, UpdateAction))
    requires
        event_fits(state.stage, event),
    ensures
        r.0.id == state.id,
        r.0.overwrite_edited == state.overwrite_edited,
        r.1 is Report <==> r.0.stage is Done,
        match (state.stage, event) {
            (UpdateStage::Opening, UpdateEvent::Opened { token_present, repo_selected }) => {
                let pid = publication_id_spec(vstd::utf8::encode_utf8(state.id@));
                if !pid {
                    r.1 matches UpdateAction::Report(x) && update_failed(x, not_found())
                } else if !token_present {
                    r.1 matches UpdateAction::Report(UpdateResult::NeedsAccount)
                } else if !repo_selected {
                    r.1 matches UpdateAction::Report(x) && update_failed(x, no_repo())
                } else {
                    r.0.stage is Registry && r.1 is ReadRegistry
                }
            },
            (UpdateStage::Registry, UpdateEvent::Registry(records)) => match records {
                Err(m) => r.1 matches UpdateAction::Report(x) && update_failed(x, m@),
                Ok(v) => match first_with_id(v@, state.id@) {
                    Some(k) => r.0.stage == (UpdateStage::LocalCopy { record: v@[k] }) && (r.1 matches UpdateAction::HashLocalCopy {
                        local_key,
                    } && local_key@ == v@[k].local_key@),
                    None => r.1 matches UpdateAction::Report(x) && update_failed(x, not_found()),
                },
            },
            (UpdateStage::LocalCopy { record }, UpdateEvent::LocalCopy(previous)) => if previous matches Some(Err(_)) {
                r.1 matches UpdateAction::Report(x) && update_failed(x, crate::community::unreachable())
            } else if previous matches Some(Ok(h)) && h@ != record.local_sha256@ && !state.overwrite_edited {
                r.1 matches UpdateAction::Report(UpdateResult::Edited)
            } else {
                r.0.stage == (UpdateStage::Download { record }) && (r.1 matches UpdateAction::Download { id } && id@
                    == state.id@)
            },
            (UpdateStage::Download { record }, UpdateEvent::Downloaded(d)) => match d {
                Err(e) => r.1 matches UpdateAction::Report(x) && download_update_ok(x, e),
                Ok(detail) => r.0.stage == (UpdateStage::Save { record, detail }) && (r.1 matches UpdateAction::Save {
                    local_key,
                    document,
                } && local_key@ == record.local_key@ && document@ == detail.document@),
            },
            (UpdateStage::Save { record, detail }, UpdateEvent::Saved(saved)) => match saved {
                Err(e) => r.1 matches UpdateAction::Report(x) && save_update_ok(x, e),
                Ok(()) => r.0.stage == (UpdateStage::Finish { record, detail }) && (r.1 matches UpdateAction::Finish {
                    local_key,
                    version,
                } && local_key@ == record.local_key@ && version == detail.version),
            },
            (UpdateStage::Finish { record, detail }, UpdateEvent::Finished { hash, registry_write }) => r.1 matches UpdateAction::Report(
                x,
            ) && finish_update_ok(x, hash, registry_write, record.local_key@, detail.version),
            _ => false,
        },
{
    let UpdateState { id, overwrite_edited, stage } = state;
    match (stage, event) {
        (UpdateStage::Opening, UpdateEvent::Opened { token_present, repo_selected }) => {
            match update_gate(id.as_str(), token_present, repo_selected) {
                Some(x) => (UpdateState { id, overwrite_edited, stage: UpdateStage::Done }, UpdateAction::Report(x)),
                None => (UpdateState { id, overwrite_edited, stage: UpdateStage::Registry }, UpdateAction::ReadRegistry),
            }
        },
        (UpdateStage::Registry, UpdateEvent::Registry(records)) => {
            match update_registry_step(records, id.as_str()) {
                Err(x) => (UpdateState { id, overwrite_edited, stage: UpdateStage::Done }, UpdateAction::Report(x)),
                Ok(record) => {
                    let local_key = owned(record.local_key.as_str());
                    (
                        UpdateState { id, overwrite_edited, stage: UpdateStage::LocalCopy { record } },
                        UpdateAction::HashLocalCopy { local_key },
                    )
                },
            }
        },
        (UpdateStage::LocalCopy { record }, UpdateEvent::LocalCopy(previous)) => {
            match edited_step(previous, record.local_sha256.as_str(), overwrite_edited) {
                Some(x) => (UpdateState { id, overwrite_edited, stage: UpdateStage::Done }, UpdateAction::Report(x)),
                None => {
                    let asked = owned(id.as_str());
                    (UpdateState { id, overwrite_edited, stage: UpdateStage::Download { record } }, UpdateAction::Download {
                        id: asked,
                    })
                },
            }
        },
        (UpdateStage::Download { record }, UpdateEvent::Downloaded(d)) => {
            match d {
                Err(e) => {
                    let x = update_from_import(download_stop(e));
                    (UpdateState { id, overwrite_edited, stage: UpdateStage::Done }, UpdateAction::Report(x))
                },
                Ok(detail) => {
                    let local_key = owned(record.local_key.as_str());
                    let document = owned(detail.document.as_str());
                    (
                        UpdateState { id, overwrite_edited, stage: UpdateStage::Save { record, detail } },
                        UpdateAction::Save { local_key, document },
                    )
                },
            }
        },
        (UpdateStage::Save { record, detail }, UpdateEvent::Saved(saved)) => {
            match saved {
                Err(e) => {
                    let x = update_from_import(save_failure(e));
                    (UpdateState { id, overwrite_edited, stage: UpdateStage::Done }, UpdateAction::Report(x))
                },
                Ok(()) => {
                    let local_key = owned(record.local_key.as_str());
                    let version = detail.version;
                    (
                        UpdateState { id, overwrite_edited, stage: UpdateStage::Finish { record, detail } },
                        UpdateAction::Finish { local_key, version },
                    )
                },
            }
        },
        (UpdateStage::Finish { record, detail }, UpdateEvent::Finished { hash, registry_write }) => {
            let x = update_from_import(finish_import(hash, registry_write, record.local_key.as_str(), detail.version));
            (UpdateState { id, overwrite_edited, stage: UpdateStage::Done }, UpdateAction::Report(x))
        },
        _ => {
            proof {
                assert(false);
            }
            (UpdateState { id, overwrite_edited, stage: UpdateStage::Done }, UpdateAction::Report(
                UpdateResult::Failed { message: owned("Could not reach the playbook library.") },
            ))
        },
    }
}


// ---- the import, step by step ---------------------------------------------------

/// Where an import stands: what it waits for, and what it knows so far.
pub enum ImportStage {
    /// Nothing checked yet.
    Opening,
    /// Waiting for the registry of imports.
    Registry,
    /// Waiting for the publication's source.
    Download,
    /// Waiting for the document's own check, which names its playbook key.
    Check { detail: SourceDetail },
    /// Waiting to learn whether a repository playbook is already at `key`.
    LocalCopy { key: String, detail: SourceDetail },
    /// Waiting for the document to be saved as the playbook `key`.
    Save { key: String, detail: SourceDetail },
    /// Waiting for the saved text's hash and the registry write.
    Finish { key: String, detail: SourceDetail },
    /// Reported.
    Done,
}

/// An import of publication `id`.
pub struct ImportState {
    pub id: String,
    pub overwrite: bool,
    pub stage: ImportStage,
}

/// What the app found when it did what the last action asked.
pub enum ImportEvent {
    Opened { token_present: bool, repo_selected: bool },
    Registry(Result<Vec<CommunityImportRecord>, String>),
    Downloaded(Result<SourceDetail, DownloadError>),
    /// The document's playbook key, or what is wrong with it.
    Checked(Result<String, Vec<Diagnostic>>),
    /// Whether a repository playbook is already at the key.
    LocalCopy(bool),
    Saved(Result<(), SaveError>),
    Finished { hash: Result<String, ()>, registry_write: Option<Result<(), String>> },
}

/// What the app is to do next.
pub enum ImportAction {
    ReadRegistry,
    Download { id: String },
    Check { document: String },
    LookForLocal { key: String },
    /// Save `document` as the playbook `key`, replacing the one there when `replace`.
    Save { key: String, document: String, replace: bool },
    Finish { key: String, version: u64 },
    Report(ImportResult),
}

/// `event` is what `stage` waits for.
pub open spec fn import_event_fits(stage: ImportStage, event: ImportEvent) -> bool {
    match stage {
        ImportStage::Opening => event is Opened,
        ImportStage::Registry => event is Registry,
        ImportStage::Download => event is Downloaded,
        ImportStage::Check { .. } => event is Checked,
        ImportStage::LocalCopy { .. } => event is LocalCopy,
        ImportStage::Save { .. } => event is Saved,
        ImportStage::Finish { .. } => (event matches ImportEvent::Finished { hash, registry_write } && (hash is Ok
            ==> registry_write is Some)),
        ImportStage::Done => false,
    }
}

/// The next step of an import after `event`: the checks before anything is read, then
/// the registry (a publication already imported is not downloaded again), the download,
/// the document's check, the local copy (kept unless the user said to replace it), the
/// save and the registry; each step that fails reports, and the import is then done.
pub fn import_step(state: ImportState, event: ImportEvent) -> (r: (ImportState, ImportAction))
    requires
        import_event_fits(state.stage, event),
    ensures
        r.0.id == state.id,
        r.0.overwrite == state.overwrite,
        r.1 is Report <==> r.0.stage is Done,
        match (state.stage, event) {
            (ImportStage::Opening, ImportEvent::Opened { token_present, repo_selected }) => {
                if !publication_id_spec(vstd::utf8::encode_utf8(state.id@)) {
                    r.1 matches ImportAction::Report(x) && import_failed(x, not_found())
                } else if !token_present {
                    r.1 matches ImportAction::Report(ImportResult::NeedsAccount)
                } else if !repo_selected {
                    r.1 matches ImportAction::Report(x) && import_failed(x, no_repo())
                } else {
                    r.0.stage is Registry && r.1 is ReadRegistry
                }
            },
            (ImportStage::Registry, ImportEvent::Registry(records)) => match records {
                Err(m) => r.1 matches ImportAction::Report(x) && import_failed(x, m@),
                Ok(v) => if has_id(v@, state.id@) {
                    r.1 matches ImportAction::Report(ImportResult::AlreadyDownloaded)
                } else {
                    r.0.stage is Download && (r.1 matches ImportAction::Download { id } && id@ == state.id@)
                },
            },
            (ImportStage::Download, ImportEvent::Downloaded(d)) => match d {
                Err(e) => r.1 matches ImportAction::Report(x) && download_stop_ok(x, e),
                Ok(detail) => r.0.stage == (ImportStage::Check { detail }) && (r.1 matches ImportAction::Check {
                    document,
                } && document@ == detail.document@),
            },
            (ImportStage::Check { detail }, ImportEvent::Checked(c)) => match c {
                Err(diagnostics) => r.1 == ImportAction::Report(ImportResult::Invalid { diagnostics }),
                Ok(key) => r.0.stage == (ImportStage::LocalCopy { key, detail }) && (r.1 matches ImportAction::LookForLocal {
                    key: k,
                } && k@ == key@),
            },
            (ImportStage::LocalCopy { key, detail }, ImportEvent::LocalCopy(exists)) => if exists && !state.overwrite {
                r.1 matches ImportAction::Report(ImportResult::Conflict { local_key }) && local_key@ == key@
            } else {
                r.0.stage == (ImportStage::Save { key, detail }) && (r.1 matches ImportAction::Save {
                    key: k,
                    document,
                    replace,
                } && k@ == key@ && document@ == detail.document@ && replace == exists)
            },
            (ImportStage::Save { key, detail }, ImportEvent::Saved(saved)) => match saved {
                Err(e) => r.1 matches ImportAction::Report(x) && save_failure_ok(x, e),
                Ok(()) => r.0.stage == (ImportStage::Finish { key, detail }) && (r.1 matches ImportAction::Finish {
                    key: k,
                    version,
                } && k@ == key@ && version == detail.version),
            },
            (ImportStage::Finish { key, detail }, ImportEvent::Finished { hash, registry_write }) => r.1 matches ImportAction::Report(
                x,
            ) && finish_ok(
                x,
                match hash {
                    Ok(h) => Ok(h@),
                    Err(()) => Err(()),
                },
                match registry_write {
                    Some(Ok(())) => Some(Ok(())),
                    Some(Err(m)) => Some(Err(m@)),
                    None => None,
                },
                key@,
                detail.version,
            ),
            _ => false,
        },
{
    let ImportState { id, overwrite, stage } = state;
    match (stage, event) {
        (ImportStage::Opening, ImportEvent::Opened { token_present, repo_selected }) => {
            match import_gate(id.as_str(), token_present, repo_selected) {
                Some(x) => (ImportState { id, overwrite, stage: ImportStage::Done }, ImportAction::Report(x)),
                None => (ImportState { id, overwrite, stage: ImportStage::Registry }, ImportAction::ReadRegistry),
            }
        },
        (ImportStage::Registry, ImportEvent::Registry(records)) => {
            match import_registry_step(&records, id.as_str()) {
                Some(x) => (ImportState { id, overwrite, stage: ImportStage::Done }, ImportAction::Report(x)),
                None => {
                    let asked = owned(id.as_str());
                    (ImportState { id, overwrite, stage: ImportStage::Download }, ImportAction::Download { id: asked })
                },
            }
        },
        (ImportStage::Download, ImportEvent::Downloaded(d)) => {
            match d {
                Err(e) => {
                    let x = download_stop(e);
                    (ImportState { id, overwrite, stage: ImportStage::Done }, ImportAction::Report(x))
                },
                Ok(detail) => {
                    let document = owned(detail.document.as_str());
                    (ImportState { id, overwrite, stage: ImportStage::Check { detail } }, ImportAction::Check { document })
                },
            }
        },
        (ImportStage::Check { detail }, ImportEvent::Checked(c)) => {
            match c {
                Err(diagnostics) => (
                    ImportState { id, overwrite, stage: ImportStage::Done },
                    ImportAction::Report(ImportResult::Invalid { diagnostics }),
                ),
                Ok(key) => {
                    let k = owned(key.as_str());
                    (ImportState { id, overwrite, stage: ImportStage::LocalCopy { key, detail } }, ImportAction::LookForLocal {
                        key: k,
                    })
                },
            }
        },
        (ImportStage::LocalCopy { key, detail }, ImportEvent::LocalCopy(exists)) => {
            match conflict_step(key.as_str(), exists, overwrite) {
                Some(x) => (ImportState { id, overwrite, stage: ImportStage::Done }, ImportAction::Report(x)),
                None => {
                    let k = owned(key.as_str());
                    let document = owned(detail.document.as_str());
                    (ImportState { id, overwrite, stage: ImportStage::Save { key, detail } }, ImportAction::Save {
                        key: k,
                        document,
                        replace: exists,
                    })
                },
            }
        },
        (ImportStage::Save { key, detail }, ImportEvent::Saved(saved)) => {
            match saved {
                Err(e) => {
                    let x = save_failure(e);
                    (ImportState { id, overwrite, stage: ImportStage::Done }, ImportAction::Report(x))
                },
                Ok(()) => {
                    let k = owned(key.as_str());
                    let version = detail.version;
                    (ImportState { id, overwrite, stage: ImportStage::Finish { key, detail } }, ImportAction::Finish {
                        key: k,
                        version,
                    })
                },
            }
        },
        (ImportStage::Finish { key, detail }, ImportEvent::Finished { hash, registry_write }) => {
            let x = finish_import(hash, registry_write, key.as_str(), detail.version);
            (ImportState { id, overwrite, stage: ImportStage::Done }, ImportAction::Report(x))
        },
        _ => {
            proof {
                assert(false);
            }
            (ImportState { id, overwrite, stage: ImportStage::Done }, ImportAction::Report(
                ImportResult::Failed { message: owned("Could not reach the playbook library.") },
            ))
        },
    }
}

} // verus!
