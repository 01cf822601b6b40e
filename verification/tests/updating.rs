use alinery::community::{CommunityImportRecord, SourceDetail};
use alinery::community_import::{
    import_step, update_step, ImportAction, ImportEvent, ImportResult, ImportStage, ImportState, UpdateAction,
    UpdateEvent, UpdateResult, UpdateStage, UpdateState,
};

const ID: &str = "0123abcd-0000-4000-8000-00000000000a";

fn record() -> CommunityImportRecord {
    CommunityImportRecord {
        id: ID.to_string(),
        label: "l".to_string(),
        playbook_key: "k".to_string(),
        local_scope: "repo".to_string(),
        local_key: "lk".to_string(),
        imported_version: 1,
        local_sha256: "old".to_string(),
        imported_at: "then".to_string(),
    }
}

fn start(overwrite_edited: bool) -> UpdateState {
    UpdateState { id: ID.to_string(), overwrite_edited, stage: UpdateStage::Opening }
}

#[test]
fn an_update_runs_its_steps_in_order() {
    let (state, action) = update_step(start(false), UpdateEvent::Opened { token_present: true, repo_selected: true });
    assert!(matches!(action, UpdateAction::ReadRegistry));
    let (state, action) = update_step(state, UpdateEvent::Registry(Ok(vec![record()])));
    assert!(matches!(&action, UpdateAction::HashLocalCopy { local_key } if local_key == "lk"));
    let (state, action) = update_step(state, UpdateEvent::LocalCopy(Some(Ok("old".to_string()))));
    assert!(matches!(&action, UpdateAction::Download { id } if id == ID));
    let detail = SourceDetail { document: "# doc".to_string(), version: 3, label: "l".to_string(), playbook_key: "k".to_string() };
    let (state, action) = update_step(state, UpdateEvent::Downloaded(Ok(detail)));
    assert!(matches!(&action, UpdateAction::Save { local_key, document } if local_key == "lk" && document == "# doc"));
    let (state, action) = update_step(state, UpdateEvent::Saved(Ok(())));
    assert!(matches!(&action, UpdateAction::Finish { local_key, version } if local_key == "lk" && *version == 3));
    let (state, action) = update_step(
        state,
        UpdateEvent::Finished { hash: Ok("new".to_string()), registry_write: Some(Ok(())) },
    );
    assert!(matches!(state.stage, UpdateStage::Done));
    match action {
        UpdateAction::Report(UpdateResult::Saved { key, imported_version, local_sha256 }) => {
            assert_eq!((key.as_str(), imported_version, local_sha256.as_str()), ("lk", 3, "new"));
        },
        _ => panic!("expected the update to be saved"),
    }
}

#[test]
fn an_edited_copy_stops_an_update_unless_overwritten() {
    let (state, _) = update_step(start(false), UpdateEvent::Opened { token_present: true, repo_selected: true });
    let (state, _) = update_step(state, UpdateEvent::Registry(Ok(vec![record()])));
    let (state, action) = update_step(state, UpdateEvent::LocalCopy(Some(Ok("edited".to_string()))));
    assert!(matches!(action, UpdateAction::Report(UpdateResult::Edited)));
    assert!(matches!(state.stage, UpdateStage::Done));

    let (state, _) = update_step(start(true), UpdateEvent::Opened { token_present: true, repo_selected: true });
    let (state, _) = update_step(state, UpdateEvent::Registry(Ok(vec![record()])));
    let (_, action) = update_step(state, UpdateEvent::LocalCopy(Some(Ok("edited".to_string()))));
    assert!(matches!(action, UpdateAction::Download { .. }));
}

#[test]
fn an_update_without_an_account_stops_first() {
    let (state, action) = update_step(start(false), UpdateEvent::Opened { token_present: false, repo_selected: true });
    assert!(matches!(action, UpdateAction::Report(UpdateResult::NeedsAccount)));
    assert!(matches!(state.stage, UpdateStage::Done));
}

fn import_start(overwrite: bool) -> ImportState {
    ImportState { id: ID.to_string(), overwrite, stage: ImportStage::Opening }
}

#[test]
fn an_import_stops_at_an_existing_playbook_unless_replacing() {
    let opened = ImportEvent::Opened { token_present: true, repo_selected: true };
    let (state, action) = import_step(import_start(false), opened);
    assert!(matches!(action, ImportAction::ReadRegistry));
    let (state, action) = import_step(state, ImportEvent::Registry(Ok(vec![])));
    assert!(matches!(&action, ImportAction::Download { id } if id == ID));
    let detail = SourceDetail { document: "# doc".to_string(), version: 2, label: "l".to_string(), playbook_key: "k".to_string() };
    let (state, action) = import_step(state, ImportEvent::Downloaded(Ok(detail)));
    assert!(matches!(&action, ImportAction::Check { document } if document == "# doc"));
    let (state, action) = import_step(state, ImportEvent::Checked(Ok("k".to_string())));
    assert!(matches!(&action, ImportAction::LookForLocal { key } if key == "k"));
    let (state, action) = import_step(state, ImportEvent::LocalCopy(true));
    assert!(matches!(&action, ImportAction::Report(ImportResult::Conflict { local_key }) if local_key == "k"));
    assert!(matches!(state.stage, ImportStage::Done));
}

#[test]
fn an_import_already_in_the_registry_is_not_downloaded() {
    let (state, _) = import_step(import_start(true), ImportEvent::Opened { token_present: true, repo_selected: true });
    let (state, action) = import_step(state, ImportEvent::Registry(Ok(vec![record()])));
    assert!(matches!(action, ImportAction::Report(ImportResult::AlreadyDownloaded)));
    assert!(matches!(state.stage, ImportStage::Done));
}
