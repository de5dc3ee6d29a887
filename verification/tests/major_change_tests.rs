use triagebot::major_change::{
    parse_input, ChangeRecord, Invocation, IssuesAction, IssuesEvent, MajorChangeConfig,
};

fn config() -> MajorChangeConfig {
    MajorChangeConfig {
        enabling_label: "major-change".to_string(),
        accept_label: "major-change-accepted".to_string(),
        concerns_label: Some("has-concerns".to_string()),
    }
}

fn event(action: IssuesAction, labels: &[&str], changes: Option<ChangeRecord>) -> IssuesEvent {
    IssuesEvent {
        action,
        labels: labels.iter().map(|l| l.to_string()).collect(),
        changes,
    }
}

#[test]
fn no_config_disables_the_feature() {
    let e = event(
        IssuesAction::Labeled { label: "major-change-accepted".to_string() },
        &["major-change"],
        None,
    );
    assert_eq!(parse_input(&e, None), Ok(None));
}

#[test]
fn accept_label_means_accepted() {
    let e = event(
        IssuesAction::Labeled { label: "major-change-accepted".to_string() },
        &["major-change"],
        None,
    );
    assert_eq!(
        parse_input(&e, Some(&config())),
        Ok(Some(Invocation::AcceptedProposal))
    );
}

#[test]
fn concerns_label_blocks_and_unblocks() {
    let added = event(
        IssuesAction::Labeled { label: "has-concerns".to_string() },
        &["major-change"],
        None,
    );
    assert_eq!(
        parse_input(&added, Some(&config())),
        Ok(Some(Invocation::ConcernsAdded))
    );
    let resolved = event(
        IssuesAction::Unlabeled { label: Some("has-concerns".to_string()) },
        &["major-change"],
        None,
    );
    assert_eq!(
        parse_input(&resolved, Some(&config())),
        Ok(Some(Invocation::ConcernsResolved))
    );
}

#[test]
fn enabling_label_announces_a_new_proposal() {
    let labeled = event(
        IssuesAction::Labeled { label: "major-change".to_string() },
        &[],
        None,
    );
    assert_eq!(
        parse_input(&labeled, Some(&config())),
        Ok(Some(Invocation::NewProposal))
    );
    let reopened = event(IssuesAction::Reopened, &["major-change"], None);
    assert_eq!(
        parse_input(&reopened, Some(&config())),
        Ok(Some(Invocation::NewProposal))
    );
    let reopened_plain = event(IssuesAction::Reopened, &["bug"], None);
    assert_eq!(parse_input(&reopened_plain, Some(&config())), Ok(None));
}

#[test]
fn title_edit_of_an_enabled_issue_asks_for_a_rename() {
    let e = event(
        IssuesAction::Edited,
        &["major-change"],
        Some(ChangeRecord { previous_title: Some("Old title".to_string()) }),
    );
    assert_eq!(
        parse_input(&e, Some(&config())),
        Ok(Some(Invocation::Rename { previous_title: "Old title".to_string() }))
    );
}

#[test]
fn title_edit_without_the_enabling_label_is_ignored() {
    let e = event(
        IssuesAction::Edited,
        &["bug"],
        Some(ChangeRecord { previous_title: Some("Old title".to_string()) }),
    );
    assert_eq!(parse_input(&e, Some(&config())), Ok(None));
    let no_changes = event(IssuesAction::Edited, &["major-change"], None);
    assert_eq!(parse_input(&no_changes, Some(&config())), Ok(None));
}

#[test]
fn unrelated_labels_are_ignored() {
    let e = event(
        IssuesAction::Labeled { label: "bug".to_string() },
        &["major-change"],
        None,
    );
    assert_eq!(parse_input(&e, Some(&config())), Ok(None));
    let other = event(IssuesAction::Other, &["major-change"], None);
    assert_eq!(parse_input(&other, Some(&config())), Ok(None));
}
