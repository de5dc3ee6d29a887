use triagebot::label::{Label, LabelDelta};
use triagebot::relabel::{
    check_filter, compute_label_deltas, match_pattern, membership_from_query, CheckFilterResult,
    MatchPatternResult, RelabelConfig, TeamMembership,
};

fn label(name: &str) -> Label {
    Label { name: name.to_string() }
}

#[test]
fn test_match_pattern() {
    assert_eq!(
        match_pattern("I-*", "I-nominated").unwrap(),
        MatchPatternResult::Allow
    );
    assert_eq!(
        match_pattern("i-*", "I-nominated").unwrap(),
        MatchPatternResult::Allow
    );
    assert_eq!(
        match_pattern("!I-no*", "I-nominated").unwrap(),
        MatchPatternResult::Deny
    );
    assert_eq!(
        match_pattern("I-*", "T-infra").unwrap(),
        MatchPatternResult::NoMatch
    );
    assert_eq!(
        match_pattern("!I-no*", "T-infra").unwrap(),
        MatchPatternResult::NoMatch
    );
}

#[test]
fn test_check_filter() {
    let config = RelabelConfig {
        allow_unauthenticated: vec!["T-*".into(), "I-*".into(), "!I-*nominated".into()],
    };
    assert_eq!(
        check_filter("T-release", &config, TeamMembership::Member),
        Ok(CheckFilterResult::Allow)
    );
    assert_eq!(
        check_filter("I-slow", &config, TeamMembership::Member),
        Ok(CheckFilterResult::Allow)
    );
    assert_eq!(
        check_filter("I-lang-nominated", &config, TeamMembership::Member),
        Ok(CheckFilterResult::Allow)
    );
    assert_eq!(
        check_filter("I-nominated", &config, TeamMembership::Member),
        Ok(CheckFilterResult::Allow)
    );
    assert_eq!(
        check_filter("A-spurious", &config, TeamMembership::Member),
        Ok(CheckFilterResult::Allow)
    );
    assert_eq!(
        check_filter("T-release", &config, TeamMembership::Outsider),
        Ok(CheckFilterResult::Allow)
    );
    assert_eq!(
        check_filter("I-slow", &config, TeamMembership::Outsider),
        Ok(CheckFilterResult::Allow)
    );
    assert_eq!(
        check_filter("I-lang-nominated", &config, TeamMembership::Outsider),
        Ok(CheckFilterResult::Deny)
    );
    assert_eq!(
        check_filter("I-nominated", &config, TeamMembership::Outsider),
        Ok(CheckFilterResult::Deny)
    );
    assert_eq!(
        check_filter("A-spurious", &config, TeamMembership::Outsider),
        Ok(CheckFilterResult::Deny)
    );
    assert_eq!(
        check_filter("T-release", &config, TeamMembership::Unknown),
        Ok(CheckFilterResult::Allow)
    );
    assert_eq!(
        check_filter("I-slow", &config, TeamMembership::Unknown),
        Ok(CheckFilterResult::Allow)
    );
    assert_eq!(
        check_filter("I-lang-nominated", &config, TeamMembership::Unknown),
        Ok(CheckFilterResult::DenyUnknown)
    );
    assert_eq!(
        check_filter("I-nominated", &config, TeamMembership::Unknown),
        Ok(CheckFilterResult::DenyUnknown)
    );
    assert_eq!(
        check_filter("A-spurious", &config, TeamMembership::Unknown),
        Ok(CheckFilterResult::DenyUnknown)
    );
}

#[test]
fn test_compute_label_deltas() {
    let mut deltas = vec![
        LabelDelta::Add(label("I-nominated")),
        LabelDelta::Add(label("I-nominated")),
        LabelDelta::Add(label("I-lang-nominated")),
        LabelDelta::Add(label("I-libs-nominated")),
        LabelDelta::Remove(label("I-lang-nominated")),
    ];

    assert_eq!(
        compute_label_deltas(&deltas),
        (
            vec![label("I-libs-nominated"), label("I-nominated")],
            vec![],
        ),
    );

    deltas.push(LabelDelta::Remove(label("needs-triage")));
    deltas.push(LabelDelta::Add(label("I-lang-nominated")));

    assert_eq!(
        compute_label_deltas(&deltas),
        (
            vec![
                label("I-lang-nominated"),
                label("I-libs-nominated"),
                label("I-nominated"),
            ],
            vec![label("needs-triage")],
        ),
    );
}

#[test]
fn resolve_add_twice_is_idempotent() {
    let deltas = vec![LabelDelta::Add(label("L")), LabelDelta::Add(label("L"))];
    assert_eq!(compute_label_deltas(&deltas), (vec![label("L")], vec![]));
}

#[test]
fn resolve_add_then_remove_cancels() {
    let deltas = vec![LabelDelta::Add(label("L")), LabelDelta::Remove(label("L"))];
    assert_eq!(compute_label_deltas(&deltas), (vec![], vec![]));
}

#[test]
fn resolve_is_order_sensitive() {
    let deltas = vec![
        LabelDelta::Add(label("L")),
        LabelDelta::Remove(label("L")),
        LabelDelta::Add(label("L")),
    ];
    assert_eq!(compute_label_deltas(&deltas), (vec![label("L")], vec![]));
}

#[test]
fn resolve_empty_list() {
    assert_eq!(compute_label_deltas(&[]), (vec![], vec![]));
}

#[test]
fn resolve_labels_compare_case_sensitively() {
    let deltas = vec![
        LabelDelta::Add(label("I-nominated")),
        LabelDelta::Remove(label("i-nominated")),
    ];
    assert_eq!(
        compute_label_deltas(&deltas),
        (
            vec![label("I-nominated")],
            vec![label("i-nominated")],
        ),
    );
}

#[test]
fn delta_label_accessor() {
    let add = LabelDelta::Add(label("X"));
    let remove = LabelDelta::Remove(label("Y"));
    assert_eq!(add.label().name, "X");
    assert_eq!(remove.label().name, "Y");
}

#[test]
fn malformed_pattern_is_a_configuration_error() {
    let err = match_pattern("[", "anything").unwrap_err();
    assert_eq!(err, "failed to match pattern [");
    let config = RelabelConfig { allow_unauthenticated: vec!["[".into()] };
    let err = check_filter("anything", &config, TeamMembership::Outsider).unwrap_err();
    assert_eq!(err, "failed to match pattern [");
}

#[test]
fn member_bypasses_acl_even_with_malformed_patterns() {
    let config = RelabelConfig { allow_unauthenticated: vec!["[".into()] };
    assert_eq!(
        check_filter("anything", &config, TeamMembership::Member),
        Ok(CheckFilterResult::Allow)
    );
}

#[test]
fn deny_short_circuits_later_allows() {
    let config = RelabelConfig {
        allow_unauthenticated: vec!["!I-*".into(), "I-*".into()],
    };
    assert_eq!(
        check_filter("I-slow", &config, TeamMembership::Outsider),
        Ok(CheckFilterResult::Deny)
    );
}

#[test]
fn empty_acl_denies_outsiders() {
    let config = RelabelConfig { allow_unauthenticated: vec![] };
    assert_eq!(
        check_filter("anything", &config, TeamMembership::Outsider),
        Ok(CheckFilterResult::Deny)
    );
    assert_eq!(
        check_filter("anything", &config, TeamMembership::Unknown),
        Ok(CheckFilterResult::DenyUnknown)
    );
}

#[test]
fn membership_tri_state_from_query() {
    assert_eq!(membership_from_query(Ok(true)), TeamMembership::Member);
    assert_eq!(membership_from_query(Ok(false)), TeamMembership::Outsider);
    assert_eq!(membership_from_query(Err(())), TeamMembership::Unknown);
}
