use triagebot::major_change::{zulip_topic_from_issue, ZulipGitHubReference};

fn issue(title: &str, reference: &str) -> ZulipGitHubReference {
    ZulipGitHubReference {
        title: title.to_string(),
        reference: reference.to_string(),
    }
}

#[test]
fn short_title_is_kept_whole() {
    let topic = zulip_topic_from_issue(&issue("Short title", "(rust-lang/rust#123)"));
    assert_eq!(topic, "Short title (rust-lang/rust#123)");
}

#[test]
fn long_title_is_truncated_to_sixty_characters() {
    let title = "a".repeat(60);
    let topic = zulip_topic_from_issue(&issue(&title, "#1"));
    let expected = format!("{}\u{2026} #1", "a".repeat(56));
    assert_eq!(topic, expected);
    assert_eq!(topic.chars().count(), 60);
}

#[test]
fn title_one_over_the_budget_takes_the_ellipsis_place() {
    // 57 title characters, one space, and a 2-character reference make
    // exactly 60: nothing is cut
    let title = "b".repeat(57);
    let topic = zulip_topic_from_issue(&issue(&title, "#1"));
    assert_eq!(topic, format!("{} #1", title));
    assert_eq!(topic.chars().count(), 60);
}

#[test]
fn title_at_the_budget_is_kept_whole() {
    let title = "c".repeat(56);
    let topic = zulip_topic_from_issue(&issue(&title, "#1"));
    assert_eq!(topic, format!("{} #1", title));
}

#[test]
fn truncation_counts_characters_not_bytes() {
    let title = "\u{e9}".repeat(60);
    let topic = zulip_topic_from_issue(&issue(&title, "#1"));
    let expected = format!("{}\u{2026} #1", "\u{e9}".repeat(56));
    assert_eq!(topic, expected);
    assert_eq!(topic.chars().count(), 60);
}
