use crate::token::str_eq;
use vstd::prelude::*;
use vstd::string::*;

verus! {

// ---------------------------------------------------------------------------
// Deciding what a proposal-tracking event means
// ---------------------------------------------------------------------------

/// The labels that drive proposal tracking: the label that enables the
/// feature on an issue, the label whose arrival means the proposal was
/// accepted, and, where configured, the label that marks open concerns.
#[derive(Debug, Clone, PartialEq, Eq)]
pub struct MajorChangeConfig {
    pub enabling_label: String,
    pub accept_label: String,
    pub concerns_label: Option<String>,
}

/// What happened to the issue, as far as this decision cares: it was
/// edited, a label arrived or left, it was reopened, or something else.
#[derive(Debug, Clone, PartialEq, Eq)]
pub enum IssuesAction {
    Edited,
    Labeled { label: String },
    Unlabeled { label: Option<String> },
    Reopened,
    Other,
}

/// The change record an edit event carries: the title before the edit,
/// when the title was what changed.
#[derive(Debug, Clone, PartialEq, Eq)]
pub struct ChangeRecord {
    pub previous_title: Option<String>,
}

/// The parts of an issue event that the decision reads: the action, the
/// labels on the issue, and the change record if the event carries one.
#[derive(Debug, Clone, PartialEq, Eq)]
pub struct IssuesEvent {
    pub action: IssuesAction,
    pub labels: Vec<String>,
    pub changes: Option<ChangeRecord>,
}

/// What the event asks the proposal workflow to do.
#[derive(Debug, Clone, PartialEq, Eq)]
pub enum Invocation {
    NewProposal,
    AcceptedProposal,
    Rename { previous_title: String },
    ConcernsAdded,
    ConcernsResolved,
}

/// The mathematical form of an invocation.
pub enum SpecInvocation {
    NewProposal,
    AcceptedProposal,
    Rename(Seq<char>),
    ConcernsAdded,
    ConcernsResolved,
}

impl View for Invocation {
    type V = SpecInvocation;

    open spec fn view(&self) -> SpecInvocation {
        match self {
            Invocation::NewProposal => SpecInvocation::NewProposal,
            Invocation::AcceptedProposal => SpecInvocation::AcceptedProposal,
            Invocation::Rename { previous_title } => SpecInvocation::Rename(previous_title@),
            Invocation::ConcernsAdded => SpecInvocation::ConcernsAdded,
            Invocation::ConcernsResolved => SpecInvocation::ConcernsResolved,
        }
    }
}

/// The label-driven part of the decision, for events that are not title
/// edits: the accept label arriving accepts the proposal; the concerns
/// label arriving or leaving blocks or unblocks it; the enabling label
/// arriving, or a reopen of an issue that carries it, announces a new
/// proposal.  Everything else is ignored.
pub open spec fn spec_parse_input_by_label(
    event: IssuesEvent,
    config: MajorChangeConfig,
) -> Option<SpecInvocation> {
    if (event.action matches IssuesAction::Labeled { label } && label@ == config.accept_label@) {
        Some(SpecInvocation::AcceptedProposal)
    } else if (event.action matches IssuesAction::Labeled { label }
        && (config.concerns_label matches Some(c) && label@ == c@)) {
        Some(SpecInvocation::ConcernsAdded)
    } else if (event.action matches IssuesAction::Unlabeled { label: Some(l) }
        && (config.concerns_label matches Some(c) && l@ == c@)) {
        Some(SpecInvocation::ConcernsResolved)
    } else if (event.action is Reopened && event.labels.deep_view().contains(
        config.enabling_label@,
    )) || (event.action matches IssuesAction::Labeled { label }
        && label@ == config.enabling_label@) {
        Some(SpecInvocation::NewProposal)
    } else {
        None
    }
}

/// The whole decision.  A title edit of an issue that carries the
/// enabling label asks for a rename (carrying the previous title); a
/// title edit of any other issue, or an edit event without a change
/// record, is ignored; every other event is decided by its labels.
pub open spec fn spec_parse_input(event: IssuesEvent, config: MajorChangeConfig) -> Option<
    SpecInvocation,
> {
    if event.action is Edited {
        match event.changes {
            None => None,
            Some(rec) => match rec.previous_title {
                Some(prev) => if event.labels.deep_view().contains(config.enabling_label@) {
                    Some(SpecInvocation::Rename(prev@))
                } else {
                    None
                },
                None => spec_parse_input_by_label(event, config),
            },
        }
    } else {
        spec_parse_input_by_label(event, config)
    }
}

/// Whether one of the issue's labels is exactly `name`.
fn labels_contain(labels: &Vec<String>, name: &str) -> (r: bool)
    ensures
        r == labels.deep_view().contains(name@),
{
    let mut i: usize = 0;
    while i < labels.len()
        invariant
            i <= labels.len(),
            forall|j: int| 0 <= j < i ==> labels.deep_view()[j] != name@,
        decreases labels.len() - i,
    {
        if str_eq(labels[i].as_str(), name) {
            proof {
                assert(labels.deep_view()[i as int] == name@);
            }
            return true;
        }
        i = i + 1;
    }
    proof {
        if labels.deep_view().contains(name@) {
            let k = choose|k: int| 0 <= k < labels.deep_view().len() && labels.deep_view()[k]
                == name@;
        }
    }
    false
}

/// Decide what a proposal-tracking event asks for.  With no configuration
/// the feature is off and every event is ignored.
pub fn parse_input(event: &IssuesEvent, config: Option<&MajorChangeConfig>) -> (r: Result<
    Option<Invocation>,
    String,
>)
    ensures
        match config {
            None => r == Ok::<Option<Invocation>, String>(None),
            Some(c) => match spec_parse_input(*event, *c) {
                None => r == Ok::<Option<Invocation>, String>(None),
                Some(si) => (r matches Ok(Some(inv)) && inv@ == si),
            },
        },
{
    let config = match config {
        Some(c) => c,
        None => {
            return Ok(None);
        },
    };
    if matches!(event.action, IssuesAction::Edited) {
        match &event.changes {
            None => {
                return Ok(None);
            },
            Some(rec) => {
                match &rec.previous_title {
                    Some(prev) => {
                        if labels_contain(&event.labels, config.enabling_label.as_str()) {
                            return Ok(
                                Some(Invocation::Rename { previous_title: prev.clone() }),
                            );
                        }
                        return Ok(None);
                    },
                    None => {},
                }
            },
        }
    }
    match &event.action {
        IssuesAction::Labeled { label } => {
            if str_eq(label.as_str(), config.accept_label.as_str()) {
                return Ok(Some(Invocation::AcceptedProposal));
            }
            match &config.concerns_label {
                Some(c) => {
                    if str_eq(label.as_str(), c.as_str()) {
                        return Ok(Some(Invocation::ConcernsAdded));
                    }
                },
                None => {},
            }
            if str_eq(label.as_str(), config.enabling_label.as_str()) {
                return Ok(Some(Invocation::NewProposal));
            }
        },
        IssuesAction::Unlabeled { label: Some(l) } => {
            match &config.concerns_label {
                Some(c) => {
                    if str_eq(l.as_str(), c.as_str()) {
                        return Ok(Some(Invocation::ConcernsResolved));
                    }
                },
                None => {},
            }
        },
        IssuesAction::Reopened => {
            if labels_contain(&event.labels, config.enabling_label.as_str()) {
                return Ok(Some(Invocation::NewProposal));
            }
        },
        _ => {},
    }
    Ok(None)
}

/// What the chat layer needs to name an issue: its title and the short
/// reference text (repository and number) that the chat topic carries.
#[derive(Debug, Clone, PartialEq, Eq)]
pub struct ZulipGitHubReference {
    pub title: String,
    pub reference: String,
}

/// The chat topic for an issue: the title followed by the reference,
/// truncated with an ellipsis so the whole topic never exceeds 60
/// characters (a chat-side limit).  `budget` is the room left for the
/// title once the reference, the separating space and a possible ellipsis
/// are accounted for; a title one character over the budget still fits
/// whole, because it takes the ellipsis' place.
pub open spec fn spec_zulip_topic(title: Seq<char>, reference: Seq<char>) -> Seq<char>
    recommends
        reference.len() <= 58,
{
    let budget = 58 - reference.len();
    if title.len() > budget + 1 {
        title.take(budget) + seq!['…', ' '] + reference
    } else {
        title + seq![' '] + reference
    }
}

/// Render the chat topic for an issue, at most 60 characters long.
pub fn zulip_topic_from_issue(issue: &ZulipGitHubReference) -> (r: String)
    requires
        issue.reference@.len() <= 58,
    ensures
        r@ == spec_zulip_topic(issue.title@, issue.reference@),
{
    let ref_len = issue.reference.as_str().unicode_len();
    let title_len = issue.title.as_str().unicode_len();
    let budget = 58 - ref_len;
    if title_len > budget + 1 {
        let mut out = issue.title.as_str().substring_char(0, budget).to_owned();
        out.append("\u{2026} ");
        out.append(issue.reference.as_str());
        proof {
            reveal_strlit("\u{2026} ");
            assert("\u{2026} "@ =~= seq!['…', ' ']);
            assert(issue.title@.take(budget as int) =~= issue.title@.subrange(0, budget as int));
        }
        out
    } else {
        let mut out = issue.title.clone();
        out.append(" ");
        out.append(issue.reference.as_str());
        proof {
            reveal_strlit(" ");
            assert(" "@ =~= seq![' ']);
        }
        out
    }
}

} // verus!
