use crate::label::{Label, LabelDelta, SpecDelta};
use crate::token::str_eq;
use vstd::prelude::*;
use vstd::string::*;

verus! {

// ---------------------------------------------------------------------------
// Team membership
// ---------------------------------------------------------------------------

/// The caller's standing with the team, as a tri-state: `Unknown` means the
/// upstream membership check itself failed, not that membership is false.
#[derive(Debug, Clone, Copy, PartialEq, Eq, Structural)]
pub enum TeamMembership {
    Member,
    Outsider,
    Unknown,
}

/// The tri-state read off the outcome of the upstream membership query.
/// A failed check maps to `Unknown`, never to `Outsider`: the two produce
/// differently worded denials.
pub fn membership_from_query(outcome: Result<bool, ()>) -> (m: TeamMembership)
    ensures
        m == match outcome {
            Ok(true) => TeamMembership::Member,
            Ok(false) => TeamMembership::Outsider,
            Err(_) => TeamMembership::Unknown,
        },
{
    match outcome {
        Ok(true) => TeamMembership::Member,
        Ok(false) => TeamMembership::Outsider,
        Err(_) => TeamMembership::Unknown,
    }
}

// ---------------------------------------------------------------------------
// Pattern matching
// ---------------------------------------------------------------------------

/// How one access-control pattern relates to a label: the pattern matches
/// and allows it, matches and denies it, or does not match.
#[derive(Debug, Clone, Copy, PartialEq, Eq, Structural)]
pub enum MatchPatternResult {
    Allow,
    Deny,
    NoMatch,
}

/// The answer of the authorization filter: allowed, denied by policy, or
/// denied because the caller could not be verified.
#[derive(Debug, Clone, Copy, PartialEq, Eq, Structural)]
pub enum CheckFilterResult {
    Allow,
    Deny,
    DenyUnknown,
}

/// The ordered list of glob patterns that govern label changes by callers
/// outside the team.  Order determines precedence.
#[derive(Debug, Clone, PartialEq, Eq)]
pub struct RelabelConfig {
    pub allow_unauthenticated: Vec<String>,
}

/// Whether a glob pattern is well formed: compiling it is a function of
/// the pattern text alone.
pub uninterp spec fn glob_pattern_valid(pattern: Seq<char>) -> bool;

/// Whether a well-formed glob pattern matches a text under
/// case-insensitive matching: a function of the pattern and the text.
/// The matcher treats path separators by the rules of the platform the
/// crate is built for, so this names the match relation of one build.
pub uninterp spec fn glob_match_nocase(pattern: Seq<char>, text: Seq<char>) -> bool;

/// Relies on `glob::Pattern::new`, which compiles a pattern or rejects it
/// by the pattern text alone, and `glob::Pattern::matches_with`, which
/// decides a match from the compiled pattern, the text, and the options
/// alone; the options used here ask for case-insensitive matching and
/// leave both path-specific options off.
#[verifier::external_body]
fn glob_match_ci(pattern: &str, text: &str) -> (r: Option<bool>)
    ensures
        r is Some <==> glob_pattern_valid(pattern@),
        r matches Some(b) ==> b == glob_match_nocase(pattern@, text@),
{
    let options = glob::MatchOptions {
        case_sensitive: false,
        require_literal_separator: false,
        require_literal_leading_dot: false,
    };
    match glob::Pattern::new(pattern) {
        Ok(compiled) => Some(compiled.matches_with(text, options)),
        Err(_) => None,
    }
}

/// Whether a pattern is negated: a leading `!` marks a deny pattern.
pub open spec fn pattern_negated(p: Seq<char>) -> bool {
    p.len() > 0 && p[0] == '!'
}

/// The pattern without its negation marker, if it carries one.
pub open spec fn pattern_body(p: Seq<char>) -> Seq<char> {
    if pattern_negated(p) {
        p.skip(1)
    } else {
        p
    }
}

/// What matching one pattern against a label yields: the match result, or
/// nothing if the pattern is malformed.
pub open spec fn spec_match_pattern(p: Seq<char>, l: Seq<char>) -> Option<MatchPatternResult> {
    if !glob_pattern_valid(pattern_body(p)) {
        None
    } else if glob_match_nocase(pattern_body(p), l) {
        if pattern_negated(p) {
            Some(MatchPatternResult::Deny)
        } else {
            Some(MatchPatternResult::Allow)
        }
    } else {
        Some(MatchPatternResult::NoMatch)
    }
}

/// Match one access-control pattern against a label, case-insensitively.
/// A leading `!` marks the pattern as a deny pattern.  A malformed pattern
/// is a configuration error, reported with a message that names the
/// pattern.
pub fn match_pattern(pattern: &str, label: &str) -> (r: Result<MatchPatternResult, String>)
    ensures
        match spec_match_pattern(pattern@, label@) {
            Some(m) => r == Ok::<MatchPatternResult, String>(m),
            None => (r matches Err(msg) && msg@ == "failed to match pattern "@ + pattern@),
        },
{
    let n = pattern.unicode_len();
    let inverse = n > 0 && pattern.get_char(0) == '!';
    let body = if inverse {
        pattern.substring_char(1, n)
    } else {
        pattern
    };
    proof {
        assert(body@ =~= pattern_body(pattern@));
    }
    match glob_match_ci(body, label) {
        None => {
            let mut msg = String::from_str("failed to match pattern ");
            msg.append(pattern);
            Err(msg)
        },
        Some(true) => if inverse {
            Ok(MatchPatternResult::Deny)
        } else {
            Ok(MatchPatternResult::Allow)
        },
        Some(false) => Ok(MatchPatternResult::NoMatch),
    }
}

// ---------------------------------------------------------------------------
// The authorization filter
// ---------------------------------------------------------------------------

/// What scanning the ACL from position `i` yields: the final value of the
/// running `matched` flag, or the position of a malformed pattern.
pub enum ScanOut {
    Done(bool),
    BadPattern(int),
}

/// Scan the ordered ACL: a matching allow pattern sets the running flag
/// and scanning continues; a matching deny pattern clears the flag and
/// stops at once — no later pattern can override it; a malformed pattern
/// stops the scan where it stands.
pub open spec fn spec_scan_acl(acl: Seq<Seq<char>>, l: Seq<char>, i: int, matched: bool) -> ScanOut
    decreases acl.len() - i,
        when 0 <= i <= acl.len()
{
    if i >= acl.len() {
        ScanOut::Done(matched)
    } else {
        match spec_match_pattern(acl[i], l) {
            None => ScanOut::BadPattern(i),
            Some(MatchPatternResult::Allow) => spec_scan_acl(acl, l, i + 1, true),
            Some(MatchPatternResult::Deny) => ScanOut::Done(false),
            Some(MatchPatternResult::NoMatch) => spec_scan_acl(acl, l, i + 1, matched),
        }
    }
}

/// The filter's full answer: a team member is allowed unconditionally;
/// anyone else is allowed exactly when the ACL scan ends with the flag
/// set, and otherwise denied — as a definite `Deny` for an outsider, and
/// as `DenyUnknown` when membership could not be verified.
pub open spec fn spec_check_filter(l: Seq<char>, acl: Seq<Seq<char>>, m: TeamMembership) -> Result<
    CheckFilterResult,
    Seq<char>,
> {
    if m == TeamMembership::Member {
        Ok(CheckFilterResult::Allow)
    } else {
        match spec_scan_acl(acl, l, 0, false) {
            ScanOut::Done(true) => Ok(CheckFilterResult::Allow),
            ScanOut::Done(false) => if m == TeamMembership::Outsider {
                Ok(CheckFilterResult::Deny)
            } else {
                Ok(CheckFilterResult::DenyUnknown)
            },
            ScanOut::BadPattern(i) => Err("failed to match pattern "@ + acl[i]),
        }
    }
}

/// Decide whether the caller may change `label`, given the ordered ACL and
/// the caller's membership tri-state.
pub fn check_filter(label: &str, config: &RelabelConfig, is_member: TeamMembership) -> (r: Result<
    CheckFilterResult,
    String,
>)
    ensures
        match spec_check_filter(label@, config.allow_unauthenticated.deep_view(), is_member) {
            Ok(c) => r == Ok::<CheckFilterResult, String>(c),
            Err(m) => (r matches Err(msg) && msg@ == m),
        },
{
    if is_member == TeamMembership::Member {
        return Ok(CheckFilterResult::Allow);
    }
    let ghost acl = config.allow_unauthenticated.deep_view();
    let n = config.allow_unauthenticated.len();
    let mut matched = false;
    let mut i: usize = 0;
    while i < n
        invariant
            i <= n,
            n == config.allow_unauthenticated.len(),
            acl == config.allow_unauthenticated.deep_view(),
            is_member != TeamMembership::Member,
            spec_scan_acl(acl, label@, 0, false) == spec_scan_acl(acl, label@, i as int, matched),
        decreases n - i,
    {
        let pattern = &config.allow_unauthenticated[i];
        match match_pattern(pattern.as_str(), label) {
            Ok(MatchPatternResult::Allow) => {
                matched = true;
            },
            Ok(MatchPatternResult::Deny) => {
                // an explicit deny overrides every allow and stops the scan
                return if is_member == TeamMembership::Outsider {
                    Ok(CheckFilterResult::Deny)
                } else {
                    Ok(CheckFilterResult::DenyUnknown)
                };
            },
            Ok(MatchPatternResult::NoMatch) => {},
            Err(msg) => {
                return Err(msg);
            },
        }
        i = i + 1;
    }
    if matched {
        Ok(CheckFilterResult::Allow)
    } else if is_member == TeamMembership::Outsider {
        Ok(CheckFilterResult::Deny)
    } else {
        Ok(CheckFilterResult::DenyUnknown)
    }
}

// ---------------------------------------------------------------------------
// Lexicographic order on label names
//
// The resolver hands its two answer sets back as vectors in a canonical
// order, so equal delta lists yield identical vectors.  The order is
// strict lexicographic order on code points.
// ---------------------------------------------------------------------------

/// Strict lexicographic order on character sequences, by code point.
pub open spec fn seq_lt(a: Seq<char>, b: Seq<char>) -> bool
    decreases a.len(),
{
    if b.len() == 0 {
        false
    } else if a.len() == 0 {
        true
    } else if a[0] == b[0] {
        seq_lt(a.drop_first(), b.drop_first())
    } else {
        (a[0] as u32) < (b[0] as u32)
    }
}

/// Two characters with the same code point are the same character.
proof fn lemma_char_code_injective(c1: char, c2: char)
    requires
        c1 as u32 == c2 as u32,
    ensures
        c1 == c2,
{
}

/// The order is total: any two sequences compare one way, the other way,
/// or are equal, and never two of these at once.
pub proof fn lemma_seq_lt_total(a: Seq<char>, b: Seq<char>)
    ensures
        seq_lt(a, b) || seq_lt(b, a) || a == b,
        !(seq_lt(a, b) && seq_lt(b, a)),
        seq_lt(a, b) ==> a != b,
    decreases a.len(),
{
    if a.len() == 0 && b.len() == 0 {
        assert(a =~= b);
    } else if a.len() > 0 && b.len() > 0 {
        if a[0] == b[0] {
            lemma_seq_lt_total(a.drop_first(), b.drop_first());
            if a.drop_first() == b.drop_first() {
                assert forall|i: int| 0 <= i < a.len() implies a[i] == b[i] by {
                    if i > 0 {
                        assert(a.drop_first()[i - 1] == a[i]);
                        assert(b.drop_first()[i - 1] == b[i]);
                    }
                };
                assert(a =~= b);
            }
            if a == b {
                assert(a.drop_first() =~= b.drop_first());
            }
        } else {
            assert(seq_lt(a, b) == ((a[0] as u32) < (b[0] as u32)));
            assert(seq_lt(b, a) == ((b[0] as u32) < (a[0] as u32)));
            if (a[0] as u32) == (b[0] as u32) {
                lemma_char_code_injective(a[0], b[0]);
            }
        }
    }
}

/// The order is transitive.
pub proof fn lemma_seq_lt_trans(a: Seq<char>, b: Seq<char>, c: Seq<char>)
    requires
        seq_lt(a, b),
        seq_lt(b, c),
    ensures
        seq_lt(a, c),
    decreases a.len(),
{
    if a.len() > 0 && b.len() > 0 && c.len() > 0 {
        if a[0] == b[0] && b[0] == c[0] {
            lemma_seq_lt_trans(a.drop_first(), b.drop_first(), c.drop_first());
        }
    }
}

/// Character-for-character lexicographic comparison of two string slices.
pub fn str_lt(a: &str, b: &str) -> (r: bool)
    ensures
        r == seq_lt(a@, b@),
{
    let alen = a.unicode_len();
    let blen = b.unicode_len();
    let mut i: usize = 0;
    proof {
        assert(a@.skip(0) =~= a@);
        assert(b@.skip(0) =~= b@);
    }
    loop
        invariant
            i <= alen,
            i <= blen,
            alen == a@.len(),
            blen == b@.len(),
            seq_lt(a@, b@) == seq_lt(a@.skip(i as int), b@.skip(i as int)),
        decreases alen - i,
    {
        let ghost sa = a@.skip(i as int);
        let ghost sb = b@.skip(i as int);
        if i >= blen {
            return false;
        }
        if i >= alen {
            return true;
        }
        let ca = a.get_char(i);
        let cb = b.get_char(i);
        proof {
            assert(sa[0] == a@[i as int]);
            assert(sb[0] == b@[i as int]);
        }
        if ca != cb {
            return (ca as u32) < (cb as u32);
        }
        proof {
            assert(sa.drop_first() =~= a@.skip(i + 1));
            assert(sb.drop_first() =~= b@.skip(i + 1));
        }
        i = i + 1;
    }
}

/// A sequence of names in strictly ascending order.
pub open spec fn strictly_sorted(s: Seq<Seq<char>>) -> bool {
    forall|i: int, j: int| 0 <= i < j < s.len() ==> seq_lt(s[i], s[j])
}

/// The position of a label in a vector, by exact name equality.
fn find_label(v: &Vec<Label>, name: &str) -> (r: Option<usize>)
    ensures
        match r {
            Some(i) => i < v.len() && v.deep_view()[i as int] == name@,
            None => forall|j: int| 0 <= j < v.deep_view().len() ==> v.deep_view()[j] != name@,
        },
{
    let mut i: usize = 0;
    while i < v.len()
        invariant
            i <= v.len(),
            forall|j: int| 0 <= j < i ==> v.deep_view()[j] != name@,
        decreases v.len() - i,
    {
        if str_eq(v[i].name.as_str(), name) {
            return Some(i);
        }
        i = i + 1;
    }
    None
}

/// Insert a label that a sorted vector does not yet hold, keeping the
/// order.
fn insert_sorted(v: &mut Vec<Label>, l: Label)
    requires
        strictly_sorted(old(v).deep_view()),
        forall|j: int| 0 <= j < old(v).deep_view().len() ==> old(v).deep_view()[j] != l@,
    ensures
        strictly_sorted(final(v).deep_view()),
        final(v).deep_view().to_set() == old(v).deep_view().to_set().insert(l@),
        final(v)@.len() == old(v)@.len() + 1,
{
    let ghost dv0 = v.deep_view();
    let mut i: usize = 0;
    while i < v.len() && str_lt(v[i].name.as_str(), l.name.as_str())
        invariant
            i <= v.len(),
            *v == *old(v),
            dv0 == v.deep_view(),
            forall|j: int| 0 <= j < i ==> seq_lt(v.deep_view()[j], l@),
        decreases v.len() - i,
    {
        i = i + 1;
    }
    proof {
        if (i as int) < dv0.len() {
            lemma_seq_lt_total(dv0[i as int], l@);
            assert(seq_lt(l@, dv0[i as int]));
        }
    }
    let ghost pos = i as int;
    v.insert(i, l);
    proof {
        let dv = v.deep_view();
        assert forall|k: int| 0 <= k < dv.len() implies dv[k] == (if k < pos {
            dv0[k]
        } else if k == pos {
            l@
        } else {
            dv0[k - 1]
        }) by {
            assert(v@ == old(v)@.insert(pos, v@[pos]));
        };
        assert forall|x: int, y: int| 0 <= x < y < dv.len() implies seq_lt(dv[x], dv[y]) by {
            if y < pos {
            } else if x < pos && y == pos {
            } else if x == pos {
                if pos < y - 1 + 1 && pos < dv0.len() {
                    if y - 1 > pos {
                        lemma_seq_lt_trans(l@, dv0[pos], dv0[y - 1]);
                    }
                }
            } else if x < pos && y > pos {
                if x < y - 1 {
                } else {
                    assert(x == y - 1 && x < pos && y - 1 >= pos);  // impossible
                }
            }
        };
        assert forall|x: Seq<char>|
            dv.to_set().contains(x) implies dv0.to_set().insert(l@).contains(x) by {
            let k = choose|k: int| 0 <= k < dv.len() && dv[k] == x;
            if k < pos {
                assert(dv0[k] == x);
            } else if k > pos {
                assert(dv0[k - 1] == x);
            }
        };
        assert forall|x: Seq<char>|
            dv0.to_set().insert(l@).contains(x) implies dv.to_set().contains(x) by {
            if x == l@ {
                assert(dv[pos] == x);
            } else {
                let k = choose|k: int| 0 <= k < dv0.len() && dv0[k] == x;
                if k < pos {
                    assert(dv[k] == x);
                } else {
                    assert(dv[k + 1] == x);
                }
            }
        };
        assert(dv.to_set() =~= dv0.to_set().insert(l@));
    }
}

/// Take the label at position `i` out of a sorted vector, keeping the
/// order.
fn remove_sorted(v: &mut Vec<Label>, i: usize)
    requires
        strictly_sorted(old(v).deep_view()),
        i < old(v)@.len(),
    ensures
        strictly_sorted(final(v).deep_view()),
        final(v).deep_view().to_set() == old(v).deep_view().to_set().remove(
            old(v).deep_view()[i as int],
        ),
        final(v)@.len() == old(v)@.len() - 1,
{
    let ghost dv0 = v.deep_view();
    let ghost pos = i as int;
    let ghost gone = dv0[pos];
    proof {
        assert forall|x: int, y: int| 0 <= x < y < dv0.len() implies dv0[x] != dv0[y] by {
            lemma_seq_lt_total(dv0[x], dv0[y]);
        };
    }
    v.remove(i);
    proof {
        let dv = v.deep_view();
        assert forall|k: int| 0 <= k < dv.len() implies dv[k] == (if k < pos {
            dv0[k]
        } else {
            dv0[k + 1]
        }) by {
            assert(v@ == old(v)@.remove(pos));
        };
        assert forall|x: int, y: int| 0 <= x < y < dv.len() implies seq_lt(dv[x], dv[y]) by {};
        assert forall|x: Seq<char>|
            dv.to_set().contains(x) implies dv0.to_set().remove(gone).contains(x) by {
            let k = choose|k: int| 0 <= k < dv.len() && dv[k] == x;
            if k < pos {
                assert(dv0[k] == x);
                assert(dv0[k] != dv0[pos]);
            } else {
                assert(dv0[k + 1] == x);
                assert(dv0[k + 1] != dv0[pos]);
            }
        };
        assert forall|x: Seq<char>|
            dv0.to_set().remove(gone).contains(x) implies dv.to_set().contains(x) by {
            let k = choose|k: int| 0 <= k < dv0.len() && dv0[k] == x;
            if k < pos {
                assert(dv[k] == x);
            } else {
                assert(k != pos);
                assert(dv[k - 1] == x);
            }
        };
        assert(dv.to_set() =~= dv0.to_set().remove(gone));
    }
}

// ---------------------------------------------------------------------------
// The delta resolver
// ---------------------------------------------------------------------------

/// One step of resolution: how a directive changes the pending state.  An
/// `Add` of a label pending removal cancels — it does not pend the label
/// for addition; adding a label already pending addition changes nothing.
/// `Remove` is the mirror image.  This is cancellation, not last-write-
/// wins.
pub open spec fn resolve_step(st: (Set<Seq<char>>, Set<Seq<char>>), d: SpecDelta) -> (
    Set<Seq<char>>,
    Set<Seq<char>>,
) {
    match d {
        SpecDelta::Add(l) => if st.1.contains(l) {
            (st.0, st.1.remove(l))
        } else {
            (st.0.insert(l), st.1)
        },
        SpecDelta::Remove(l) => if st.0.contains(l) {
            (st.0.remove(l), st.1)
        } else {
            (st.0, st.1.insert(l))
        },
    }
}

/// The minimal delta equivalent to applying the directives in order to an
/// unknown prior label state: the set of labels left pending addition and
/// the set left pending removal.  The two sets are disjoint by
/// construction.
pub open spec fn spec_resolve(ds: Seq<SpecDelta>) -> (Set<Seq<char>>, Set<Seq<char>>)
    decreases ds.len(),
{
    if ds.len() == 0 {
        (Set::empty(), Set::empty())
    } else {
        resolve_step(spec_resolve(ds.drop_last()), ds.last())
    }
}

/// Collapse an ordered directive list into its minimal delta.  The
/// answer's two vectors are the resolved add-set and remove-set, each
/// listed in strictly ascending name order; callers must treat them as
/// sets.
pub fn compute_label_deltas(deltas: &[LabelDelta]) -> (r: (Vec<Label>, Vec<Label>))
    ensures
        strictly_sorted(r.0.deep_view()),
        strictly_sorted(r.1.deep_view()),
        r.0.deep_view().to_set() == spec_resolve(deltas.deep_view()).0,
        r.1.deep_view().to_set() == spec_resolve(deltas.deep_view()).1,
{
    let ghost ds = deltas.deep_view();
    let mut to_add: Vec<Label> = Vec::new();
    let mut to_remove: Vec<Label> = Vec::new();
    let n = deltas.len();
    proof {
        assert(ds.take(0) =~= Seq::<SpecDelta>::empty());
        assert(to_add.deep_view().to_set() =~= Set::<Seq<char>>::empty());
        assert(to_remove.deep_view().to_set() =~= Set::<Seq<char>>::empty());
    }
    let mut idx: usize = 0;
    while idx < n
        invariant
            idx <= n,
            n == deltas@.len(),
            ds == deltas.deep_view(),
            strictly_sorted(to_add.deep_view()),
            strictly_sorted(to_remove.deep_view()),
            to_add.deep_view().to_set() == spec_resolve(ds.take(idx as int)).0,
            to_remove.deep_view().to_set() == spec_resolve(ds.take(idx as int)).1,
        decreases n - idx,
    {
        proof {
            assert(ds.take(idx + 1).drop_last() =~= ds.take(idx as int));
            assert(ds.take(idx + 1).last() == ds[idx as int]);
        }
        let d = &deltas[idx];
        match d {
            LabelDelta::Add(label) => {
                match find_label(&to_remove, label.name.as_str()) {
                    Some(ix) => {
                        remove_sorted(&mut to_remove, ix);
                    },
                    None => {
                        match find_label(&to_add, label.name.as_str()) {
                            Some(ix) => {
                                proof {
                                    assert(to_add.deep_view().contains(label@));
                                    assert(to_add.deep_view().to_set().insert(label@)
                                        =~= to_add.deep_view().to_set());
                                }
                            },
                            None => {
                                insert_sorted(&mut to_add, Label { name: label.name.clone() });
                            },
                        }
                    },
                }
            },
            LabelDelta::Remove(label) => {
                match find_label(&to_add, label.name.as_str()) {
                    Some(ix) => {
                        remove_sorted(&mut to_add, ix);
                    },
                    None => {
                        match find_label(&to_remove, label.name.as_str()) {
                            Some(ix) => {
                                proof {
                                    assert(to_remove.deep_view().contains(label@));
                                    assert(to_remove.deep_view().to_set().insert(label@)
                                        =~= to_remove.deep_view().to_set());
                                }
                            },
                            None => {
                                insert_sorted(&mut to_remove, Label { name: label.name.clone() });
                            },
                        }
                    },
                }
            },
        }
        idx = idx + 1;
    }
    proof {
        assert(ds.take(n as int) =~= ds);
    }
    (to_add, to_remove)
}

// ---------------------------------------------------------------------------
// Laws of resolution
// ---------------------------------------------------------------------------

/// The resolved delta is internally consistent: no label is pending both
/// addition and removal.
pub proof fn lemma_resolve_disjoint(ds: Seq<SpecDelta>)
    ensures
        forall|x: Seq<char>|
            !(#[trigger] spec_resolve(ds).0.contains(x) && spec_resolve(ds).1.contains(x)),
    decreases ds.len(),
{
    if ds.len() > 0 {
        lemma_resolve_disjoint(ds.drop_last());
        let st = spec_resolve(ds.drop_last());
        let res = spec_resolve(ds);
        assert(res == resolve_step(st, ds.last()));
        assert forall|x: Seq<char>| !(#[trigger] res.0.contains(x) && res.1.contains(x)) by {
            assert(!(st.0.contains(x) && st.1.contains(x)));
        };
    }
}

/// Two strictly sorted sequences with the same elements are the same
/// sequence.  Together with `compute_label_deltas`' contract this pins
/// the resolver's answer completely: resolving the same directive list
/// twice yields identical vectors, not merely equal sets.
pub proof fn lemma_sorted_set_unique(s1: Seq<Seq<char>>, s2: Seq<Seq<char>>)
    requires
        strictly_sorted(s1),
        strictly_sorted(s2),
        s1.to_set() == s2.to_set(),
    ensures
        s1 == s2,
    decreases s1.len(),
{
    if s1.len() == 0 {
        if s2.len() > 0 {
            assert(s2.to_set().contains(s2[0]));
            assert(s1.contains(s2[0]));
        }
        assert(s1 =~= s2);
    } else {
        assert(s1.to_set().contains(s1[0]));
        assert(s2.contains(s1[0]));
        let k = choose|k: int| 0 <= k < s2.len() && s2[k] == s1[0];
        assert(s2.to_set().contains(s2[0]));
        assert(s1.contains(s2[0]));
        let m = choose|m: int| 0 <= m < s1.len() && s1[m] == s2[0];
        if k > 0 && m > 0 {
            assert(seq_lt(s2[0], s2[k]));
            assert(seq_lt(s1[0], s1[m]));
            lemma_seq_lt_total(s1[0], s2[0]);
        }
        assert(s1[0] == s2[0]);
        let t1 = s1.drop_first();
        let t2 = s2.drop_first();
        assert forall|j: int| 0 <= j < t1.len() implies t1[j] != s1[0] by {
            assert(t1[j] == s1[j + 1]);
            lemma_seq_lt_total(s1[0], s1[j + 1]);
        };
        assert forall|j: int| 0 <= j < t2.len() implies t2[j] != s2[0] by {
            assert(t2[j] == s2[j + 1]);
            lemma_seq_lt_total(s2[0], s2[j + 1]);
        };
        assert forall|x: Seq<char>| t1.to_set().contains(x) implies t2.to_set().contains(x) by {
            let j = choose|j: int| 0 <= j < t1.len() && t1[j] == x;
            assert(s1[j + 1] == x);
            assert(s1.to_set().contains(x));
            assert(s2.contains(x));
            let n = choose|n: int| 0 <= n < s2.len() && s2[n] == x;
            assert(x != s1[0]);
            assert(n != 0);
            assert(t2[n - 1] == x);
        };
        assert forall|x: Seq<char>| t2.to_set().contains(x) implies t1.to_set().contains(x) by {
            let j = choose|j: int| 0 <= j < t2.len() && t2[j] == x;
            assert(s2[j + 1] == x);
            assert(s2.to_set().contains(x));
            assert(s1.contains(x));
            let n = choose|n: int| 0 <= n < s1.len() && s1[n] == x;
            assert(x != s2[0]);
            assert(n != 0);
            assert(t1[n - 1] == x);
        };
        assert(t1.to_set() =~= t2.to_set());
        assert(strictly_sorted(t1)) by {
            assert forall|x: int, y: int| 0 <= x < y < t1.len() implies seq_lt(t1[x], t1[y]) by {
                assert(t1[x] == s1[x + 1]);
                assert(t1[y] == s1[y + 1]);
            };
        };
        assert(strictly_sorted(t2)) by {
            assert forall|x: int, y: int| 0 <= x < y < t2.len() implies seq_lt(t2[x], t2[y]) by {
                assert(t2[x] == s2[x + 1]);
                assert(t2[y] == s2[y + 1]);
            };
        };
        lemma_sorted_set_unique(t1, t2);
        assert forall|i: int| 0 <= i < s1.len() implies s1[i] == s2[i] by {
            if i > 0 {
                assert(t1[i - 1] == s1[i]);
                assert(t2[i - 1] == s2[i]);
            }
        };
        assert(s1 =~= s2);
    }
}

/// Resolution unfolds from the right, one directive at a time.
pub proof fn lemma_resolve_push(ds: Seq<SpecDelta>, d: SpecDelta)
    ensures
        spec_resolve(ds.push(d)) == resolve_step(spec_resolve(ds), d),
{
    assert(ds.push(d).drop_last() =~= ds);
    assert(ds.push(d).last() == d);
}

/// Idempotence: for every label, adding it twice pends it for addition
/// once — repeated identical directives never toggle the state.
pub proof fn lemma_resolve_idempotent(l: Seq<char>)
    ensures
        spec_resolve(seq![SpecDelta::Add(l), SpecDelta::Add(l)]).0 == set![l],
        spec_resolve(seq![SpecDelta::Add(l), SpecDelta::Add(l)]).1 == Set::<Seq<char>>::empty(),
{
    let e = Seq::<SpecDelta>::empty();
    let ds = seq![SpecDelta::Add(l), SpecDelta::Add(l)];
    assert(ds =~= e.push(SpecDelta::Add(l)).push(SpecDelta::Add(l)));
    lemma_resolve_push(e, SpecDelta::Add(l));
    lemma_resolve_push(e.push(SpecDelta::Add(l)), SpecDelta::Add(l));
    assert(spec_resolve(e.push(SpecDelta::Add(l))).0 =~= set![l]);
    assert(spec_resolve(ds).0 =~= set![l]);
    assert(spec_resolve(ds).1 =~= Set::<Seq<char>>::empty());
}

/// Cancellation: for every label, an add followed by a remove leaves
/// nothing pending either way.
pub proof fn lemma_resolve_cancellation(l: Seq<char>)
    ensures
        spec_resolve(seq![SpecDelta::Add(l), SpecDelta::Remove(l)]).0 == Set::<Seq<char>>::empty(),
        spec_resolve(seq![SpecDelta::Add(l), SpecDelta::Remove(l)]).1 == Set::<Seq<char>>::empty(),
{
    let e = Seq::<SpecDelta>::empty();
    let ds = seq![SpecDelta::Add(l), SpecDelta::Remove(l)];
    assert(ds =~= e.push(SpecDelta::Add(l)).push(SpecDelta::Remove(l)));
    lemma_resolve_push(e, SpecDelta::Add(l));
    lemma_resolve_push(e.push(SpecDelta::Add(l)), SpecDelta::Remove(l));
    assert(spec_resolve(e.push(SpecDelta::Add(l))).0 =~= set![l]);
    assert(set![l].contains(l));
    assert(spec_resolve(ds).0 =~= Set::<Seq<char>>::empty());
    assert(spec_resolve(ds).1 =~= Set::<Seq<char>>::empty());
}

/// Order sensitivity: re-adding a label after its add was cancelled pends
/// it for addition again — resolution is cancellation-based, not
/// last-write-wins, and directive order matters.
pub proof fn lemma_resolve_order_sensitive(l: Seq<char>)
    ensures
        spec_resolve(seq![SpecDelta::Add(l), SpecDelta::Remove(l), SpecDelta::Add(l)]).0 == set![l],
        spec_resolve(seq![SpecDelta::Add(l), SpecDelta::Remove(l), SpecDelta::Add(l)]).1
            == Set::<Seq<char>>::empty(),
{
    let ds = seq![SpecDelta::Add(l), SpecDelta::Remove(l), SpecDelta::Add(l)];
    let ds2 = seq![SpecDelta::Add(l), SpecDelta::Remove(l)];
    assert(ds =~= ds2.push(SpecDelta::Add(l)));
    lemma_resolve_push(ds2, SpecDelta::Add(l));
    lemma_resolve_cancellation(l);
    assert(spec_resolve(ds).0 =~= set![l]);
    assert(spec_resolve(ds).1 =~= Set::<Seq<char>>::empty());
}

} // verus!
