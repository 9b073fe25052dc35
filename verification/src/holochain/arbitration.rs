//! Community arbitration: cases are opened on contributed content, members
//! vote with one of three (trinary) judgements, and a case is decided once
//! enough votes agree.

use vstd::prelude::*;

verus! {

/// Trinary judgement of a member on a case.
#[derive(Debug, Clone, Copy, PartialEq, Eq, Structural)]
pub enum ArbitrationState {
    /// The conflict is resolved through understanding.
    Resolve,
    /// The case needs community input.
    Review,
    /// The content is harmful and needs intervention.
    Reject,
}

/// Status of an arbitration case.
#[derive(Debug, Clone, Copy, PartialEq, Eq, Structural)]
pub enum ArbitrationStatus {
    Open,
    UnderReview,
    Resolved,
    Rejected,
}

/// Outcome of arbitrating a conflict.
#[derive(Debug, Clone, Copy, PartialEq, Eq, Structural)]
pub enum ArbitrationResult {
    Accept,
    Neutral,
    Reject,
}

/// A member's vote on a case.  `voter` is the member's agent key in text
/// form; `timestamp` is in microseconds.
#[derive(Debug, Clone)]
pub struct ArbitrationVote {
    pub voter: String,
    pub vote: ArbitrationState,
    /// Weight of the vote, in hundredths.
    pub weight_hundredths: u32,
    pub justification: String,
    pub timestamp: u64,
}

/// An arbitration case on the content with hash `content_hash`.
#[derive(Debug, Clone)]
pub struct ArbitrationCase {
    pub id: String,
    pub content_hash: String,
    pub reporter: String,
    pub status: ArbitrationStatus,
    pub votes: Vec<ArbitrationVote>,
    pub resolution: Option<String>,
    pub created_at: u64,
    pub updated_at: u64,
}

/// Why a vote was refused.
#[derive(Debug, Clone, Copy, PartialEq, Eq, Structural)]
pub enum ArbitrationError {
    /// The case is resolved or rejected.
    ClosedCase,
    /// The member has voted on this case before.
    AlreadyVoted,
}

/// Fewest votes on which a case is decided.
pub const MIN_VOTES_FOR_DECISION: usize = 5;

/// Number of votes in `votes` with judgement `s`.
pub open spec fn count_votes(votes: Seq<ArbitrationVote>, s: ArbitrationState) -> nat
    decreases votes.len(),
{
    if votes.len() == 0 {
        0
    } else {
        count_votes(votes.drop_last(), s) + if votes.last().vote == s { 1nat } else { 0nat }
    }
}

/// Status and resolution text after the votes `votes`, from status `status`
/// and resolution `resolution`: with at least five votes, a strict majority
/// to resolve resolves the case, else a strict majority to reject rejects
/// it, else more than a third asking for review puts it under review;
/// otherwise nothing changes.
pub open spec fn decided(
    votes: Seq<ArbitrationVote>,
    status: ArbitrationStatus,
    resolution: Option<Seq<char>>,
) -> (ArbitrationStatus, Option<Seq<char>>) {
    let total = votes.len();
    let resolve = count_votes(votes, ArbitrationState::Resolve);
    let review = count_votes(votes, ArbitrationState::Review);
    let reject = count_votes(votes, ArbitrationState::Reject);
    if total < 5 {
        (status, resolution)
    } else if resolve > total / 2 {
        (ArbitrationStatus::Resolved, Some(resolved_text()))
    } else if reject > total / 2 {
        (ArbitrationStatus::Rejected, Some(rejected_text()))
    } else if review > total / 3 {
        (ArbitrationStatus::UnderReview, resolution)
    } else {
        (status, resolution)
    }
}

pub open spec fn resolved_text() -> Seq<char> {
    "Community resolved this case positively"@
}

pub open spec fn rejected_text() -> Seq<char> {
    "Community rejected this case"@
}

/// Resolution of a case as text, if any.
pub open spec fn resolution_view(r: Option<String>) -> Option<Seq<char>> {
    match r {
        Some(s) => Some(s@),
        None => None,
    }
}

/// A case that accepts votes.
pub open spec fn accepts_votes(s: ArbitrationStatus) -> bool {
    s == ArbitrationStatus::Open || s == ArbitrationStatus::UnderReview
}

/// Some vote of `votes` was cast by `voter`.
pub open spec fn has_voted(votes: Seq<ArbitrationVote>, voter: Seq<char>) -> bool {
    exists|i: int| 0 <= i < votes.len() && (#[trigger] votes[i]).voter@ == voter
}

/// Result reported for the judgement `s`.
pub open spec fn result_of(s: ArbitrationState) -> ArbitrationResult {
    match s {
        ArbitrationState::Resolve => ArbitrationResult::Accept,
        ArbitrationState::Review => ArbitrationResult::Neutral,
        ArbitrationState::Reject => ArbitrationResult::Reject,
    }
}

/// Judgement of a conflict from the semantic analysis of its content: its
/// intent, whether the analysis is confident enough to call it harmful
/// (confidence above 0.9) and confident enough to call it positive
/// (confidence above 0.7).
pub open spec fn judgement(intent: Seq<char>, harm_confident: bool, positive_confident: bool) -> ArbitrationState {
    if intent == "harmful"@ && harm_confident {
        ArbitrationState::Reject
    } else if intent == "positive"@ && positive_confident {
        ArbitrationState::Resolve
    } else {
        ArbitrationState::Review
    }
}

/// A case whose status is closed carries a resolution.
pub open spec fn case_is_valid(status: ArbitrationStatus, resolution: Option<String>) -> bool {
    status == ArbitrationStatus::Open || resolution is Some
}

/// Number of votes with judgement `s`.
fn tally(votes: &Vec<ArbitrationVote>, s: ArbitrationState) -> (n: usize)
    ensures
        n == count_votes(votes@, s),
{
    let mut n: usize = 0;
    let mut i: usize = 0;
    while i < votes.len()
        invariant
            i <= votes@.len(),
            n == count_votes(votes@.subrange(0, i as int), s),
            n <= i,
        decreases votes@.len() - i,
    {
        proof {
            assert(votes@.subrange(0, i + 1).drop_last() =~= votes@.subrange(0, i as int));
        }
        if votes[i].vote == s {
            n = n + 1;
        }
        i = i + 1;
    }
    proof {
        assert(votes@.subrange(0, votes@.len() as int) =~= votes@);
    }
    n
}

proof fn lemma_counts_total(votes: Seq<ArbitrationVote>)
    ensures
        count_votes(votes, ArbitrationState::Resolve) + count_votes(votes, ArbitrationState::Review)
            + count_votes(votes, ArbitrationState::Reject) == votes.len(),
    decreases votes.len(),
{
    if votes.len() > 0 {
        lemma_counts_total(votes.drop_last());
    }
}

/// A new open case `id` on the content `content_hash`, reported by
/// `reporter` at `now`, with no votes.
pub fn new_case(id: String, content_hash: String, reporter: String, now: u64) -> (c: ArbitrationCase)
    ensures
        c.id == id,
        c.content_hash == content_hash,
        c.reporter == reporter,
        c.status == ArbitrationStatus::Open,
        c.votes@.len() == 0,
        c.resolution is None,
        c.created_at == now,
        c.updated_at == now,
{
    ArbitrationCase {
        id,
        content_hash,
        reporter,
        status: ArbitrationStatus::Open,
        votes: Vec::new(),
        resolution: None,
        created_at: now,
        updated_at: now,
    }
}

/// Updates the status of `case` from its votes: see [`decided`].
pub fn update_case_status(case: &mut ArbitrationCase)
    ensures
        (final(case).status, resolution_view(final(case).resolution)) == decided(
            old(case).votes@,
            old(case).status,
            resolution_view(old(case).resolution),
        ),
        final(case).votes@ == old(case).votes@,
        final(case).id == old(case).id,
        final(case).content_hash == old(case).content_hash,
        final(case).reporter == old(case).reporter,
        final(case).created_at == old(case).created_at,
        final(case).updated_at == old(case).updated_at,
{
    if case.votes.len() == 0 {
        return;
    }
    let resolve_votes = tally(&case.votes, ArbitrationState::Resolve);
    let review_votes = tally(&case.votes, ArbitrationState::Review);
    let reject_votes = tally(&case.votes, ArbitrationState::Reject);
    proof {
        lemma_counts_total(case.votes@);
    }
    let total_votes = resolve_votes + review_votes + reject_votes;
    if total_votes >= MIN_VOTES_FOR_DECISION {
        if resolve_votes > total_votes / 2 {
            case.status = ArbitrationStatus::Resolved;
            let text = "Community resolved this case positively".to_owned();
            proof {
                reveal_strlit("Community resolved this case positively");
            }
            case.resolution = Some(text);
        } else if reject_votes > total_votes / 2 {
            case.status = ArbitrationStatus::Rejected;
            let text = "Community rejected this case".to_owned();
            proof {
                reveal_strlit("Community rejected this case");
            }
            case.resolution = Some(text);
        } else if review_votes > total_votes / 3 {
            case.status = ArbitrationStatus::UnderReview;
        }
    }
}

/// Whether `voter` has voted on `case`.
pub fn already_voted(case: &ArbitrationCase, voter: &str) -> (b: bool)
    ensures
        b == has_voted(case.votes@, voter@),
{
    let who = voter.to_owned();
    let mut i: usize = 0;
    while i < case.votes.len()
        invariant
            who@ == voter@,
            i <= case.votes@.len(),
            forall|j: int| 0 <= j < i ==> (#[trigger] case.votes@[j]).voter@ != voter@,
        decreases case.votes@.len() - i,
    {
        if case.votes[i].voter == who {
            return true;
        }
        i = i + 1;
    }
    false
}

/// Casts `voter`'s vote `vote` with `justification` on `case` at `now`, of
/// weight `weight` hundredths (one, a hundred hundredths, when not given),
/// then updates the case's status.  A closed case, or a member who has voted
/// already, is refused and the case left as it was.
pub fn cast_vote(
    case: &mut ArbitrationCase,
    voter: String,
    vote: ArbitrationState,
    weight: Option<u32>,
    justification: String,
    now: u64,
) -> (r: Result<(), ArbitrationError>)
    ensures
        match r {
            Ok(()) => {
                &&& accepts_votes(old(case).status)
                &&& !has_voted(old(case).votes@, voter@)
                &&& final(case).votes@.len() == old(case).votes@.len() + 1
                &&& final(case).votes@.drop_last() == old(case).votes@
                &&& final(case).votes@.last().voter == voter
                &&& final(case).votes@.last().vote == vote
                &&& final(case).votes@.last().weight_hundredths == (match weight {
                    Some(w) => w,
                    None => 100,
                })
                &&& final(case).votes@.last().justification == justification
                &&& final(case).votes@.last().timestamp == now
                &&& final(case).updated_at == now
                &&& (final(case).status, resolution_view(final(case).resolution)) == decided(
                    final(case).votes@,
                    old(case).status,
                    resolution_view(old(case).resolution),
                )
                &&& final(case).id == old(case).id
                &&& final(case).content_hash == old(case).content_hash
                &&& final(case).reporter == old(case).reporter
                &&& final(case).created_at == old(case).created_at
            },
            Err(e) => {
                &&& *final(case) == *old(case)
                &&& e == (if !accepts_votes(old(case).status) {
                    ArbitrationError::ClosedCase
                } else {
                    ArbitrationError::AlreadyVoted
                })
                &&& (!accepts_votes(old(case).status) || has_voted(old(case).votes@, voter@))
            },
        },
{
    if case.status != ArbitrationStatus::Open && case.status != ArbitrationStatus::UnderReview {
        return Err(ArbitrationError::ClosedCase);
    }
    if already_voted(case, voter.as_str()) {
        return Err(ArbitrationError::AlreadyVoted);
    }
    let ghost before = case.votes@;
    let weight_hundredths: u32 = match weight {
        Some(w) => w,
        None => 100,
    };
    case.votes.push(ArbitrationVote { voter, vote, weight_hundredths, justification, timestamp: now });
    proof {
        assert(case.votes@.drop_last() =~= before);
    }
    case.updated_at = now;
    update_case_status(case);
    Ok(())
}

/// Result reported for the judgement `state`.
pub fn arbitration_result(state: ArbitrationState) -> (r: ArbitrationResult)
    ensures
        r == result_of(state),
{
    match state {
        ArbitrationState::Resolve => ArbitrationResult::Accept,
        ArbitrationState::Review => ArbitrationResult::Neutral,
        ArbitrationState::Reject => ArbitrationResult::Reject,
    }
}

/// Judgement of a conflict from its semantic analysis: see [`judgement`].
pub fn evaluate_conflict(intent: &str, harm_confident: bool, positive_confident: bool) -> (s: ArbitrationState)
    ensures
        s == judgement(intent@, harm_confident, positive_confident),
{
    let text = intent.to_owned();
    let harmful = "harmful".to_owned();
    let positive = "positive".to_owned();
    if text == harmful && harm_confident {
        ArbitrationState::Reject
    } else if text == positive && positive_confident {
        ArbitrationState::Resolve
    } else {
        ArbitrationState::Review
    }
}

/// Whether a case may be stored: a closed case must carry a resolution.
pub fn validate_case(case: &ArbitrationCase) -> (ok: bool)
    ensures
        ok == case_is_valid(case.status, case.resolution),
{
    case.status == ArbitrationStatus::Open || case.resolution.is_some()
}

/// An open case that the tally closes is closed by at least five votes,
/// carries a resolution, and accepts no further vote.
pub proof fn lemma_decision_is_final(votes: Seq<ArbitrationVote>, status: ArbitrationStatus, resolution: Option<Seq<char>>)
    requires
        accepts_votes(status),
        !accepts_votes(decided(votes, status, resolution).0),
    ensures
        votes.len() >= 5,
        decided(votes, status, resolution).1 is Some,
{
}

/// A valid case that the tally resolves or rejects is still valid: it
/// carries a resolution.
pub proof fn lemma_closed_case_is_valid(votes: Seq<ArbitrationVote>, status: ArbitrationStatus, resolution: Option<Seq<char>>)
    requires
        status == ArbitrationStatus::Open || resolution is Some,
        decided(votes, status, resolution).0 == ArbitrationStatus::Resolved
            || decided(votes, status, resolution).0 == ArbitrationStatus::Rejected,
    ensures
        decided(votes, status, resolution).1 is Some,
{
}

/// Fewer than five votes never change a case.
pub proof fn lemma_too_few_votes(votes: Seq<ArbitrationVote>, status: ArbitrationStatus, resolution: Option<Seq<char>>)
    requires
        votes.len() < 5,
    ensures
        decided(votes, status, resolution) == (status, resolution),
{
}

/// With at least five votes, a strict majority to resolve resolves the
/// case, whatever its status and however many votes were cast.
pub proof fn lemma_majority_resolves(votes: Seq<ArbitrationVote>, status: ArbitrationStatus, resolution: Option<Seq<char>>)
    requires
        votes.len() >= 5,
        2 * count_votes(votes, ArbitrationState::Resolve) > votes.len(),
    ensures
        decided(votes, status, resolution) == (ArbitrationStatus::Resolved, Some(resolved_text())),
{
}

/// With at least five votes and no majority to resolve, a strict majority
/// to reject rejects the case.
pub proof fn lemma_majority_rejects(votes: Seq<ArbitrationVote>, status: ArbitrationStatus, resolution: Option<Seq<char>>)
    requires
        votes.len() >= 5,
        2 * count_votes(votes, ArbitrationState::Reject) > votes.len(),
    ensures
        decided(votes, status, resolution) == (ArbitrationStatus::Rejected, Some(rejected_text())),
{
    lemma_counts_total(votes);
}

/// With at least five votes, no majority either way and more than a third
/// asking for review, the case goes under review and keeps its resolution.
pub proof fn lemma_third_reviews(votes: Seq<ArbitrationVote>, status: ArbitrationStatus, resolution: Option<Seq<char>>)
    requires
        votes.len() >= 5,
        2 * count_votes(votes, ArbitrationState::Resolve) <= votes.len(),
        2 * count_votes(votes, ArbitrationState::Reject) <= votes.len(),
        3 * count_votes(votes, ArbitrationState::Review) > votes.len(),
    ensures
        decided(votes, status, resolution) == (ArbitrationStatus::UnderReview, resolution),
{
}

/// A vote counts for its own judgement only: no votes count nothing, and
/// casting one more vote raises that judgement's count by one and leaves
/// the others as they were.
pub proof fn lemma_vote_counts_once(votes: Seq<ArbitrationVote>, v: ArbitrationVote, s: ArbitrationState)
    ensures
        count_votes(Seq::<ArbitrationVote>::empty(), s) == 0,
        count_votes(votes.push(v), s) == count_votes(votes, s) + (if v.vote == s { 1int } else { 0int }),
{
    assert(votes.push(v).drop_last() =~= votes);
}

} // verus!
