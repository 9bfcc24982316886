//! Core entities of the arena: bots, builds, matches, and their
//! status machines.

use vstd::prelude::*;

verus! {

/// Identifier of a bot row; the persistence layer assigns them.
pub type BotId = i64;

/// Value given to a bot id before the persistence layer has assigned one.
pub const UNINITIALIZED_BOT_ID: i64 = 0;

/// Skill parameters in fixed-point milli-units: `mu_milli` is the skill
/// mean times 1000, `sigma_milli` the uncertainty times 1000. The
/// numeric rating model itself works in floating point outside this
/// library; milli-unit integers carry the same values through the core
/// exactly, so the conservative score below is exact integer arithmetic.
#[derive(Clone, Copy, PartialEq, Eq, Structural, Debug)]
pub struct Rating {
    pub mu_milli: i64,
    pub sigma_milli: i64,
}

/// Milli-units of the default skill mean (25.000).
pub const DEFAULT_RATING_MU_MILLI: i64 = 25_000;

/// Milli-units of the default uncertainty (25/3, rounded down).
pub const DEFAULT_RATING_SIGMA_MILLI: i64 = 8_333;

/// Bounds within which every stored rating stays. The default mean is
/// 25.000 milli-units and updates move it by small steps, so a billion
/// milli-units is far out of reach; the bound makes the score
/// arithmetic overflow-free.
pub open spec fn rating_wf(r: Rating) -> bool {
    &&& -1_000_000_000 <= r.mu_milli <= 1_000_000_000
    &&& 0 <= r.sigma_milli <= 1_000_000_000
}

/// Conservative skill estimate: mean minus three times the uncertainty.
pub open spec fn spec_score_milli(r: Rating) -> int {
    r.mu_milli - 3 * r.sigma_milli
}

impl Rating {
    /// The rating every new bot starts from.
    pub fn default_rating() -> (r: Rating)
        ensures
            r.mu_milli == DEFAULT_RATING_MU_MILLI,
            r.sigma_milli == DEFAULT_RATING_SIGMA_MILLI,
            rating_wf(r),
    {
        Rating { mu_milli: DEFAULT_RATING_MU_MILLI, sigma_milli: DEFAULT_RATING_SIGMA_MILLI }
    }

    /// Exposed score: mean minus three times the uncertainty, in
    /// milli-units.
    pub fn score_milli(&self) -> (s: i64)
        requires
            rating_wf(*self),
        ensures
            s == spec_score_milli(*self),
    {
        self.mu_milli - 3 * self.sigma_milli
    }
}

/// A competitor: source code in some language, plus its play record.
pub struct Bot {
    pub id: BotId,
    pub name: String,
    pub source_code: String,
    pub language: String,
    pub matches_played: u32,
    pub rating: Rating,
    pub created_at_millis: i64,
}

/// Bot names are 1 to 32 characters.
pub open spec fn valid_bot_name(s: Seq<char>) -> bool {
    1 <= s.len() <= 32
}

/// Source code is at most 100000 characters.
pub open spec fn valid_source_code(s: Seq<char>) -> bool {
    s.len() <= 100_000
}

/// Language tags are 1 to 32 characters.
pub open spec fn valid_language(s: Seq<char>) -> bool {
    1 <= s.len() <= 32
}

/// A bot whose text fields are within the registration limits.
pub open spec fn bot_wf(b: Bot) -> bool {
    &&& valid_bot_name(b.name@)
    &&& valid_source_code(b.source_code@)
    &&& valid_language(b.language@)
    &&& rating_wf(b.rating)
}

/// Checks the registration limits on a bot name.
pub fn check_bot_name(s: &str) -> (r: bool)
    ensures
        r == valid_bot_name(s@),
{
    let n = s.unicode_len();
    1 <= n && n <= 32
}

/// Checks the registration limit on source code.
pub fn check_source_code(s: &str) -> (r: bool)
    ensures
        r == valid_source_code(s@),
{
    s.unicode_len() <= 100_000
}

/// Checks the registration limits on a language tag.
pub fn check_language(s: &str) -> (r: bool)
    ensures
        r == valid_language(s@),
{
    let n = s.unicode_len();
    1 <= n && n <= 32
}

impl Bot {
    /// A freshly registered bot: no matches played, default rating, id
    /// left for the persistence layer to assign.
    pub fn new(name: String, source_code: String, language: String, created_at_millis: i64) -> (b:
        Bot)
        ensures
            b.id == UNINITIALIZED_BOT_ID,
            b.name@ == name@,
            b.source_code@ == source_code@,
            b.language@ == language@,
            b.matches_played == 0,
            b.rating.mu_milli == DEFAULT_RATING_MU_MILLI,
            b.rating.sigma_milli == DEFAULT_RATING_SIGMA_MILLI,
            b.created_at_millis == created_at_millis,
    {
        Bot {
            id: UNINITIALIZED_BOT_ID,
            name,
            source_code,
            language,
            matches_played: 0,
            rating: Rating::default_rating(),
            created_at_millis,
        }
    }
}

/// Lifecycle of a build job. `Failure` carries the captured
/// diagnostics.
pub enum BuildStatus {
    Pending,
    Running,
    Success,
    Failure(String),
}

/// One build record; a bot has at most one, the latest.
pub struct Build {
    pub bot_id: BotId,
    pub worker_name: String,
    pub status: BuildStatus,
}

/// The small-integer encoding of a build status, as persisted.
pub open spec fn spec_build_status_code(s: BuildStatus) -> u8 {
    match s {
        BuildStatus::Pending => 0,
        BuildStatus::Running => 1,
        BuildStatus::Success => 2,
        BuildStatus::Failure(_) => 3,
    }
}

pub open spec fn build_status_is_terminal(s: BuildStatus) -> bool {
    s matches BuildStatus::Success || s matches BuildStatus::Failure(_)
}

/// The only lawful moves of the build status machine.
pub open spec fn build_transition_ok(from: BuildStatus, to: BuildStatus) -> bool {
    match (from, to) {
        (BuildStatus::Pending, BuildStatus::Running) => true,
        (BuildStatus::Running, BuildStatus::Success) => true,
        (BuildStatus::Running, BuildStatus::Failure(_)) => true,
        _ => false,
    }
}

impl BuildStatus {
    /// The persisted status code of this status.
    pub fn code(&self) -> (c: u8)
        ensures
            c == spec_build_status_code(*self),
    {
        match self {
            BuildStatus::Pending => 0,
            BuildStatus::Running => 1,
            BuildStatus::Success => 2,
            BuildStatus::Failure(_) => 3,
        }
    }

    /// Moves the status forward, refusing any step the machine does not
    /// allow; on refusal the status is unchanged.
    pub fn advance(&mut self, to: BuildStatus) -> (r: Result<(), IntegrityError>)
        ensures
            r is Ok <==> build_transition_ok(*old(self), to),
            r is Ok ==> *final(self) == to,
            r is Err ==> *final(self) == *old(self) && r == Err::<(), IntegrityError>(
                IntegrityError::InvalidTransition,
            ),
    {
        let ok = match (&*self, &to) {
            (BuildStatus::Pending, BuildStatus::Running) => true,
            (BuildStatus::Running, BuildStatus::Success) => true,
            (BuildStatus::Running, BuildStatus::Failure(_)) => true,
            _ => false,
        };
        if ok {
            *self = to;
            Ok(())
        } else {
            Err(IntegrityError::InvalidTransition)
        }
    }
}

/// How far along the build machine a status is: both terminal states
/// share the last stage.
pub open spec fn build_status_stage(s: BuildStatus) -> int {
    match s {
        BuildStatus::Pending => 0,
        BuildStatus::Running => 1,
        BuildStatus::Success => 2,
        BuildStatus::Failure(_) => 2,
    }
}

/// Build statuses only move forward: every lawful transition strictly
/// increases the stage, so no sequence of transitions ever revisits an
/// earlier status.
pub proof fn lemma_build_status_monotonic(from: BuildStatus, to: BuildStatus)
    requires
        build_transition_ok(from, to),
    ensures
        build_status_stage(to) > build_status_stage(from),
{
}

/// Terminal build statuses admit no further transition.
pub proof fn lemma_build_terminal_is_final(from: BuildStatus, to: BuildStatus)
    requires
        build_status_is_terminal(from),
    ensures
        !build_transition_ok(from, to),
{
}

/// Per-participant outcome of a finished match: `ranks[i]` is the
/// placement of participant `i` (lower is better, ties allowed) and
/// `errors[i]` says whether that participant faulted.
pub struct MatchResult {
    pub ranks: Vec<u8>,
    pub errors: Vec<bool>,
}

/// Lifecycle of a match job. `Finished` carries the parsed result,
/// `Error` a diagnostic message; no other state carries data.
pub enum MatchStatus {
    Pending,
    Running,
    Finished(MatchResult),
    Error(String),
}

/// A match: a seed for reproducible play and the ordered participants.
/// The participant order aligns with the ranks and fault flags of the
/// result.
pub struct Match {
    pub id: i64,
    pub seed: i64,
    pub bot_ids: Vec<BotId>,
    pub status: MatchStatus,
}

/// A finished match carries exactly one rank and one fault flag per
/// participant.
pub open spec fn match_wf(m: Match) -> bool {
    match m.status {
        MatchStatus::Finished(res) => res.ranks@.len() == m.bot_ids@.len() && res.errors@.len()
            == m.bot_ids@.len(),
        _ => true,
    }
}

/// The small-integer encoding of a match status, as persisted.
pub open spec fn spec_match_status_code(s: MatchStatus) -> u8 {
    match s {
        MatchStatus::Pending => 0,
        MatchStatus::Running => 1,
        MatchStatus::Finished(_) => 2,
        MatchStatus::Error(_) => 3,
    }
}

pub open spec fn match_status_is_terminal(s: MatchStatus) -> bool {
    s matches MatchStatus::Finished(_) || s matches MatchStatus::Error(_)
}

/// The only lawful moves of the match status machine. Finishing is
/// lawful only with a result that aligns with the participant count.
pub open spec fn match_transition_ok(from: MatchStatus, to: MatchStatus, n_participants: nat) -> bool {
    match (from, to) {
        (MatchStatus::Pending, MatchStatus::Running) => true,
        (MatchStatus::Running, MatchStatus::Finished(res)) => res.ranks@.len() == n_participants
            && res.errors@.len() == n_participants,
        (MatchStatus::Running, MatchStatus::Error(_)) => true,
        _ => false,
    }
}

impl MatchStatus {
    /// The persisted status code of this status.
    pub fn code(&self) -> (c: u8)
        ensures
            c == spec_match_status_code(*self),
    {
        match self {
            MatchStatus::Pending => 0,
            MatchStatus::Running => 1,
            MatchStatus::Finished(_) => 2,
            MatchStatus::Error(_) => 3,
        }
    }
}

impl Match {
    /// Moves the match status forward, refusing any step the machine
    /// does not allow; a malformed result (wrong rank or flag count)
    /// is refused, never stored, so a finished match is all-or-nothing.
    pub fn advance(&mut self, to: MatchStatus) -> (r: Result<(), IntegrityError>)
        requires
            match_wf(*old(self)),
        ensures
            r is Ok <==> match_transition_ok(old(self).status, to, old(self).bot_ids@.len()),
            r is Ok ==> final(self).status == to,
            r is Err ==> *final(self) == *old(self) && r == Err::<(), IntegrityError>(
                IntegrityError::InvalidTransition,
            ),
            final(self).id == old(self).id,
            final(self).seed == old(self).seed,
            final(self).bot_ids@ == old(self).bot_ids@,
            match_wf(*final(self)),
    {
        let ok = match (&self.status, &to) {
            (MatchStatus::Pending, MatchStatus::Running) => true,
            (MatchStatus::Running, MatchStatus::Finished(res)) => res.ranks.len()
                == self.bot_ids.len() && res.errors.len() == self.bot_ids.len(),
            (MatchStatus::Running, MatchStatus::Error(_)) => true,
            _ => false,
        };
        if ok {
            self.status = to;
            Ok(())
        } else {
            Err(IntegrityError::InvalidTransition)
        }
    }
}

/// How far along the match machine a status is: both terminal states
/// share the last stage.
pub open spec fn match_status_stage(s: MatchStatus) -> int {
    match s {
        MatchStatus::Pending => 0,
        MatchStatus::Running => 1,
        MatchStatus::Finished(_) => 2,
        MatchStatus::Error(_) => 2,
    }
}

/// Match statuses only move forward: every lawful transition strictly
/// increases the stage.
pub proof fn lemma_match_status_monotonic(from: MatchStatus, to: MatchStatus, n: nat)
    requires
        match_transition_ok(from, to, n),
    ensures
        match_status_stage(to) > match_status_stage(from),
{
}

/// Terminal match statuses admit no further transition.
pub proof fn lemma_match_terminal_is_final(from: MatchStatus, to: MatchStatus, n: nat)
    requires
        match_status_is_terminal(from),
    ensures
        !match_transition_ok(from, to, n),
{
}

/// A finished match always aligns its ranks and fault flags with its
/// participants, one each.
pub proof fn lemma_finished_match_aligned(m: Match, res: MatchResult)
    requires
        match_wf(m),
        m.status == MatchStatus::Finished(res),
    ensures
        res.ranks@.len() == m.bot_ids@.len(),
        res.errors@.len() == m.bot_ids@.len(),
{
}

/// A stored row that cannot be read back as a lawful entity, or a
/// status move the machines forbid: an invariant was already broken,
/// so the operation that met it must stop.
#[derive(Clone, Copy, PartialEq, Eq, Structural, Debug)]
pub enum IntegrityError {
    InvalidTransition,
    UnknownStatusCode,
    MissingRank,
    MissingFaultFlag,
    MissingErrorMessage,
    NoParticipations,
    BadParticipationIndices,
    MatchCountOutOfRange,
    RatingOutOfRange,
    InvalidTextField,
}

impl IntegrityError {
    /// A short description, for diagnostics at the boundary.
    pub fn message(&self) -> (r: &'static str)
    {
        match self {
            IntegrityError::InvalidTransition => "status transition not allowed",
            IntegrityError::UnknownStatusCode => "unexpected status code",
            IntegrityError::MissingRank => "finished match without rank",
            IntegrityError::MissingFaultFlag => "finished match without fault flag",
            IntegrityError::MissingErrorMessage => "failed row without error message",
            IntegrityError::NoParticipations => "no participations found for match",
            IntegrityError::BadParticipationIndices => "participation indices are not contiguous",
            IntegrityError::MatchCountOutOfRange => "matches played count out of range",
            IntegrityError::RatingOutOfRange => "rating out of range",
            IntegrityError::InvalidTextField => "text field outside its limits",
        }
    }
}

} // verus!
