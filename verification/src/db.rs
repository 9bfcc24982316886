//! Persisted row shapes and the verified codecs between rows and
//! domain entities. The SQL layer itself lives outside the library;
//! it hands rows in and takes rows back as plain values.

use vstd::prelude::*;

use crate::domain::{
    Bot, BotId, Build, BuildStatus, IntegrityError, Match, MatchResult, MatchStatus, Rating,
    match_wf, rating_wf, spec_build_status_code, spec_match_status_code, valid_bot_name,
    valid_language, valid_source_code,
};
use crate::domain::{check_bot_name, check_language, check_source_code};

verus! {

use itertools::Itertools;

/// Errors the persistence layer surfaces to callers: a uniqueness
/// conflict on create, or a missing row on lookup or mutation by id.
/// Anything else the store meets is fatal, not a value of this type.
#[derive(Clone, Copy, PartialEq, Eq, Structural, Debug)]
pub enum DBError {
    AlreadyExists,
    NotFound,
}

impl DBError {
    /// A short description, for diagnostics at the boundary.
    pub fn message(&self) -> (r: &'static str)
    {
        match self {
            DBError::AlreadyExists => "Already exists",
            DBError::NotFound => "Not found",
        }
    }
}

/// A bot as persisted: timestamps in unix milliseconds and the rating
/// in milli-units, so every column is a plain value.
pub struct BotsRow {
    pub id: i64,
    pub name: String,
    pub source_code: String,
    pub language: String,
    pub created_at_millis: i64,
    pub matches_played: i64,
    pub rating_mu_milli: i64,
    pub rating_sigma_milli: i64,
}

/// A bots row that reads back as a lawful bot.
pub open spec fn bots_row_ok(r: BotsRow) -> bool {
    &&& valid_bot_name(r.name@)
    &&& valid_source_code(r.source_code@)
    &&& valid_language(r.language@)
    &&& 0 <= r.matches_played <= u32::MAX
    &&& rating_wf(Rating { mu_milli: r.rating_mu_milli, sigma_milli: r.rating_sigma_milli })
}

/// Reconstructs a bot from its row, stopping on any row that breaks
/// the bot invariants: text fields outside their limits, a match count
/// no counter could have produced, or a rating outside its bounds.
pub fn bot_from_row(r: BotsRow) -> (res: Result<Bot, IntegrityError>)
    ensures
        res is Ok <==> bots_row_ok(r),
        (res matches Ok(b) ==> {
            &&& b.id == r.id
            &&& b.name@ == r.name@
            &&& b.source_code@ == r.source_code@
            &&& b.language@ == r.language@
            &&& b.created_at_millis == r.created_at_millis
            &&& b.matches_played == r.matches_played
            &&& b.rating.mu_milli == r.rating_mu_milli
            &&& b.rating.sigma_milli == r.rating_sigma_milli
        }),
        !(valid_bot_name(r.name@) && valid_source_code(r.source_code@) && valid_language(
            r.language@,
        )) ==> res == Err::<Bot, IntegrityError>(IntegrityError::InvalidTextField),
        (valid_bot_name(r.name@) && valid_source_code(r.source_code@) && valid_language(r.language@)
            && !(0 <= r.matches_played <= u32::MAX)) ==> res == Err::<Bot, IntegrityError>(
            IntegrityError::MatchCountOutOfRange,
        ),
{
    if !(check_bot_name(r.name.as_str()) && check_source_code(r.source_code.as_str())
        && check_language(r.language.as_str())) {
        return Err(IntegrityError::InvalidTextField);
    }
    if !(0 <= r.matches_played && r.matches_played <= u32::MAX as i64) {
        return Err(IntegrityError::MatchCountOutOfRange);
    }
    let rating = Rating { mu_milli: r.rating_mu_milli, sigma_milli: r.rating_sigma_milli };
    if !(-1_000_000_000 <= rating.mu_milli && rating.mu_milli <= 1_000_000_000
        && 0 <= rating.sigma_milli && rating.sigma_milli <= 1_000_000_000) {
        return Err(IntegrityError::RatingOutOfRange);
    }
    Ok(
        Bot {
            id: r.id,
            name: r.name,
            source_code: r.source_code,
            language: r.language,
            matches_played: r.matches_played as u32,
            rating,
            created_at_millis: r.created_at_millis,
        },
    )
}

/// A build record as persisted. `status` is the small-integer status
/// code; `error` is null except for a failed build.
pub struct BuildsRow {
    pub bot_id: i64,
    pub worker_name: String,
    pub status: u8,
    pub error: Option<String>,
}

/// A builds row that reads back as a lawful build.
pub open spec fn builds_row_ok(r: BuildsRow) -> bool {
    &&& r.status <= 3
    &&& (r.status == 3 ==> r.error is Some)
}

/// Reconstructs a build from its row: codes 0 to 3 are the four
/// statuses, a failure must carry its message, and any other code is
/// an integrity violation.
pub fn build_from_row(r: BuildsRow) -> (res: Result<Build, IntegrityError>)
    ensures
        res is Ok <==> builds_row_ok(r),
        (res matches Ok(b) ==> {
            &&& b.bot_id == r.bot_id
            &&& b.worker_name@ == r.worker_name@
            &&& spec_build_status_code(b.status) == r.status
            &&& (b.status matches BuildStatus::Failure(msg) ==> r.error matches Some(e) && msg@
                == e@)
        }),
        r.status > 3 ==> res == Err::<Build, IntegrityError>(IntegrityError::UnknownStatusCode),
        r.status == 3 && r.error is None ==> res == Err::<Build, IntegrityError>(
            IntegrityError::MissingErrorMessage,
        ),
{
    let status = match r.status {
        0 => BuildStatus::Pending,
        1 => BuildStatus::Running,
        2 => BuildStatus::Success,
        3 => match r.error {
            Some(msg) => BuildStatus::Failure(msg),
            None => {
                return Err(IntegrityError::MissingErrorMessage);
            },
        },
        _ => {
            return Err(IntegrityError::UnknownStatusCode);
        },
    };
    Ok(Build { bot_id: r.bot_id, worker_name: r.worker_name, status })
}

/// The two status columns of a build row: the status code and the
/// failure message, null except for a failed build.
pub fn build_status_columns(s: &BuildStatus) -> (r: (u8, Option<String>))
    ensures
        r.0 == spec_build_status_code(*s),
        (s matches BuildStatus::Failure(msg) ==> r.1 matches Some(e) && e@ == msg@),
        !(s matches BuildStatus::Failure(_)) ==> r.1 is None,
{
    match s {
        BuildStatus::Pending => (0, None),
        BuildStatus::Running => (1, None),
        BuildStatus::Success => (2, None),
        BuildStatus::Failure(msg) => (3, Some(msg.clone())),
    }
}

/// One row of the matches-joined-with-participations query: the match
/// columns repeated for each participation row.
pub struct MatchRow {
    pub match_id: i64,
    pub seed: i64,
    pub status: u8,
    pub status_error: Option<String>,
    pub bot_id: i64,
    pub index: u8,
    pub rank: Option<u8>,
    pub error: Option<u8>,
}

/// The optional text columns agree.
pub open spec fn opt_text_eq(a: Option<String>, b: Option<String>) -> bool {
    match (a, b) {
        (Option::Some(x), Option::Some(y)) => x@ == y@,
        (Option::None, Option::None) => true,
        _ => false,
    }
}

/// All rows of one group describe the same match: the joined match
/// columns are equal throughout.
pub open spec fn rows_consistent(rows: Seq<MatchRow>) -> bool {
    forall|i: int, j: int|
        #![trigger rows[i], rows[j]]
        0 <= i < rows.len() && 0 <= j < rows.len() ==> rows[i].match_id == rows[j].match_id
            && rows[i].seed == rows[j].seed && rows[i].status == rows[j].status && opt_text_eq(
            rows[i].status_error,
            rows[j].status_error,
        )
}

/// Some row's participation index is `i`.
pub open spec fn has_row_with_index(rows: Seq<MatchRow>, i: int) -> bool {
    exists|j: int| #![trigger rows[j].index] 0 <= j < rows.len() && rows[j].index as int == i
}

/// The participation indices cover every position: each `i` below the
/// row count is the index of some row.
pub open spec fn rows_indexed(rows: Seq<MatchRow>) -> bool {
    forall|i: int| 0 <= i < rows.len() ==> #[trigger] has_row_with_index(rows, i)
}

/// The row whose participation index is `i` put its bot at position
/// `i` of the match.
pub open spec fn position_filled(rows: Seq<MatchRow>, m: Match, i: int) -> bool {
    exists|j: int|
        #![trigger rows[j].index]
        0 <= j < rows.len() && rows[j].index as int == i && m.bot_ids@[i] == rows[j].bot_id
}

/// The row whose participation index is `i` also supplied the rank and
/// fault flag at position `i` of the result.
pub open spec fn position_result_filled(
    rows: Seq<MatchRow>,
    m: Match,
    r: MatchResult,
    i: int,
) -> bool {
    exists|j: int|
        #![trigger rows[j].index]
        {
            &&& 0 <= j < rows.len()
            &&& rows[j].index as int == i
            &&& m.bot_ids@[i] == rows[j].bot_id
            &&& (rows[j].rank matches Some(rk) && r.ranks@[i] == rk)
            &&& (rows[j].error matches Some(e) && r.errors@[i] == (e == 1))
        }
}

/// A group of rows that reads back as a lawful match.
pub open spec fn match_rows_ok(rows: Seq<MatchRow>) -> bool {
    &&& rows.len() > 0
    &&& rows_indexed(rows)
    &&& rows[0].status <= 3
    &&& (rows[0].status == 3 ==> rows[0].status_error is Some)
    &&& (rows[0].status == 2 ==> forall|j: int|
        0 <= j < rows.len() ==> (#[trigger] rows[j].rank) is Some && rows[j].error is Some)
}

/// Reconstructs a match from the rows of its join group. The rows may
/// arrive in any order; the participation indices say which position
/// each row fills, and they must fill every position. A finished match
/// must carry a rank and a fault flag for every participant; anything
/// less is an integrity violation, never a partial result.
pub fn match_from_rows(rows: &Vec<MatchRow>) -> (res: Result<Match, IntegrityError>)
    requires
        rows_consistent(rows@),
    ensures
        res is Ok <==> match_rows_ok(rows@),
        (res matches Ok(m) ==> {
            &&& m.id == rows@[0].match_id
            &&& m.seed == rows@[0].seed
            &&& spec_match_status_code(m.status) == rows@[0].status
            &&& m.bot_ids@.len() == rows@.len()
            &&& match_wf(m)
            &&& (forall|i: int|
                0 <= i < rows@.len() ==> #[trigger] position_filled(rows@, m, i))
            &&& (m.status matches MatchStatus::Finished(r) ==> forall|i: int|
                0 <= i < rows@.len() ==> #[trigger] position_result_filled(rows@, m, r, i))
            &&& (m.status matches MatchStatus::Error(msg) ==> rows@[0].status_error matches Some(e)
                && msg@ == e@)
        }),
        rows@.len() == 0 ==> res == Err::<Match, IntegrityError>(IntegrityError::NoParticipations),
        rows@.len() > 0 && !rows_indexed(rows@) ==> res == Err::<Match, IntegrityError>(
            IntegrityError::BadParticipationIndices,
        ),
        rows@.len() > 0 && rows_indexed(rows@) && rows@[0].status > 3 ==> res == Err::<
            Match,
            IntegrityError,
        >(IntegrityError::UnknownStatusCode),
        rows@.len() > 0 && rows_indexed(rows@) && rows@[0].status == 3 && rows@[0].status_error
            is None ==> res == Err::<Match, IntegrityError>(IntegrityError::MissingErrorMessage),
        rows@.len() > 0 && rows_indexed(rows@) && rows@[0].status == 2 && !(forall|j: int|
            0 <= j < rows@.len() ==> (#[trigger] rows@[j].rank) is Some && rows@[j].error
                is Some) ==> (res == Err::<Match, IntegrityError>(IntegrityError::MissingRank) || res
            == Err::<Match, IntegrityError>(IntegrityError::MissingFaultFlag)),
{
    let n = rows.len();
    if n == 0 {
        return Err(IntegrityError::NoParticipations);
    }
    // For each position, locate the row whose participation index fills it.
    let mut ord: Vec<usize> = Vec::new();
    let mut i: usize = 0;
    while i < n
        invariant
            n == rows@.len(),
            n > 0,
            i <= n,
            ord@.len() == i,
            forall|k: int|
                #![trigger ord@[k]]
                0 <= k < i ==> ord@[k] < n && rows@[ord@[k] as int].index as int == k,
        decreases n - i,
    {
        let mut found: Option<usize> = None;
        let mut j: usize = 0;
        while j < n && found.is_none()
            invariant
                n == rows@.len(),
                j <= n,
                (found matches Some(p) ==> p < n && rows@[p as int].index as int == i as int),
                (found is None ==> forall|q: int|
                    #![trigger rows@[q].index]
                    0 <= q < j ==> rows@[q].index as int != i as int),
            decreases n - j, (if found is None { 1int } else { 0int }),
        {
            if rows[j].index as usize == i {
                found = Some(j);
            } else {
                j += 1;
            }
        }
        match found {
            Some(p) => ord.push(p),
            None => {
                proof {
                    assert(!has_row_with_index(rows@, i as int));
                    assert(!rows_indexed(rows@));
                }
                return Err(IntegrityError::BadParticipationIndices);
            },
        }
        i += 1;
    }
    proof {
        assert forall|k: int| 0 <= k < rows@.len() implies #[trigger] has_row_with_index(
            rows@,
            k,
        ) by {
            assert(rows@[ord@[k] as int].index as int == k);
        }
    }
    let mut bot_ids: Vec<BotId> = Vec::new();
    let mut i: usize = 0;
    while i < n
        invariant
            n == rows@.len(),
            i <= n,
            ord@.len() == n,
            bot_ids@.len() == i,
            forall|k: int|
                #![trigger ord@[k]]
                0 <= k < n ==> ord@[k] < n && rows@[ord@[k] as int].index as int == k,
            forall|k: int|
                #![trigger bot_ids@[k]]
                0 <= k < i ==> bot_ids@[k] == rows@[ord@[k] as int].bot_id,
        decreases n - i,
    {
        let p = ord[i];
        bot_ids.push(rows[p].bot_id);
        i += 1;
    }
    let status: MatchStatus = match rows[0].status {
        0 => MatchStatus::Pending,
        1 => MatchStatus::Running,
        2 => {
            let mut j: usize = 0;
            while j < n
                invariant
                    n == rows@.len(),
                    n > 0,
                    j <= n,
                    rows@[0].status == 2,
                    rows_indexed(rows@),
                    forall|q: int|
                        0 <= q < j ==> (#[trigger] rows@[q].rank) is Some && rows@[q].error
                            is Some,
                decreases n - j,
            {
                if rows[j].rank.is_none() {
                    return Err(IntegrityError::MissingRank);
                }
                if rows[j].error.is_none() {
                    return Err(IntegrityError::MissingFaultFlag);
                }
                j += 1;
            }
            let mut ranks: Vec<u8> = Vec::new();
            let mut errors: Vec<bool> = Vec::new();
            let mut k: usize = 0;
            while k < n
                invariant
                    n == rows@.len(),
                    n > 0,
                    k <= n,
                    rows@[0].status == 2,
                    rows_indexed(rows@),
                    ord@.len() == n,
                    ranks@.len() == k,
                    errors@.len() == k,
                    forall|q: int|
                        0 <= q < n ==> (#[trigger] rows@[q].rank) is Some && rows@[q].error
                            is Some,
                    forall|q: int|
                        #![trigger ord@[q]]
                        0 <= q < n ==> ord@[q] < n && rows@[ord@[q] as int].index as int == q,
                    forall|q: int|
                        #![trigger ranks@[q]]
                        0 <= q < k ==> ranks@[q] == rows@[ord@[q] as int].rank.unwrap()
                            && errors@[q] == (rows@[ord@[q] as int].error.unwrap() == 1),
                decreases n - k,
            {
                let p = ord[k];
                let rk = match rows[p].rank {
                    Some(v) => v,
                    None => {
                        return Err(IntegrityError::MissingRank);
                    },
                };
                let er = match rows[p].error {
                    Some(v) => v,
                    None => {
                        return Err(IntegrityError::MissingFaultFlag);
                    },
                };
                ranks.push(rk);
                errors.push(er == 1);
                k += 1;
            }
            MatchStatus::Finished(MatchResult { ranks, errors })
        },
        3 => match &rows[0].status_error {
            Some(msg) => MatchStatus::Error(msg.clone()),
            None => {
                return Err(IntegrityError::MissingErrorMessage);
            },
        },
        _ => {
            return Err(IntegrityError::UnknownStatusCode);
        },
    };
    let m = Match { id: rows[0].match_id, seed: rows[0].seed, bot_ids, status };
    proof {
        assert forall|i2: int| 0 <= i2 < rows@.len() implies #[trigger] position_filled(
            rows@,
            m,
            i2,
        ) by {
            let p = ord@[i2] as int;
            assert(rows@[p].index as int == i2);
            assert(m.bot_ids@[i2] == rows@[p].bot_id);
        }
        match &m.status {
            MatchStatus::Finished(r) => {
                assert forall|i2: int| 0 <= i2 < rows@.len() implies
                    #[trigger] position_result_filled(rows@, m, *r, i2) by {
                    let p = ord@[i2] as int;
                    assert(rows@[p].index as int == i2);
                    assert(m.bot_ids@[i2] == rows@[p].bot_id);
                    assert(r.ranks@[i2] == rows@[p].rank.unwrap());
                    assert(r.errors@[i2] == (rows@[p].error.unwrap() == 1));
                }
            },
            _ => {},
        }
    }
    Ok(m)
}

/// The two status columns of a match row: the status code and the
/// error message, null except for an errored match.
pub fn match_status_columns(s: &MatchStatus) -> (r: (u8, Option<String>))
    ensures
        r.0 == spec_match_status_code(*s),
        (s matches MatchStatus::Error(msg) ==> r.1 matches Some(e) && e@ == msg@),
        !(s matches MatchStatus::Error(_)) ==> r.1 is None,
{
    match s {
        MatchStatus::Pending => (0, None),
        MatchStatus::Running => (1, None),
        MatchStatus::Finished(_) => (2, None),
        MatchStatus::Error(msg) => (3, Some(msg.clone())),
    }
}

/// The per-participation rank and fault columns of a match, aligned
/// with the participant order: the result's values for a finished
/// match, nulls for every other status.
pub fn participation_columns(m: &Match) -> (r: Vec<(Option<u8>, Option<u8>)>)
    requires
        match_wf(*m),
    ensures
        r@.len() == m.bot_ids@.len(),
        (m.status matches MatchStatus::Finished(res) ==> forall|i: int|
            0 <= i < r@.len() ==> #[trigger] r@[i] == (
                Some(res.ranks@[i]),
                Some(if res.errors@[i] { 1u8 } else { 0u8 }),
            )),
        !(m.status matches MatchStatus::Finished(_)) ==> forall|i: int|
            0 <= i < r@.len() ==> #[trigger] r@[i] == (None::<u8>, None::<u8>),
{
    let n = m.bot_ids.len();
    let mut r: Vec<(Option<u8>, Option<u8>)> = Vec::new();
    match &m.status {
        MatchStatus::Finished(res) => {
            let mut i: usize = 0;
            while i < n
                invariant
                    n == m.bot_ids@.len(),
                    i <= n,
                    r@.len() == i,
                    m.status matches MatchStatus::Finished(res2) && res2.ranks@ == res.ranks@
                        && res2.errors@ == res.errors@,
                    res.ranks@.len() == n,
                    res.errors@.len() == n,
                    forall|q: int|
                        0 <= q < i ==> #[trigger] r@[q] == (
                            Some(res.ranks@[q]),
                            Some(if res.errors@[q] { 1u8 } else { 0u8 }),
                        ),
                decreases n - i,
            {
                let flag: u8 = if res.errors[i] {
                    1
                } else {
                    0
                };
                r.push((Some(res.ranks[i]), Some(flag)));
                i += 1;
            }
        },
        _ => {
            let mut i: usize = 0;
            while i < n
                invariant
                    n == m.bot_ids@.len(),
                    i <= n,
                    r@.len() == i,
                    forall|q: int| 0 <= q < i ==> #[trigger] r@[q] == (None::<u8>, None::<u8>),
                decreases n - i,
            {
                r.push((None, None));
                i += 1;
            }
        },
    }
    r
}

/// Any two rows of the join that belong to the same match agree on
/// the joined match columns; the query's join shape guarantees it.
pub open spec fn join_consistent(rows: Seq<MatchRow>) -> bool {
    forall|i: int, j: int|
        #![trigger rows[i], rows[j]]
        0 <= i < rows.len() && 0 <= j < rows.len() && rows[i].match_id == rows[j].match_id
            ==> rows[i].seed == rows[j].seed && rows[i].status == rows[j].status && opt_text_eq(
            rows[i].status_error,
            rows[j].status_error,
        )
}

/// How many of the rows belong to this match.
pub open spec fn count_rows(rows: Seq<MatchRow>, id: i64) -> nat
    decreases rows.len(),
{
    if rows.len() == 0 {
        0
    } else {
        count_rows(rows.drop_last(), id) + (if rows.last().match_id == id {
            1nat
        } else {
            0nat
        })
    }
}

/// Relies on itertools' `into_group_map_by`: every row is pushed into
/// the group of its key, one group per distinct key, so the groups
/// partition the input — each group holds exactly the input's rows
/// with its key, as many as the input has of them. The groups come
/// back in no particular order (the map iteration order is
/// arbitrary).
#[verifier::external_body]
fn group_by_match_id(rows: Vec<MatchRow>) -> (groups: Vec<Vec<MatchRow>>)
    ensures
        forall|i: int| 0 <= i < groups@.len() ==> #[trigger] groups@[i]@.len() > 0,
        forall|i: int, k: int|
            0 <= i < groups@.len() && 0 <= k < groups@[i]@.len() ==> #[trigger] groups@[i]@[k].match_id
                == groups@[i]@[0].match_id,
        forall|i: int, j: int|
            0 <= i < groups@.len() && 0 <= j < groups@.len() && i != j ==> groups@[i]@[0].match_id
                != groups@[j]@[0].match_id,
        forall|i: int, k: int|
            0 <= i < groups@.len() && 0 <= k < groups@[i]@.len() ==> rows@.contains(
                #[trigger] groups@[i]@[k],
            ),
        forall|j: int|
            0 <= j < rows@.len() ==> exists|i: int, k: int|
                0 <= i < groups@.len() && 0 <= k < groups@[i]@.len() && #[trigger] rows@[j]
                    == groups@[i]@[k],
        forall|i: int|
            0 <= i < groups@.len() ==> #[trigger] groups@[i]@.len() == count_rows(
                rows@,
                groups@[i]@[0].match_id,
            ),
        groups@.map_values(|g: Vec<MatchRow>| g@).flatten().to_multiset() == rows@.to_multiset(),
{
    rows.into_iter().into_group_map_by(|r| r.match_id).into_values().collect()
}

/// Some row of this match has participation index `p`.
pub open spec fn has_id_row_with_index(rows: Seq<MatchRow>, id: i64, p: int) -> bool {
    exists|j: int|
        #![trigger rows[j]]
        0 <= j < rows.len() && rows[j].match_id == id && rows[j].index as int == p
}

/// The rows of this match read back as a lawful match: their indices
/// fill every position up to their count, and each row carries what
/// its status demands.
pub open spec fn id_rows_ok(rows: Seq<MatchRow>, id: i64) -> bool {
    &&& (forall|p: int|
        0 <= p < count_rows(rows, id) ==> #[trigger] has_id_row_with_index(rows, id, p))
    &&& (forall|j: int|
        0 <= j < rows.len() && (#[trigger] rows[j]).match_id == id ==> {
            &&& rows[j].status <= 3
            &&& (rows[j].status == 3 ==> rows[j].status_error is Some)
            &&& (rows[j].status == 2 ==> rows[j].rank is Some && rows[j].error is Some)
        })
}

/// Some reconstructed match carries this id.
pub open spec fn has_match_with_id(ms: Seq<Match>, id: i64) -> bool {
    exists|k: int| #![trigger ms[k].id] 0 <= k < ms.len() && ms[k].id == id
}

/// Some row of the match pins its head columns: id, seed and status
/// code, with the error message for an errored match.
pub open spec fn match_backed_by_row(rows: Seq<MatchRow>, m: Match) -> bool {
    exists|j: int|
        #![trigger rows[j]]
        {
            &&& 0 <= j < rows.len()
            &&& rows[j].match_id == m.id
            &&& rows[j].seed == m.seed
            &&& rows[j].status == spec_match_status_code(m.status)
            &&& (m.status matches MatchStatus::Error(msg) ==> rows[j].status_error matches Some(e)
                && msg@ == e@)
        }
}

/// The row of the match whose participation index is `i` put its bot
/// — and, for a finished match, its rank and fault flag — at
/// position `i`.
pub open spec fn position_backed_by_row(rows: Seq<MatchRow>, m: Match, i: int) -> bool {
    exists|j: int|
        #![trigger rows[j]]
        {
            &&& 0 <= j < rows.len()
            &&& rows[j].match_id == m.id
            &&& rows[j].index as int == i
            &&& m.bot_ids@[i] == rows[j].bot_id
            &&& (m.status matches MatchStatus::Finished(r) ==> {
                &&& (rows[j].rank matches Some(rk) && r.ranks@[i] == rk)
                &&& (rows[j].error matches Some(e) && r.errors@[i] == (e == 1))
            })
        }
}

/// Reconstructs one match per distinct match id from the rows of the
/// join. It succeeds, with one lawful match for every id the rows
/// name, exactly when every id's rows read back lawfully — indices
/// filling every position and each row carrying what its status
/// demands; the first unlawful group stops the operation instead.
#[verifier::loop_isolation(false)]
#[verifier::rlimit(30)]
pub fn decode_matches(rows: Vec<MatchRow>) -> (res: Result<Vec<Match>, IntegrityError>)
    requires
        join_consistent(rows@),
    ensures
        res is Ok <==> (forall|j: int|
            0 <= j < rows@.len() ==> id_rows_ok(rows@, (#[trigger] rows@[j]).match_id)),
        (res matches Ok(ms) ==> {
            &&& (forall|i: int| 0 <= i < ms@.len() ==> match_wf(#[trigger] ms@[i]))
            &&& (forall|i: int, j: int|
                0 <= i < ms@.len() && 0 <= j < ms@.len() && i != j ==> ms@[i].id != ms@[j].id)
            &&& (forall|j: int|
                0 <= j < rows@.len() ==> has_match_with_id(ms@, (#[trigger] rows@[j]).match_id))
            &&& (forall|k: int| 0 <= k < ms@.len() ==> match_backed_by_row(rows@, #[trigger] ms@[k]))
            &&& (forall|k: int, i: int|
                0 <= k < ms@.len() && 0 <= i < ms@[k].bot_ids@.len()
                    ==> #[trigger] position_backed_by_row(rows@, ms@[k], i))
            &&& (forall|k: int|
                0 <= k < ms@.len() ==> (#[trigger] ms@[k]).bot_ids@.len() == count_rows(
                    rows@,
                    ms@[k].id,
                ))
        }),
{
    let ghost rows0 = rows@;
    let groups = group_by_match_id(rows);
    let mut out: Vec<Match> = Vec::new();
    let mut i: usize = 0;
    while i < groups.len()
        invariant
            i <= groups@.len(),
            out@.len() == i,
            forall|q: int| 0 <= q < i ==> match_wf(#[trigger] out@[q]),
            forall|q: int| 0 <= q < i ==> #[trigger] out@[q].id == groups@[q]@[0].match_id,
            forall|q: int| 0 <= q < i ==> match_rows_ok(#[trigger] groups@[q]@),
            forall|q: int| 0 <= q < i ==> match_backed_by_row(rows0, #[trigger] out@[q]),
            forall|q: int, p: int|
                0 <= q < i && 0 <= p < out@[q].bot_ids@.len()
                    ==> #[trigger] position_backed_by_row(rows0, out@[q], p),
            forall|q: int|
                0 <= q < i ==> (#[trigger] out@[q]).bot_ids@.len() == count_rows(
                    rows0,
                    out@[q].id,
                ),
        decreases groups@.len() - i,
    {
        let ghost g = groups@[i as int]@;
        proof {
            lemma_group_consistent(rows0, g);
        }
        let m = match match_from_rows(&groups[i]) {
            Ok(m) => m,
            Err(e) => {
                proof {
                    let id = g[0].match_id;
                    assert(rows0.contains(g[0]));
                    let jw = choose|j: int| 0 <= j < rows0.len() && rows0[j] == g[0];
                    lemma_bad_group_rows(rows0, groups@, i as int);
                    assert(rows0[jw].match_id == id);
                    assert(!id_rows_ok(rows0, rows0[jw].match_id));
                }
                return Err(e);
            },
        };
        proof {
            let id = g[0].match_id;
            assert(rows0.contains(g[0]));
            let j0 = choose|j: int| 0 <= j < rows0.len() && rows0[j] == g[0];
            assert(rows0[j0].match_id == m.id && rows0[j0].seed == m.seed && rows0[j0].status
                == spec_match_status_code(m.status));
            assert(match_backed_by_row(rows0, m));
            assert forall|p: int| 0 <= p < m.bot_ids@.len() implies #[trigger] position_backed_by_row(
                rows0,
                m,
                p,
            ) by {
                match m.status {
                    MatchStatus::Finished(r) => {
                        assert(position_result_filled(g, m, r, p));
                        let jg = choose|j: int|
                            {
                                &&& 0 <= j < g.len()
                                &&& #[trigger] g[j].index as int == p
                                &&& m.bot_ids@[p] == g[j].bot_id
                                &&& (g[j].rank matches Some(rk) && r.ranks@[p] == rk)
                                &&& (g[j].error matches Some(e) && r.errors@[p] == (e == 1))
                            };
                        assert(rows0.contains(g[jg]));
                        let jr = choose|j: int| 0 <= j < rows0.len() && rows0[j] == g[jg];
                        assert(g[jg].match_id == g[0].match_id);
                        assert(rows0[jr].match_id == m.id && rows0[jr].index as int == p);
                    },
                    _ => {
                        assert(position_filled(g, m, p));
                        let jg = choose|j: int|
                            0 <= j < g.len() && #[trigger] g[j].index as int == p && m.bot_ids@[p]
                                == g[j].bot_id;
                        assert(rows0.contains(g[jg]));
                        let jr = choose|j: int| 0 <= j < rows0.len() && rows0[j] == g[jg];
                        assert(g[jg].match_id == g[0].match_id);
                        assert(rows0[jr].match_id == m.id && rows0[jr].index as int == p);
                    },
                }
            }
            assert(m.bot_ids@.len() == g.len());
            assert(g.len() == count_rows(rows0, id));
        }
        out.push(m);
        i += 1;
    }
    proof {
        assert forall|j: int| 0 <= j < rows0.len() implies id_rows_ok(
            rows0,
            (#[trigger] rows0[j]).match_id,
        ) by {
            lemma_good_groups_good_rows(rows0, groups@, j);
        }
        assert forall|j: int| 0 <= j < rows0.len() implies has_match_with_id(
            out@,
            (#[trigger] rows0[j]).match_id,
        ) by {
            let (gi, k) = choose|gi: int, k: int|
                0 <= gi < groups@.len() && 0 <= k < groups@[gi]@.len() && rows0[j]
                    == groups@[gi]@[k];
            assert(groups@[gi]@[k].match_id == groups@[gi]@[0].match_id);
            assert(out@[gi].id == rows0[j].match_id);
        }
    }
    Ok(out)
}

/// When a group of the partition breaks the match shape, the rows of
/// its id do not read back lawfully.
proof fn lemma_bad_group_rows(rows: Seq<MatchRow>, groups: Seq<Vec<MatchRow>>, i: int)
    requires
        0 <= i < groups.len(),
        !match_rows_ok(groups[i]@),
        rows_consistent(groups[i]@),
        forall|q: int| 0 <= q < groups.len() ==> #[trigger] groups[q]@.len() > 0,
        forall|q: int, k: int|
            0 <= q < groups.len() && 0 <= k < groups[q]@.len() ==> #[trigger] groups[q]@[k].match_id
                == groups[q]@[0].match_id,
        forall|q: int, j: int|
            0 <= q < groups.len() && 0 <= j < groups.len() && q != j ==> groups[q]@[0].match_id
                != groups[j]@[0].match_id,
        forall|q: int, k: int|
            0 <= q < groups.len() && 0 <= k < groups[q]@.len() ==> rows.contains(
                #[trigger] groups[q]@[k],
            ),
        forall|j: int|
            0 <= j < rows.len() ==> exists|q: int, k: int|
                0 <= q < groups.len() && 0 <= k < groups[q]@.len() && #[trigger] rows[j]
                    == groups[q]@[k],
        forall|q: int|
            0 <= q < groups.len() ==> #[trigger] groups[q]@.len() == count_rows(
                rows,
                groups[q]@[0].match_id,
            ),
    ensures
        !id_rows_ok(rows, groups[i]@[0].match_id),
{
    let g = groups[i]@;
    let id = g[0].match_id;
    if !rows_indexed(g) {
        let p = choose|p: int| 0 <= p < g.len() && !has_row_with_index(g, p);
        assert(!has_id_row_with_index(rows, id, p)) by {
            if has_id_row_with_index(rows, id, p) {
                let j2 = choose|j: int|
                    0 <= j < rows.len() && #[trigger] rows[j].match_id == id && rows[j].index as int
                        == p;
                let (gi, k) = choose|gi: int, k: int|
                    0 <= gi < groups.len() && 0 <= k < groups[gi]@.len() && rows[j2]
                        == groups[gi]@[k];
                assert(groups[gi]@[k].match_id == groups[gi]@[0].match_id);
                assert(gi == i);
                assert(g[k].index as int == p);
                assert(has_row_with_index(g, p));
            }
        }
        assert(p < count_rows(rows, id));
        assert(!id_rows_ok(rows, id));
    } else {
        assert(g.len() > 0);
        assert(rows.contains(g[0]));
        let j0 = choose|j: int| 0 <= j < rows.len() && rows[j] == g[0];
        if g[0].status > 3 {
            assert(rows[j0].status > 3);
            assert(!id_rows_ok(rows, id));
        } else if g[0].status == 3 && g[0].status_error is None {
            assert(!id_rows_ok(rows, id));
        } else {
            assert(g[0].status == 2);
            let k2 = choose|k: int|
                0 <= k < g.len() && !((#[trigger] g[k].rank) is Some && g[k].error is Some);
            assert(rows.contains(g[k2]));
            let j2 = choose|j: int| 0 <= j < rows.len() && rows[j] == g[k2];
            assert(g[k2].status == g[0].status);
            assert(rows[j2].match_id == id && rows[j2].status == 2);
            assert(!id_rows_ok(rows, id));
        }
    }
}

/// When every group of the partition has the match shape, the rows of
/// every id read back lawfully.
proof fn lemma_good_groups_good_rows(rows: Seq<MatchRow>, groups: Seq<Vec<MatchRow>>, j: int)
    requires
        0 <= j < rows.len(),
        forall|q: int| 0 <= q < groups.len() ==> match_rows_ok(#[trigger] groups[q]@),
        forall|q: int| 0 <= q < groups.len() ==> #[trigger] groups[q]@.len() > 0,
        forall|q: int, k: int|
            0 <= q < groups.len() && 0 <= k < groups[q]@.len() ==> #[trigger] groups[q]@[k].match_id
                == groups[q]@[0].match_id,
        forall|q: int, j2: int|
            0 <= q < groups.len() && 0 <= j2 < groups.len() && q != j2 ==> groups[q]@[0].match_id
                != groups[j2]@[0].match_id,
        forall|q: int, k: int|
            0 <= q < groups.len() && 0 <= k < groups[q]@.len() ==> rows.contains(
                #[trigger] groups[q]@[k],
            ),
        forall|j2: int|
            0 <= j2 < rows.len() ==> exists|q: int, k: int|
                0 <= q < groups.len() && 0 <= k < groups[q]@.len() && #[trigger] rows[j2]
                    == groups[q]@[k],
        forall|q: int|
            0 <= q < groups.len() ==> #[trigger] groups[q]@.len() == count_rows(
                rows,
                groups[q]@[0].match_id,
            ),
        join_consistent(rows),
    ensures
        id_rows_ok(rows, rows[j].match_id),
{
    let (gi, k0) = choose|gi: int, k: int|
        0 <= gi < groups.len() && 0 <= k < groups[gi]@.len() && rows[j] == groups[gi]@[k];
    let g = groups[gi]@;
    let id = g[0].match_id;
    assert(g[k0].match_id == id);
    assert(rows[j].match_id == id);
    lemma_group_consistent(rows, g);
    assert forall|p: int| 0 <= p < count_rows(rows, id) implies #[trigger] has_id_row_with_index(
        rows,
        id,
        p,
    ) by {
        assert(g.len() == count_rows(rows, id));
        assert(has_row_with_index(g, p));
        let kg = choose|k: int| 0 <= k < g.len() && #[trigger] g[k].index as int == p;
        assert(rows.contains(g[kg]));
        let jr = choose|jx: int| 0 <= jx < rows.len() && rows[jx] == g[kg];
        assert(g[kg].match_id == id);
        assert(rows[jr].match_id == id && rows[jr].index as int == p);
    }
    assert forall|j2: int| 0 <= j2 < rows.len() && (#[trigger] rows[j2]).match_id == id implies {
        &&& rows[j2].status <= 3
        &&& (rows[j2].status == 3 ==> rows[j2].status_error is Some)
        &&& (rows[j2].status == 2 ==> rows[j2].rank is Some && rows[j2].error is Some)
    } by {
        let (g2, k2) = choose|g2: int, k: int|
            0 <= g2 < groups.len() && 0 <= k < groups[g2]@.len() && rows[j2] == groups[g2]@[k];
        assert(groups[g2]@[k2].match_id == groups[g2]@[0].match_id);
        assert(g2 == gi);
        assert(g[k2].status == g[0].status);
        assert(opt_text_eq(g[k2].status_error, g[0].status_error));
        if g[0].status == 2 {
            assert((g[k2].rank) is Some && g[k2].error is Some);
        }
    }
}

/// The optional text columns agree; the executable side of
/// `opt_text_eq`.
fn opt_text_eq_check(a: &Option<String>, b: &Option<String>) -> (r: bool)
    ensures
        r == opt_text_eq(*a, *b),
{
    match a {
        Some(x) => match b {
            Some(y) => *x == *y,
            None => false,
        },
        None => b.is_none(),
    }
}

/// Checks that all rows carry one match's columns, so a caller can
/// establish the decoder's precondition on data that arrives from
/// outside the library.
#[verifier::loop_isolation(false)]
pub fn check_rows_consistent(rows: &Vec<MatchRow>) -> (r: bool)
    ensures
        r == rows_consistent(rows@),
{
    let n = rows.len();
    let mut i: usize = 0;
    while i < n
        invariant
            n == rows@.len(),
            i <= n,
            forall|a: int, b: int|
                #![trigger rows@[a], rows@[b]]
                0 <= a < i && 0 <= b < n ==> rows@[a].match_id == rows@[b].match_id
                    && rows@[a].seed == rows@[b].seed && rows@[a].status == rows@[b].status
                    && opt_text_eq(rows@[a].status_error, rows@[b].status_error),
        decreases n - i,
    {
        let mut j: usize = 0;
        while j < n
            invariant
                i < n,
                n == rows@.len(),
                j <= n,
                forall|b: int|
                    #![trigger rows@[b]]
                    0 <= b < j ==> rows@[i as int].match_id == rows@[b].match_id
                        && rows@[i as int].seed == rows@[b].seed && rows@[i as int].status
                        == rows@[b].status && opt_text_eq(
                        rows@[i as int].status_error,
                        rows@[b].status_error,
                    ),
            decreases n - j,
        {
            if !(rows[i].match_id == rows[j].match_id && rows[i].seed == rows[j].seed
                && rows[i].status == rows[j].status && opt_text_eq_check(
                &rows[i].status_error,
                &rows[j].status_error,
            )) {
                return false;
            }
            j += 1;
        }
        i += 1;
    }
    true
}

/// Checks that rows sharing a match id agree on the joined match
/// columns, so a caller can establish the decoder's precondition on
/// data that arrives from outside the library.
#[verifier::loop_isolation(false)]
pub fn check_join_consistent(rows: &Vec<MatchRow>) -> (r: bool)
    ensures
        r == join_consistent(rows@),
{
    let n = rows.len();
    let mut i: usize = 0;
    while i < n
        invariant
            n == rows@.len(),
            i <= n,
            forall|a: int, b: int|
                #![trigger rows@[a], rows@[b]]
                0 <= a < i && 0 <= b < n && rows@[a].match_id == rows@[b].match_id ==> rows@[a].seed
                    == rows@[b].seed && rows@[a].status == rows@[b].status && opt_text_eq(
                    rows@[a].status_error,
                    rows@[b].status_error,
                ),
        decreases n - i,
    {
        let mut j: usize = 0;
        while j < n
            invariant
                i < n,
                n == rows@.len(),
                j <= n,
                forall|b: int|
                    #![trigger rows@[b]]
                    0 <= b < j && rows@[i as int].match_id == rows@[b].match_id
                        ==> rows@[i as int].seed == rows@[b].seed && rows@[i as int].status
                        == rows@[b].status && opt_text_eq(
                        rows@[i as int].status_error,
                        rows@[b].status_error,
                    ),
            decreases n - j,
        {
            if rows[i].match_id == rows[j].match_id {
                if !(rows[i].seed == rows[j].seed && rows[i].status == rows[j].status
                    && opt_text_eq_check(&rows[i].status_error, &rows[j].status_error)) {
                    return false;
                }
            }
            j += 1;
        }
        i += 1;
    }
    true
}

/// Rows drawn from a consistent join that share one match id agree on
/// all joined match columns.
proof fn lemma_group_consistent(rows: Seq<MatchRow>, group: Seq<MatchRow>)
    requires
        join_consistent(rows),
        forall|k: int| 0 <= k < group.len() ==> rows.contains(#[trigger] group[k]),
        forall|k: int| 0 <= k < group.len() ==> #[trigger] group[k].match_id == group[0].match_id,
    ensures
        rows_consistent(group),
{
    assert forall|i: int, j: int| 0 <= i < group.len() && 0 <= j < group.len() implies group[i].match_id
        == group[j].match_id && group[i].seed == group[j].seed && group[i].status
        == group[j].status && opt_text_eq(group[i].status_error, group[j].status_error) by {
        assert(rows.contains(group[i]));
        assert(rows.contains(group[j]));
        let a = choose|a: int| 0 <= a < rows.len() && rows[a] == group[i];
        let b = choose|b: int| 0 <= b < rows.len() && rows[b] == group[j];
        assert(0 <= a < rows.len() && rows[a] == group[i]);
        assert(0 <= b < rows.len() && rows[b] == group[j]);
        assert(group[i].match_id == group[0].match_id);
        assert(group[j].match_id == group[0].match_id);
        assert(rows[a].match_id == rows[b].match_id);
        assert(rows[a].seed == rows[b].seed && rows[a].status == rows[b].status && opt_text_eq(
            rows[a].status_error,
            rows[b].status_error,
        ));
    }
}

} // verus!
