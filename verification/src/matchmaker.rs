//! The matchmaking policy: which bots play the next match.

use vstd::prelude::*;

use crate::config::{GameConfig, MatchmakingConfig, game_config_wf, matchmaking_config_wf};
use crate::domain::{Bot, BotId};

verus! {

/// One xorshift step; the generator below follows it exactly, so
/// every draw is pinned by the seed.
pub open spec fn xorshift_step(s: u64) -> u64 {
    let a = s ^ (s << 13);
    let b = a ^ (a >> 7);
    b ^ (b << 17)
}

/// A deterministic pseudo-random stream. The caller seeds it; equal
/// seeds give equal streams, which makes every matchmaking decision
/// replayable.
pub struct Shuffler {
    pub state: u64,
}

impl Shuffler {
    /// A stream from a seed; a zero seed is replaced, since the
    /// xorshift step has a fixed point at zero.
    pub fn new(seed: u64) -> (r: Shuffler)
        ensures
            r.state == (if seed == 0 { 0x9E3779B97F4A7C15u64 } else { seed }),
    {
        let state: u64 = if seed == 0 {
            0x9E3779B97F4A7C15
        } else {
            seed
        };
        Shuffler { state }
    }

    /// The next raw draw.
    pub fn next_u64(&mut self) -> (r: u64)
        ensures
            r == xorshift_step(old(self).state),
            final(self).state == r,
    {
        let s = self.state;
        let a = s ^ (s << 13);
        let b = a ^ (a >> 7);
        let c = b ^ (b << 17);
        self.state = c;
        c
    }

    /// A draw below `n`.
    pub fn next_below(&mut self, n: u64) -> (r: u64)
        requires
            n > 0,
        ensures
            r < n,
            r == xorshift_step(old(self).state) % n,
            final(self).state == xorshift_step(old(self).state),
    {
        let raw = self.next_u64();
        raw % n
    }
}

/// The participant count one proposal draws: the first draw of the
/// stream, uniform over the configured bounds, capped by the pool
/// size when each bot may appear only once.
pub open spec fn spec_drawn_count(
    game: GameConfig,
    mm: MatchmakingConfig,
    n_eligible: int,
    s0: u64,
) -> int {
    let span = game.max_players as int - game.min_players as int + 1;
    let k0 = game.min_players as int + (xorshift_step(s0) as int % span);
    if !mm.allow_same_bots && k0 > n_eligible {
        n_eligible
    } else {
        k0
    }
}

/// The preference draw fires: the second draw of the stream lands
/// under the configured probability.
pub open spec fn spec_prefers_under(s0: u64, ppm: u32) -> bool {
    xorshift_step(xorshift_step(s0)) % 1_000_000 < ppm as u64
}

/// Some eligible bot carries this id and still needs data.
pub open spec fn chosen_needs_data(bots: Seq<Bot>, mm: MatchmakingConfig, id: BotId) -> bool {
    exists|i: int|
        #![trigger bots[i]]
        0 <= i < bots.len() && bots[i].id == id && needs_data(bots[i], mm)
}

/// A proposed match: the chosen participants in seat order and the
/// seed the game will be played under.
pub struct MatchProposal {
    pub bot_ids: Vec<BotId>,
    pub seed: i64,
}

/// The ids are pairwise distinct.
pub open spec fn ids_distinct(ids: Seq<BotId>) -> bool {
    forall|i: int, j: int| #![trigger ids[i], ids[j]] 0 <= i < j < ids.len() ==> ids[i] != ids[j]
}

/// The ids of the bots, in order.
pub open spec fn bot_ids_of(bots: Seq<Bot>) -> Seq<BotId> {
    bots.map_values(|b: Bot| b.id)
}

/// Some eligible bot carries this id.
pub open spec fn id_in_pool(bots: Seq<Bot>, id: BotId) -> bool {
    exists|i: int| #![trigger bots[i].id] 0 <= i < bots.len() && bots[i].id == id
}

/// The bot still needs more data: it has played fewer matches than
/// the configured minimum.
pub open spec fn needs_data(b: Bot, mm: MatchmakingConfig) -> bool {
    b.matches_played < mm.min_matches
}

/// How many of the bots still need more data.
pub open spec fn under_count(bots: Seq<Bot>, mm: MatchmakingConfig) -> nat
    decreases bots.len(),
{
    if bots.len() == 0 {
        0
    } else {
        under_count(bots.drop_last(), mm) + (if needs_data(bots.last(), mm) {
            1nat
        } else {
            0nat
        })
    }
}

/// The list is every position of the bots, in order.
pub open spec fn is_identity_list(r: Seq<usize>, len: nat) -> bool {
    &&& r.len() == len
    &&& (forall|t: int| 0 <= t < r.len() ==> #[trigger] r[t] == t)
}

/// The list is exactly the positions of the bots that need more
/// data, in increasing order.
pub open spec fn is_under_list(r: Seq<usize>, bots: Seq<Bot>, mm: MatchmakingConfig) -> bool {
    &&& (forall|t: int|
        0 <= t < r.len() ==> #[trigger] r[t] < bots.len() && needs_data(bots[r[t] as int], mm))
    &&& (forall|t: int, u: int| 0 <= t < u < r.len() ==> #[trigger] r[t] < #[trigger] r[u])
    &&& r.len() == under_count(bots, mm)
}

/// The candidate pool for one proposal, as positions into the
/// eligible bots. When the preference draw fires and the bots that
/// need more data can fill the match (any of them when repeats are
/// allowed, at least `need` of them otherwise), the pool is exactly
/// those bots; in every other case it is the full eligible pool.
/// This is the bias that builds a minimum sample for every bot
/// without starving the veterans.
#[verifier::loop_isolation(false)]
pub fn choose_pool(eligible: &Vec<Bot>, mm: &MatchmakingConfig, need: usize, prefer: bool) -> (r:
    Vec<usize>)
    ensures
        is_identity_list(r@, eligible@.len()) || is_under_list(r@, eligible@, *mm),
        !prefer ==> is_identity_list(r@, eligible@.len()),
        (prefer && (if mm.allow_same_bots {
            under_count(eligible@, *mm) >= 1
        } else {
            under_count(eligible@, *mm) >= need
        })) ==> is_under_list(r@, eligible@, *mm),
        (prefer && !(if mm.allow_same_bots {
            under_count(eligible@, *mm) >= 1
        } else {
            under_count(eligible@, *mm) >= need
        })) ==> is_identity_list(r@, eligible@.len()),
{
    let n = eligible.len();
    if prefer {
        let mut under: Vec<usize> = Vec::new();
        let mut i: usize = 0;
        while i < n
            invariant
                n == eligible@.len(),
                i <= n,
                under@.len() == under_count(eligible@.take(i as int), *mm),
                forall|t: int|
                    0 <= t < under@.len() ==> #[trigger] under@[t] < i && needs_data(
                        eligible@[under@[t] as int],
                        *mm,
                    ),
                forall|t: int, u: int| 0 <= t < u < under@.len() ==> under@[t] < under@[u],
            decreases n - i,
        {
            proof {
                assert(eligible@.take(i + 1).drop_last() =~= eligible@.take(i as int));
                assert(eligible@.take(i + 1).last() == eligible@[i as int]);
            }
            if eligible[i].matches_played < mm.min_matches {
                under.push(i);
            }
            i += 1;
        }
        proof {
            assert(eligible@.take(n as int) =~= eligible@);
        }
        let usable = if mm.allow_same_bots {
            under.len() >= 1
        } else {
            under.len() >= need
        };
        if usable {
            return under;
        }
    }
    let mut full: Vec<usize> = Vec::new();
    let mut i: usize = 0;
    while i < n
        invariant
            n == eligible@.len(),
            i <= n,
            full@.len() == i,
            forall|t: int| 0 <= t < i ==> #[trigger] full@[t] == t,
        decreases n - i,
    {
        full.push(i);
        i += 1;
    }
    full
}

/// Proposes the participants of one match, or nothing when the
/// eligible pool cannot fill one: fewer than `min_players` distinct
/// bots when repeats are disallowed, no bot at all when they are
/// allowed. The participant count is drawn from the configured
/// bounds and capped by the pool when each bot may appear only once;
/// every chosen id belongs to an eligible bot, and no id repeats
/// unless repeats are allowed.
#[verifier::loop_isolation(false)]
pub fn propose_match(
    eligible: &Vec<Bot>,
    game: &GameConfig,
    mm: &MatchmakingConfig,
    rng: &mut Shuffler,
) -> (r: Option<MatchProposal>)
    requires
        game_config_wf(*game),
        matchmaking_config_wf(*mm),
        ids_distinct(bot_ids_of(eligible@)),
    ensures
        r is Some <==> (if mm.allow_same_bots {
            eligible@.len() >= 1
        } else {
            eligible@.len() >= game.min_players
        }),
        (r matches Some(p) ==> {
            &&& game.min_players <= p.bot_ids@.len() <= game.max_players
            &&& p.bot_ids@.len() == spec_drawn_count(*game, *mm, eligible@.len() as int, old(rng).state)
            &&& p.seed == final(rng).state as i64
            &&& (forall|t: int|
                0 <= t < p.bot_ids@.len() ==> #[trigger] id_in_pool(eligible@, p.bot_ids@[t]))
            &&& (!mm.allow_same_bots ==> ids_distinct(p.bot_ids@))
            &&& ((spec_prefers_under(old(rng).state, mm.min_matches_preference_ppm) && (if mm.allow_same_bots {
                under_count(eligible@, *mm) >= 1
            } else {
                under_count(eligible@, *mm) >= spec_drawn_count(
                    *game,
                    *mm,
                    eligible@.len() as int,
                    old(rng).state,
                )
            })) ==> (forall|t: int|
                0 <= t < p.bot_ids@.len() ==> chosen_needs_data(
                    eligible@,
                    *mm,
                    #[trigger] p.bot_ids@[t],
                )))
        }),
{
    let n = eligible.len();
    if mm.allow_same_bots {
        if n == 0 {
            return None;
        }
    } else {
        if n < game.min_players as usize {
            return None;
        }
    }
    let ghost s0 = rng.state;
    let span: u64 = game.max_players as u64 - game.min_players as u64 + 1;
    let mut k: usize = (game.min_players as u64 + rng.next_below(span)) as usize;
    if !mm.allow_same_bots && k > n {
        k = n;
    }
    proof {
        assert(k as int == spec_drawn_count(*game, *mm, eligible@.len() as int, s0));
    }
    let prefer = rng.next_below(1_000_000) < mm.min_matches_preference_ppm as u64;
    proof {
        assert(prefer == spec_prefers_under(s0, mm.min_matches_preference_ppm));
    }
    let mut pool = choose_pool(eligible, mm, k, prefer);
    let ghost under_pool = is_under_list(pool@, eligible@, *mm);
    proof {
        if under_pool {
            assert(forall|q: int|
                0 <= q < pool@.len() ==> #[trigger] pool@[q] < n && needs_data(
                    eligible@[pool@[q] as int],
                    *mm,
                ));
        }
    }
    let mut bot_ids: Vec<BotId> = Vec::new();
    if mm.allow_same_bots {
        let pool_len = pool.len();
        let mut t: usize = 0;
        while t < k
            invariant
                pool_len == pool@.len(),
                pool_len >= 1,
                n == eligible@.len(),
                t <= k,
                bot_ids@.len() == t,
                forall|q: int|
                    0 <= q < pool@.len() ==> #[trigger] pool@[q] < n,
                (under_pool ==> forall|q: int|
                    0 <= q < pool@.len() ==> needs_data(eligible@[(#[trigger] pool@[q]) as int], *mm)),
                forall|q: int|
                    0 <= q < t ==> #[trigger] id_in_pool(eligible@, bot_ids@[q]),
                (under_pool ==> forall|q: int|
                    0 <= q < t ==> chosen_needs_data(eligible@, *mm, #[trigger] bot_ids@[q])),
            decreases k - t,
        {
            let d = rng.next_below(pool_len as u64) as usize;
            let p = pool[d];
            bot_ids.push(eligible[p].id);
            proof {
                assert(eligible@[p as int].id == bot_ids@[t as int]);
            }
            t += 1;
        }
    } else {
        // Partial Fisher-Yates over the pool positions: the first k
        // entries end up a uniformly drawn distinct sample.
        let pool_len = pool.len();
        let mut t: usize = 0;
        while t < k
            invariant
                pool_len == pool@.len(),
                k <= pool_len,
                n == eligible@.len(),
                t <= k,
                forall|q: int| 0 <= q < pool@.len() ==> #[trigger] pool@[q] < n,
                (under_pool ==> forall|q: int|
                    0 <= q < pool@.len() ==> needs_data(eligible@[(#[trigger] pool@[q]) as int], *mm)),
                forall|a: int, b: int|
                    #![trigger pool@[a], pool@[b]]
                    0 <= a < b < pool@.len() ==> pool@[a] != pool@[b],
            decreases k - t,
        {
            let d = t + rng.next_below((pool_len - t) as u64) as usize;
            let ghost prev = pool@;
            let x = pool[t];
            let y = pool[d];
            pool[t] = y;
            pool[d] = x;
            proof {
                assert forall|a: int, b: int|
                    #![trigger pool@[a], pool@[b]]
                    0 <= a < b < pool@.len() implies pool@[a] != pool@[b] by {
                    assert(prev[a] != prev[b]);
                    assert(prev[a as int] == prev[a] && prev[b] == prev[b as int]);
                    if a != t as int && a != d as int && b != t as int && b != d as int {
                        assert(pool@[a] == prev[a] && pool@[b] == prev[b]);
                    }
                }
            }
            t += 1;
        }
        let mut t: usize = 0;
        while t < k
            invariant
                pool_len == pool@.len(),
                k <= pool_len,
                n == eligible@.len(),
                t <= k,
                bot_ids@.len() == t,
                forall|q: int| 0 <= q < pool@.len() ==> #[trigger] pool@[q] < n,
                forall|a: int, b: int|
                    #![trigger pool@[a], pool@[b]]
                    0 <= a < b < pool@.len() ==> pool@[a] != pool@[b],
                (under_pool ==> forall|q: int|
                    0 <= q < pool@.len() ==> needs_data(eligible@[(#[trigger] pool@[q]) as int], *mm)),
                forall|q: int|
                    0 <= q < t ==> #[trigger] bot_ids@[q] == eligible@[pool@[q] as int].id,
                forall|q: int|
                    0 <= q < t ==> #[trigger] id_in_pool(eligible@, bot_ids@[q]),
                (under_pool ==> forall|q: int|
                    0 <= q < t ==> chosen_needs_data(eligible@, *mm, #[trigger] bot_ids@[q])),
            decreases k - t,
        {
            let p = pool[t];
            bot_ids.push(eligible[p].id);
            proof {
                assert(eligible@[p as int].id == bot_ids@[t as int]);
            }
            t += 1;
        }
        proof {
            assert forall|a: int, b: int|
                #![trigger bot_ids@[a], bot_ids@[b]]
                0 <= a < b < bot_ids@.len() implies bot_ids@[a] != bot_ids@[b] by {
                let ia = pool@[a] as int;
                let ib = pool@[b] as int;
                assert(pool@[a] != pool@[b]);
                assert(bot_ids_of(eligible@)[ia] == eligible@[ia].id);
                assert(bot_ids_of(eligible@)[ib] == eligible@[ib].id);
            }
        }
    }
    let seed = rng.next_u64() as i64;
    Some(MatchProposal { bot_ids, seed })
}

} // verus!
