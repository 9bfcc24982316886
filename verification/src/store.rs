//! An in-memory model of the persistence contract the engine
//! consumes: bots with unique ids and names, at most one build per
//! bot (a new build replaces the old), and matches with their
//! participants. The SQL-backed store outside the library follows the
//! same contract; this one states and proves it.

use vstd::prelude::*;

use crate::db::DBError;
use crate::domain::{Bot, BotId, Build, Match, match_wf, valid_bot_name, UNINITIALIZED_BOT_ID};

verus! {

/// Some bot has this id.
pub open spec fn has_bot(bots: Seq<Bot>, id: BotId) -> bool {
    exists|i: int| #![trigger bots[i].id] 0 <= i < bots.len() && bots[i].id == id
}

/// Some bot has this name.
pub open spec fn has_bot_named(bots: Seq<Bot>, name: Seq<char>) -> bool {
    exists|i: int| #![trigger bots[i]] 0 <= i < bots.len() && bots[i].name@ == name
}

/// No two bots share an id or a name.
pub open spec fn bots_unique(bots: Seq<Bot>) -> bool {
    forall|i: int, j: int|
        #![trigger bots[i], bots[j]]
        0 <= i < j < bots.len() ==> bots[i].id != bots[j].id && bots[i].name@ != bots[j].name@
}

/// Some build belongs to this bot.
pub open spec fn has_build(builds: Seq<Build>, bot_id: BotId) -> bool {
    exists|i: int| #![trigger builds[i].bot_id] 0 <= i < builds.len() && builds[i].bot_id == bot_id
}

/// At most one build per bot: a new build replaces the old record.
pub open spec fn builds_unique(builds: Seq<Build>) -> bool {
    forall|i: int, j: int|
        #![trigger builds[i], builds[j]]
        0 <= i < j < builds.len() ==> builds[i].bot_id != builds[j].bot_id
}

/// The store: every row the engine reads or writes, as plain values.
pub struct BotStore {
    pub bots: Vec<Bot>,
    pub builds: Vec<Build>,
    pub matches: Vec<Match>,
    pub next_bot_id: i64,
    pub next_match_id: i64,
}

/// The store's invariant: unique bot ids and names, one build per
/// bot, lawful matches, and id counters ahead of every assigned id.
pub open spec fn store_wf(s: BotStore) -> bool {
    &&& bots_unique(s.bots@)
    &&& builds_unique(s.builds@)
    &&& 1 <= s.next_bot_id
    &&& 1 <= s.next_match_id
    &&& (forall|i: int|
        0 <= i < s.bots@.len() ==> 1 <= #[trigger] s.bots@[i].id < s.next_bot_id)
    &&& (forall|i: int|
        0 <= i < s.matches@.len() ==> 1 <= #[trigger] s.matches@[i].id < s.next_match_id)
    &&& (forall|i: int| 0 <= i < s.matches@.len() ==> match_wf(#[trigger] s.matches@[i]))
}

impl BotStore {
    /// A store with nothing in it.
    pub fn new() -> (s: BotStore)
        ensures
            store_wf(s),
            s.bots@.len() == 0,
            s.builds@.len() == 0,
            s.matches@.len() == 0,
            s.next_bot_id == 1,
            s.next_match_id == 1,
    {
        BotStore {
            bots: Vec::new(),
            builds: Vec::new(),
            matches: Vec::new(),
            next_bot_id: 1,
            next_match_id: 1,
        }
    }

    /// Registers a bot under a fresh id. A name already in use is a
    /// conflict, surfaced to the caller, and the store is unchanged.
    #[verifier::loop_isolation(false)]
    pub fn create_bot(&mut self, bot: Bot) -> (r: Result<BotId, DBError>)
        requires
            store_wf(*old(self)),
            bot.id == UNINITIALIZED_BOT_ID,
            valid_bot_name(bot.name@),
            old(self).next_bot_id < i64::MAX,
        ensures
            store_wf(*final(self)),
            r is Ok <==> !has_bot_named(old(self).bots@, bot.name@),
            r is Err ==> r == Err::<BotId, DBError>(DBError::AlreadyExists) && *final(self) == *old(
                self,
            ),
            (r matches Ok(id) ==> {
                &&& id == old(self).next_bot_id
                &&& final(self).bots@.len() == old(self).bots@.len() + 1
                &&& final(self).bots@[old(self).bots@.len() as int] == (Bot { id, ..bot })
                &&& (forall|i: int|
                    0 <= i < old(self).bots@.len() ==> #[trigger] final(self).bots@[i] == old(
                        self,
                    ).bots@[i])
                &&& final(self).builds@ == old(self).builds@
                &&& final(self).matches@ == old(self).matches@
                &&& final(self).next_bot_id == old(self).next_bot_id + 1
            }),
    {
        let n = self.bots.len();
        let mut i: usize = 0;
        while i < n
            invariant
                n == self.bots@.len(),
                i <= n,
                forall|k: int| #![trigger self.bots@[k]] 0 <= k < i ==> self.bots@[k].name@ != bot.name@,
            decreases n - i,
        {
            if self.bots[i].name == bot.name {
                return Err(DBError::AlreadyExists);
            }
            i += 1;
        }
        let id = self.next_bot_id;
        self.next_bot_id = self.next_bot_id + 1;
        let stored = Bot { id, ..bot };
        self.bots.push(stored);
        Ok(id)
    }

    /// Removes the bot with this id; a missing id is a not-found
    /// error and leaves the store unchanged. Deletion is an
    /// administrative operation: the engine itself never calls it.
    #[verifier::loop_isolation(false)]
    pub fn delete_bot(&mut self, id: BotId) -> (r: Result<(), DBError>)
        requires
            store_wf(*old(self)),
        ensures
            store_wf(*final(self)),
            r is Ok <==> has_bot(old(self).bots@, id),
            r is Err ==> r == Err::<(), DBError>(DBError::NotFound) && *final(self) == *old(self),
            r is Ok ==> final(self).bots@.len() == old(self).bots@.len() - 1 && !has_bot(
                final(self).bots@,
                id,
            ) && (forall|bid: BotId|
                bid != id ==> (has_bot(final(self).bots@, bid) <==> #[trigger] has_bot(
                    old(self).bots@,
                    bid,
                ))),
            r is Ok ==> (exists|i: int|
                {
                    &&& 0 <= i < old(self).bots@.len()
                    &&& #[trigger] old(self).bots@[i].id == id
                    &&& final(self).bots@ == old(self).bots@.remove(i)
                }),
            final(self).builds@ == old(self).builds@,
            final(self).matches@ == old(self).matches@,
    {
        let ghost prev = self.bots@;
        let n = self.bots.len();
        let mut i: usize = 0;
        while i < n
            invariant
                *self == *old(self),
                n == self.bots@.len(),
                i <= n,
                forall|k: int| #![trigger self.bots@[k].id] 0 <= k < i ==> self.bots@[k].id != id,
            decreases n - i,
        {
            if self.bots[i].id == id {
                self.bots.remove(i);
                proof {
                    lemma_remove_keeps_distinct(prev, i as int);
                    assert forall|bid: BotId| bid != id implies (has_bot(self.bots@, bid)
                        <==> #[trigger] has_bot(prev, bid)) by {
                        lemma_remove_bot_membership(prev, i as int, bid);
                    }
                    assert(!has_bot(self.bots@, id)) by {
                        lemma_remove_bot_membership_gone(prev, i as int, id);
                    }
                }
                return Ok(());
            }
            i += 1;
        }
        Err(DBError::NotFound)
    }

    /// Renames the bot with this id: a missing id is a not-found
    /// error, a name already used by another bot a conflict; either
    /// way the store is unchanged.
    #[verifier::loop_isolation(false)]
    pub fn rename_bot(&mut self, id: BotId, new_name: String) -> (r: Result<(), DBError>)
        requires
            store_wf(*old(self)),
            valid_bot_name(new_name@),
        ensures
            store_wf(*final(self)),
            r is Ok <==> has_bot(old(self).bots@, id) && !(exists|i: int|
                #![trigger old(self).bots@[i]]
                0 <= i < old(self).bots@.len() && old(self).bots@[i].id != id && old(
                    self,
                ).bots@[i].name@ == new_name@),
            !has_bot(old(self).bots@, id) ==> r == Err::<(), DBError>(DBError::NotFound),
            (r is Err && has_bot(old(self).bots@, id)) ==> r == Err::<(), DBError>(
                DBError::AlreadyExists,
            ),
            r is Err ==> *final(self) == *old(self),
            (r is Ok ==> {
                &&& final(self).bots@.len() == old(self).bots@.len()
                &&& (exists|i: int|
                    {
                        &&& 0 <= i < old(self).bots@.len()
                        &&& #[trigger] old(self).bots@[i].id == id
                        &&& final(self).bots@ == old(self).bots@.update(
                            i,
                            Bot { name: new_name, ..old(self).bots@[i] },
                        )
                    })
            }),
            final(self).builds@ == old(self).builds@,
            final(self).matches@ == old(self).matches@,
    {
        let n = self.bots.len();
        let mut pos: Option<usize> = None;
        let mut i: usize = 0;
        while i < n && pos.is_none()
            invariant
                n == self.bots@.len(),
                i <= n,
                (pos matches Some(p) ==> p < n && self.bots@[p as int].id == id),
                (pos is None ==> forall|k: int|
                    #![trigger self.bots@[k].id]
                    0 <= k < i ==> self.bots@[k].id != id),
            decreases n - i, (if pos is None { 1int } else { 0int }),
        {
            if self.bots[i].id == id {
                pos = Some(i);
            } else {
                i += 1;
            }
        }
        let idx = match pos {
            Some(p) => p,
            None => {
                return Err(DBError::NotFound);
            },
        };
        let mut j: usize = 0;
        while j < n
            invariant
                n == self.bots@.len(),
                j <= n,
                idx < n,
                self.bots@[idx as int].id == id,
                forall|k: int|
                    #![trigger self.bots@[k]]
                    0 <= k < j ==> !(self.bots@[k].id != id && self.bots@[k].name@ == new_name@),
            decreases n - j,
        {
            if self.bots[j].id != id && self.bots[j].name == new_name {
                return Err(DBError::AlreadyExists);
            }
            j += 1;
        }
        let ghost prev = self.bots@;
        self.bots[idx].name = new_name;
        proof {
            assert(self.bots@ == prev.update(
                idx as int,
                Bot { name: self.bots@[idx as int].name, ..prev[idx as int] },
            ));
            assert forall|a: int, b: int|
                #![trigger self.bots@[a], self.bots@[b]]
                0 <= a < b < self.bots@.len() implies self.bots@[a].id != self.bots@[b].id
                && self.bots@[a].name@ != self.bots@[b].name@ by {
                assert(prev[a].id != prev[b].id && prev[a].name@ != prev[b].name@);
            }
        }
        Ok(())
    }

    /// The position of the bot with this id, if it is present.
    #[verifier::loop_isolation(false)]
    pub fn find_bot(&self, id: BotId) -> (r: Option<usize>)
        ensures
            r is Some <==> has_bot(self.bots@, id),
            (r matches Some(p) ==> p < self.bots@.len() && self.bots@[p as int].id == id),
    {
        let n = self.bots.len();
        let mut i: usize = 0;
        while i < n
            invariant
                n == self.bots@.len(),
                i <= n,
                forall|k: int| #![trigger self.bots@[k].id] 0 <= k < i ==> self.bots@[k].id != id,
            decreases n - i,
        {
            if self.bots[i].id == id {
                return Some(i);
            }
            i += 1;
        }
        None
    }

    /// Records a build, replacing any earlier build of the same bot:
    /// only the latest build of a bot is ever queryable.
    #[verifier::loop_isolation(false)]
    pub fn upsert_build(&mut self, build: Build)
        requires
            store_wf(*old(self)),
        ensures
            store_wf(*final(self)),
            final(self).bots@ == old(self).bots@,
            final(self).matches@ == old(self).matches@,
            final(self).next_bot_id == old(self).next_bot_id,
            final(self).next_match_id == old(self).next_match_id,
            has_build(final(self).builds@, build.bot_id),
            (!has_build(old(self).builds@, build.bot_id) ==> final(self).builds@ == old(
                self,
            ).builds@.push(build)),
            (has_build(old(self).builds@, build.bot_id) ==> exists|i: int|
                {
                    &&& 0 <= i < old(self).builds@.len()
                    &&& #[trigger] old(self).builds@[i].bot_id == build.bot_id
                    &&& final(self).builds@ == old(self).builds@.update(i, build)
                }),
    {
        let n = self.builds.len();
        let mut i: usize = 0;
        while i < n
            invariant
                *self == *old(self),
                n == self.builds@.len(),
                i <= n,
                forall|k: int|
                    #![trigger self.builds@[k].bot_id]
                    0 <= k < i ==> self.builds@[k].bot_id != build.bot_id,
            decreases n - i,
        {
            if self.builds[i].bot_id == build.bot_id {
                let ghost prev = self.builds@;
                self.builds[i] = build;
                proof {
                    assert forall|a: int, b: int|
                        #![trigger self.builds@[a], self.builds@[b]]
                        0 <= a < b < self.builds@.len() implies self.builds@[a].bot_id
                        != self.builds@[b].bot_id by {
                        assert(prev[a].bot_id != prev[b].bot_id);
                    }
                }
                return ;
            }
            i += 1;
        }
        self.builds.push(build);
        proof {
            assert(self.builds@[self.builds@.len() - 1].bot_id == build.bot_id);
        }
    }

    /// The position of the build of this bot, if one is recorded.
    #[verifier::loop_isolation(false)]
    pub fn find_build(&self, bot_id: BotId) -> (r: Option<usize>)
        ensures
            r is Some <==> has_build(self.builds@, bot_id),
            (r matches Some(p) ==> p < self.builds@.len() && self.builds@[p as int].bot_id
                == bot_id),
    {
        let n = self.builds.len();
        let mut i: usize = 0;
        while i < n
            invariant
                n == self.builds@.len(),
                i <= n,
                forall|k: int|
                    #![trigger self.builds@[k].bot_id]
                    0 <= k < i ==> self.builds@[k].bot_id != bot_id,
            decreases n - i,
        {
            if self.builds[i].bot_id == bot_id {
                return Some(i);
            }
            i += 1;
        }
        None
    }

    /// A bot is matchmaking-eligible exactly when its recorded (that
    /// is, most recent) build succeeded.
    pub fn is_eligible(&self, bot_id: BotId) -> (r: bool)
        requires
            store_wf(*self),
        ensures
            r == bot_eligible(*self, bot_id),
    {
        match self.find_build(bot_id) {
            Some(p) => {
                let success = matches!(&self.builds[p].status, crate::domain::BuildStatus::Success);
                proof {
                    if !success {
                        assert forall|i: int|
                            0 <= i < self.builds@.len() && #[trigger] self.builds@[i].bot_id
                            == bot_id implies !(self.builds@[i].status
                            matches crate::domain::BuildStatus::Success) by {
                            if i != p as int {
                                assert(self.builds@[i].bot_id != self.builds@[p as int].bot_id);
                            }
                        }
                    }
                }
                success
            },
            None => false,
        }
    }

    /// Records a match under a fresh id, with its participations, as
    /// one unit.
    pub fn create_match(&mut self, m: Match) -> (id: i64)
        requires
            store_wf(*old(self)),
            match_wf(m),
            old(self).next_match_id < i64::MAX,
        ensures
            store_wf(*final(self)),
            id == old(self).next_match_id,
            final(self).matches@.len() == old(self).matches@.len() + 1,
            final(self).matches@[old(self).matches@.len() as int] == (Match { id, ..m }),
            (forall|i: int|
                0 <= i < old(self).matches@.len() ==> #[trigger] final(self).matches@[i] == old(
                    self,
                ).matches@[i]),
            final(self).bots@ == old(self).bots@,
            final(self).builds@ == old(self).builds@,
            final(self).next_match_id == old(self).next_match_id + 1,
    {
        let id = self.next_match_id;
        self.next_match_id = self.next_match_id + 1;
        let stored = Match { id, ..m };
        self.matches.push(stored);
        id
    }
}

/// The bot's recorded build, which supersedes all earlier ones, is a
/// success.
pub open spec fn bot_eligible(s: BotStore, bot_id: BotId) -> bool {
    exists|i: int|
        #![trigger s.builds@[i]]
        0 <= i < s.builds@.len() && s.builds@[i].bot_id == bot_id && s.builds@[i].status
            matches crate::domain::BuildStatus::Success
}

/// Removing one element of a sequence of pairwise-distinct bots keeps
/// the rest pairwise distinct.
proof fn lemma_remove_keeps_distinct(bots: Seq<Bot>, at: int)
    requires
        bots_unique(bots),
        0 <= at < bots.len(),
    ensures
        bots_unique(bots.remove(at)),
{
    let rest = bots.remove(at);
    assert forall|i: int, j: int|
        #![trigger rest[i], rest[j]]
        0 <= i < j < rest.len() implies rest[i].id != rest[j].id && rest[i].name@
        != rest[j].name@ by {
        let oi = if i < at { i } else { i + 1 };
        let oj = if j < at { j } else { j + 1 };
        assert(rest[i] == bots[oi]);
        assert(rest[j] == bots[oj]);
        assert(bots[oi].id != bots[oj].id && bots[oi].name@ != bots[oj].name@);
    }
}

/// Removing the bot at one position neither adds nor removes any
/// other bot id.
proof fn lemma_remove_bot_membership(bots: Seq<Bot>, at: int, bid: BotId)
    requires
        0 <= at < bots.len(),
        bid != bots[at].id,
    ensures
        has_bot(bots.remove(at), bid) <==> has_bot(bots, bid),
{
    let rest = bots.remove(at);
    if has_bot(bots, bid) {
        let i = choose|i: int| 0 <= i < bots.len() && bots[i].id == bid;
        let r = if i < at { i } else { i - 1 };
        assert(rest[r] == bots[i]);
    }
    if has_bot(rest, bid) {
        let i = choose|i: int| 0 <= i < rest.len() && rest[i].id == bid;
        let o = if i < at { i } else { i + 1 };
        assert(rest[i] == bots[o]);
    }
}

/// After removing the only bot with an id, that id is gone.
proof fn lemma_remove_bot_membership_gone(bots: Seq<Bot>, at: int, bid: BotId)
    requires
        bots_unique(bots),
        0 <= at < bots.len(),
        bots[at].id == bid,
    ensures
        !has_bot(bots.remove(at), bid),
{
    let rest = bots.remove(at);
    assert forall|i: int| 0 <= i < rest.len() implies #[trigger] rest[i].id != bid by {
        let o = if i < at { i } else { i + 1 };
        assert(rest[i] == bots[o]);
        if o < at {
            assert(bots[o].id != bots[at].id);
        } else {
            assert(bots[at].id != bots[o].id);
        }
    }
}

} // verus!
