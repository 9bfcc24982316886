//! Configuration consumed by the engine: game bounds, matchmaking
//! policy, ranking algorithm, server port, and the worker setup with
//! its per-language command templates.

use vstd::prelude::*;

verus! {

/// Participant bounds of the game, and whether seat order matters.
/// `symmetric` is informational: it does not influence matchmaking.
pub struct GameConfig {
    pub min_players: u32,
    pub max_players: u32,
    pub symmetric: bool,
}

/// Matchmaking policy. The preference probability is held in parts
/// per million, so the policy is exact integer arithmetic: a draw
/// below `min_matches_preference_ppm` out of one million restricts
/// the pool to bots with fewer than `min_matches` played.
pub struct MatchmakingConfig {
    pub allow_same_bots: bool,
    pub min_matches: u32,
    pub min_matches_preference_ppm: u32,
}

/// The rating algorithm: a closed choice with a single variant today,
/// so adding an algorithm later is a variant addition.
#[derive(Clone, Copy, PartialEq, Eq, Structural, Debug)]
pub enum RankingConfig {
    WengLin,
}

/// One supported language: its name and its build and run command
/// templates.
pub struct LanguageConfig {
    pub name: String,
    pub cmd_build: String,
    pub cmd_run: String,
}

/// The worker pool setup: slot count, the root of the bot working
/// directories, the match driver command, and the languages.
pub struct WorkerConfig {
    pub threads: u8,
    pub dir_bots: String,
    pub cmd_play_match: String,
    pub languages: Vec<LanguageConfig>,
}

/// Where the read API listens.
pub struct ServerConfig {
    pub port: u16,
}

/// The whole configuration surface the core consumes.
pub struct Config {
    pub game: GameConfig,
    pub matchmaking: MatchmakingConfig,
    pub ranking: RankingConfig,
    pub server: ServerConfig,
    pub embedded_worker: Option<WorkerConfig>,
}

pub open spec fn game_config_wf(g: GameConfig) -> bool {
    1 <= g.min_players <= g.max_players
}

pub open spec fn matchmaking_config_wf(m: MatchmakingConfig) -> bool {
    m.min_matches_preference_ppm <= 1_000_000
}

/// Language names are pairwise distinct, so a bot's language resolves
/// to one template set.
pub open spec fn languages_unique(langs: Seq<LanguageConfig>) -> bool {
    forall|i: int, j: int|
        #![trigger langs[i], langs[j]]
        0 <= i < j < langs.len() ==> langs[i].name@ != langs[j].name@
}

pub open spec fn worker_config_wf(w: WorkerConfig) -> bool {
    &&& w.threads >= 1
    &&& languages_unique(w.languages@)
}

pub open spec fn config_wf(c: Config) -> bool {
    &&& game_config_wf(c.game)
    &&& matchmaking_config_wf(c.matchmaking)
    &&& (c.embedded_worker matches Some(w) ==> worker_config_wf(w))
}

/// Checks a configuration against the bounds the engine relies on.
#[verifier::loop_isolation(false)]
pub fn validate_config(c: &Config) -> (r: bool)
    ensures
        r == config_wf(*c),
{
    let game_ok = 1 <= c.game.min_players && c.game.min_players <= c.game.max_players;
    let mm_ok = c.matchmaking.min_matches_preference_ppm <= 1_000_000;
    let worker_ok = match &c.embedded_worker {
        None => true,
        Some(w) => {
            let mut distinct = true;
            let n = w.languages.len();
            let mut i: usize = 0;
            while i < n && distinct
                invariant
                    n == w.languages@.len(),
                    i <= n,
                    distinct <==> (forall|a: int, b: int|
                        #![trigger w.languages@[a], w.languages@[b]]
                        0 <= a < b < i ==> w.languages@[a].name@ != w.languages@[b].name@),
                decreases n - i,
        {
                let mut j: usize = 0;
                while j < i
                    invariant
                        i < n,
                        n == w.languages@.len(),
                        j <= i,
                        forall|b: int|
                            #![trigger w.languages@[b]]
                            0 <= b < j ==> w.languages@[b].name@ != w.languages@[i as int].name@,
                    decreases i - j,
                {
                    if w.languages[j].name == w.languages[i].name {
                        return false;
                    }
                    j += 1;
                }
                i += 1;
            }
            w.threads >= 1 && distinct
        },
    };
    game_ok && mm_ok && worker_ok
}

/// The position of the language with this name, if it is configured.
#[verifier::loop_isolation(false)]
pub fn resolve_language(langs: &Vec<LanguageConfig>, name: &String) -> (r: Option<usize>)
    ensures
        r is Some <==> (exists|i: int|
            #![trigger langs@[i]]
            0 <= i < langs@.len() && langs@[i].name@ == name@),
        (r matches Some(p) ==> p < langs@.len() && langs@[p as int].name@ == name@),
{
    let n = langs.len();
    let mut i: usize = 0;
    while i < n
        invariant
            n == langs@.len(),
            i <= n,
            forall|k: int| #![trigger langs@[k]] 0 <= k < i ==> langs@[k].name@ != name@,
        decreases n - i,
    {
        if langs[i].name == *name {
            return Some(i);
        }
        i += 1;
    }
    None
}

/// The configuration a fresh arena starts from: two-to-four-player
/// symmetric games, repeats disallowed, a strong preference for bots
/// under five matches, the only rating algorithm, one worker thread,
/// and a python toolchain entry.
pub fn default_config() -> (c: Config)
    ensures
        config_wf(c),
        c.game.min_players == 2,
        c.game.max_players == 4,
        c.matchmaking.allow_same_bots == false,
        c.matchmaking.min_matches == 5,
        c.matchmaking.min_matches_preference_ppm == 900_000,
        c.ranking == RankingConfig::WengLin,
        c.server.port == 8080,
        c.embedded_worker is Some,
{
    let languages = vec![
        LanguageConfig {
            name: String::from_str("python"),
            cmd_build: String::from_str("cp {dir}/source {dir}/main.py"),
            cmd_run: String::from_str("python3 {dir}/main.py"),
        },
    ];
    let worker = WorkerConfig {
        threads: 1,
        dir_bots: String::from_str("bots"),
        cmd_play_match: String::from_str("play_match"),
        languages,
    };
    let c = Config {
        game: GameConfig { min_players: 2, max_players: 4, symmetric: true },
        matchmaking: MatchmakingConfig {
            allow_same_bots: false,
            min_matches: 5,
            min_matches_preference_ppm: 900_000,
        },
        ranking: RankingConfig::WengLin,
        server: ServerConfig { port: 8080 },
        embedded_worker: Some(worker),
    };
    c
}

} // verus!
