//! The match executor's half of the driver protocol: the outcome
//! line the driver emits, rendered and read back. One entry per
//! participant, in seat order, separated by single spaces: the rank
//! in decimal, with a trailing `!` on a participant that faulted.

use vstd::prelude::*;

use crate::domain::{MatchResult, MatchStatus};
use crate::worker::{ExecOutcome, digits_of, truncate_output, truncated, u64_digits};

verus! {

use vstd::string::StrSliceExecFns;
use vstd::string::StringExecFns;
use vstd::string::StringSliceAdditionalSpecFns;

/// One entry of the outcome line: the rank in decimal, then `!` if
/// the participant faulted.
pub open spec fn entry_bytes(rank: u8, fault: bool) -> Seq<u8> {
    digits_of(rank as int) + (if fault {
        seq![33u8]
    } else {
        Seq::<u8>::empty()
    })
}

/// The whole outcome line: the entries in seat order, separated by
/// single spaces.
pub open spec fn outcome_line(ranks: Seq<u8>, errors: Seq<bool>) -> Seq<u8>
    decreases ranks.len(),
{
    if ranks.len() == 0 {
        Seq::<u8>::empty()
    } else if ranks.len() == 1 {
        entry_bytes(ranks[0], errors[0])
    } else {
        outcome_line(ranks.drop_last(), errors.drop_last()) + seq![32u8] + entry_bytes(
            ranks.last(),
            errors.last(),
        )
    }
}

/// Renders a result as the canonical outcome line.
#[verifier::loop_isolation(false)]
pub fn render_outcome_line(result: &MatchResult) -> (r: Vec<u8>)
    requires
        result.ranks@.len() == result.errors@.len(),
    ensures
        r@ == outcome_line(result.ranks@, result.errors@),
{
    let n = result.ranks.len();
    let mut out: Vec<u8> = Vec::new();
    let mut i: usize = 0;
    proof {
        assert(result.ranks@.take(0) =~= Seq::<u8>::empty());
        assert(outcome_line(result.ranks@.take(0), result.errors@.take(0)) =~= Seq::<u8>::empty());
    }
    while i < n
        invariant
            n == result.ranks@.len(),
            n == result.errors@.len(),
            i <= n,
            out@ == outcome_line(result.ranks@.take(i as int), result.errors@.take(i as int)),
        decreases n - i,
    {
        if i > 0 {
            out.push(32);
        }
        let mut digits = u64_digits(result.ranks[i] as u64);
        out.append(&mut digits);
        if result.errors[i] {
            out.push(33);
        }
        proof {
            let rs = result.ranks@.take(i + 1);
            let es = result.errors@.take(i + 1);
            assert(rs.drop_last() =~= result.ranks@.take(i as int));
            assert(es.drop_last() =~= result.errors@.take(i as int));
            assert(rs.last() == result.ranks@[i as int]);
            assert(es.last() == result.errors@[i as int]);
            assert(out@ =~= outcome_line(rs, es));
        }
        i += 1;
    }
    proof {
        assert(result.ranks@.take(n as int) =~= result.ranks@);
        assert(result.errors@.take(n as int) =~= result.errors@);
    }
    out
}

/// The byte is a decimal digit.
pub open spec fn is_digit(b: u8) -> bool {
    48 <= b <= 57
}

/// Where the run of digits that ends the byte string begins: the
/// least index from which every byte is a digit.
pub open spec fn digit_run_start(s: Seq<u8>) -> int
    decreases s.len(),
{
    if s.len() == 0 {
        0
    } else if is_digit(s.last()) {
        digit_run_start(s.drop_last())
    } else {
        s.len() as int
    }
}

/// The number a string of digits spells.
pub open spec fn digits_value(ds: Seq<u8>) -> int
    decreases ds.len(),
{
    if ds.len() == 0 {
        0
    } else {
        digits_value(ds.drop_last()) * 10 + (ds.last() - 48)
    }
}

proof fn lemma_digit_run_start_bounds(s: Seq<u8>)
    ensures
        0 <= digit_run_start(s) <= s.len(),
    decreases s.len(),
{
    if s.len() > 0 && is_digit(s.last()) {
        lemma_digit_run_start_bounds(s.drop_last());
    }
}

/// A total reading of a byte string as entries, from the back: the
/// optional fault mark, then the digit run, then a separator and the
/// rest. The executable parser mirrors it step for step; canonicity
/// is enforced separately, by re-rendering.
pub open spec fn spec_parse(s: Seq<u8>) -> Option<(Seq<u8>, Seq<bool>)>
    decreases s.len(),
    via spec_parse_decreases
{
    if s.len() == 0 {
        Some((Seq::<u8>::empty(), Seq::<bool>::empty()))
    } else {
        let fault = s.last() == 33;
        let body = if fault {
            s.drop_last()
        } else {
            s
        };
        let start = digit_run_start(body);
        if body.len() - start < 1 || body.len() - start > 3 {
            None
        } else {
            let v = digits_value(body.subrange(start, body.len() as int));
            if v > 255 || v < 0 {
                None
            } else if start == 0 {
                Some((seq![v as u8], seq![fault]))
            } else if body[start - 1] == 32 {
                match spec_parse(body.subrange(0, start - 1)) {
                    Option::None => None,
                    Option::Some(pair) => Some((pair.0.push(v as u8), pair.1.push(fault))),
                }
            } else {
                None
            }
        }
    }
}

#[via_fn]
proof fn spec_parse_decreases(s: Seq<u8>) {
    if s.len() > 0 {
        let fault = s.last() == 33;
        let body = if fault {
            s.drop_last()
        } else {
            s
        };
        lemma_digit_run_start_bounds(body);
    }
}

/// Every byte of a number's decimal rendering is a digit, there are
/// one to three of them for a byte-sized value, and they spell the
/// value back.
proof fn lemma_digits_of_shape(n: int)
    requires
        0 <= n <= 255,
    ensures
        1 <= digits_of(n).len() <= 3,
        forall|k: int| 0 <= k < digits_of(n).len() ==> is_digit(#[trigger] digits_of(n)[k]),
        digits_value(digits_of(n)) == n,
    decreases n,
{
    if n < 10 {
        assert(digits_of(n) == seq![(48 + n) as u8]);
        assert(digits_of(n).drop_last() =~= Seq::<u8>::empty());
        assert(digits_of(n).last() == (48 + n) as u8);
        assert(digits_value(Seq::<u8>::empty()) == 0);
        assert(digits_value(digits_of(n)) == 0 * 10 + ((48 + n) as u8 - 48));
    } else {
        lemma_digits_of_shape(n / 10);
        assert(digits_of(n) == digits_of(n / 10).push((48 + n % 10) as u8));
        assert(digits_of(n).drop_last() =~= digits_of(n / 10));
        assert(digits_of(n).last() == (48 + n % 10) as u8);
        if n < 100 {
            assert(1 <= n / 10 < 10);
            assert(digits_of(n / 10).len() == 1);
        } else {
            assert(10 <= n / 10 <= 25);
            assert(digits_of(n / 10).len() == 2) by {
                assert(digits_of(n / 10) == digits_of(n / 10 / 10).push((48 + (n / 10) % 10) as u8));
                assert(1 <= n / 10 / 10 < 10);
            }
        }
        assert(digits_value(digits_of(n)) == digits_value(digits_of(n / 10)) * 10 + ((48 + n % 10)
            as u8 - 48));
        assert((48 + n % 10) as u8 - 48 == n % 10);
        assert((n / 10) * 10 + n % 10 == n);
    }
}

/// Every byte from the digit-run start to the end is a digit.
proof fn lemma_run_digits(s: Seq<u8>)
    ensures
        forall|k: int| digit_run_start(s) <= k < s.len() ==> is_digit(#[trigger] s[k]),
    decreases s.len(),
{
    if s.len() > 0 && is_digit(s.last()) {
        lemma_run_digits(s.drop_last());
        lemma_digit_run_start_bounds(s.drop_last());
        assert forall|k: int| digit_run_start(s) <= k < s.len() implies is_digit(
            #[trigger] s[k],
        ) by {
            if k < s.len() - 1 {
                assert(s.drop_last()[k] == s[k]);
            }
        }
    }
}

/// A string of digits has its run start at the very beginning.
proof fn lemma_run_start_all_digits(s: Seq<u8>)
    requires
        forall|k: int| 0 <= k < s.len() ==> is_digit(#[trigger] s[k]),
    ensures
        digit_run_start(s) == 0,
    decreases s.len(),
{
    if s.len() > 0 {
        lemma_run_start_all_digits(s.drop_last());
    }
}

/// After a separator, the digit run is exactly the digits that
/// follow it.
proof fn lemma_run_start_after_sep(a: Seq<u8>, d: Seq<u8>)
    requires
        forall|k: int| 0 <= k < d.len() ==> is_digit(#[trigger] d[k]),
    ensures
        digit_run_start(a + seq![32u8] + d) == a.len() + 1,
    decreases d.len(),
{
    let s = a + seq![32u8] + d;
    if d.len() == 0 {
        assert(s =~= a + seq![32u8]);
        assert(!is_digit(s.last()));
    } else {
        assert(s.last() == d.last());
        assert(s.drop_last() =~= a + seq![32u8] + d.drop_last());
        lemma_run_start_after_sep(a, d.drop_last());
    }
}

/// The rendering of any result reads back as itself: the reading of
/// `outcome_line(rs, es)` is exactly `(rs, es)`.
pub proof fn lemma_line_reads_back(rs: Seq<u8>, es: Seq<bool>)
    requires
        rs.len() == es.len(),
    ensures
        spec_parse(outcome_line(rs, es)) == Some((rs, es)),
    decreases rs.len(),
{
    if rs.len() == 0 {
        assert(outcome_line(rs, es).len() == 0);
        assert(rs =~= Seq::<u8>::empty());
        assert(es =~= Seq::<bool>::empty());
    } else {
        let r0 = rs.last();
        let e0 = es.last();
        let entry = entry_bytes(r0, e0);
        lemma_digits_of_shape(r0 as int);
        let line = outcome_line(rs, es);
        if rs.len() == 1 {
            assert(line == entry);
            let body = if e0 {
                line.drop_last()
            } else {
                line
            };
            if e0 {
                assert(line =~= digits_of(r0 as int) + seq![33u8]);
                assert(line.last() == 33);
                assert(body =~= digits_of(r0 as int));
            } else {
                assert(line =~= digits_of(r0 as int));
                assert(is_digit(line.last()));
                assert(line.last() != 33);
            }
            lemma_run_start_all_digits(body);
            assert(body.subrange(0, body.len() as int) =~= body);
            assert(digits_value(body) == r0 as int);
            assert(rs =~= seq![r0]);
            assert(es =~= seq![e0]);
        } else {
            let prefix = outcome_line(rs.drop_last(), es.drop_last());
            assert(line == prefix + seq![32u8] + entry);
            let body = if e0 {
                line.drop_last()
            } else {
                line
            };
            if e0 {
                assert(entry =~= digits_of(r0 as int) + seq![33u8]);
                assert(line =~= (prefix + seq![32u8] + digits_of(r0 as int)) + seq![33u8]);
                assert(line.last() == 33);
                assert(body =~= prefix + seq![32u8] + digits_of(r0 as int));
            } else {
                assert(entry =~= digits_of(r0 as int));
                assert(body =~= prefix + seq![32u8] + digits_of(r0 as int));
                assert(body.last() == digits_of(r0 as int).last());
                assert(is_digit(body.last()));
                assert(body.last() != 33);
            }
            lemma_run_start_after_sep(prefix, digits_of(r0 as int));
            let start = digit_run_start(body);
            assert(start == prefix.len() + 1);
            assert(body.subrange(start, body.len() as int) =~= digits_of(r0 as int));
            assert(digits_value(body.subrange(start, body.len() as int)) == r0 as int);
            assert(body[start - 1] == 32);
            assert(body.subrange(0, start - 1) =~= prefix);
            lemma_line_reads_back(rs.drop_last(), es.drop_last());
            assert(rs.drop_last().push(r0) =~= rs);
            assert(es.drop_last().push(e0) =~= es);
        }
    }
}

/// Where the digit run of the first `end` bytes begins; mirrors
/// `digit_run_start` exactly.
fn run_start(line: &Vec<u8>, end: usize) -> (r: usize)
    requires
        end <= line@.len(),
    ensures
        r as int == digit_run_start(line@.subrange(0, end as int)),
        r <= end,
    decreases end,
{
    proof {
        if end > 0 {
            assert(line@.subrange(0, end as int).drop_last() =~= line@.subrange(0, end - 1));
            assert(line@.subrange(0, end as int).last() == line@[end - 1]);
        }
    }
    if end == 0 {
        0
    } else if 48 <= line[end - 1] && line[end - 1] <= 57 {
        run_start(line, end - 1)
    } else {
        end
    }
}

/// Reads the first `end` bytes as `spec_parse` does, entry by entry
/// from the back.
fn parse_prefix(line: &Vec<u8>, end: usize) -> (r: Option<(Vec<u8>, Vec<bool>)>)
    requires
        end <= line@.len(),
    ensures
        (r matches Some(p) ==> spec_parse(line@.subrange(0, end as int)) == Some((p.0@, p.1@))),
        (r is None ==> spec_parse(line@.subrange(0, end as int)) is None),
    decreases end,
{
    let ghost s = line@.subrange(0, end as int);
    if end == 0 {
        proof {
            assert(Seq::<u8>::empty() =~= s);
        }
        return Some((Vec::new(), Vec::new()));
    }
    let fault = line[end - 1] == 33;
    let body_end = if fault {
        end - 1
    } else {
        end
    };
    let ghost body = line@.subrange(0, body_end as int);
    proof {
        assert(s.last() == line@[end - 1]);
        if fault {
            assert(s.drop_last() =~= body);
        } else {
            assert(s =~= body);
        }
    }
    let start = run_start(line, body_end);
    let run = body_end - start;
    if run < 1 || run > 3 {
        return None;
    }
    proof {
        lemma_run_digits(body);
        assert forall|k: int| start <= k < body_end implies is_digit(#[trigger] line@[k]) by {
            assert(body[k] == line@[k]);
        }
    }
    let mut v: u32 = 0;
    let mut k: usize = start;
    while k < body_end
        invariant
            start <= k <= body_end,
            body_end <= line@.len(),
            body_end - start <= 3,
            forall|q: int| start <= q < body_end ==> is_digit(#[trigger] line@[q]),
            v as int == digits_value(line@.subrange(start as int, k as int)),
            (k - start == 0 ==> v == 0),
            (k - start == 1 ==> v <= 9),
            (k - start == 2 ==> v <= 99),
            v <= 999,
        decreases body_end - k,
    {
        proof {
            assert(line@.subrange(start as int, k + 1).drop_last() =~= line@.subrange(
                start as int,
                k as int,
            ));
            assert(line@.subrange(start as int, k + 1).last() == line@[k as int]);
            assert(is_digit(line@[k as int]));
        }
        v = v * 10 + (line[k] as u32) - 48;
        k += 1;
    }
    proof {
        assert(body.subrange(start as int, body.len() as int) =~= line@.subrange(
            start as int,
            body_end as int,
        ));
    }
    if v > 255 {
        return None;
    }
    if start == 0 {
        let mut rs: Vec<u8> = Vec::new();
        let mut es: Vec<bool> = Vec::new();
        rs.push(v as u8);
        es.push(fault);
        proof {
            assert(rs@ =~= seq![v as u8]);
            assert(es@ =~= seq![fault]);
        }
        return Some((rs, es));
    }
    proof {
        assert(body[start - 1] == line@[start - 1]);
        assert(body.subrange(0, start - 1) =~= line@.subrange(0, start - 1));
    }
    if line[start - 1] != 32 {
        return None;
    }
    match parse_prefix(line, start - 1) {
        None => None,
        Some(p) => {
            let (mut rs, mut es) = p;
            rs.push(v as u8);
            es.push(fault);
            Some((rs, es))
        },
    }
}


/// The two byte strings are equal.
#[verifier::loop_isolation(false)]
fn bytes_eq(a: &Vec<u8>, b: &Vec<u8>) -> (r: bool)
    ensures
        r <==> a@ == b@,
{
    if a.len() != b.len() {
        return false;
    }
    let n = a.len();
    let mut i: usize = 0;
    while i < n
        invariant
            n == a@.len(),
            n == b@.len(),
            i <= n,
            forall|k: int| 0 <= k < i ==> a@[k] == b@[k],
        decreases n - i,
    {
        if a[i] != b[i] {
            return false;
        }
        i += 1;
    }
    proof {
        assert(a@ =~= b@);
    }
    true
}

/// The line is the canonical rendering of some result with one
/// entry per participant.
pub open spec fn canonical_line(line: Seq<u8>, n: nat) -> bool {
    exists|rs: Seq<u8>, es: Seq<bool>|
        rs.len() == n && es.len() == n && line == outcome_line(rs, es)
}

/// Reads an outcome line back: a result comes back if and only if
/// the line is the canonical rendering of a result with exactly `n`
/// entries, and then it is that result — what is read re-renders to
/// the very input, so a finished result always aligns one rank and
/// one fault flag with each participant. Anything else — malformed
/// text, wrong entry count — is refused whole.
pub fn parse_outcome_line(line: &Vec<u8>, n: usize) -> (res: Option<MatchResult>)
    ensures
        (res matches Some(mr) ==> {
            &&& mr.ranks@.len() == n
            &&& mr.errors@.len() == n
            &&& line@ == outcome_line(mr.ranks@, mr.errors@)
        }),
        res is Some <==> canonical_line(line@, n as nat),
{
    proof {
        if canonical_line(line@, n as nat) {
            let (wrs, wes) = choose|wrs: Seq<u8>, wes: Seq<bool>|
                wrs.len() == n && wes.len() == n && line@ == outcome_line(wrs, wes);
            lemma_line_reads_back(wrs, wes);
        }
        assert(line@.subrange(0, line@.len() as int) =~= line@);
    }
    let end = line.len();
    let candidate = match parse_prefix(line, end) {
        Some(p) => MatchResult { ranks: p.0, errors: p.1 },
        None => {
            return None;
        },
    };
    if candidate.ranks.len() != n || candidate.errors.len() != n {
        return None;
    }
    let rendered = render_outcome_line(&candidate);
    if bytes_eq(&rendered, line) {
        Some(candidate)
    } else {
        None
    }
}

/// The match status a driver outcome settles to: a clean exit whose
/// output holds a canonical outcome line for every participant
/// finishes the match with that result; a timeout, a spawn failure, a
/// failing driver or unreadable output errors it with a diagnostic.
/// Both terminal states are final; an errored match is never retried.
pub fn match_status_of(outcome: &ExecOutcome, n_participants: usize) -> (r: MatchStatus)
    ensures
        (r matches MatchStatus::Finished(mr) ==> {
            &&& mr.ranks@.len() == n_participants
            &&& mr.errors@.len() == n_participants
            &&& outcome matches ExecOutcome::Completed { exit_code: 0, stdout, .. }
                && vstd::utf8::encode_utf8(stdout@) == outcome_line(mr.ranks@, mr.errors@)
        }),
        (outcome matches ExecOutcome::Completed { exit_code: 0, stdout, .. } ==> (canonical_line(
            vstd::utf8::encode_utf8(stdout@),
            n_participants as nat,
        ) ==> r is Finished)),
        (outcome matches ExecOutcome::TimedOut ==> r matches MatchStatus::Error(msg) && msg@
            == "match driver timed out"@),
        (outcome matches ExecOutcome::SpawnFailed(e) ==> r matches MatchStatus::Error(msg) && msg@
            == e@),
        (outcome matches ExecOutcome::Completed { exit_code, stderr, .. } ==> (exit_code != 0
            ==> (r matches MatchStatus::Error(msg) && msg@ == truncated(stderr@)))),
        !(r matches MatchStatus::Pending) && !(r matches MatchStatus::Running),
    {
    match outcome {
        ExecOutcome::TimedOut => MatchStatus::Error(String::from_str("match driver timed out")),
        ExecOutcome::SpawnFailed(e) => MatchStatus::Error(e.clone()),
        ExecOutcome::Completed { exit_code, stdout, stderr } => {
            if *exit_code != 0 {
                MatchStatus::Error(truncate_output(stderr.as_str()))
            } else {
                let bytes = stdout.as_str().as_bytes_vec();
                match parse_outcome_line(&bytes, n_participants) {
                    Some(mr) => MatchStatus::Finished(mr),
                    None => MatchStatus::Error(
                        String::from_str("malformed driver outcome line"),
                    ),
                }
            }
        },
    }
}

/// A match errored by a timeout carries the timeout diagnostic and
/// is terminal, and the slot that ran it is free to claim again once
/// the job completes in the queue.
pub proof fn lemma_timeout_is_terminal(s: MatchStatus, to: MatchStatus, n: nat)
    requires
        s matches MatchStatus::Error(_),
    ensures
        !crate::domain::match_transition_ok(s, to, n),
{
}

} // verus!
