//! Decisions of the polite HTTP client: user-agent rotation, throttling and
//! bounded retries with Discord `429`/`Retry-After` handling.
//!
//! The caller performs the requests and the sleeps; these functions decide
//! what comes next.
use vstd::prelude::*;

verus! {

broadcast use vstd::string::group_string_axioms;

/// The rotating pool of common, unremarkable user-agents.
pub open spec fn user_agents() -> Seq<Seq<char>> {
    seq![
        "Mozilla/5.0 (Windows NT 10.0; Win64; x64) AppleWebKit/537.36 (KHTML, like Gecko) Chrome/126.0.0.0 Safari/537.36"@,
        "Mozilla/5.0 (Macintosh; Intel Mac OS X 14_5) AppleWebKit/605.1.15 (KHTML, like Gecko) Version/17.5 Safari/605.1.15"@,
        "Mozilla/5.0 (X11; Linux x86_64; rv:127.0) Gecko/20100101 Firefox/127.0"@,
    ]
}

/// Pick the next user-agent in rotation and advance the rotation counter.
pub fn next_user_agent(counter: &mut usize) -> (ua: &'static str)
    requires
        *old(counter) < usize::MAX,
    ensures
        ua@ == user_agents()[*old(counter) as int % 3],
        *final(counter) == *old(counter) + 1,
{
    let pool: [&'static str; 3] = [
        "Mozilla/5.0 (Windows NT 10.0; Win64; x64) AppleWebKit/537.36 (KHTML, like Gecko) Chrome/126.0.0.0 Safari/537.36",
        "Mozilla/5.0 (Macintosh; Intel Mac OS X 14_5) AppleWebKit/605.1.15 (KHTML, like Gecko) Version/17.5 Safari/605.1.15",
        "Mozilla/5.0 (X11; Linux x86_64; rv:127.0) Gecko/20100101 Firefox/127.0",
    ];
    let ua = pool[*counter % 3];
    *counter = *counter + 1;
    ua
}

pub open spec fn throttle_wait_of(elapsed: Option<u128>, min_interval: u128) -> u128 {
    match elapsed {
        Some(e) => if e < min_interval {
            (min_interval - e) as u128
        } else {
            0
        },
        None => 0,
    }
}

/// Requests stay at least `min_interval` apart: the time since the last
/// request plus the wait reaches the interval, and no wait is longer than
/// needed.
pub proof fn lemma_throttle_spacing(elapsed: u128, min_interval: u128)
    ensures
        elapsed + throttle_wait_of(Some(elapsed), min_interval) >= min_interval,
        throttle_wait_of(Some(elapsed), min_interval) <= min_interval,
        elapsed >= min_interval ==> throttle_wait_of(Some(elapsed), min_interval) == 0,
{
}

/// The rotation goes through the whole pool and starts over: every third
/// request uses the same user-agent, and two requests in a row never do.
pub proof fn lemma_user_agent_cycle(counter: nat)
    ensures
        user_agents()[(counter + 3) as int % 3] == user_agents()[counter as int % 3],
        user_agents()[counter as int % 3] != user_agents()[(counter + 1) as int % 3],
{
    reveal_strlit("Mozilla/5.0 (Windows NT 10.0; Win64; x64) AppleWebKit/537.36 (KHTML, like Gecko) Chrome/126.0.0.0 Safari/537.36");
    reveal_strlit("Mozilla/5.0 (Macintosh; Intel Mac OS X 14_5) AppleWebKit/605.1.15 (KHTML, like Gecko) Version/17.5 Safari/605.1.15");
    reveal_strlit("Mozilla/5.0 (X11; Linux x86_64; rv:127.0) Gecko/20100101 Firefox/127.0");
    let ua = user_agents();
    assert(ua[0][13] == 'W' && ua[1][13] == 'M' && ua[2][13] == 'X');
    assert((counter + 3) as int % 3 == counter as int % 3);
    assert((counter + 1) as int % 3 == (counter as int % 3 + 1) % 3);
}

/// How long to sleep before the next request so that requests stay at
/// least `min_interval` apart; `elapsed` is the time since the previous
/// request, `None` before the first one. Both in nanoseconds.
pub fn throttle_wait(elapsed: Option<u128>, min_interval: u128) -> (wait: u128)
    ensures
        wait == throttle_wait_of(elapsed, min_interval),
{
    match elapsed {
        Some(e) => if e < min_interval {
            min_interval - e
        } else {
            0
        },
        None => 0,
    }
}

/// How one request attempt went.
#[derive(Debug, Clone, Copy, PartialEq, Eq, Structural)]
pub enum AttemptOutcome {
    /// A response arrived, with its status and its `Retry-After` in whole
    /// seconds when it had a readable one.
    Response { status: u16, retry_after: Option<u64> },
    /// The request failed before a response arrived.
    TransportError,
}

/// What the client does after an attempt.
#[derive(Debug, Clone, Copy, PartialEq, Eq, Structural)]
pub enum RetryAction {
    /// Hand the response to the caller.
    Deliver,
    /// Rate limited: sleep this many seconds, then try again.
    RateLimitWait { secs: u64 },
    /// Transport failure: sleep this many seconds, then try again.
    Backoff { secs: u64 },
    /// No attempts left: report the last failure.
    GiveUp,
}

/// HTTP 429 Too Many Requests.
pub const TOO_MANY_REQUESTS: u16 = 429;

/// Seconds to wait on a 429 without a readable `Retry-After`.
pub const DEFAULT_RETRY_AFTER: u64 = 5;

/// The longest wait on a 429, whatever `Retry-After` says.
pub const MAX_RETRY_AFTER: u64 = 30;

pub open spec fn pow2(n: nat) -> nat
    decreases n,
{
    if n == 0 {
        1
    } else {
        2 * pow2((n - 1) as nat)
    }
}

/// The action after attempt `attempt` (counted from 0) of `retries + 1`.
pub open spec fn retry_action_of(attempt: nat, retries: nat, outcome: AttemptOutcome) -> RetryAction {
    match outcome {
        AttemptOutcome::Response { status, retry_after } => if status == TOO_MANY_REQUESTS
            && attempt < retries {
            RetryAction::RateLimitWait {
                secs: match retry_after {
                    Some(s) => if s < MAX_RETRY_AFTER {
                        s
                    } else {
                        MAX_RETRY_AFTER
                    },
                    None => DEFAULT_RETRY_AFTER,
                },
            }
        } else {
            RetryAction::Deliver
        },
        AttemptOutcome::TransportError => if attempt < retries {
            RetryAction::Backoff { secs: pow2(attempt) as u64 }
        } else {
            RetryAction::GiveUp
        },
    }
}

/// The retry loop of one GET: `retries` retries after the first attempt.
pub struct RetryLoop {
    pub attempt: usize,
    pub retries: usize,
}

impl RetryLoop {
    pub fn new(retries: usize) -> (r: RetryLoop)
        ensures
            r.attempt == 0,
            r.retries == retries,
    {
        RetryLoop { attempt: 0, retries }
    }

    /// Decide what follows the current attempt; a retry moves on to the
    /// next attempt.
    pub fn on_outcome(&mut self, outcome: AttemptOutcome) -> (action: RetryAction)
        requires
            old(self).attempt <= old(self).retries,
            outcome is TransportError && old(self).attempt < old(self).retries ==> old(
                self,
            ).attempt < 64,
        ensures
            action == retry_action_of(
                old(self).attempt as nat,
                old(self).retries as nat,
                outcome,
            ),
            final(self).retries == old(self).retries,
            final(self).attempt <= final(self).retries,
            (action is RateLimitWait || action is Backoff) ==> final(self).attempt == old(
                self,
            ).attempt + 1,
            (action is Deliver || action is GiveUp) ==> final(self).attempt == old(self).attempt,
    {
        let action = match outcome {
            AttemptOutcome::Response { status, retry_after } => {
                if status == TOO_MANY_REQUESTS && self.attempt < self.retries {
                    let wanted = match retry_after {
                        Some(s) => s,
                        None => DEFAULT_RETRY_AFTER,
                    };
                    let secs = if wanted < MAX_RETRY_AFTER {
                        wanted
                    } else {
                        MAX_RETRY_AFTER
                    };
                    RetryAction::RateLimitWait { secs }
                } else {
                    RetryAction::Deliver
                }
            },
            AttemptOutcome::TransportError => {
                if self.attempt < self.retries {
                    RetryAction::Backoff { secs: pow2_exec(self.attempt as u32) }
                } else {
                    RetryAction::GiveUp
                }
            },
        };
        match action {
            RetryAction::RateLimitWait { .. } | RetryAction::Backoff { .. } => {
                self.attempt = self.attempt + 1;
            },
            _ => {},
        }
        action
    }
}

/// `2_u64.pow(n)`.
fn pow2_exec(n: u32) -> (r: u64)
    requires
        n < 64,
    ensures
        r == pow2(n as nat),
{
    let mut r: u64 = 1;
    let mut i: u32 = 0;
    proof {
        lemma_pow2_monotone(0, 63);
    }
    while i < n
        invariant
            i <= n < 64,
            r == pow2(i as nat),
            pow2(i as nat) <= pow2(63),
        decreases n - i,
    {
        proof {
            lemma_pow2_monotone((i + 1) as nat, 63);
            lemma_pow2_63();
        }
        r = r * 2;
        i += 1;
    }
    r
}

proof fn lemma_pow2_monotone(a: nat, b: nat)
    requires
        a <= b,
    ensures
        pow2(a) <= pow2(b),
    decreases b,
{
    if a < b {
        lemma_pow2_monotone(a, (b - 1) as nat);
    }
}

proof fn lemma_pow2_63()
    ensures
        pow2(63) <= u64::MAX,
{
    reveal_with_fuel(pow2, 64);
}

/// A rate-limited attempt waits at most `MAX_RETRY_AFTER` seconds, and no
/// attempt is retried once the retries are used up.
pub proof fn lemma_retry_bounds(attempt: nat, retries: nat, outcome: AttemptOutcome)
    ensures
        retry_action_of(attempt, retries, outcome) matches RetryAction::RateLimitWait { secs }
            ==> secs <= MAX_RETRY_AFTER,
        attempt >= retries ==> (retry_action_of(attempt, retries, outcome) is Deliver
            || retry_action_of(attempt, retries, outcome) is GiveUp),
{
}

/// The retry policy: a 429 with retries left waits for its `Retry-After`
/// (at most 30 seconds) or 5 seconds without one; any other response is
/// delivered; a transport failure with retries left backs off 1 second
/// after the first attempt, twice as long after each further one, and gives
/// up once the retries are used.
pub proof fn lemma_retry_policy(attempt: nat, retries: nat, status: u16, retry_after: Option<u64>)
    ensures
        status == 429 && attempt < retries && retry_after is None ==> retry_action_of(
            attempt,
            retries,
            AttemptOutcome::Response { status, retry_after },
        ) == (RetryAction::RateLimitWait { secs: 5 }),
        status == 429 && attempt < retries && retry_after is Some ==> retry_action_of(
            attempt,
            retries,
            AttemptOutcome::Response { status, retry_after },
        ) == (RetryAction::RateLimitWait {
            secs: if retry_after->0 <= 30 {
                retry_after->0
            } else {
                30
            },
        }),
        status != 429 || attempt >= retries ==> retry_action_of(
            attempt,
            retries,
            AttemptOutcome::Response { status, retry_after },
        ) == RetryAction::Deliver,
        attempt >= retries ==> retry_action_of(attempt, retries, AttemptOutcome::TransportError)
            == RetryAction::GiveUp,
        0 < retries ==> retry_action_of(0, retries, AttemptOutcome::TransportError)
            == (RetryAction::Backoff { secs: 1 }),
        attempt + 1 < retries && attempt < 63 ==> (retry_action_of(
            attempt + 1,
            retries,
            AttemptOutcome::TransportError,
        ) matches RetryAction::Backoff { secs: later } && retry_action_of(
            attempt,
            retries,
            AttemptOutcome::TransportError,
        ) matches RetryAction::Backoff { secs: earlier } && later == 2 * earlier),
{
    if attempt + 1 < retries && attempt < 63 {
        lemma_pow2_monotone(attempt + 1, 63);
        lemma_pow2_63();
        assert(pow2(attempt + 1) == 2 * pow2(attempt));
    }
}

} // verus!
