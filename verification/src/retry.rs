//! When an HTTP request is tried again.

use vstd::prelude::*;

verus! {

/// Server errors and rate limiting pass; everything else is an answer.
pub open spec fn retriable(status: u16) -> bool {
    500 <= status <= 599 || status == 429
}

/// Whether a request with this answer is worth trying again.
pub fn is_retriable_status(status: u16) -> (r: bool)
    ensures
        r == retriable(status),
{
    (500 <= status && status <= 599) || status == 429
}

/// How long to wait before the next attempt.
#[derive(Debug, Clone, Copy, PartialEq, Eq, Structural)]
pub enum Wait {
    /// As long as the server asked for.
    Asked(u64),
    /// The backoff after that many attempts.
    Backoff(u32),
}

/// What became of sending a request.
#[derive(Debug, Clone, Copy, PartialEq, Eq, Structural)]
pub enum Sent {
    /// The server answered, with the wait in milliseconds that it asked for, if any.
    Answered { status: u16, retry_after: Option<u64> },
    /// No answer came.
    Failed { timeout: bool },
}

/// What to do next with a request.
#[derive(Debug, Clone, Copy, PartialEq, Eq, Structural)]
pub enum SendStep {
    /// Hand the answer or the error to the caller.
    Finish,
    /// Wait and send the request again.
    Again(Wait),
}

/// How many times a request may be sent.
pub open spec fn attempts_allowed(retries: u32) -> int {
    if retries < u32::MAX {
        retries + 1
    } else {
        u32::MAX as int
    }
}

/// The wait that an answer asks for, or the backoff.
pub open spec fn wait_after(retry_after: Option<u64>, attempts: u32) -> Wait {
    match retry_after {
        Some(ms) => Wait::Asked(ms),
        None => Wait::Backoff(attempts),
    }
}

fn wait_for(retry_after: Option<u64>, attempts: u32) -> (r: Wait)
    ensures
        r == wait_after(retry_after, attempts),
{
    match retry_after {
        Some(ms) => Wait::Asked(ms),
        None => Wait::Backoff(attempts),
    }
}

/// A request that is sent until it is answered or its attempts are used up.
#[derive(Debug)]
pub struct SendRetry {
    /// The attempt under way, from 0.
    pub attempt: u32,
    pub max_attempts: u32,
}

impl SendRetry {
    /// An attempt is under way.
    pub open spec fn wf(self) -> bool {
        self.attempt < self.max_attempts
    }

    /// Whether the attempt under way is the last one.
    pub open spec fn is_last(self) -> bool {
        self.attempt + 1 >= self.max_attempts
    }

    /// What to do after an attempt.
    pub open spec fn step_after(self, sent: Sent) -> SendStep {
        match sent {
            Sent::Answered { status, retry_after } => if !retriable(status) || self.is_last() {
                SendStep::Finish
            } else {
                SendStep::Again(wait_after(retry_after, (self.attempt + 1) as u32))
            },
            Sent::Failed { .. } => if self.is_last() {
                SendStep::Finish
            } else {
                SendStep::Again(Wait::Backoff((self.attempt + 1) as u32))
            },
        }
    }

    /// A request with its first attempt under way.
    pub fn new(retries: u32) -> (r: SendRetry)
        ensures
            r.wf(),
            r.attempt == 0,
            r.max_attempts == attempts_allowed(retries),
    {
        SendRetry { attempt: 0, max_attempts: retries.saturating_add(1) }
    }

    /// Decides what to do after an attempt, and counts it.
    pub fn step(&mut self, sent: Sent) -> (r: SendStep)
        requires
            old(self).wf(),
        ensures
            r == old(self).step_after(sent),
            final(self).max_attempts == old(self).max_attempts,
            r is Again ==> final(self).wf() && final(self).attempt == old(self).attempt + 1,
            r is Finish ==> final(self).attempt == old(self).attempt,
    {
        let is_last = self.attempt + 1 >= self.max_attempts;
        match sent {
            Sent::Answered { status, retry_after } => {
                if !is_retriable_status(status) || is_last {
                    SendStep::Finish
                } else {
                    self.attempt = self.attempt + 1;
                    SendStep::Again(wait_for(retry_after, self.attempt))
                }
            },
            Sent::Failed { .. } => {
                if is_last {
                    SendStep::Finish
                } else {
                    self.attempt = self.attempt + 1;
                    SendStep::Again(Wait::Backoff(self.attempt))
                }
            },
        }
    }
}

/// How many attempts a request takes when the `i`-th one goes as `sent[i]` says, at most
/// `sent.len()`.
pub open spec fn sends(max_attempts: u32, attempt: u32, sent: Seq<Sent>) -> nat
    decreases sent.len(),
{
    if sent.len() == 0 {
        0
    } else {
        match (SendRetry { attempt, max_attempts }).step_after(sent[0]) {
            SendStep::Finish => 1,
            SendStep::Again(_) => 1 + sends(max_attempts, (attempt + 1) as u32, sent.skip(1)),
        }
    }
}

/// However the attempts go, no more of them are made than are allowed.
pub proof fn sends_are_bounded(max_attempts: u32, attempt: u32, sent: Seq<Sent>)
    requires
        attempt < max_attempts,
    ensures
        sends(max_attempts, attempt, sent) <= max_attempts - attempt,
    decreases sent.len(),
{
    if sent.len() > 0 && attempt + 1 < max_attempts {
        sends_are_bounded(max_attempts, (attempt + 1) as u32, sent.skip(1));
    }
}

/// An answer that is not worth a retry ends the request at once.
pub proof fn final_answers_are_delivered(r: SendRetry, status: u16, retry_after: Option<u64>)
    requires
        r.wf(),
        !retriable(status),
    ensures
        r.step_after(Sent::Answered { status, retry_after }) == SendStep::Finish,
{
}

/// What became of reading the body of an answer.
#[derive(Debug, Clone, Copy, PartialEq, Eq, Structural)]
pub enum BodyRead {
    /// It was read.
    Complete,
    /// It is too large to be read.
    Refused,
    /// Reading it failed.
    Failed { timeout: bool },
}

/// What to do next with a request whose body is wanted.
#[derive(Debug, Clone, Copy, PartialEq, Eq, Structural)]
pub enum BodyStep {
    /// Read the body of the answer.
    Read,
    /// Hand the body to the caller.
    Deliver,
    /// Hand the error to the caller.
    Fail,
    /// Wait and send the request again.
    Again(Wait),
}

/// Whether a status makes the answer an error.
pub open spec fn error_status(status: u16) -> bool {
    400 <= status <= 599
}

/// A request that is sent until its body has been read or its attempts are used up. Timeouts
/// have a smaller allowance of their own.
#[derive(Debug)]
pub struct BodyRetry {
    /// The attempt under way, from 0.
    pub attempt: u32,
    pub max_attempts: u32,
    /// How many timeouts have been retried.
    pub timeout_retries: u32,
    /// How many may be.
    pub timeout_cap: u32,
}

impl BodyRetry {
    /// An attempt is under way, and timeouts are within their allowance.
    pub open spec fn wf(self) -> bool {
        self.attempt < self.max_attempts && self.timeout_retries <= self.timeout_cap
            && self.timeout_retries <= self.attempt
    }

    /// Whether the attempt under way is the last one.
    pub open spec fn is_last(self) -> bool {
        self.attempt + 1 >= self.max_attempts
    }

    /// Whether a failure is one too many.
    pub open spec fn gives_up(self, timeout: bool) -> bool {
        self.is_last() || timeout && self.timeout_retries >= self.timeout_cap
    }

    /// What to do after a failure.
    pub open spec fn after_failure(self, timeout: bool) -> BodyStep {
        if self.gives_up(timeout) {
            BodyStep::Fail
        } else {
            BodyStep::Again(Wait::Backoff((self.attempt + 1) as u32))
        }
    }

    /// What to do after sending.
    pub open spec fn after_send(self, sent: Sent) -> BodyStep {
        match sent {
            Sent::Answered { status, retry_after } => if retriable(status) && !self.is_last() {
                BodyStep::Again(wait_after(retry_after, (self.attempt + 1) as u32))
            } else if error_status(status) {
                BodyStep::Fail
            } else {
                BodyStep::Read
            },
            Sent::Failed { timeout } => self.after_failure(timeout),
        }
    }

    /// What to do after reading the body.
    pub open spec fn after_read(self, read: BodyRead) -> BodyStep {
        match read {
            BodyRead::Complete => BodyStep::Deliver,
            BodyRead::Refused => BodyStep::Fail,
            BodyRead::Failed { timeout } => self.after_failure(timeout),
        }
    }

    /// The state once a further attempt is under way.
    pub open spec fn next(self, timeout: bool) -> BodyRetry {
        BodyRetry {
            attempt: (self.attempt + 1) as u32,
            timeout_retries: if timeout {
                (self.timeout_retries + 1) as u32
            } else {
                self.timeout_retries
            },
            ..self
        }
    }

    /// A request with its first attempt under way.
    pub fn new(retries: u32, timeout_cap: u32) -> (r: BodyRetry)
        ensures
            r.wf(),
            r.attempt == 0,
            r.max_attempts == attempts_allowed(retries),
            r.timeout_retries == 0,
            r.timeout_cap == timeout_cap,
    {
        BodyRetry {
            attempt: 0,
            max_attempts: retries.saturating_add(1),
            timeout_retries: 0,
            timeout_cap,
        }
    }

    fn fail_or_retry(&mut self, timeout: bool) -> (r: BodyStep)
        requires
            old(self).wf(),
        ensures
            r == old(self).after_failure(timeout),
            r is Again ==> *final(self) == old(self).next(timeout) && final(self).wf(),
            !(r is Again) ==> *final(self) == *old(self),
    {
        if self.attempt + 1 >= self.max_attempts {
            return BodyStep::Fail;
        }
        if timeout {
            if self.timeout_retries >= self.timeout_cap {
                return BodyStep::Fail;
            }
            self.timeout_retries = self.timeout_retries + 1;
        }
        self.attempt = self.attempt + 1;
        BodyStep::Again(Wait::Backoff(self.attempt))
    }

    /// Decides what to do after sending the request.
    pub fn on_send(&mut self, sent: Sent) -> (r: BodyStep)
        requires
            old(self).wf(),
        ensures
            r == old(self).after_send(sent),
            r is Again ==> final(self).wf() && *final(self) == old(self).next(
                sent matches Sent::Failed { timeout } && timeout,
            ),
            !(r is Again) ==> *final(self) == *old(self),
    {
        match sent {
            Sent::Answered { status, retry_after } => {
                if is_retriable_status(status) && self.attempt + 1 < self.max_attempts {
                    self.attempt = self.attempt + 1;
                    BodyStep::Again(wait_for(retry_after, self.attempt))
                } else if 400 <= status && status <= 599 {
                    BodyStep::Fail
                } else {
                    BodyStep::Read
                }
            },
            Sent::Failed { timeout } => self.fail_or_retry(timeout),
        }
    }

    /// Decides what to do after reading the body.
    pub fn on_body(&mut self, read: BodyRead) -> (r: BodyStep)
        requires
            old(self).wf(),
        ensures
            r == old(self).after_read(read),
            r is Again ==> final(self).wf() && *final(self) == old(self).next(
                read matches BodyRead::Failed { timeout } && timeout,
            ),
            !(r is Again) ==> *final(self) == *old(self),
    {
        match read {
            BodyRead::Complete => BodyStep::Deliver,
            BodyRead::Refused => BodyStep::Fail,
            BodyRead::Failed { timeout } => self.fail_or_retry(timeout),
        }
    }
}

/// One attempt at a request whose body is wanted: how sending it went and, if the body was
/// to be read, how that went.
pub struct Attempt {
    pub sent: Sent,
    pub read: BodyRead,
}

/// What an attempt leads to.
pub open spec fn attempt_step(r: BodyRetry, a: Attempt) -> BodyStep {
    match r.after_send(a.sent) {
        BodyStep::Read => r.after_read(a.read),
        other => other,
    }
}

/// Whether an attempt that is retried counts as a timeout.
pub open spec fn timed_out(r: BodyRetry, a: Attempt) -> bool {
    match r.after_send(a.sent) {
        BodyStep::Read => a.read matches BodyRead::Failed { timeout } && timeout,
        _ => a.sent matches Sent::Failed { timeout } && timeout,
    }
}

/// How many attempts, and how many retried timeouts, a request takes when its attempts go as
/// listed.
pub open spec fn body_sends(r: BodyRetry, attempts: Seq<Attempt>) -> (nat, nat)
    decreases attempts.len(),
{
    if attempts.len() == 0 {
        (0, 0)
    } else {
        match attempt_step(r, attempts[0]) {
            BodyStep::Again(_) => {
                let t = timed_out(r, attempts[0]);
                let rest = body_sends(r.next(t), attempts.skip(1));
                (
                    1 + rest.0,
                    if t {
                        1 + rest.1
                    } else {
                        rest.1
                    },
                )
            },
            _ => (1, 0),
        }
    }
}

/// However the attempts go, no more of them are made than are allowed, and no more timeouts
/// are retried than their allowance.
pub proof fn body_sends_are_bounded(r: BodyRetry, attempts: Seq<Attempt>)
    requires
        r.wf(),
    ensures
        body_sends(r, attempts).0 <= r.max_attempts - r.attempt,
        body_sends(r, attempts).1 <= r.timeout_cap - r.timeout_retries,
    decreases attempts.len(),
{
    if attempts.len() > 0 {
        if attempt_step(r, attempts[0]) is Again {
            let t = timed_out(r, attempts[0]);
            body_sends_are_bounded(r.next(t), attempts.skip(1));
        }
    }
}

/// A body is delivered only when it has been read from an answer that is no error.
pub proof fn delivered_bodies_are_complete(r: BodyRetry, a: Attempt)
    requires
        attempt_step(r, a) == BodyStep::Deliver,
    ensures
        a.read == BodyRead::Complete,
        a.sent matches Sent::Answered { status, .. } && !error_status(status),
{
}

/// While an attempt is not the last one, a failure to get an answer, of whatever kind, leads to
/// another attempt after the backoff, and so does a server error or a rate limit, after the wait
/// that the server asks for. Any other answer, and whatever the last attempt brings, goes to the
/// caller.
pub proof fn passing_failures_are_tried_again(r: SendRetry, sent: Sent)
    requires
        r.attempt < r.max_attempts,
    ensures
        r.attempt + 1 < r.max_attempts ==> (match sent {
            Sent::Failed { .. } => r.step_after(sent) == SendStep::Again(
                Wait::Backoff((r.attempt + 1) as u32),
            ),
            Sent::Answered { status, retry_after } => if status == 429 || 500 <= status <= 599 {
                match retry_after {
                    Some(ms) => r.step_after(sent) == SendStep::Again(Wait::Asked(ms)),
                    None => r.step_after(sent) == SendStep::Again(
                        Wait::Backoff((r.attempt + 1) as u32),
                    ),
                }
            } else {
                r.step_after(sent) == SendStep::Finish
            },
        }),
        r.attempt + 1 == r.max_attempts ==> r.step_after(sent) == SendStep::Finish,
{
}

/// A request that gets no answer but passing failures is sent exactly as many times as are
/// allowed, and one that gets another answer at last is sent until then.
pub proof fn passing_failures_use_all_attempts(max_attempts: u32, attempt: u32, sent: Seq<Sent>, n: int)
    requires
        attempt < max_attempts,
        0 <= n <= sent.len(),
        forall|i: int|
            0 <= i < n ==> (match #[trigger] sent[i] {
                Sent::Failed { .. } => true,
                Sent::Answered { status, .. } => status == 429 || 500 <= status <= 599,
            }),
    ensures
        n >= max_attempts - attempt ==> sends(max_attempts, attempt, sent) == max_attempts
            - attempt,
        n < max_attempts - attempt && n < sent.len() && (sent[n] matches Sent::Answered {
            status,
            ..
        } && status < 429) ==> sends(max_attempts, attempt, sent) == n + 1,
    decreases n,
{
    let r = SendRetry { attempt, max_attempts };
    if sent.len() > 0 {
        passing_failures_are_tried_again(r, sent[0]);
    }
    if n > 0 && attempt + 1 < max_attempts {
        let rest = sent.skip(1);
        assert forall|i: int| 0 <= i < n - 1 implies (match #[trigger] rest[i] {
            Sent::Failed { .. } => true,
            Sent::Answered { status, .. } => status == 429 || 500 <= status <= 599,
        }) by {
            assert(rest[i] == sent[i + 1]);
        }
        passing_failures_use_all_attempts(max_attempts, (attempt + 1) as u32, rest, n - 1);
        if n < sent.len() {
            assert(rest[n - 1] == sent[n]);
        }
    }
}

/// A request is allowed one attempt more than it has retries, as far as that can be counted.
pub proof fn retries_come_on_top_of_the_first_attempt(retries: u32)
    ensures
        retries < u32::MAX ==> attempts_allowed(retries) == retries + 1,
        retries == u32::MAX ==> attempts_allowed(retries) == u32::MAX,
        attempts_allowed(retries) >= 1,
        attempts_allowed(retries) <= u32::MAX,
{
}

/// What an attempt at a body leads to: a complete body of an answer that is no error is
/// delivered. While the attempt is not the last one, server errors, rate limits, connections
/// that fail and bodies that break off lead to another one, timeouts as long as their allowance
/// lasts. Client errors and bodies that are too large do not.
pub proof fn bodies_are_tried_again(r: BodyRetry, a: Attempt)
    requires
        r.attempt < r.max_attempts,
    ensures
        ({
            let last = r.attempt + 1 == r.max_attempts;
            let again = BodyStep::Again(Wait::Backoff((r.attempt + 1) as u32));
            match a.sent {
                Sent::Failed { timeout } => attempt_step(r, a) == (if last || timeout
                    && r.timeout_retries >= r.timeout_cap {
                    BodyStep::Fail
                } else {
                    again
                }),
                Sent::Answered { status, retry_after } => if status == 429 || 500 <= status <= 599 {
                    attempt_step(r, a) == (if last {
                        BodyStep::Fail
                    } else {
                        match retry_after {
                            Some(ms) => BodyStep::Again(Wait::Asked(ms)),
                            None => again,
                        }
                    })
                } else if 400 <= status < 500 {
                    attempt_step(r, a) == BodyStep::Fail
                } else {
                    match a.read {
                        BodyRead::Complete => attempt_step(r, a) == BodyStep::Deliver,
                        BodyRead::Refused => attempt_step(r, a) == BodyStep::Fail,
                        BodyRead::Failed { timeout } => attempt_step(r, a) == (if last || timeout
                            && r.timeout_retries >= r.timeout_cap {
                            BodyStep::Fail
                        } else {
                            again
                        }),
                    }
                },
            }
        }),
{
}

/// The state of a request after an attempt that is tried again counts the attempt, and counts it
/// as a timeout exactly if it was one.
pub proof fn attempts_and_timeouts_are_counted(r: BodyRetry, timeout: bool)
    requires
        r.attempt < r.max_attempts,
        r.timeout_retries <= r.attempt,
    ensures
        r.next(timeout).attempt == r.attempt + 1,
        r.next(timeout).max_attempts == r.max_attempts,
        r.next(timeout).timeout_cap == r.timeout_cap,
        r.next(timeout).timeout_retries == r.timeout_retries + (if timeout {
            1int
        } else {
            0int
        }),
{
}

/// A body that never comes for another reason than a timeout is asked for exactly as many times
/// as are allowed; one that always times out, as long as the allowance for timeouts lasts.
pub proof fn broken_bodies_use_all_attempts(r: BodyRetry, attempts: Seq<Attempt>, timeout: bool)
    requires
        r.attempt < r.max_attempts,
        r.timeout_retries <= r.timeout_cap,
        r.timeout_retries <= r.attempt,
        attempts.len() >= r.max_attempts - r.attempt,
        forall|i: int|
            0 <= i < attempts.len() ==> (match (#[trigger] attempts[i]).sent {
                Sent::Failed { timeout: t } => t == timeout,
                Sent::Answered { status, .. } => status < 400 && attempts[i].read
                    == (BodyRead::Failed { timeout }),
            }),
    ensures
        !timeout ==> body_sends(r, attempts).0 == r.max_attempts - r.attempt,
        timeout ==> body_sends(r, attempts).0 == (if r.max_attempts - r.attempt <= r.timeout_cap
            - r.timeout_retries + 1 {
            r.max_attempts - r.attempt
        } else {
            r.timeout_cap - r.timeout_retries + 1
        }),
    decreases attempts.len(),
{
    assert(attempts.len() > 0);
    let a = attempts[0];
    assert(match a.sent {
        Sent::Failed { timeout: t } => t == timeout,
        Sent::Answered { status, .. } => status < 400 && a.read == (BodyRead::Failed { timeout }),
    });
    bodies_are_tried_again(r, a);
    if attempt_step(r, a) is Again {
        let rest = attempts.skip(1);
        assert forall|i: int| 0 <= i < rest.len() implies (match (#[trigger] rest[i]).sent {
            Sent::Failed { timeout: t } => t == timeout,
            Sent::Answered { status, .. } => status < 400 && rest[i].read == (BodyRead::Failed {
                timeout,
            }),
        }) by {
            assert(rest[i] == attempts[i + 1]);
        }
        assert(timed_out(r, a) == timeout);
        broken_bodies_use_all_attempts(r.next(timeout), rest, timeout);
    }
}

/// Rate limiting and server errors are worth another try, and no other answer is.
pub proof fn server_errors_are_worth_another_try(status: u16)
    ensures
        retriable(status) <==> status == 429 || status / 100 == 5,
{
}

} // verus!
