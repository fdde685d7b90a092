//! Requests that are tried again: when, after how long, and what is said when they fail.

use crate::display::two_to;
use crate::outside::{status_line, status_text};
use vstd::prelude::*;

verus! {

/// Whether a status code means success.
pub open spec fn is_success(status: u16) -> bool {
    200 <= status < 300
}

/// Whether a status code blames the server.
pub open spec fn is_server_error(status: u16) -> bool {
    500 <= status < 600
}

/// Whether a request that was answered with this status code is worth another attempt.
pub open spec fn is_passing(status: u16) -> bool {
    status == 408 || status == 429 || is_server_error(status)
}

/// Whether a request that was answered with this status code is worth another attempt.
pub fn should_retry_status(status: u16) -> (r: bool)
    ensures
        r == is_passing(status),
{
    status == 408 || status == 429 || (status >= 500 && status < 600)
}

/// The milliseconds to wait after an attempt: half a second, twice as long each time.
pub open spec fn wait_after(attempt: usize) -> nat {
    500 * two_to((attempt - 1) as nat)
}

/// The most doublings after which 64 bits still hold the wait.
pub const MOST_DOUBLINGS: u64 = 55;

proof fn lemma_doubled(times: nat)
    requires
        times < MOST_DOUBLINGS,
    ensures
        two_to(times + 1) == 2 * two_to(times),
        500 * two_to(times + 1) <= u64::MAX,
{
    crate::display::lemma_two_to_grows(times + 1, MOST_DOUBLINGS as nat);
    assert(two_to(55) == 0x80_0000_0000_0000) by {
        reveal_with_fuel(two_to, 56);
    }
}

/// The milliseconds to wait after an attempt.
pub fn backoff(attempt: usize) -> (r: u64)
    requires
        1 <= attempt,
        attempt - 1 <= MOST_DOUBLINGS,
    ensures
        r == wait_after(attempt),
{
    let times: u64 = (attempt - 1) as u64;
    let mut millis: u64 = 500;
    let mut i: u64 = 0;
    while i < times
        invariant
            i <= times <= MOST_DOUBLINGS,
            millis == 500 * two_to(i as nat),
        decreases times - i,
    {
        proof {
            lemma_doubled(i as nat);
        }
        millis = millis * 2;
        i = i + 1;
    }
    millis
}

/// What a status code suggests to the user.
pub open spec fn hint(status: u16) -> Seq<char> {
    if status == 401 || status == 403 {
        "请求被拒绝，Cookie/Referer/User-Agent 可能已过期或不完整"@
    } else if status == 404 {
        "资源不存在，视频地址可能已失效"@
    } else if status == 429 {
        "请求过多，源站限流"@
    } else if is_server_error(status) {
        "源站服务器异常，请稍后重试"@
    } else {
        "源站返回非成功状态"@
    }
}

/// What is said of a request that was refused, given its status code as it is written out.
pub open spec fn refusal(description: Seq<char>, status: u16, line: Seq<char>) -> Seq<char> {
    description + ": HTTP "@ + line + "，"@ + hint(status)
}

/// What is said of a request that was refused, given its status code as it is written out.
pub fn describe_refusal(description: &str, status: u16, line: &str) -> (r: String)
    ensures
        r@ == refusal(description@, status, line@),
{
    let hint = if status == 401 || status == 403 {
        "请求被拒绝，Cookie/Referer/User-Agent 可能已过期或不完整"
    } else if status == 404 {
        "资源不存在，视频地址可能已失效"
    } else if status == 429 {
        "请求过多，源站限流"
    } else if status >= 500 && status < 600 {
        "源站服务器异常，请稍后重试"
    } else {
        "源站返回非成功状态"
    };
    let mut text = description.to_string();
    text.append(": HTTP ");
    text.append(line);
    text.append("，");
    text.append(hint);
    text
}

/// What is said of a request that was refused.
pub fn http_status_error(description: &str, status: u16) -> (r: String)
    requires
        100 <= status <= 999,
    ensures
        r@ == refusal(description@, status, status_line(status)),
{
    describe_refusal(description, status, status_text(status).as_str())
}

/// What is said of a part of a file that the server did not give.
pub fn range_refusal(status: u16) -> (r: String)
    requires
        100 <= status <= 999,
    ensures
        r@ == "range request failed: "@ + status_line(status),
{
    let mut text = "range request failed: ".to_string();
    text.append(status_text(status).as_str());
    text
}

/// Why a request got no answer.
#[derive(Debug)]
pub struct Trouble {
    pub timeout: bool,
    pub connect: bool,
    pub request: bool,
    pub body: bool,
    pub text: String,
}

#[verifier::ext_equal]
pub struct TroubleView {
    pub timeout: bool,
    pub connect: bool,
    pub request: bool,
    pub body: bool,
    pub text: Seq<char>,
}

impl View for Trouble {
    type V = TroubleView;

    open spec fn view(&self) -> TroubleView {
        TroubleView {
            timeout: self.timeout,
            connect: self.connect,
            request: self.request,
            body: self.body,
            text: self.text@,
        }
    }
}

/// What is said of a request that got no answer.
pub open spec fn complaint(description: Seq<char>, trouble: TroubleView) -> Seq<char> {
    if trouble.timeout {
        description + ": 请求超时，目标源可能响应过慢或网络不稳定"@
    } else if trouble.connect {
        description + ": 无法连接目标源，请检查网络、DNS 或代理"@
    } else if trouble.body {
        description + ": 响应读取中断，网络连接可能被重置"@
    } else {
        description + ": 网络请求失败: "@ + trouble.text
    }
}

/// What is said of a request that got no answer.
pub fn classify_reqwest_error(description: &str, trouble: &Trouble) -> (r: String)
    ensures
        r@ == complaint(description@, trouble@),
{
    let mut text = description.to_string();
    if trouble.timeout {
        text.append(": 请求超时，目标源可能响应过慢或网络不稳定");
    } else if trouble.connect {
        text.append(": 无法连接目标源，请检查网络、DNS 或代理");
    } else if trouble.body {
        text.append(": 响应读取中断，网络连接可能被重置");
    } else {
        text.append(": 网络请求失败: ");
        text.append(trouble.text.as_str());
    }
    text
}

/// What came of an attempt.
#[derive(Debug)]
pub enum Outcome {
    /// The request could not be copied for the attempt.
    NotCopied,
    /// It was answered with a status code.
    Status(u16),
    /// It got no answer.
    Trouble(Trouble),
}

#[verifier::ext_equal]
pub enum OutcomeView {
    NotCopied,
    Status(u16),
    Trouble(TroubleView),
}

impl View for Outcome {
    type V = OutcomeView;

    open spec fn view(&self) -> OutcomeView {
        match self {
            Outcome::NotCopied => OutcomeView::NotCopied,
            Outcome::Status(status) => OutcomeView::Status(*status),
            Outcome::Trouble(trouble) => OutcomeView::Trouble(trouble@),
        }
    }
}

impl Outcome {
    /// Whether the status code, if there is one, has three digits.
    pub open spec fn wf(self) -> bool {
        self matches Outcome::Status(status) ==> 100 <= status <= 999
    }
}

/// What is to be done about a request.
#[derive(Debug)]
pub enum Next {
    /// Send it.
    Send,
    /// Wait so many milliseconds, then send it.
    Wait(u64),
    /// Take the answer.
    Accept,
    /// Give up, and say why.
    Fail(String),
}

#[verifier::ext_equal]
pub enum NextView {
    Send,
    Wait(u64),
    Accept,
    Fail(Seq<char>),
}

impl View for Next {
    type V = NextView;

    open spec fn view(&self) -> NextView {
        match self {
            Next::Send => NextView::Send,
            Next::Wait(millis) => NextView::Wait(*millis),
            Next::Accept => NextView::Accept,
            Next::Fail(reason) => NextView::Fail(reason@),
        }
    }
}

/// The most attempts between which 64 bits hold every wait.
pub const MOST_ATTEMPTS: usize = 57;

/// A request that is tried up to so many times, and the number of the current attempt.
#[derive(Clone, Copy, Debug, PartialEq, Eq, Structural)]
pub struct Attempts {
    pub attempt: usize,
    pub most: usize,
}

/// Whether the trouble with a request may pass.
pub open spec fn may_pass(trouble: TroubleView) -> bool {
    trouble.timeout || trouble.connect || trouble.request || trouble.body
}

/// What is to be done about a request after an attempt: success is taken, what may pass is
/// tried again while attempts are left, and anything else is given up.
pub open spec fn after_attempt(
    attempts: Attempts,
    description: Seq<char>,
    outcome: OutcomeView,
) -> NextView {
    let again = attempts.attempt < attempts.most;
    let wait = NextView::Wait(wait_after(attempts.attempt) as u64);
    match outcome {
        OutcomeView::NotCopied => NextView::Fail(
            description + ": 请求无法克隆，不能重试"@,
        ),
        OutcomeView::Status(status) => if is_success(status) {
            NextView::Accept
        } else if is_passing(status) && again {
            wait
        } else {
            NextView::Fail(refusal(description, status, status_line(status)))
        },
        OutcomeView::Trouble(trouble) => if may_pass(trouble) && again {
            wait
        } else {
            NextView::Fail(complaint(description, trouble))
        },
    }
}

impl Attempts {
    /// Whether the attempt is one of those allowed.
    pub open spec fn wf(self) -> bool {
        1 <= self.attempt <= self.most <= MOST_ATTEMPTS
    }

    /// The first attempt of so many; with none allowed the request fails at once.
    pub fn first(most: usize, description: &str) -> (r: (Attempts, Next))
        requires
            most <= MOST_ATTEMPTS,
        ensures
            r.0 == (Attempts { attempt: 1, most }),
            r.1@ == (if most == 0 {
                NextView::Fail(description@ + ": 超过最大重试次数"@)
            } else {
                NextView::Send
            }),
    {
        let attempts = Attempts { attempt: 1, most };
        if most == 0 {
            let mut text = description.to_string();
            text.append(": 超过最大重试次数");
            (attempts, Next::Fail(text))
        } else {
            (attempts, Next::Send)
        }
    }

    /// Goes on after an attempt: a wait leads to the next one.
    pub fn after(&mut self, description: &str, outcome: Outcome) -> (r: Next)
        requires
            old(self).wf(),
            outcome.wf(),
        ensures
            final(self).wf(),
            r@ == after_attempt(*old(self), description@, outcome@),
            *final(self) == (if r is Wait {
                Attempts { attempt: (old(self).attempt + 1) as usize, ..*old(self) }
            } else {
                *old(self)
            }),
    {
        let again = self.attempt < self.most;
        match outcome {
            Outcome::NotCopied => {
                let mut text = description.to_string();
                text.append(": 请求无法克隆，不能重试");
                Next::Fail(text)
            },
            Outcome::Status(status) => if status >= 200 && status < 300 {
                Next::Accept
            } else if should_retry_status(status) && again {
                let millis = backoff(self.attempt);
                self.attempt = self.attempt + 1;
                Next::Wait(millis)
            } else {
                Next::Fail(http_status_error(description, status))
            },
            Outcome::Trouble(trouble) => {
                let passing = trouble.timeout || trouble.connect || trouble.request
                    || trouble.body;
                if passing && again {
                    let millis = backoff(self.attempt);
                    self.attempt = self.attempt + 1;
                    Next::Wait(millis)
                } else {
                    Next::Fail(classify_reqwest_error(description, &trouble))
                }
            },
        }
    }
}

/// What is said of an answer whose text could not be read.
pub fn text_failure(description: &str) -> (r: String)
    ensures
        r@ == description@ + ": 读取文本响应失败"@,
{
    let mut text = description.to_string();
    text.append(": 读取文本响应失败");
    text
}

/// What is said of an answer whose content could not be read.
pub fn bytes_failure(description: &str) -> (r: String)
    ensures
        r@ == description@ + ": 读取响应内容失败"@,
{
    let mut text = description.to_string();
    text.append(": 读取响应内容失败");
    text
}

/// A wait is twice as long as the one before it.
pub proof fn law_waits_double(attempt: usize)
    requires
        1 <= attempt < usize::MAX,
    ensures
        wait_after((attempt + 1) as usize) == 2 * wait_after(attempt),
{
}

/// Only success is taken.
pub proof fn law_only_success_is_accepted(
    attempts: Attempts,
    description: Seq<char>,
    outcome: OutcomeView,
)
    ensures
        after_attempt(attempts, description, outcome) == NextView::Accept <==> (outcome matches
            OutcomeView::Status(status) && is_success(status)),
{
}

/// The last attempt allowed is not followed by a wait for another.
pub proof fn law_attempts_come_to_an_end(
    attempts: Attempts,
    description: Seq<char>,
    outcome: OutcomeView,
)
    requires
        attempts.wf(),
        attempts.attempt == attempts.most,
    ensures
        after_attempt(attempts, description, outcome) is Accept || after_attempt(
            attempts,
            description,
            outcome,
        ) is Fail,
{
}

/// A refusal that blames the request is final, unless it asks for patience.
pub proof fn law_refusals_are_final(attempts: Attempts, description: Seq<char>, status: u16)
    requires
        400 <= status < 500,
        status != 408,
        status != 429,
    ensures
        after_attempt(attempts, description, OutcomeView::Status(status)) is Fail,
{
}

} // verus!
