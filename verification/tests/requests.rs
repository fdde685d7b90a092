use video_sniffer::net::{
    backoff, bytes_failure, classify_reqwest_error, describe_refusal, http_status_error,
    range_refusal, should_retry_status, text_failure, Attempts, Next, Outcome, Trouble,
};

fn trouble(timeout: bool, connect: bool, request: bool, body: bool) -> Trouble {
    Trouble { timeout, connect, request, body, text: "broken".to_string() }
}

#[test]
fn waits_double_from_half_a_second() {
    assert_eq!(backoff(1), 500);
    assert_eq!(backoff(2), 1000);
    assert_eq!(backoff(4), 4000);
    assert_eq!(backoff(56), 500 << 55);
    for attempt in 1..20usize {
        assert_eq!(backoff(attempt + 1), 2 * backoff(attempt));
    }
}

#[test]
fn some_refusals_may_pass() {
    for status in 100..1000u16 {
        let code = reqwest::StatusCode::from_u16(status).unwrap();
        let expected = code == reqwest::StatusCode::REQUEST_TIMEOUT
            || code == reqwest::StatusCode::TOO_MANY_REQUESTS
            || code.is_server_error();
        assert_eq!(should_retry_status(status), expected, "{status}");
    }
}

#[test]
fn refusals_are_explained() {
    assert_eq!(
        http_status_error("HEAD", 403),
        "HEAD: HTTP 403 Forbidden，请求被拒绝，Cookie/Referer/User-Agent 可能已过期或不完整"
    );
    assert_eq!(
        http_status_error("GET", 404),
        "GET: HTTP 404 Not Found，资源不存在，视频地址可能已失效"
    );
    assert_eq!(
        http_status_error("GET", 429),
        "GET: HTTP 429 Too Many Requests，请求过多，源站限流"
    );
    assert_eq!(
        http_status_error("GET", 503),
        "GET: HTTP 503 Service Unavailable，源站服务器异常，请稍后重试"
    );
    assert_eq!(
        http_status_error("GET", 418),
        "GET: HTTP 418 I'm a teapot，源站返回非成功状态"
    );
    assert_eq!(describe_refusal("x", 401, "L"), "x: HTTP L，请求被拒绝，Cookie/Referer/User-Agent 可能已过期或不完整");
    assert_eq!(range_refusal(416), "range request failed: 416 Range Not Satisfiable");
}

#[test]
fn trouble_is_explained() {
    assert_eq!(
        classify_reqwest_error("GET", &trouble(true, true, true, true)),
        "GET: 请求超时，目标源可能响应过慢或网络不稳定"
    );
    assert_eq!(
        classify_reqwest_error("GET", &trouble(false, true, true, true)),
        "GET: 无法连接目标源，请检查网络、DNS 或代理"
    );
    assert_eq!(
        classify_reqwest_error("GET", &trouble(false, false, true, true)),
        "GET: 响应读取中断，网络连接可能被重置"
    );
    assert_eq!(
        classify_reqwest_error("GET", &trouble(false, false, true, false)),
        "GET: 网络请求失败: broken"
    );
    assert_eq!(text_failure("GET"), "GET: 读取文本响应失败");
    assert_eq!(bytes_failure("GET"), "GET: 读取响应内容失败");
}

#[test]
fn success_is_accepted_at_once() {
    let (mut attempts, next) = Attempts::first(4, "GET");
    assert!(matches!(next, Next::Send));
    assert!(matches!(attempts.after("GET", Outcome::Status(206)), Next::Accept));
    assert_eq!(attempts.attempt, 1);
}

#[test]
fn what_may_pass_is_tried_up_to_the_limit() {
    let (mut attempts, _) = Attempts::first(4, "GET");
    assert!(matches!(attempts.after("GET", Outcome::Status(503)), Next::Wait(500)));
    let lost = Outcome::Trouble(trouble(false, false, true, false));
    assert!(matches!(attempts.after("GET", lost), Next::Wait(1000)));
    assert!(matches!(attempts.after("GET", Outcome::Status(429)), Next::Wait(2000)));
    assert_eq!(attempts.attempt, 4);
    match attempts.after("GET", Outcome::Status(503)) {
        Next::Fail(reason) => {
            assert_eq!(reason, "GET: HTTP 503 Service Unavailable，源站服务器异常，请稍后重试")
        }
        _ => panic!("no attempt was left"),
    }
}

#[test]
fn the_rest_is_given_up() {
    let (mut attempts, _) = Attempts::first(4, "GET");
    assert!(matches!(attempts.after("GET", Outcome::Status(404)), Next::Fail(_)));
    let (mut attempts, _) = Attempts::first(4, "GET");
    let odd = Outcome::Trouble(trouble(false, false, false, false));
    match attempts.after("GET", odd) {
        Next::Fail(reason) => assert_eq!(reason, "GET: 网络请求失败: broken"),
        _ => panic!("nothing promises that it passes"),
    }
    let (mut attempts, _) = Attempts::first(4, "GET");
    match attempts.after("GET", Outcome::NotCopied) {
        Next::Fail(reason) => assert_eq!(reason, "GET: 请求无法克隆，不能重试"),
        _ => panic!("the request cannot be sent"),
    }
    match Attempts::first(0, "GET").1 {
        Next::Fail(reason) => assert_eq!(reason, "GET: 超过最大重试次数"),
        _ => panic!("no attempt is allowed"),
    }
}
