//! What is made of an answer, and what is answered, told by status and by kind of trouble.

use crate::downloader::{entries_of, headers_fit, is_header};
use crate::net::{after_attempt, Attempts, NextView, OutcomeView, TroubleView};
use crate::outside::{is_header_name, is_header_value, status_line, HEADER_LIMIT};
use crate::report_laws::says_media;
use crate::sniffer::{answer_of, received};
use crate::state::{AppStateView, HeaderPairView, MediaCandidateView};
use crate::text::lower;
use vstd::prelude::*;
use vstd::utf8::encode_utf8;

verus! {

/// How long is waited after so many attempts, in milliseconds: half a second after the first, and
/// each time as long again.
pub open spec fn pause_length(attempt: nat) -> nat
    decreases attempt,
{
    if attempt <= 1 {
        500
    } else {
        pause_length((attempt - 1) as nat) + pause_length((attempt - 1) as nat)
    }
}

proof fn lemma_pause_length(attempt: usize)
    requires
        1 <= attempt,
    ensures
        crate::net::wait_after(attempt) == pause_length(attempt as nat),
    decreases attempt,
{
    reveal_with_fuel(crate::display::two_to, 2);
    if attempt > 1 {
        lemma_pause_length((attempt - 1) as usize);
    }
}

proof fn lemma_pause_fits(attempt: nat)
    requires
        attempt <= 56,
    ensures
        pause_length(attempt) <= 0xffff_ffff_ffff_ffff,
{
    reveal_with_fuel(pause_length, 57);
}

/// An answer is taken if its status is one of success. After a status that may pass another
/// attempt is made while one is left, and any other status is the end.
pub proof fn law_answers_are_judged_by_their_status(
    attempts: Attempts,
    description: Seq<char>,
    status: u16,
)
    requires
        attempts.wf(),
    ensures
        ({
            let next = after_attempt(attempts, description, OutcomeView::Status(status));
            let passes = status == 408 || status == 429 || 500 <= status <= 599;
            &&& 200 <= status <= 299 ==> next is Accept
            &&& passes && attempts.attempt < attempts.most ==> next is Wait && next->Wait_0
                == pause_length(attempts.attempt as nat)
            &&& !(200 <= status <= 299) && !(passes && attempts.attempt < attempts.most)
                ==> next is Fail
        }),
{
    lemma_pause_length(attempts.attempt);
    if attempts.attempt < attempts.most {
        lemma_pause_fits(attempts.attempt as nat);
    }
}

/// What is said of an answer that is not taken: what was asked for, the status, and what it may
/// come from.
pub proof fn law_refusals_are_explained(attempts: Attempts, description: Seq<char>, status: u16)
    ensures
        ({
            let next = after_attempt(attempts, description, OutcomeView::Status(status));
            let told = description + ": HTTP "@ + status_line(status) + "，"@;
            next is Fail ==> {
                &&& status == 401 || status == 403 ==> next->Fail_0 == told
                    + "请求被拒绝，Cookie/Referer/User-Agent 可能已过期或不完整"@
                &&& status == 404 ==> next->Fail_0 == told
                    + "资源不存在，视频地址可能已失效"@
                &&& status == 429 ==> next->Fail_0 == told + "请求过多，源站限流"@
                &&& 500 <= status <= 599 ==> next->Fail_0 == told
                    + "源站服务器异常，请稍后重试"@
                &&& status != 401 && status != 403 && status != 404 && status != 429 && !(500
                    <= status <= 599) ==> next->Fail_0 == told + "源站返回非成功状态"@
            }
        }),
{
}

/// After trouble that may pass another attempt is made while one is left. Other trouble is the
/// end.
pub proof fn law_trouble_is_tried_again(
    attempts: Attempts,
    description: Seq<char>,
    trouble: TroubleView,
)
    requires
        attempts.wf(),
    ensures
        ({
            let next = after_attempt(attempts, description, OutcomeView::Trouble(trouble));
            let passes = trouble.timeout || trouble.connect || trouble.request || trouble.body;
            &&& passes && attempts.attempt < attempts.most ==> next is Wait && next->Wait_0
                == pause_length(attempts.attempt as nat)
            &&& !passes || attempts.attempt >= attempts.most ==> next is Fail
        }),
{
    lemma_pause_length(attempts.attempt);
    if attempts.attempt < attempts.most {
        lemma_pause_fits(attempts.attempt as nat);
    }
}

/// What is said of trouble: that it took too long, that there was no connection, or that the
/// answer broke off, the first of these that holds. Of other trouble its own text is told.
pub proof fn law_trouble_is_explained(
    attempts: Attempts,
    description: Seq<char>,
    trouble: TroubleView,
)
    ensures
        ({
            let next = after_attempt(attempts, description, OutcomeView::Trouble(trouble));
            next is Fail ==> {
                &&& trouble.timeout ==> next->Fail_0 == description
                    + ": 请求超时，目标源可能响应过慢或网络不稳定"@
                &&& trouble.connect && !trouble.timeout ==> next->Fail_0 == description
                    + ": 无法连接目标源，请检查网络、DNS 或代理"@
                &&& trouble.body && !trouble.timeout && !trouble.connect ==> next->Fail_0
                    == description + ": 响应读取中断，网络连接可能被重置"@
                &&& !trouble.timeout && !trouble.connect && !trouble.body ==> next->Fail_0
                    == description + ": 网络请求失败: "@ + trouble.text
            }
        }),
{
}

/// A request that cannot be copied is not sent again.
pub proof fn law_what_cannot_be_copied_is_not_repeated(attempts: Attempts, description: Seq<char>)
    ensures
        after_attempt(attempts, description, OutcomeView::NotCopied) == NextView::Fail(
            description + ": 请求无法克隆，不能重试"@,
        ),
{
}

/// The answer to a report says whether it was of media.
pub proof fn law_reports_are_answered(
    app: AppStateView,
    candidate: MediaCandidateView,
    id: u128,
    at: i64,
)
    ensures
        ({
            let answer = answer_of(received(app, candidate, id, at).1);
            &&& says_media(candidate.url, candidate.mime_type) ==> answer.status == 201 && answer.body == "accepted"@
            &&& !says_media(candidate.url, candidate.mime_type) ==> answer.status == 204 && answer.body == "ignored"@
        }),
{
    crate::report_laws::law_media_is_accepted_and_nothing_else(app, candidate, id, at);
}

/// Every answer may be read by the pages of any origin, and lets them send reports.
pub proof fn law_answers_are_for_all_origins(
    app: AppStateView,
    candidate: MediaCandidateView,
    id: u128,
    at: i64,
)
    ensures
        ({
            let headers = answer_of(received(app, candidate, id, at).1).headers;
            &&& headers.len() == 4
            &&& headers[0].name == "access-control-allow-origin"@ && headers[0].value == "*"@
            &&& headers[1].name == "access-control-allow-methods"@ && headers[1].value
                == "POST, OPTIONS, GET"@
            &&& headers[2].name == "access-control-allow-headers"@ && headers[2].value
                == "content-type"@
            &&& headers[3].name == "access-control-max-age"@ && headers[3].value == "86400"@
        }),
{
}

/// Each header that can be sent is sent under its name in lower case. It takes the place of an
/// earlier one of that name, and the headers of other names stay.
pub proof fn law_headers_are_sent_by_name(
    headers: Seq<HeaderPairView>,
    pair: HeaderPairView,
    name: Seq<char>,
)
    ensures
        !entries_of(Seq::empty()).contains_key(name),
        ({
            let before = entries_of(headers);
            let after = entries_of(headers.push(pair));
            &&& is_header_name(pair.name) && is_header_value(pair.value) && name == lower(pair.name)
                ==> after.contains_key(name) && after[name] == seq![encode_utf8(pair.value)]
            &&& !is_header_name(pair.name) || !is_header_value(pair.value) || name != lower(
                pair.name,
            ) ==> (after.contains_key(name) <==> before.contains_key(name)) && (
            before.contains_key(name) ==> after[name] == before[name])
        }),
{
    assert(headers.push(pair).drop_last() =~= headers);
}

/// Headers can be sent together as long as no header follows 6554 different ones.
pub proof fn law_so_many_headers_fit(headers: Seq<HeaderPairView>, pair: HeaderPairView)
    ensures
        headers_fit(Seq::empty()),
        headers_fit(headers.push(pair)) <==> headers_fit(headers) && (is_header_name(pair.name)
            && is_header_value(pair.value) ==> entries_of(headers).len() < 6554),
{
    let all = headers.push(pair);
    assert forall|i: int| 0 <= i <= headers.len() implies #[trigger] all.take(i) == headers.take(
        i,
    ) by {
        assert(all.take(i) =~= headers.take(i));
    }
    assert(headers.take(headers.len() as int) =~= headers);
    if headers_fit(all) {
        assert forall|i: int| 0 <= i < headers.len() && is_header(headers[i]) implies (
        #[trigger] entries_of(headers.take(i))).len() < HEADER_LIMIT by {
            assert(all[i] == headers[i]);
            assert(all.take(i) == headers.take(i));
        }
        assert(all.take(headers.len() as int) == headers);
        assert(all[headers.len() as int] == pair);
    }
    if headers_fit(headers) && (is_header(pair) ==> entries_of(headers).len() < 6554) {
        assert forall|i: int| 0 <= i < all.len() && is_header(all[i]) implies (
        #[trigger] entries_of(all.take(i))).len() < HEADER_LIMIT by {
            assert(all.take(i) == headers.take(i));
            if i < headers.len() {
                assert(all[i] == headers[i]);
            }
        }
    }
}

} // verus!
