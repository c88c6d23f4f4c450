//! Caller-facing responses: the one route's decisions, the two failure
//! policies, and the CORS headers every response carries.

use vstd::prelude::*;
use vstd::string::StringExecFns;

use crate::config::{ConfigError, Configuration};
use crate::json::{ascii_lit_bytes, ascii_seq};
use crate::query::{query_param, query_param_exec};
use crate::token::{
    interpret_upstream, is_success_status, prepare_token_exchange, token_response_json,
    token_response_of, upstream_request_for, TokenResponse, TokenView, UpstreamOutcome,
    UpstreamRequest,
};

verus! {

/// A caller-facing HTTP response: status, named headers in order, body.
pub struct HttpResponse {
    pub status: u16,
    pub headers: Vec<(String, String)>,
    pub body: Vec<u8>,
}

/// Whether a header with this exact name and value is present.
pub open spec fn header_present(resp: HttpResponse, name: Seq<char>, value: Seq<char>) -> bool {
    exists|i: int|
        0 <= i < resp.headers@.len() && resp.headers@[i].0@ == name && resp.headers@[i].1@ == value
}

/// The response carries exactly one header so far: its content type.
pub open spec fn only_content_type(resp: HttpResponse, ct: Seq<char>) -> bool {
    &&& resp.headers@.len() == 1
    &&& resp.headers@[0].0@ == "Content-Type"@
    &&& resp.headers@[0].1@ == ct
}

/// The all-empty token grant the lenient policy answers failures with.
pub open spec fn empty_token_view() -> TokenView {
    TokenView {
        access_token: Seq::<u8>::empty(),
        scope: Seq::<u8>::empty(),
        token_type: Seq::<u8>::empty(),
    }
}

/// A successful exchange: 200, JSON content type, the grant serialized.
pub open spec fn is_success_for(resp: HttpResponse, t: TokenView) -> bool {
    &&& resp.status == 200
    &&& resp.body@ == token_response_json(t)
    &&& only_content_type(resp, "application/json"@)
}

/// The strict failure answer: a plain 404.
pub open spec fn is_not_found(resp: HttpResponse) -> bool {
    &&& resp.status == 404
    &&& resp.body@ == ascii_seq("Not Found"@)
    &&& only_content_type(resp, "text/plain"@)
}

/// The answer to a request that never names an authorization code.
pub open spec fn is_bad_request(resp: HttpResponse) -> bool {
    &&& resp.status == 400
    &&& resp.body@ == ascii_seq("Bad Request"@)
    &&& only_content_type(resp, "text/plain"@)
}

/// How a failed exchange is answered under each policy: strict makes it a
/// 404, lenient masks it as a 200 whose grant has all fields empty.
pub open spec fn is_failure_for(resp: HttpResponse, policy: FailurePolicy) -> bool {
    match policy {
        FailurePolicy::Strict => is_not_found(resp),
        FailurePolicy::Lenient => is_success_for(resp, empty_token_view()),
    }
}

/// What a failed exchange looks like to the caller. Strict is the default;
/// lenient reproduces a known wire-compatible alternative in which failure
/// is indistinguishable from an empty grant, for callers that need it.
#[derive(Clone, Copy, PartialEq, Eq, Structural)]
pub enum FailurePolicy {
    Strict,
    Lenient,
}

impl Default for FailurePolicy {
    /// Failures are reported, not masked, unless a caller asks otherwise.
    fn default() -> (r: Self)
        ensures
            r is Strict,
    {
        FailurePolicy::Strict
    }
}

fn content_type_header(value: &str) -> (r: (String, String))
    ensures
        r.0@ == "Content-Type"@,
        r.1@ == value@,
{
    (String::from_str("Content-Type"), String::from_str(value))
}

/// The 200 answer for a completed exchange: the grant as JSON.
pub fn success_response(t: &TokenResponse) -> (r: HttpResponse)
    ensures
        is_success_for(r, t@),
{
    let mut headers: Vec<(String, String)> = Vec::new();
    headers.push(content_type_header("application/json"));
    HttpResponse { status: 200, headers, body: crate::token::render_token_response(t) }
}

/// The strict policy's answer to any failed exchange.
pub fn not_found_response() -> (r: HttpResponse)
    ensures
        is_not_found(r),
{
    let mut headers: Vec<(String, String)> = Vec::new();
    headers.push(content_type_header("text/plain"));
    proof {
        reveal_strlit("Not Found");
    }
    HttpResponse { status: 404, headers, body: ascii_lit_bytes("Not Found") }
}

/// The answer to a request without a `code` parameter, sent before any
/// upstream work is considered.
pub fn bad_request_response() -> (r: HttpResponse)
    ensures
        is_bad_request(r),
{
    let mut headers: Vec<(String, String)> = Vec::new();
    headers.push(content_type_header("text/plain"));
    proof {
        reveal_strlit("Bad Request");
    }
    HttpResponse { status: 400, headers, body: ascii_lit_bytes("Bad Request") }
}

/// The caller-facing answer for a failed exchange under `policy`.
pub fn failure_response(policy: FailurePolicy) -> (r: HttpResponse)
    ensures
        is_failure_for(r, policy),
{
    match policy {
        FailurePolicy::Strict => not_found_response(),
        FailurePolicy::Lenient => {
            let empty = TokenResponse::empty();
            success_response(&empty)
        },
    }
}

/// What the route decides before any outside work: either answer at once,
/// or perform exactly this upstream call.
pub enum RequestStep {
    Respond(HttpResponse),
    CallUpstream(UpstreamRequest),
}

/// The route's first half. A request without a code is refused at once with
/// a 400, before any upstream work; a request without usable configuration
/// is answered by the failure policy; otherwise the one upstream POST is
/// spelled out for the caller to perform.
pub fn token_route(
    cfg: &Result<Configuration, ConfigError>,
    code: Option<&Vec<u8>>,
    policy: FailurePolicy,
) -> (r: RequestStep)
    ensures
        code is None ==> (r matches RequestStep::Respond(resp) && is_bad_request(resp)),
        code matches Some(c) ==> (match *cfg {
            Ok(cfgv) => (r matches RequestStep::CallUpstream(req) && upstream_request_for(
                req,
                cfgv,
                c@,
            )),
            Err(_) => (r matches RequestStep::Respond(resp) && is_failure_for(resp, policy)),
        }),
{
    match code {
        None => RequestStep::Respond(bad_request_response()),
        Some(c) => match cfg {
            Err(_) => RequestStep::Respond(failure_response(policy)),
            Ok(cfgv) => RequestStep::CallUpstream(prepare_token_exchange(cfgv, c)),
        },
    }
}

/// The `code` query parameter, if the request supplied one.
pub fn code_from_query(query: &Vec<u8>) -> (r: Option<Vec<u8>>)
    ensures
        r matches Some(v) ==> query_param(query@, ascii_seq("code"@)) == Some(v@),
        r is None ==> query_param(query@, ascii_seq("code"@)) is None,
{
    proof {
        reveal_strlit("code");
    }
    let name = ascii_lit_bytes("code");
    query_param_exec(query, &name)
}

/// The route's first half, taken from the raw query string: extracts the
/// `code` parameter and decides as [`token_route`] does.
pub fn handle_token_request(
    cfg: &Result<Configuration, ConfigError>,
    query: &Vec<u8>,
    policy: FailurePolicy,
) -> (r: RequestStep)
    ensures
        query_param(query@, ascii_seq("code"@)) is None ==> (r matches RequestStep::Respond(resp)
            && is_bad_request(resp)),
        query_param(query@, ascii_seq("code"@)) matches Some(c) ==> (match *cfg {
            Ok(cfgv) => (r matches RequestStep::CallUpstream(req) && upstream_request_for(
                req,
                cfgv,
                c,
            )),
            Err(_) => (r matches RequestStep::Respond(resp) && is_failure_for(resp, policy)),
        }),
{
    match code_from_query(query) {
        Some(c) => token_route(cfg, Some(&c), policy),
        None => token_route(cfg, None, policy),
    }
}

/// The route's second half: the caller-facing response for whatever the
/// upstream call produced. A well-formed provider body delivered with a 2xx
/// status becomes a 200 carrying exactly its fields; everything else — no
/// response, a non-2xx status, or a malformed body — is answered by the
/// policy.
pub fn token_route_finish(outcome: UpstreamOutcome, policy: FailurePolicy) -> (r: HttpResponse)
    ensures
        outcome matches UpstreamOutcome::Response { status, body } ==> (if is_success_status(
            status,
        ) {
            match token_response_of(body@) {
                Some(t) => is_success_for(r, t),
                None => is_failure_for(r, policy),
            }
        } else {
            is_failure_for(r, policy)
        }),
        outcome is TransportFailure ==> is_failure_for(r, policy),
{
    match interpret_upstream(outcome) {
        Ok(t) => success_response(&t),
        Err(_) => failure_response(policy),
    }
}

/// The reason phrase that belongs beside each status this relay sends.
pub fn reason_phrase(status: u16) -> (r: String)
    ensures
        status == 200 ==> r@ == "OK"@,
        status == 400 ==> r@ == "Bad Request"@,
        status == 404 ==> r@ == "Not Found"@,
{
    if status == 200 {
        String::from_str("OK")
    } else if status == 400 {
        String::from_str("Bad Request")
    } else if status == 404 {
        String::from_str("Not Found")
    } else {
        String::new()
    }
}

/// The permissive cross-origin headers carried by every response.
pub open spec fn cors_applied(resp: HttpResponse) -> bool {
    &&& header_present(resp, "Access-Control-Allow-Origin"@, "*"@)
    &&& header_present(resp, "Access-Control-Allow-Methods"@, "POST, GET, PATCH, OPTIONS"@)
    &&& header_present(resp, "Access-Control-Allow-Headers"@, "*"@)
    &&& header_present(resp, "Access-Control-Allow-Credentials"@, "true"@)
}

/// The four header names the CORS step owns.
pub open spec fn is_cors_name(n: Seq<char>) -> bool {
    ||| n == "Access-Control-Allow-Origin"@
    ||| n == "Access-Control-Allow-Methods"@
    ||| n == "Access-Control-Allow-Headers"@
    ||| n == "Access-Control-Allow-Credentials"@
}

/// `hs` with every CORS-named header removed, order kept.
pub open spec fn strip_cors(hs: Seq<(String, String)>) -> Seq<(String, String)>
    decreases hs.len(),
{
    if hs.len() == 0 {
        Seq::<(String, String)>::empty()
    } else if is_cors_name(hs[0].0@) {
        strip_cors(hs.skip(1))
    } else {
        seq![hs[0]] + strip_cors(hs.skip(1))
    }
}

/// What applying the CORS step to a header list yields: the headers that do
/// not carry a CORS name, unchanged and in order, then exactly one
/// occurrence of each of the four CORS headers with its fixed value.
pub open spec fn cors_result(before: Seq<(String, String)>, after: Seq<(String, String)>) -> bool {
    &&& after.len() == strip_cors(before).len() + 4
    &&& forall|k: int| 0 <= k < strip_cors(before).len() ==> after[k] == strip_cors(before)[k]
    &&& after[after.len() - 4].0@ == "Access-Control-Allow-Origin"@
    &&& after[after.len() - 4].1@ == "*"@
    &&& after[after.len() - 3].0@ == "Access-Control-Allow-Methods"@
    &&& after[after.len() - 3].1@ == "POST, GET, PATCH, OPTIONS"@
    &&& after[after.len() - 2].0@ == "Access-Control-Allow-Headers"@
    &&& after[after.len() - 2].1@ == "*"@
    &&& after[after.len() - 1].0@ == "Access-Control-Allow-Credentials"@
    &&& after[after.len() - 1].1@ == "true"@
}

/// The header text a list carries: name and value views, in order.
pub open spec fn header_views(hs: Seq<(String, String)>) -> Seq<(Seq<char>, Seq<char>)> {
    hs.map_values(|h: (String, String)| (h.0@, h.1@))
}

proof fn lemma_strip_cors_clean(hs: Seq<(String, String)>)
    ensures
        forall|k: int|
            0 <= k < strip_cors(hs).len() ==> !is_cors_name(#[trigger] strip_cors(hs)[k].0@),
    decreases hs.len(),
{
    if hs.len() == 0 {
    } else {
        lemma_strip_cors_clean(hs.skip(1));
        if !is_cors_name(hs[0].0@) {
            assert forall|k: int|
                0 <= k < strip_cors(hs).len() implies !is_cors_name(
                #[trigger] strip_cors(hs)[k].0@,
            ) by {
                if k == 0 {
                    assert(strip_cors(hs)[0] == hs[0]);
                } else {
                    assert(strip_cors(hs)[k] == strip_cors(hs.skip(1))[k - 1]);
                }
            }
        } else {
            assert(strip_cors(hs) == strip_cors(hs.skip(1)));
            assert forall|k: int|
                0 <= k < strip_cors(hs).len() implies !is_cors_name(
                #[trigger] strip_cors(hs)[k].0@,
            ) by {
                assert(strip_cors(hs)[k] == strip_cors(hs.skip(1))[k]);
            }
        }
    }
}

proof fn lemma_strip_cors_all_cors(hs: Seq<(String, String)>)
    requires
        forall|k: int| 0 <= k < hs.len() ==> is_cors_name(#[trigger] hs[k].0@),
    ensures
        strip_cors(hs) == Seq::<(String, String)>::empty(),
    decreases hs.len(),
{
    if hs.len() == 0 {
    } else {
        assert(is_cors_name(hs[0].0@));
        assert forall|k: int| 0 <= k < hs.skip(1).len() implies is_cors_name(
            #[trigger] hs.skip(1)[k].0@,
        ) by {
            assert(hs.skip(1)[k] == hs[k + 1]);
        }
        lemma_strip_cors_all_cors(hs.skip(1));
    }
}

proof fn lemma_strip_cors_clean_then_cors(c: Seq<(String, String)>, s: Seq<(String, String)>)
    requires
        s.len() == c.len() + 4,
        forall|k: int| 0 <= k < c.len() ==> s[k] == c[k],
        forall|k: int| c.len() <= k < s.len() ==> is_cors_name(#[trigger] s[k].0@),
        forall|k: int| 0 <= k < c.len() ==> !is_cors_name(#[trigger] c[k].0@),
    ensures
        strip_cors(s) == c,
    decreases c.len(),
{
    if c.len() == 0 {
        lemma_strip_cors_all_cors(s);
        assert(c =~= Seq::<(String, String)>::empty());
    } else {
        assert(s[0] == c[0]);
        assert(!is_cors_name(c[0].0@));
        assert forall|k: int| 0 <= k < c.skip(1).len() implies s.skip(1)[k] == c.skip(1)[k] by {
            assert(s.skip(1)[k] == s[k + 1]);
            assert(c.skip(1)[k] == c[k + 1]);
        }
        assert forall|k: int| c.skip(1).len() <= k < s.skip(1).len() implies is_cors_name(
            #[trigger] s.skip(1)[k].0@,
        ) by {
            assert(s.skip(1)[k] == s[k + 1]);
        }
        assert forall|k: int| 0 <= k < c.skip(1).len() implies !is_cors_name(
            #[trigger] c.skip(1)[k].0@,
        ) by {
            assert(c.skip(1)[k] == c[k + 1]);
        }
        lemma_strip_cors_clean_then_cors(c.skip(1), s.skip(1));
        assert(strip_cors(s) == seq![s[0]] + strip_cors(s.skip(1)));
        assert(seq![c[0]] + c.skip(1) =~= c);
    }
}

/// Applying the CORS step to a response that already carries its result
/// changes no header text: the step is idempotent, as a replacing
/// `set_header` is.
pub proof fn lemma_cors_reapplication_is_noop(
    before: Seq<(String, String)>,
    once: Seq<(String, String)>,
    twice: Seq<(String, String)>,
)
    requires
        cors_result(before, once),
        cors_result(once, twice),
    ensures
        header_views(twice) == header_views(once),
{
    lemma_strip_cors_clean(before);
    assert forall|k: int| strip_cors(before).len() <= k < once.len() implies is_cors_name(
        #[trigger] once[k].0@,
    ) by {}
    lemma_strip_cors_clean_then_cors(strip_cors(before), once);
    assert(strip_cors(once) == strip_cors(before));
    assert(twice.len() == once.len());
    assert(header_views(twice).len() == twice.len());
    assert(header_views(once).len() == once.len());
    assert forall|k: int| 0 <= k < twice.len() implies header_views(twice)[k] == header_views(
        once,
    )[k] by {
        assert(header_views(twice)[k] == (twice[k].0@, twice[k].1@));
        assert(header_views(once)[k] == (once[k].0@, once[k].1@));
        if k < strip_cors(before).len() {
            assert(twice[k] == strip_cors(once)[k]);
            assert(once[k] == strip_cors(before)[k]);
        }
    }
    assert(header_views(twice) =~= header_views(once));
}

/// Response post-processing that grants any origin access to the endpoint.
/// It is applied uniformly to every outgoing response, whatever the route
/// or the outcome.
pub struct CORS;

impl CORS {
    /// A short description of what this post-processing step does.
    pub fn info(&self) -> (r: String)
        ensures
            r@ == "Add CORS headers to responses"@,
    {
        String::from_str("Add CORS headers to responses")
    }

    /// Sets the four permissive CORS headers, replacing any header already
    /// carrying one of their names, and leaves status, body and every other
    /// header untouched. Reapplying it changes no header text
    /// ([`lemma_cors_reapplication_is_noop`]).
    pub fn on_response(&self, resp: &mut HttpResponse)
        ensures
            final(resp).status == old(resp).status,
            final(resp).body@ == old(resp).body@,
            cors_result(old(resp).headers@, final(resp).headers@),
            cors_applied(*final(resp)),
    {
        let n1 = String::from_str("Access-Control-Allow-Origin");
        let n2 = String::from_str("Access-Control-Allow-Methods");
        let n3 = String::from_str("Access-Control-Allow-Headers");
        let n4 = String::from_str("Access-Control-Allow-Credentials");
        let mut out: Vec<(String, String)> = Vec::new();
        let mut i: usize = 0;
        proof {
            assert(resp.headers@.skip(0) =~= resp.headers@);
        }
        while i < resp.headers.len()
            invariant
                i <= resp.headers@.len(),
                n1@ == "Access-Control-Allow-Origin"@,
                n2@ == "Access-Control-Allow-Methods"@,
                n3@ == "Access-Control-Allow-Headers"@,
                n4@ == "Access-Control-Allow-Credentials"@,
                resp.status == old(resp).status,
                resp.body@ == old(resp).body@,
                resp.headers@ == old(resp).headers@,
                strip_cors(resp.headers@) == out@ + strip_cors(resp.headers@.skip(i as int)),
            decreases resp.headers@.len() - i,
        {
            let keep = !(resp.headers[i].0 == n1) && !(resp.headers[i].0 == n2) && !(
            resp.headers[i].0 == n3) && !(resp.headers[i].0 == n4);
            proof {
                assert(resp.headers@.skip(i as int)[0] == resp.headers@[i as int]);
                assert(resp.headers@.skip(i as int).skip(1) =~= resp.headers@.skip(i + 1));
                assert(keep == !is_cors_name(resp.headers@[i as int].0@));
            }
            if keep {
                let name = resp.headers[i].0.clone();
                let value = resp.headers[i].1.clone();
                proof {
                    assert((name, value) == resp.headers@[i as int]);
                    assert(strip_cors(resp.headers@.skip(i as int)) == seq![
                        resp.headers@[i as int],
                    ] + strip_cors(resp.headers@.skip(i + 1)));
                    assert(out@ + (seq![resp.headers@[i as int]] + strip_cors(
                        resp.headers@.skip(i + 1),
                    )) =~= (out@ + seq![resp.headers@[i as int]]) + strip_cors(
                        resp.headers@.skip(i + 1),
                    ));
                    assert(out@.push(resp.headers@[i as int]) =~= out@ + seq![
                        resp.headers@[i as int],
                    ]);
                }
                out.push((name, value));
            } else {
                proof {
                    assert(strip_cors(resp.headers@.skip(i as int)) == strip_cors(
                        resp.headers@.skip(i + 1),
                    ));
                }
            }
            i = i + 1;
        }
        proof {
            assert(resp.headers@.skip(resp.headers@.len() as int) =~= Seq::<(
                String,
                String,
            )>::empty());
            assert(out@ + strip_cors(Seq::<(String, String)>::empty()) =~= out@);
            assert(out@ == strip_cors(old(resp).headers@));
        }
        let ghost n: int = out@.len() as int;
        out.push((n1, String::from_str("*")));
        out.push((n2, String::from_str("POST, GET, PATCH, OPTIONS")));
        out.push((n3, String::from_str("*")));
        out.push((n4, String::from_str("true")));
        resp.headers = out;
        proof {
            assert(resp.headers@[n].0@ == "Access-Control-Allow-Origin"@);
            assert(resp.headers@[n].1@ == "*"@);
            assert(resp.headers@[n + 1].0@ == "Access-Control-Allow-Methods"@);
            assert(resp.headers@[n + 1].1@ == "POST, GET, PATCH, OPTIONS"@);
            assert(resp.headers@[n + 2].0@ == "Access-Control-Allow-Headers"@);
            assert(resp.headers@[n + 2].1@ == "*"@);
            assert(resp.headers@[n + 3].0@ == "Access-Control-Allow-Credentials"@);
            assert(resp.headers@[n + 3].1@ == "true"@);
            assert(cors_result(old(resp).headers@, resp.headers@));
        }
    }
}

} // verus!
