//! The token exchange itself: building the upstream request for an
//! authorization code, and reading the provider's reply.
//!
//! The outbound POST is the one piece of outside work in the whole flow, so
//! the exchange is split around it: [`prepare_token_exchange`] says exactly
//! what must be sent, and [`interpret_upstream`] says exactly what every
//! possible answer means. The caller in between only moves bytes.

use vstd::prelude::*;
use vstd::string::StringExecFns;

use crate::config::Configuration;
use crate::json::{
    ascii_lit_bytes, ascii_seq, copy_bytes, is_ws, lemma_parse_rendered_pair, lookup, lookup_exec,
    parse_members, parse_object, parse_object_exec, parse_pair, push_quoted, quoted, skip_ws,
    COLON, COMMA, DQUOTE, LBRACE, RBRACE,
};

verus! {

fn key_access_token() -> (r: Vec<u8>)
    ensures
        r@ == ascii_seq("access_token"@),
{
    proof {
        reveal_strlit("access_token");
    }
    ascii_lit_bytes("access_token")
}

fn key_scope() -> (r: Vec<u8>)
    ensures
        r@ == ascii_seq("scope"@),
{
    proof {
        reveal_strlit("scope");
    }
    ascii_lit_bytes("scope")
}

fn key_token_type() -> (r: Vec<u8>)
    ensures
        r@ == ascii_seq("token_type"@),
{
    proof {
        reveal_strlit("token_type");
    }
    ascii_lit_bytes("token_type")
}

fn key_client_id() -> (r: Vec<u8>)
    ensures
        r@ == ascii_seq("client_id"@),
{
    proof {
        reveal_strlit("client_id");
    }
    ascii_lit_bytes("client_id")
}

fn key_client_secret() -> (r: Vec<u8>)
    ensures
        r@ == ascii_seq("client_secret"@),
{
    proof {
        reveal_strlit("client_secret");
    }
    ascii_lit_bytes("client_secret")
}

fn key_code() -> (r: Vec<u8>)
    ensures
        r@ == ascii_seq("code"@),
{
    proof {
        reveal_strlit("code");
    }
    ascii_lit_bytes("code")
}

/// The provider's token grant, mirrored field for field. The values are byte
/// strings exactly as they appeared in the provider's JSON.
pub struct TokenResponse {
    pub access_token: Vec<u8>,
    pub scope: Vec<u8>,
    pub token_type: Vec<u8>,
}

/// Mathematical image of a [`TokenResponse`].
pub struct TokenView {
    pub access_token: Seq<u8>,
    pub scope: Seq<u8>,
    pub token_type: Seq<u8>,
}

impl View for TokenResponse {
    type V = TokenView;

    open spec fn view(&self) -> TokenView {
        TokenView {
            access_token: self.access_token@,
            scope: self.scope@,
            token_type: self.token_type@,
        }
    }
}

impl TokenResponse {
    /// The all-empty grant the lenient failure policy answers with.
    pub fn empty() -> (r: TokenResponse)
        ensures
            r@ == (TokenView {
                access_token: Seq::<u8>::empty(),
                scope: Seq::<u8>::empty(),
                token_type: Seq::<u8>::empty(),
            }),
    {
        let r = TokenResponse { access_token: Vec::new(), scope: Vec::new(), token_type: Vec::new() };
        proof {
            assert(r@ =~= (TokenView {
                access_token: Seq::<u8>::empty(),
                scope: Seq::<u8>::empty(),
                token_type: Seq::<u8>::empty(),
            }));
        }
        r
    }
}

/// What can cut the exchange short once the upstream call is under way;
/// a missing configuration is caught earlier and carried by
/// [`crate::config::ConfigError`].
pub enum ExchangeError {
    /// The outbound call never produced a body: connection failure, timeout,
    /// or an unexpected status from the provider.
    UpstreamTransportFailure,
    /// The provider answered, but the body was not an object carrying the
    /// three expected string fields.
    UpstreamShapeMismatch,
}

/// The exact JSON object posted to the provider for an authorization code.
pub open spec fn token_request_body(id: Seq<u8>, secret: Seq<u8>, code: Seq<u8>) -> Seq<u8> {
    seq![LBRACE] + quoted(ascii_seq("client_id"@)) + seq![COLON] + quoted(id) + seq![COMMA]
        + quoted(ascii_seq("client_secret"@)) + seq![COLON] + quoted(secret) + seq![COMMA]
        + quoted(ascii_seq("code"@)) + seq![COLON] + quoted(code) + seq![RBRACE]
}

/// The JSON object a token grant is serialized to for the caller.
pub open spec fn token_response_json(t: TokenView) -> Seq<u8> {
    seq![LBRACE] + quoted(ascii_seq("access_token"@)) + seq![COLON] + quoted(t.access_token)
        + seq![COMMA] + quoted(ascii_seq("scope"@)) + seq![COLON] + quoted(t.scope) + seq![COMMA]
        + quoted(ascii_seq("token_type"@)) + seq![COLON] + quoted(t.token_type) + seq![RBRACE]
}

/// The token grant a provider body stands for: the body must be one object
/// whose members carry strings or bare scalars, holding the three expected
/// keys with string values. Values are taken from the first member with
/// each key; members this relay has no use for are passed over whatever
/// scalar they carry. A member holding a nested array or object is outside
/// the dialect and rejects the body.
pub open spec fn token_response_of(s: Seq<u8>) -> Option<TokenView> {
    match parse_object(s) {
        Some(ms) => {
            match (
                lookup(ms, ascii_seq("access_token"@)),
                lookup(ms, ascii_seq("scope"@)),
                lookup(ms, ascii_seq("token_type"@)),
            ) {
                (Some(Some(a)), Some(Some(sc)), Some(Some(tt))) => Some(
                    TokenView { access_token: a, scope: sc, token_type: tt },
                ),
                _ => None,
            }
        },
        None => None,
    }
}

/// Serializes a token grant for the caller-facing 200 response.
pub fn render_token_response(t: &TokenResponse) -> (r: Vec<u8>)
    ensures
        r@ == token_response_json(t@),
{
    let mut out: Vec<u8> = Vec::new();
    out.push(LBRACE);
    let ka = key_access_token();
    push_quoted(&mut out, &ka);
    out.push(COLON);
    push_quoted(&mut out, &t.access_token);
    out.push(COMMA);
    let ks = key_scope();
    push_quoted(&mut out, &ks);
    out.push(COLON);
    push_quoted(&mut out, &t.scope);
    out.push(COMMA);
    let kt = key_token_type();
    push_quoted(&mut out, &kt);
    out.push(COLON);
    push_quoted(&mut out, &t.token_type);
    out.push(RBRACE);
    proof {
        assert(out@ =~= token_response_json(t@));
    }
    out
}

/// The one outbound call the relay makes, spelled out: where to POST, which
/// `Accept` header to send, and the exact body.
pub struct UpstreamRequest {
    /// The provider's token endpoint, straight from the configuration.
    pub url: Vec<u8>,
    /// Value of the `Accept` header.
    pub accept: String,
    /// The JSON body carrying client id, client secret and code.
    pub body: Vec<u8>,
}

/// What [`prepare_token_exchange`] promises of the request it builds.
pub open spec fn upstream_request_for(r: UpstreamRequest, cfg: Configuration, code: Seq<u8>) -> bool {
    &&& r.url@ == cfg.token_endpoint@
    &&& r.accept@ == "application/json"@
    &&& r.body@ == token_request_body(cfg.client_id@, cfg.client_secret@, code)
}

/// Builds the upstream POST for an authorization code: the configured
/// endpoint, `Accept: application/json`, and the JSON body carrying the
/// configuration's credentials and the caller's code verbatim.
pub fn prepare_token_exchange(cfg: &Configuration, code: &Vec<u8>) -> (r: UpstreamRequest)
    ensures
        upstream_request_for(r, *cfg, code@),
{
    let mut body: Vec<u8> = Vec::new();
    body.push(LBRACE);
    let ki = key_client_id();
    push_quoted(&mut body, &ki);
    body.push(COLON);
    push_quoted(&mut body, &cfg.client_id);
    body.push(COMMA);
    let ks = key_client_secret();
    push_quoted(&mut body, &ks);
    body.push(COLON);
    push_quoted(&mut body, &cfg.client_secret);
    body.push(COMMA);
    let kc = key_code();
    push_quoted(&mut body, &kc);
    body.push(COLON);
    push_quoted(&mut body, code);
    body.push(RBRACE);
    proof {
        assert(body@ =~= token_request_body(cfg.client_id@, cfg.client_secret@, code@));
    }
    UpstreamRequest {
        url: copy_bytes(&cfg.token_endpoint),
        accept: String::from_str("application/json"),
        body,
    }
}

/// Reads a provider body into a token grant. Succeeds exactly when the body
/// is well-formed in the sense of [`token_response_of`]; everything else is
/// a shape mismatch.
pub fn parse_token_response(body: &Vec<u8>) -> (r: Result<TokenResponse, ExchangeError>)
    ensures
        r is Ok <==> token_response_of(body@) is Some,
        r matches Ok(t) ==> token_response_of(body@) == Some(t@),
        r matches Err(e) ==> e is UpstreamShapeMismatch,
{
    match parse_object_exec(body) {
        Some(ms) => {
            let ka = key_access_token();
            let ks = key_scope();
            let kt = key_token_type();
            let a = lookup_exec(&ms, &ka);
            let sc = lookup_exec(&ms, &ks);
            let tt = lookup_exec(&ms, &kt);
            match (a, sc, tt) {
                (Some(Some(a)), Some(Some(sc)), Some(Some(tt))) => Ok(
                    TokenResponse { access_token: a, scope: sc, token_type: tt },
                ),
                _ => Err(ExchangeError::UpstreamShapeMismatch),
            }
        },
        None => Err(ExchangeError::UpstreamShapeMismatch),
    }
}

/// Parsing the serialized form of a grant yields its three members, in
/// order, each carrying its string value.
#[verifier::rlimit(100)]
proof fn lemma_token_json_object(t: TokenView)
    ensures
        parse_object(token_response_json(t)) == Some(
            seq![
                (ascii_seq("access_token"@), Some(t.access_token)),
                (ascii_seq("scope"@), Some(t.scope)),
                (ascii_seq("token_type"@), Some(t.token_type)),
            ],
        ),
{
    let w = token_response_json(t);
    let k1 = ascii_seq("access_token"@);
    let k2 = ascii_seq("scope"@);
    let k3 = ascii_seq("token_type"@);
    let a = t.access_token;
    let sc = t.scope;
    let tt = t.token_type;

    let p2 = quoted(k2) + seq![COLON] + quoted(sc);
    let p3 = quoted(k3) + seq![COLON] + quoted(tt);
    let r3 = seq![RBRACE];
    let r2 = seq![COMMA] + p3 + seq![RBRACE];
    let r1 = seq![COMMA] + p2 + seq![COMMA] + p3 + seq![RBRACE];

    let i1: int = 1;
    let j1 = i1 + quoted(k1).len() + 1 + quoted(a).len();
    let i2 = j1 + 1;
    let j2 = i2 + quoted(k2).len() + 1 + quoted(sc).len();
    let i3 = j2 + 1;
    let j3 = i3 + quoted(k3).len() + 1 + quoted(tt).len();
    assert(w.len() == j3 + 1);

    // The first member begins right after the opening brace.
    assert(w.skip(i1) =~= quoted(k1) + seq![COLON] + quoted(a) + r1);
    lemma_parse_rendered_pair(w, i1, k1, a, r1);
    assert(parse_pair(w, i1) == Some(((k1, Some(a)), j1)));

    // A comma, then the second member.
    assert(w.skip(j1) =~= r1);
    assert(r1[0] == COMMA);
    assert(w.skip(j1)[0] == COMMA);
    assert(w[j1] == COMMA);
    assert(!is_ws(COMMA));
    assert(skip_ws(w, j1) == j1);
    assert(w.skip(i2) =~= quoted(k2) + seq![COLON] + quoted(sc) + r2);
    assert(quoted(k2)[0] == DQUOTE);
    assert((quoted(k2) + seq![COLON] + quoted(sc) + r2)[0] == DQUOTE);
    assert(w.skip(i2)[0] == DQUOTE);
    assert(w[i2] == DQUOTE);
    assert(!is_ws(DQUOTE));
    assert(skip_ws(w, i2) == i2);
    lemma_parse_rendered_pair(w, i2, k2, sc, r2);
    assert(parse_pair(w, i2) == Some(((k2, Some(sc)), j2)));

    // A comma, then the third member.
    assert(w.skip(j2) =~= r2);
    assert(r2[0] == COMMA);
    assert(w.skip(j2)[0] == COMMA);
    assert(w[j2] == COMMA);
    assert(skip_ws(w, j2) == j2);
    assert(w.skip(i3) =~= quoted(k3) + seq![COLON] + quoted(tt) + r3);
    assert(quoted(k3)[0] == DQUOTE);
    assert((quoted(k3) + seq![COLON] + quoted(tt) + r3)[0] == DQUOTE);
    assert(w.skip(i3)[0] == DQUOTE);
    assert(w[i3] == DQUOTE);
    assert(skip_ws(w, i3) == i3);
    lemma_parse_rendered_pair(w, i3, k3, tt, r3);
    assert(parse_pair(w, i3) == Some(((k3, Some(tt)), j3)));

    // The closing brace ends the member list.
    assert(w.skip(j3) =~= r3);
    assert(r3[0] == RBRACE);
    assert(w.skip(j3)[0] == RBRACE);
    assert(w[j3] == RBRACE);
    assert(!is_ws(RBRACE));
    assert(skip_ws(w, j3) == j3);
    assert(RBRACE != COMMA);
    assert(parse_members(w, i3) == Some((seq![(k3, Some(tt))], j3)));
    assert(parse_members(w, i2) == Some((seq![(k2, Some(sc))] + seq![(k3, Some(tt))], j3)));
    assert(parse_members(w, i1) == Some(
        (seq![(k1, Some(a))] + (seq![(k2, Some(sc))] + seq![(k3, Some(tt))]), j3),
    ));
    let ms = seq![(k1, Some(a))] + (seq![(k2, Some(sc))] + seq![(k3, Some(tt))]);
    assert(ms =~= seq![(k1, Some(a)), (k2, Some(sc)), (k3, Some(tt))]);

    // The whole document is that one object.
    assert(w.skip(0) =~= w);
    assert(w[0] == LBRACE);
    assert(!is_ws(LBRACE));
    assert(skip_ws(w, 0) == 0);
    assert(w[1] == DQUOTE) by {
        assert((quoted(k1) + seq![COLON] + quoted(a) + r1)[0] == DQUOTE);
        assert(w.skip(i1)[0] == DQUOTE);
    }
    assert(DQUOTE != RBRACE);
    assert(skip_ws(w, 1) == 1);
    assert(skip_ws(w, j3 + 1) == w.len());
    assert(parse_object(w) == Some(ms));
}

/// A serialized token grant always reads back as exactly the grant it was
/// made from: the caller-facing 200 body and the provider-body reader agree
/// on every grant.
pub proof fn lemma_token_response_round_trip(t: TokenView)
    ensures
        token_response_of(token_response_json(t)) == Some(t),
{
    reveal_strlit("access_token");
    reveal_strlit("scope");
    reveal_strlit("token_type");
    let w = token_response_json(t);
    let k1 = ascii_seq("access_token"@);
    let k2 = ascii_seq("scope"@);
    let k3 = ascii_seq("token_type"@);
    let a = t.access_token;
    let sc = t.scope;
    let tt = t.token_type;
    assert(k1.len() == 12 && k2.len() == 5 && k3.len() == 10);
    lemma_token_json_object(t);
    let ms = seq![(k1, Some(a)), (k2, Some(sc)), (k3, Some(tt))];
    assert(parse_object(w) == Some(ms));

    // Each key finds its own value, first match first.
    assert(ms[0] == (k1, Some(a)) && ms[1] == (k2, Some(sc)) && ms[2] == (k3, Some(tt)));
    assert(k1 != k2 && k1 != k3 && k2 != k3);
    assert(lookup(ms, k1) == Some(Some(a)));
    assert(ms.skip(1) =~= seq![(k2, Some(sc)), (k3, Some(tt))]);
    assert(ms.skip(1).skip(1) =~= seq![(k3, Some(tt))]);
    assert(lookup(ms.skip(1), k2) == Some(Some(sc)));
    assert(lookup(ms, k2) == lookup(ms.skip(1), k2));
    assert(lookup(ms.skip(1).skip(1), k3) == Some(Some(tt)));
    assert(lookup(ms.skip(1), k3) == lookup(ms.skip(1).skip(1), k3));
    assert(lookup(ms, k3) == lookup(ms.skip(1), k3));
    assert(lookup(ms, k3) == Some(Some(tt)));
    assert(token_response_of(w) == Some(TokenView { access_token: a, scope: sc, token_type: tt }));
    assert(TokenView { access_token: a, scope: sc, token_type: tt } == t);
}

/// What came back from the outbound POST, as the program around the library
/// reports it.
pub enum UpstreamOutcome {
    /// The call produced no response at all: connection failure or timeout.
    TransportFailure,
    /// The provider answered with this HTTP status and body.
    Response { status: u16, body: Vec<u8> },
}

/// The statuses under which a provider answer counts as delivered.
pub open spec fn is_success_status(status: u16) -> bool {
    200 <= status < 300
}

/// What interpreting an upstream outcome must yield: no response or a
/// non-2xx status is a transport failure, a delivered body is read as a
/// token grant or rejected as a shape mismatch.
pub open spec fn exchange_result_for(
    outcome: UpstreamOutcome,
    r: Result<TokenResponse, ExchangeError>,
) -> bool {
    match outcome {
        UpstreamOutcome::TransportFailure => (r matches Err(e) && e is UpstreamTransportFailure),
        UpstreamOutcome::Response { status, body } => {
            if !is_success_status(status) {
                r matches Err(e) && e is UpstreamTransportFailure
            } else {
                match token_response_of(body@) {
                    Some(t) => (r matches Ok(tr) && tr@ == t),
                    None => (r matches Err(e) && e is UpstreamShapeMismatch),
                }
            }
        },
    }
}

/// Decides what the outcome of the outbound call means for the exchange.
/// A missing response and a non-2xx status both fail as transport failures;
/// a delivered body is read as a token grant or rejected as a shape
/// mismatch.
pub fn interpret_upstream(outcome: UpstreamOutcome) -> (r: Result<TokenResponse, ExchangeError>)
    ensures
        exchange_result_for(outcome, r),
{
    match outcome {
        UpstreamOutcome::TransportFailure => Err(ExchangeError::UpstreamTransportFailure),
        UpstreamOutcome::Response { status, body } => {
            if status < 200 || status >= 300 {
                Err(ExchangeError::UpstreamTransportFailure)
            } else {
                parse_token_response(&body)
            }
        },
    }
}

} // verus!
