use lynx::config::{load_config, ConfigError};
use lynx::http::{
    bad_request_response, code_from_query, failure_response, handle_token_request,
    success_response, token_route, token_route_finish, FailurePolicy, HttpResponse, RequestStep,
    CORS,
};
use lynx::token::{
    interpret_upstream, parse_token_response, prepare_token_exchange, render_token_response,
    ExchangeError, TokenResponse, UpstreamOutcome,
};

fn ok_config() -> lynx::config::Configuration {
    load_config(
        Some(b"123".to_vec()),
        Some(b"ABC".to_vec()),
        Some(b"http://localhost:5000/".to_vec()),
    )
    .unwrap_or_else(|_| panic!("configuration should load"))
}

fn has_header(resp: &HttpResponse, name: &str, value: &str) -> bool {
    resp.headers.iter().any(|h| h.0 == name && h.1 == value)
}

#[test]
fn load_config_carries_values_verbatim() {
    let cfg = ok_config();
    assert_eq!(cfg.client_id, b"123".to_vec());
    assert_eq!(cfg.client_secret, b"ABC".to_vec());
    assert_eq!(cfg.token_endpoint, b"http://localhost:5000/".to_vec());
}

#[test]
fn load_config_rejects_missing_values() {
    assert!(load_config(None, Some(b"ABC".to_vec()), Some(b"u".to_vec())).is_err());
    assert!(load_config(Some(b"123".to_vec()), None, Some(b"u".to_vec())).is_err());
    assert!(load_config(Some(b"123".to_vec()), Some(b"ABC".to_vec()), None).is_err());
    assert!(load_config(None, None, None).is_err());
}

#[test]
fn load_config_rejects_empty_values() {
    assert!(load_config(Some(Vec::new()), Some(b"ABC".to_vec()), Some(b"u".to_vec())).is_err());
    assert!(load_config(Some(b"123".to_vec()), Some(Vec::new()), Some(b"u".to_vec())).is_err());
    assert!(load_config(Some(b"123".to_vec()), Some(b"ABC".to_vec()), Some(Vec::new())).is_err());
}

#[test]
fn missing_config_message_names_all_three_variables() {
    let e = ConfigError::MissingValue;
    let m = e.message();
    assert!(m.contains("CLIENT_ID"));
    assert!(m.contains("CLIENT_SECRET"));
    assert!(m.contains("GITHUB_BASE"));
}

#[test]
fn upstream_request_carries_credentials_and_code() {
    let cfg = ok_config();
    let req = prepare_token_exchange(&cfg, &b"1234".to_vec());
    assert_eq!(req.url, b"http://localhost:5000/".to_vec());
    assert_eq!(req.accept, "application/json");
    assert_eq!(
        req.body,
        br#"{"client_id":"123","client_secret":"ABC","code":"1234"}"#.to_vec()
    );
}

#[test]
fn upstream_request_escapes_special_bytes() {
    let cfg = load_config(
        Some(b"a\"b".to_vec()),
        Some(b"c\\d".to_vec()),
        Some(b"u".to_vec()),
    )
    .unwrap_or_else(|_| panic!("configuration should load"));
    let req = prepare_token_exchange(&cfg, &b"e\nf".to_vec());
    assert_eq!(
        req.body,
        br#"{"client_id":"a\"b","client_secret":"c\\d","code":"e\nf"}"#.to_vec()
    );
}

#[test]
fn test_get_access_ok() {
    // A provider grant for code 1234, exactly as the mocked provider sends it.
    let body = br#"{"access_token":"5678","scope":"","token_type":"Bearer"}"#.to_vec();
    let parsed = parse_token_response(&body);
    let t = match parsed {
        Ok(t) => t,
        Err(_) => panic!("a well-formed grant must parse"),
    };
    assert_eq!(t.access_token, b"5678".to_vec());
    assert_eq!(t.scope, Vec::<u8>::new());
    assert_eq!(t.token_type, b"Bearer".to_vec());

    let resp = token_route_finish(
        UpstreamOutcome::Response { status: 200, body: body.clone() },
        FailurePolicy::Strict,
    );
    assert_eq!(resp.status, 200);
    assert_eq!(resp.body, body);
    assert!(has_header(&resp, "Content-Type", "application/json"));
}

#[test]
fn parse_accepts_whitespace_and_extra_members() {
    let body =
        b" { \"extra\" : \"x\" ,\t\"access_token\": \"a\",\r\n\"scope\": \"s\", \"token_type\": \"t\" } "
            .to_vec();
    let t = parse_token_response(&body).unwrap_or_else(|_| panic!("should parse"));
    assert_eq!(t.access_token, b"a".to_vec());
    assert_eq!(t.scope, b"s".to_vec());
    assert_eq!(t.token_type, b"t".to_vec());
}

#[test]
fn parse_decodes_escapes() {
    let body = br#"{"access_token":"a\"b\\c\nA","scope":"\t","token_type":"\u0041\/"}"#.to_vec();
    let t = parse_token_response(&body).unwrap_or_else(|_| panic!("should parse"));
    assert_eq!(t.access_token, b"a\"b\\c\nA".to_vec());
    assert_eq!(t.scope, b"\t".to_vec());
    assert_eq!(t.token_type, b"A/".to_vec());
}

#[test]
fn parse_takes_first_of_duplicate_keys() {
    let body = br#"{"access_token":"first","access_token":"second","scope":"","token_type":"b"}"#
        .to_vec();
    let t = parse_token_response(&body).unwrap_or_else(|_| panic!("should parse"));
    assert_eq!(t.access_token, b"first".to_vec());
}

#[test]
fn parse_rejects_malformed_bodies() {
    let cases: Vec<Vec<u8>> = vec![
        b"".to_vec(),
        b"not json".to_vec(),
        b"[1,2]".to_vec(),
        b"{".to_vec(),
        b"{}".to_vec(),
        br#"{"access_token":"a","scope":""}"#.to_vec(),
        br#"{"access_token":5,"scope":"","token_type":"b"}"#.to_vec(),
        br#"{"access_token":"a","scope":"","token_type":"b"} trailing"#.to_vec(),
        br#"{"access_token":"a","scope":"","token_type":"b"#.to_vec(),
        br#"{"access_token":"bad \q escape","scope":"","token_type":"b"}"#.to_vec(),
        b"{\"access_token\":\"raw \x01 control\",\"scope\":\"\",\"token_type\":\"b\"}".to_vec(),
    ];
    for body in cases {
        let r = parse_token_response(&body);
        assert!(
            matches!(r, Err(ExchangeError::UpstreamShapeMismatch)),
            "body should be rejected: {:?}",
            String::from_utf8_lossy(&body)
        );
    }
}

#[test]
fn serialization_round_trips_a_grant() {
    let t = TokenResponse {
        access_token: b"5678".to_vec(),
        scope: b"repo gist".to_vec(),
        token_type: b"Bearer".to_vec(),
    };
    let body = render_token_response(&t);
    let back = parse_token_response(&body).unwrap_or_else(|_| panic!("should parse"));
    assert_eq!(back.access_token, t.access_token);
    assert_eq!(back.scope, t.scope);
    assert_eq!(back.token_type, t.token_type);
}

#[test]
fn transport_failure_is_reported_as_such() {
    let r = interpret_upstream(UpstreamOutcome::TransportFailure);
    assert!(matches!(r, Err(ExchangeError::UpstreamTransportFailure)));
}

#[test]
fn unreachable_provider_gives_404_not_found() {
    let resp = token_route_finish(UpstreamOutcome::TransportFailure, FailurePolicy::Strict);
    assert_eq!(resp.status, 404);
    assert_eq!(resp.body, b"Not Found".to_vec());
    assert!(has_header(&resp, "Content-Type", "text/plain"));
}

#[test]
fn malformed_body_gives_the_configured_failure() {
    let bad = UpstreamOutcome::Response { status: 200, body: b"<html>oops</html>".to_vec() };
    let strict = token_route_finish(bad, FailurePolicy::Strict);
    assert_eq!(strict.status, 404);
    assert_eq!(strict.body, b"Not Found".to_vec());

    let bad = UpstreamOutcome::Response { status: 200, body: b"<html>oops</html>".to_vec() };
    let lenient = token_route_finish(bad, FailurePolicy::Lenient);
    assert_eq!(lenient.status, 200);
    assert_eq!(
        lenient.body,
        br#"{"access_token":"","scope":"","token_type":""}"#.to_vec()
    );
}

#[test]
fn missing_code_is_refused_before_any_upstream_work() {
    let cfg = Ok(ok_config());
    let step = handle_token_request(&cfg, &b"state=xyz".to_vec(), FailurePolicy::Strict);
    match step {
        RequestStep::Respond(resp) => {
            assert_eq!(resp.status, 400);
            assert_eq!(resp.body, b"Bad Request".to_vec());
        },
        RequestStep::CallUpstream(_) => panic!("no upstream call may be prepared without a code"),
    }
}

#[test]
fn present_code_leads_to_the_upstream_call() {
    let cfg = Ok(ok_config());
    let step = handle_token_request(&cfg, &b"code=1234".to_vec(), FailurePolicy::Strict);
    match step {
        RequestStep::CallUpstream(req) => {
            assert_eq!(req.url, b"http://localhost:5000/".to_vec());
            assert_eq!(
                req.body,
                br#"{"client_id":"123","client_secret":"ABC","code":"1234"}"#.to_vec()
            );
        },
        RequestStep::Respond(_) => panic!("a code and a configuration must reach upstream"),
    }
}

#[test]
fn unusable_configuration_fails_the_request_by_policy() {
    let cfg: Result<lynx::config::Configuration, ConfigError> = Err(ConfigError::MissingValue);
    let step = handle_token_request(&cfg, &b"code=1234".to_vec(), FailurePolicy::Strict);
    match step {
        RequestStep::Respond(resp) => {
            assert_eq!(resp.status, 404);
            assert_eq!(resp.body, b"Not Found".to_vec());
        },
        RequestStep::CallUpstream(_) => panic!("no upstream call without configuration"),
    }
}

#[test]
fn token_route_accepts_code_directly() {
    let cfg = Ok(ok_config());
    let code = b"99".to_vec();
    let step = token_route(&cfg, Some(&code), FailurePolicy::Strict);
    assert!(matches!(step, RequestStep::CallUpstream(_)));
    let step = token_route(&cfg, None, FailurePolicy::Strict);
    match step {
        RequestStep::Respond(resp) => assert_eq!(resp.status, 400),
        RequestStep::CallUpstream(_) => panic!("no code, no call"),
    }
}

#[test]
fn query_values_are_percent_decoded() {
    let q = b"state=1&code=a%20b%2Bc+d&code=zzz".to_vec();
    let code = code_from_query(&q).unwrap_or_else(|| panic!("code is present"));
    assert_eq!(code, b"a b+c d".to_vec());
}

#[test]
fn ill_formed_percent_escapes_pass_through() {
    let q = b"code=a%zz%2".to_vec();
    let code = code_from_query(&q).unwrap_or_else(|| panic!("code is present"));
    assert_eq!(code, b"a%zz%2".to_vec());
}

#[test]
fn code_needs_an_equals_sign() {
    assert!(code_from_query(&b"code".to_vec()).is_none());
    assert!(code_from_query(&b"codex=1".to_vec()).is_none());
    assert_eq!(
        code_from_query(&b"code=".to_vec()),
        Some(Vec::new())
    );
}

#[test]
fn every_response_carries_the_cors_headers() {
    let cors = CORS;
    let mut responses = vec![
        success_response(&TokenResponse {
            access_token: b"a".to_vec(),
            scope: b"s".to_vec(),
            token_type: b"t".to_vec(),
        }),
        failure_response(FailurePolicy::Strict),
        failure_response(FailurePolicy::Lenient),
        bad_request_response(),
    ];
    for resp in responses.iter_mut() {
        let status = resp.status;
        let body = resp.body.clone();
        cors.on_response(resp);
        assert!(has_header(resp, "Access-Control-Allow-Origin", "*"));
        assert!(has_header(
            resp,
            "Access-Control-Allow-Methods",
            "POST, GET, PATCH, OPTIONS"
        ));
        assert!(has_header(resp, "Access-Control-Allow-Headers", "*"));
        assert!(has_header(resp, "Access-Control-Allow-Credentials", "true"));
        assert_eq!(resp.status, status);
        assert_eq!(resp.body, body);
    }
}

#[test]
fn cors_describes_itself() {
    let cors = CORS;
    assert_eq!(cors.info(), "Add CORS headers to responses");
}

#[test]
fn reason_phrases_match_the_statuses() {
    assert_eq!(lynx::http::reason_phrase(200), "OK");
    assert_eq!(lynx::http::reason_phrase(400), "Bad Request");
    assert_eq!(lynx::http::reason_phrase(404), "Not Found");
}

#[test]
fn strict_is_the_default_policy() {
    assert!(matches!(FailurePolicy::default(), FailurePolicy::Strict));
}

#[test]
fn empty_grant_has_empty_fields() {
    let t = TokenResponse::empty();
    assert!(t.access_token.is_empty());
    assert!(t.scope.is_empty());
    assert!(t.token_type.is_empty());
}

#[test]
fn non_2xx_status_fails_even_with_a_parseable_body() {
    let body = br#"{"access_token":"5678","scope":"","token_type":"Bearer"}"#.to_vec();
    let r = interpret_upstream(UpstreamOutcome::Response { status: 500, body: body.clone() });
    assert!(matches!(r, Err(ExchangeError::UpstreamTransportFailure)));

    let resp = token_route_finish(
        UpstreamOutcome::Response { status: 500, body: body.clone() },
        FailurePolicy::Strict,
    );
    assert_eq!(resp.status, 404);
    assert_eq!(resp.body, b"Not Found".to_vec());

    let resp = token_route_finish(
        UpstreamOutcome::Response { status: 302, body },
        FailurePolicy::Strict,
    );
    assert_eq!(resp.status, 404);
}

#[test]
fn any_2xx_status_counts_as_delivered() {
    let body = br#"{"access_token":"a","scope":"s","token_type":"t"}"#.to_vec();
    for status in [200u16, 201, 299] {
        let r = interpret_upstream(UpstreamOutcome::Response { status, body: body.clone() });
        let t = r.unwrap_or_else(|_| panic!("a 2xx answer with a well-formed body must parse"));
        assert_eq!(t.access_token, b"a".to_vec());
    }
    let r = interpret_upstream(UpstreamOutcome::Response { status: 199, body });
    assert!(matches!(r, Err(ExchangeError::UpstreamTransportFailure)));
}

#[test]
fn parse_passes_over_scalar_members() {
    let body = br#"{"access_token":"tok","expires_in":28800,"refresh":-1.5e+2,"ok":true,"off":false,"nothing":null,"scope":"","token_type":"bearer"}"#
        .to_vec();
    let t = parse_token_response(&body).unwrap_or_else(|_| panic!("should parse"));
    assert_eq!(t.access_token, b"tok".to_vec());
    assert_eq!(t.scope, Vec::<u8>::new());
    assert_eq!(t.token_type, b"bearer".to_vec());
}

#[test]
fn required_keys_must_carry_strings() {
    let body = br#"{"access_token":5678,"scope":"","token_type":"b"}"#.to_vec();
    assert!(matches!(
        parse_token_response(&body),
        Err(ExchangeError::UpstreamShapeMismatch)
    ));
}

#[test]
fn nested_values_are_outside_the_dialect() {
    let cases: Vec<Vec<u8>> = vec![
        br#"{"extra":{"a":"b"},"access_token":"a","scope":"","token_type":"b"}"#.to_vec(),
        br#"{"extra":[1,2],"access_token":"a","scope":"","token_type":"b"}"#.to_vec(),
        br#"{"extra":12x,"access_token":"a","scope":"","token_type":"b"}"#.to_vec(),
        br#"{"extra":tru,"access_token":"a","scope":"","token_type":"b"}"#.to_vec(),
        br#"{"extra":5.,"access_token":"a","scope":"","token_type":"b"}"#.to_vec(),
        br#"{"extra":5e,"access_token":"a","scope":"","token_type":"b"}"#.to_vec(),
        br#"{"extra":-,"access_token":"a","scope":"","token_type":"b"}"#.to_vec(),
    ];
    for body in cases {
        assert!(
            matches!(
                parse_token_response(&body),
                Err(ExchangeError::UpstreamShapeMismatch)
            ),
            "body should be rejected: {:?}",
            String::from_utf8_lossy(&body)
        );
    }
}

#[test]
fn reapplying_cors_changes_nothing() {
    let cors = CORS;
    let mut resp = success_response(&TokenResponse {
        access_token: b"a".to_vec(),
        scope: b"s".to_vec(),
        token_type: b"t".to_vec(),
    });
    cors.on_response(&mut resp);
    let once = resp.headers.clone();
    cors.on_response(&mut resp);
    assert_eq!(resp.headers, once);
}

#[test]
fn cors_replaces_a_conflicting_header() {
    let cors = CORS;
    let mut resp = bad_request_response();
    resp.headers.push((
        "Access-Control-Allow-Origin".to_string(),
        "http://elsewhere".to_string(),
    ));
    cors.on_response(&mut resp);
    let origins: Vec<&(String, String)> = resp
        .headers
        .iter()
        .filter(|h| h.0 == "Access-Control-Allow-Origin")
        .collect();
    assert_eq!(origins.len(), 1);
    assert_eq!(origins[0].1, "*");
    assert_eq!(resp.headers[0].0, "Content-Type");
}
