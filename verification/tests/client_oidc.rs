use attic::client::api::{OidcProvider, OidcProviderMode};
use attic::client::error::ClientError;
use attic::client::oidc::{
    check_nonce, checked_github_actions_url, find_provider, github_actions_url, github_authorization, handle_callback,
    random_string, receive_callback, validate_nonce, PkceLogin,
};
use attic::json::Json;
use attic::urls::extension_fits;
use base64::engine::general_purpose::URL_SAFE_NO_PAD;
use base64::Engine;

fn provider(name: &str) -> OidcProvider {
    OidcProvider {
        name: name.to_owned(),
        display_name: "Pocket ID".to_owned(),
        mode: OidcProviderMode::AuthorizationCodePkce,
        issuer: "https://id.example.com".to_owned(),
        audience: "client id".to_owned(),
        authorization_endpoint: Some("https://id.example.com/authorize".to_owned()),
        token_endpoint: Some("https://id.example.com/api/oidc/token".to_owned()),
        scopes: vec!["openid".to_owned(), "profile".to_owned()],
    }
}

#[test]
fn validates_nonce_in_id_token_payload() {
    let payload = URL_SAFE_NO_PAD.encode(r#"{"nonce":"expected"}"#);
    let token = format!("header.{payload}.signature");
    assert!(validate_nonce(&token, "expected").is_ok());
    assert!(validate_nonce(&token, "wrong").is_err());
}

#[test]
fn each_way_to_fail_validation_has_its_error() {
    assert!(matches!(validate_nonce("nodots", "n"), Err(ClientError::MalformedIdToken)));
    let error = validate_nonce("a.!!!.c", "n").unwrap_err();
    assert!(matches!(error, ClientError::InvalidBase64(_)));
    assert_eq!(error.text(), "Invalid symbol 33, offset 0.");
    let payload = URL_SAFE_NO_PAD.encode("not json");
    let token = format!("a.{payload}");
    let error = validate_nonce(&token, "n").unwrap_err();
    assert!(matches!(error, ClientError::InvalidJson(_)));
    assert_eq!(error.text(), "expected ident at line 1 column 2");
    for claims in [r#"{}"#, r#"{"nonce":1}"#, r#"[]"#, r#"{"nonce":"other"}"#] {
        let token = format!("a.{}.c", URL_SAFE_NO_PAD.encode(claims));
        assert!(matches!(validate_nonce(&token, "n"), Err(ClientError::NonceMismatch)));
    }
}

#[test]
fn nonce_is_looked_up_in_claims() {
    let claims = Json::parse(br#"{"a":1,"nonce":"n","b":[null,true]}"#).unwrap();
    assert!(check_nonce(&claims, "n").is_ok());
    assert!(check_nonce(&claims, "m").is_err());
    assert_eq!(
        Json::parse(b"{").unwrap_err(),
        "EOF while parsing an object at line 1 column 1"
    );
}

#[test]
fn provider_is_found_by_name() {
    let found = find_provider(vec![provider("a"), provider("b")], "b").unwrap();
    assert_eq!(found.name, "b");
    let error = find_provider(vec![provider("a")], "x\"y").unwrap_err();
    assert_eq!(
        error.text(),
        "The Attic server has no OIDC provider named \"x\\\"y\""
    );
}

#[test]
fn github_url_asks_for_the_audience() {
    let url = github_actions_url("https://gh.example/token?api=1", &provider("p")).unwrap();
    assert_eq!(url, "https://gh.example/token?api=1&audience=client+id");
    let error = github_actions_url("nothing", &provider("p")).unwrap_err();
    assert!(matches!(error, ClientError::InvalidUrl(_)));
    assert_eq!(error.text(), "relative URL without a base");
    assert_eq!(
        checked_github_actions_url("https://gh.example/token#f", &provider("p")).unwrap(),
        "https://gh.example/token?audience=client+id#f"
    );
    assert_eq!(
        checked_github_actions_url("https://gh.example/token?#f?", &provider("p")).unwrap(),
        "https://gh.example/token?audience=client+id#f?"
    );
    assert!(matches!(
        checked_github_actions_url("nothing", &provider("p")),
        Err(ClientError::InvalidUrl(message)) if message == "relative URL without a base"
    ));
    assert_eq!(ClientError::UrlTooLong.text(), "URL is too long");
    assert_eq!(github_authorization("t"), "Bearer t");
}

#[test]
fn ordinary_pairs_fit_any_ordinary_url() {
    let pairs = vec![("key".to_owned(), "\u{e9} &=*-._".to_owned())];
    for url in ["https://x.example", "https://x.example/?", "https://x.example/?a=b#c", "no url"] {
        assert!(extension_fits(url, &pairs));
    }
}

#[test]
fn authorization_url_carries_the_challenge() {
    // The verifier and challenge are those of RFC 7636, appendix B.
    let login = PkceLogin::with_secrets(
        &provider("p"),
        "127.0.0.1:8080",
        "state".to_owned(),
        "nonce".to_owned(),
        "dBjftJeZ4CVP-mB92K27uhbUJU1p1r_wW1gFWFOEjXk".to_owned(),
    )
    .unwrap();
    assert_eq!(
        login.authorization_url,
        "https://id.example.com/authorize?response_type=code&client_id=client+id\
         &redirect_uri=http%3A%2F%2F127.0.0.1%3A8080%2Fcallback&scope=openid+profile\
         &state=state&nonce=nonce\
         &code_challenge=E9Melhoa2OwvFrEMTJguCHaoeK1t8URWbuGJSstw-cM&code_challenge_method=S256"
    );
    assert_eq!(login.token_endpoint, "https://id.example.com/api/oidc/token");
    let form = login.token_form("the code");
    let form: Vec<(&str, &str)> = form.iter().map(|p| (p.0.as_str(), p.1.as_str())).collect();
    assert_eq!(
        form,
        vec![
            ("grant_type", "authorization_code"),
            ("client_id", "client id"),
            ("code", "the code"),
            ("redirect_uri", "http://127.0.0.1:8080/callback"),
            ("code_verifier", "dBjftJeZ4CVP-mB92K27uhbUJU1p1r_wW1gFWFOEjXk"),
        ]
    );
}

#[test]
fn logins_start_with_fresh_secrets() {
    let login = PkceLogin::start(&provider("p"), "127.0.0.1:1").unwrap();
    assert_eq!(login.state.len(), 32);
    assert_eq!(login.nonce.len(), 32);
    assert_eq!(login.verifier.len(), 64);
    assert_ne!(login.state, login.nonce);
    let other = PkceLogin::start(&provider("p"), "127.0.0.1:1").unwrap();
    assert_ne!(login.state, other.state);
    assert_ne!(login.nonce, other.nonce);
    assert_ne!(login.verifier, other.verifier);
    assert!(login.authorization_url.contains(&format!("state={}", login.state)));
}

#[test]
fn missing_endpoints_are_reported() {
    let mut p = provider("p");
    p.token_endpoint = None;
    let error = PkceLogin::start(&p, "127.0.0.1:1").unwrap_err();
    assert_eq!(error.text(), "OIDC provider \"p\" did not provide a token endpoint");
    p.authorization_endpoint = None;
    let error = PkceLogin::start(&p, "127.0.0.1:1").unwrap_err();
    assert_eq!(
        error.text(),
        "OIDC provider \"p\" did not provide an authorization endpoint"
    );
    let mut p = provider("p");
    p.authorization_endpoint = Some("nowhere".to_owned());
    assert!(matches!(
        PkceLogin::start(&p, "127.0.0.1:1"),
        Err(ClientError::InvalidUrl(message)) if message == "relative URL without a base"
    ));
}

#[test]
fn callback_with_the_right_state_gives_the_code() {
    let request = b"GET /callback?code=a%20b&state=s HTTP/1.1\r\nHost: x\r\n\r\n";
    let callback = receive_callback(request, "s").unwrap();
    assert_eq!(callback.outcome.unwrap(), "a b");
    assert_eq!(
        callback.response,
        "HTTP/1.1 200 OK\r\nContent-Type: text/plain\r\nContent-Length: 42\r\n\r\n\
         Login complete. You can close this window."
    );
}

#[test]
fn callbacks_can_fail_in_several_ways() {
    let outcome = |request: &[u8]| receive_callback(request, "s").unwrap().outcome;
    let failed = receive_callback(b"GET /callback?error=denied&state=x H", "s").unwrap();
    assert!(failed.response.ends_with("Content-Length: 40\r\n\r\nLogin failed. You can close this window."));
    assert_eq!(failed.outcome.unwrap_err().text(), "OIDC provider returned denied");
    assert!(matches!(outcome(b"GET /callback?code=c H"), Err(ClientError::StateMismatch)));
    assert!(matches!(outcome(b"GET /?code=c&state=t H"), Err(ClientError::StateMismatch)));
    assert!(matches!(outcome(b"GET /?state=s H"), Err(ClientError::NoAuthorizationCode)));
    // Of a repeated parameter, the last one counts.
    assert_eq!(outcome(b"GET /?state=t&state=s&code=1&code=2 H").unwrap(), "2");

    assert!(matches!(receive_callback(b"", "s"), Err(ClientError::CallbackMalformed)));
    assert!(matches!(receive_callback(b"GET\n/x", "s"), Err(ClientError::CallbackMalformed)));
    assert!(matches!(receive_callback(&[0xff], "s"), Err(ClientError::CallbackNotUtf8)));
    assert!(matches!(
        receive_callback(b"GET :x:y H", "s"),
        Err(ClientError::InvalidUrl(message)) if message == "invalid port number"
    ));
}

#[test]
fn callback_decision_looks_at_the_pairs_only() {
    let pair = |k: &str, v: &str| (k.to_owned(), v.to_owned());
    let callback = handle_callback(&vec![pair("state", "s"), pair("code", "c")], "s");
    assert_eq!(callback.outcome.unwrap(), "c");
    let callback = handle_callback(&vec![pair("code", "c")], "s");
    assert!(callback.outcome.is_err());
}

#[test]
fn random_strings_are_alphanumeric() {
    let text = random_string(200);
    assert_eq!(text.len(), 200);
    assert!(text.chars().all(|c| c.is_ascii_alphanumeric()));
    assert_ne!(text, random_string(200));
    assert_eq!(random_string(0), "");
}
