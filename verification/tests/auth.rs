use printhub::auth::{
    self, authority, clear_session_cookie, cookie_value, hash_password, is_https, lockout,
    may_pass, new_token, request_host, same_origin, session_cookie, token_from, token_hash, verify_password,
    Header, Headers, LoginLimiter, FREE_ATTEMPTS, MAX_LOCKOUT, SESSION_COOKIE,
};

fn headers(pairs: &[(&'static str, &'static str)]) -> Headers {
    Headers {
        list: pairs
            .iter()
            .map(|(name, value)| Header {
                name: name.to_string(),
                value: Some(value.to_string()),
            })
            .collect(),
    }
}

#[test]
fn password_round_trip() {
    let stand_in = hash_password(auth::STAND_IN).unwrap();
    let hash = hash_password("correct horse").unwrap();
    assert!(hash.starts_with("$argon2id$"));
    assert_eq!(verify_password("correct horse", Some(&hash), &stand_in), Ok(true));
    assert_eq!(verify_password("wrong horse", Some(&hash), &stand_in), Ok(false));
    assert_eq!(verify_password("anything", None, &stand_in), Ok(false));
    assert_eq!(
        verify_password(auth::STAND_IN, None, &stand_in),
        Ok(false),
        "nobody logs in as a user who does not exist"
    );
}

#[test]
fn a_broken_hash_accepts_nobody() {
    let stand_in = hash_password(auth::STAND_IN).unwrap();
    assert!(verify_password("correct horse", Some("no hash"), &stand_in).is_err());
    assert_eq!(auth::compared_with(None, "other"), "other");
    assert_eq!(auth::compared_with(Some("own"), "other"), "own");
    assert!(auth::accepted(true, &Ok(true)));
    assert!(!auth::accepted(true, &Ok(false)));
    assert!(!auth::accepted(false, &Ok(true)));
    assert!(!auth::accepted(true, &Err("out of memory".to_string())));
}

#[test]
fn tokens_are_random_and_hashed() {
    let (a, hash_a) = new_token().unwrap();
    let (b, _) = new_token().unwrap();
    assert_ne!(a, b);
    assert_eq!(a.len(), 64);
    assert_eq!(hash_a, token_hash(&a));
    assert_eq!(hash_a.len(), 32);
}

#[test]
fn tokens_are_hexadecimal_and_hash_with_sha_256() {
    let (token, hash) = token_from(&[0, 15, 255]);
    assert_eq!(token, "000fff");
    assert_eq!(hash, token_hash("000fff"));
    // The digest of the three bytes `abc`.
    assert_eq!(token_hash("abc")[..4], [0xba, 0x78, 0x16, 0xbf]);
}

#[test]
fn cookie_parsing() {
    let map = headers(&[("cookie", "a=1; printhub_session=abc"), ("cookie", "b=2")]);
    assert_eq!(cookie_value(&map, SESSION_COOKIE).as_deref(), Some("abc"));
    assert_eq!(cookie_value(&map, "b").as_deref(), Some("2"));
    assert_eq!(cookie_value(&map, "c"), None);
}

#[test]
fn cookies_say_how_long_they_last() {
    assert_eq!(
        session_cookie("abc", false),
        "printhub_session=abc; Path=/; HttpOnly; SameSite=Lax; Max-Age=2592000"
    );
    assert_eq!(
        clear_session_cookie(true),
        "printhub_session=; Path=/; HttpOnly; SameSite=Lax; Max-Age=0; Secure"
    );
}

#[test]
fn same_origin_checks() {
    assert!(same_origin(
        &headers(&[("host", "pi5:8080"), ("origin", "http://pi5:8080")]),
        false
    ));
    assert!(!same_origin(
        &headers(&[("host", "pi5:8080"), ("origin", "http://evil:8080")]),
        false
    ));
    assert!(same_origin(
        &headers(&[("host", "pi5:8080"), ("referer", "http://pi5:8080/admin?x=1")]),
        false
    ));
    assert!(!same_origin(&headers(&[("host", "pi5:8080")]), false));
    assert!(!same_origin(
        &headers(&[("host", "pi5:8080"), ("origin", "null")]),
        false
    ));

    let proxied = headers(&[
        ("host", "127.0.0.1:8080"),
        ("x-forwarded-host", "printer.tail.ts.net"),
        ("x-forwarded-proto", "https"),
        ("origin", "https://printer.tail.ts.net"),
    ]);
    assert!(same_origin(&proxied, true));
    assert!(
        !same_origin(&proxied, false),
        "forwarded host ignored unless trusted"
    );
    assert!(is_https(&proxied, true));
    assert!(!is_https(&proxied, false));
    assert_eq!(request_host(&proxied, true).as_deref(), Some("printer.tail.ts.net"));
    assert_eq!(request_host(&proxied, false).as_deref(), Some("127.0.0.1:8080"));
}

#[test]
fn only_the_first_entry_of_a_forwarded_header_counts() {
    let map = headers(&[
        ("host", "inner"),
        ("x-forwarded-host", "outer.example , second.example"),
        ("x-forwarded-proto", "HTTPS, http"),
    ]);
    assert_eq!(request_host(&map, true).as_deref(), Some("outer.example"));
    assert!(is_https(&map, true));
    assert_eq!(authority("http://pi5:8080/x?y").as_deref(), Some("pi5:8080"));
    assert_eq!(authority("null"), None);
}

#[test]
fn limiter_locks_after_free_attempts() {
    let mut limiter = LoginLimiter::default();
    for _ in 0..FREE_ATTEMPTS - 1 {
        limiter.record_failure("Sam", 1_000);
    }
    assert!(limiter.retry_after("sam", 1_000).is_none());
    limiter.record_failure("SAM", 1_000);
    assert!(limiter.retry_after("sam", 1_000).is_some());
    limiter.record_success("sam");
    assert!(limiter.retry_after("sam", 1_000).is_none());
}

#[test]
fn waiting_long_enough_unlocks() {
    let mut limiter = LoginLimiter::default();
    for _ in 0..FREE_ATTEMPTS {
        limiter.record_failure("sam", 5_000);
    }
    assert_eq!(limiter.retry_after("sam", 5_000), Some(1_000));
    assert_eq!(limiter.retry_after("sam", 5_400), Some(600));
    assert_eq!(limiter.retry_after("sam", 6_000), None);
    assert_eq!(limiter.retry_after("kim", 5_000), None);
}

#[test]
fn lockout_doubles_and_caps() {
    assert_eq!(lockout(4), None);
    assert_eq!(lockout(5), Some(1));
    assert_eq!(lockout(8), Some(8));
    assert_eq!(lockout(60), Some(MAX_LOCKOUT));
}

#[test]
fn only_requests_that_change_something_need_an_origin() {
    let own = headers(&[("host", "pi5:8080"), ("origin", "http://pi5:8080")]);
    let other = headers(&[("host", "pi5:8080"), ("origin", "http://evil:8080")]);
    for method in ["GET", "HEAD", "OPTIONS"] {
        assert!(may_pass(method, &other, false), "{method}");
    }
    for method in ["POST", "PUT", "DELETE", "PATCH", "get"] {
        assert!(may_pass(method, &own, false), "{method}");
        assert!(!may_pass(method, &other, false), "{method}");
    }
}
