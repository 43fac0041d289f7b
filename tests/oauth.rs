use screen_io::oauth::{
    accept_code_submission, exchange_form, expiry_after, format_track, now_playing_text,
    refresh_form, token_plan, ExchangeCodePayload, OAuth2CodeSubmission, OAuth2Token,
    RefreshTokenPayload, SubmissionError, TokenPlan,
};

fn pairs(v: &[(&str, &str)]) -> Vec<(String, String)> {
    v.iter().map(|(k, x)| (k.to_string(), x.to_string())).collect()
}

fn token(access: &str, refresh: &str, expires_at: i64) -> OAuth2Token {
    OAuth2Token {
        app_name: "spotify".to_string(),
        client_secret: "secret".to_string(),
        client_id: "id".to_string(),
        redirect_uri: "https://localhost:2700".to_string(),
        access_token: access.to_string(),
        refresh_token: refresh.to_string(),
        expires_at,
        code: "code".to_string(),
        get_token_url: "https://accounts.example/token".to_string(),
        created_at: 0,
    }
}

#[test]
fn exchange_form_fields() {
    let p = ExchangeCodePayload {
        code: "c".to_string(),
        redirect_uri: "r".to_string(),
        client_id: "i".to_string(),
        client_secret: "s".to_string(),
        get_token_url: "u".to_string(),
    };
    assert_eq!(
        exchange_form(&p),
        pairs(&[
            ("grant_type", "authorization_code"),
            ("code", "c"),
            ("redirect_uri", "r"),
            ("client_id", "i"),
            ("client_secret", "s"),
        ])
    );
}

#[test]
fn refresh_form_fields() {
    let p = RefreshTokenPayload {
        client_id: "i".to_string(),
        client_secret: "s".to_string(),
        refresh_token: "t".to_string(),
        get_token_url: "u".to_string(),
    };
    assert_eq!(
        refresh_form(&p),
        pairs(&[
            ("grant_type", "refresh_token"),
            ("refresh_token", "t"),
            ("client_id", "i"),
            ("client_secret", "s"),
        ])
    );
}

#[test]
fn payloads_from_record() {
    let t = token("a", "r", 0);
    let e = t.exchange_payload();
    assert_eq!((e.code.as_str(), e.client_id.as_str()), ("code", "id"));
    assert_eq!(e.redirect_uri, "https://localhost:2700");
    let r = t.refresh_payload();
    assert_eq!((r.refresh_token.as_str(), r.client_secret.as_str()), ("r", "secret"));
    assert_eq!(r.get_token_url, "https://accounts.example/token");
}

#[test]
fn expiry() {
    assert_eq!(expiry_after(1_700_000_000, 3600), 1_700_003_600);
    assert_eq!(expiry_after(-10, 4), -6);
    assert_eq!(expiry_after(-10, 25), 15);
    assert_eq!(expiry_after(i64::MAX - 5, 10), i64::MAX);
    assert_eq!(expiry_after(0, u64::MAX), i64::MAX);
    assert_eq!(expiry_after(i64::MIN, u64::MAX), i64::MAX);
    assert_eq!(expiry_after(i64::MIN, 0), i64::MIN);
}

#[test]
fn plan_for_each_token_state() {
    assert_eq!(token_plan(&token("", "", 100), 50), TokenPlan { exchange_code: true, refresh: false });
    assert_eq!(token_plan(&token("a", "", 100), 50), TokenPlan { exchange_code: true, refresh: false });
    assert_eq!(token_plan(&token("a", "r", 100), 50), TokenPlan { exchange_code: false, refresh: false });
    assert_eq!(token_plan(&token("a", "r", 100), 100), TokenPlan { exchange_code: false, refresh: true });
    assert_eq!(token_plan(&token("", "r", 100), 200), TokenPlan { exchange_code: true, refresh: true });
}

fn submission(app: &str) -> OAuth2CodeSubmission {
    OAuth2CodeSubmission {
        code: "c".to_string(),
        app_name: app.to_string(),
        client_secret: "s".to_string(),
        client_id: "i".to_string(),
        redirect_uri: "r".to_string(),
        get_token_url: "u".to_string(),
    }
}

#[test]
fn code_submission() {
    let t = accept_code_submission(submission("spotify"), 42).unwrap();
    assert_eq!(t.app_name, "spotify");
    assert_eq!(t.code, "c");
    assert!(t.access_token.is_empty() && t.refresh_token.is_empty());
    assert_eq!((t.expires_at, t.created_at), (42, 42));
    assert_eq!(token_plan(&t, 42), TokenPlan { exchange_code: true, refresh: true });
    assert_eq!(
        accept_code_submission(submission("deezer"), 42).err(),
        Some(SubmissionError::InvalidAppName)
    );
}

#[test]
fn track_text() {
    assert_eq!(
        format_track(Some("Believer".to_string()), Some("Imagine Dragons".to_string())),
        Some("Imagine Dragons - Believer".to_string())
    );
    assert_eq!(format_track(Some("Believer".to_string()), None), None);
    assert_eq!(format_track(None, Some("Imagine Dragons".to_string())), None);
    assert_eq!(
        now_playing_text("Imagine Dragons - Believer"),
        "Currently playing: Imagine Dragons - Believer"
    );
}
