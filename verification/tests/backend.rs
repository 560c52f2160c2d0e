use snake::auth::{
    attempts_left, check_pin, is_authenticated, lockout_message, lockout_minutes, secrets_match,
    PinVerdict, SessionStore, VerifyPinPayload,
};
use snake::bootstrap::{port_from_env, DEFAULT_PORT, PORT_ENV};
use snake::config::{
    assemble_port, page_history_cookie_age_from_env, APP_BRAND, DEFAULT_NODE_ENV,
    DEFAULT_PAGE_HISTORY_COOKIE_AGE_DAYS, NODE_ENV_VAR, PAGE_HISTORY_COOKIE_AGE_ENV,
};
use snake::cookie::{
    build_auth_cookie, build_clear_cookie, clamp_seconds, COOKIE_NAME, MAX_LIFETIME_SECONDS,
    MIN_LIFETIME_SECONDS,
};
use snake::error::{AppError, INTERNAL_SERVER_ERROR};
use snake::leaderboard::{
    add_to_leaderboard, prepare_entry, sanitize_player_name, LeaderboardEntry, ANONYMOUS_NAME,
    MAX_LEADERBOARD_ENTRIES, MAX_PLAYER_NAME_CHARS,
};
use snake::metrics::{prometheus_text, Metrics};
use snake::middleware::{
    cors_policy, names_base_url, names_host, origin_allowed, request_is_secure, split_comma_items,
    CorsPolicy,
    HSTS_HEADER_VALUE,
};
use snake::pages::{
    inject_site_title, is_html_content_type, login_redirect_location, post_login_path,
    replace_all_str,
};
use snake::session::{generate_session_id, hex_encode, SESSION_ID_BYTES};
use std::collections::HashSet;

// ---- bootstrap ----

#[test]
fn port_from_env_defaults_when_missing() {
    assert_eq!(port_from_env(None), DEFAULT_PORT);
}

#[test]
fn port_from_env_defaults_on_invalid() {
    assert_eq!(port_from_env(Some("not-a-number")), DEFAULT_PORT);
    assert_eq!(port_from_env(Some("-1")), DEFAULT_PORT);
    assert_eq!(port_from_env(Some("999999")), DEFAULT_PORT);
}

#[test]
fn port_from_env_reads_valid_value() {
    assert_eq!(port_from_env(Some("9090")), 9090);
    assert_eq!(port_from_env(Some("0")), 0);
    assert_eq!(port_from_env(Some("65535")), 65535);
}

#[test]
fn bootstrap_constants_have_expected_values() {
    assert_eq!(DEFAULT_PORT, 4501);
    assert_eq!(PORT_ENV, "PORT");
}

#[test]
fn port_from_env_follows_std_parsing_edges() {
    assert_eq!(port_from_env(Some("+80")), 80);
    assert_eq!(port_from_env(Some("+")), DEFAULT_PORT);
    assert_eq!(port_from_env(Some("")), DEFAULT_PORT);
    assert_eq!(port_from_env(Some(" 80")), DEFAULT_PORT);
    assert_eq!(port_from_env(Some("65536")), DEFAULT_PORT);
    assert_eq!(port_from_env(Some("0080")), 80);
    for raw in ["1", "443", "8080", "65535", "00", "+7", "x", "1e3", "99999999999999999999999"] {
        assert_eq!(port_from_env(Some(raw)), raw.parse::<u16>().unwrap_or(DEFAULT_PORT));
    }
}

// ---- config ----

#[test]
fn config_constants_have_expected_values() {
    assert_eq!(DEFAULT_NODE_ENV, "development");
    assert_eq!(DEFAULT_PAGE_HISTORY_COOKIE_AGE_DAYS, 365);
    assert_eq!(NODE_ENV_VAR, "NODE_ENV");
    assert_eq!(PAGE_HISTORY_COOKIE_AGE_ENV, "PAGE_HISTORY_COOKIE_AGE");
    assert_eq!(APP_BRAND, "Snake");
}

#[test]
fn assemble_does_not_clobber_default_port() {
    // Passing the shared default means "don't override".
    assert_eq!(assemble_port(4401, 4401), 4401);
    assert_eq!(assemble_port(7000, 4401), 7000);
}

#[test]
fn assemble_overrides_port_when_non_default() {
    assert_eq!(assemble_port(4401, 9090), 9090);
    // A port the shared loader read from the environment wins.
    assert_eq!(assemble_port(7000, 9090), 7000);
}

#[test]
fn page_history_cookie_age_parses_signed_days() {
    assert_eq!(page_history_cookie_age_from_env(None), 365);
    assert_eq!(page_history_cookie_age_from_env(Some("7")), 7);
    assert_eq!(page_history_cookie_age_from_env(Some("-3")), -3);
    assert_eq!(page_history_cookie_age_from_env(Some("+12")), 12);
    assert_eq!(page_history_cookie_age_from_env(Some("abc")), 365);
    assert_eq!(page_history_cookie_age_from_env(Some("-9223372036854775808")), i64::MIN);
    assert_eq!(page_history_cookie_age_from_env(Some("9223372036854775807")), i64::MAX);
    assert_eq!(page_history_cookie_age_from_env(Some("9223372036854775808")), 365);
    assert_eq!(page_history_cookie_age_from_env(Some("-")), 365);
}

// ---- metrics ----

fn fixture() -> Metrics {
    Metrics::new("1.2.3", 0, 0)
}

#[test]
fn render_produces_prometheus_text() {
    let mut m = fixture();
    m.inc_requests();
    m.inc_requests();
    m.inc_rate_limited();
    m.set_active_sessions(7);
    m.set_leaderboard_entries(4);

    let out = prometheus_text(&m);
    let expected = "snake_requests_total 2\n\
                    snake_requests_429_total 1\n\
                    snake_active_sessions 7\n\
                    snake_leaderboard_entries 4\n\
                    snake_build_info{version=\"1.2.3\"} 1\n";
    assert_eq!(out, expected);
}

#[test]
fn inc_rate_limited_visible_after_increment() {
    let mut m = fixture();
    assert_eq!(m.requests_429_total, 0);
    m.inc_rate_limited();
    m.inc_rate_limited();
    m.inc_rate_limited();
    assert_eq!(m.requests_429_total, 3);
    let out = prometheus_text(&m);
    assert!(out.contains("snake_requests_429_total 3\n"));
}

#[test]
fn render_is_zero_by_default() {
    let m = fixture();
    let out = prometheus_text(&m);
    assert!(out.starts_with("snake_requests_total 0\n"));
    assert!(out.contains("snake_requests_429_total 0\n"));
    assert!(out.contains("snake_active_sessions 0\n"));
    assert!(out.contains("snake_leaderboard_entries 0\n"));
    assert!(out.ends_with("snake_build_info{version=\"1.2.3\"} 1\n"));
}

#[test]
fn metrics_counters_wrap_and_render_large_values() {
    let mut m = Metrics::new("9.9.9", 2, 1);
    m.requests_total = u64::MAX;
    m.inc_requests();
    assert_eq!(m.requests_total, 0);
    m.set_active_sessions(u64::MAX);
    m.set_leaderboard_entries(1234567890);
    let out = prometheus_text(&m);
    assert_eq!(
        out,
        "snake_requests_total 0\nsnake_requests_429_total 0\nsnake_active_sessions 18446744073709551615\nsnake_leaderboard_entries 1234567890\nsnake_build_info{version=\"9.9.9\"} 1\n"
    );
}

// ---- cookie ----

#[test]
fn auth_cookie_uses_session_id() {
    let c = build_auth_cookie("deadbeef", 24, false);
    assert_eq!(c.name, COOKIE_NAME);
    assert_eq!(c.value, "deadbeef");
    assert_eq!(c.path, "/");
    assert!(c.http_only);
    assert!(!c.secure); // explicit false
}

#[test]
fn auth_cookie_secure_flag_propagates() {
    let c = build_auth_cookie("x", 24, true);
    assert!(c.secure);
}

#[test]
fn clear_cookie_has_zero_max_age() {
    let c = build_clear_cookie(false);
    assert_eq!(c.value, "");
    assert_eq!(c.max_age_seconds, 0);
}

#[test]
fn clamps_negative_hours_to_one_minute() {
    let c = build_auth_cookie("x", -1, false);
    assert_eq!(c.max_age_seconds, MIN_LIFETIME_SECONDS);
}

#[test]
fn clamps_overly_large_hours_to_thirty_days() {
    let c = build_auth_cookie("x", 24 * 365 * 100, false);
    assert_eq!(c.max_age_seconds, MAX_LIFETIME_SECONDS);
}

#[test]
fn cookie_lifetime_exact_values() {
    assert_eq!(build_auth_cookie("x", 24, false).max_age_seconds, 86400);
    assert_eq!(build_auth_cookie("x", 0, false).max_age_seconds, 60);
    assert_eq!(build_auth_cookie("x", 720, false).max_age_seconds, 2592000);
    assert_eq!(build_auth_cookie("x", 721, false).max_age_seconds, 2592000);
    assert_eq!(build_auth_cookie("x", i64::MAX, false).max_age_seconds, 2592000);
    assert_eq!(build_auth_cookie("x", i64::MIN, false).max_age_seconds, 60);
    assert_eq!(clamp_seconds(59), 60);
    assert_eq!(clamp_seconds(61), 61);
    assert!(build_auth_cookie("x", 1, false).same_site_strict);
}

// ---- error ----

#[test]
fn internal_status_is_500() {
    assert_eq!(AppError::internal("oops").status(), INTERNAL_SERVER_ERROR);
}

#[test]
fn io_error_maps_to_500() {
    let e = AppError::Io(std::io::Error::other("disk"));
    assert_eq!(e.status(), INTERNAL_SERVER_ERROR);
}

#[test]
fn json_error_maps_to_500() {
    let e = AppError::Json(serde_json::from_str::<serde_json::Value>("{").unwrap_err());
    assert_eq!(e.status(), INTERNAL_SERVER_ERROR);
}

#[test]
fn into_response_redacts_internal_details() {
    let err = AppError::internal("db password leaked into message");
    assert_eq!(err.status(), INTERNAL_SERVER_ERROR);
    assert_eq!(err.public_message(), "internal error");
    assert_eq!(AppError::Io(std::io::Error::other("/secret/path")).public_message(), "internal error: storage");
}

// ---- leaderboard ----

#[test]
fn sanitize_handles_empty() {
    assert_eq!(sanitize_player_name(""), ANONYMOUS_NAME);
    assert_eq!(sanitize_player_name("   "), ANONYMOUS_NAME);
    assert_eq!(sanitize_player_name("\t\n"), ANONYMOUS_NAME);
}

#[test]
fn sanitize_trims_whitespace() {
    assert_eq!(sanitize_player_name("  alice  "), "alice");
}

#[test]
fn sanitize_keeps_short_names_untouched() {
    assert_eq!(sanitize_player_name("alice"), "alice");
}

#[test]
fn sanitize_truncates_by_chars_not_bytes() {
    let emoji_name = "😀".repeat(16);
    let out = sanitize_player_name(&emoji_name);
    assert_eq!(out.chars().count(), MAX_PLAYER_NAME_CHARS);
}

#[test]
fn sanitize_truncates_multibyte_gracefully() {
    let s = "héllo wörld 你好世界";
    let out = sanitize_player_name(s);
    assert_eq!(out.chars().count(), MAX_PLAYER_NAME_CHARS);
    assert!(s.starts_with(&out));
}

#[test]
fn sanitize_exactly_at_limit_is_unchanged() {
    let s: String = "a".repeat(MAX_PLAYER_NAME_CHARS);
    assert_eq!(sanitize_player_name(&s), s);
}

#[test]
fn sanitize_matches_std_trim_on_unicode_space() {
    for raw in ["\u{3000}bob\u{00A0}", "\u{2028}x\u{85}", "\u{200B}zero-width", " a b "] {
        let expected: String = raw.trim().chars().take(15).collect();
        let expected = if expected.is_empty() { ANONYMOUS_NAME.to_string() } else { expected };
        assert_eq!(sanitize_player_name(raw), expected);
    }
}

fn entry(name: &str, score: u32) -> LeaderboardEntry {
    LeaderboardEntry { name: name.to_string(), score, date: "2026-01-01T00:00:00Z".to_string() }
}

fn names(list: &[LeaderboardEntry]) -> Vec<String> {
    list.iter().map(|e| e.name.clone()).collect()
}

#[test]
fn leaderboard_sorts_descending_and_keeps_ties_in_order() {
    let list = vec![entry("a", 10), entry("b", 30), entry("c", 10)];
    let board = add_to_leaderboard(list, entry("d", 10));
    assert_eq!(names(&board), vec!["b", "a", "c", "d"]);
    assert_eq!(board.iter().map(|e| e.score).collect::<Vec<_>>(), vec![30, 10, 10, 10]);
}

#[test]
fn leaderboard_keeps_top_ten() {
    let list: Vec<LeaderboardEntry> = (0..10).map(|i| entry(&format!("p{i}"), 100 - i)).collect();
    let board = add_to_leaderboard(list, entry("low", 5));
    assert_eq!(board.len(), MAX_LEADERBOARD_ENTRIES);
    assert!(!names(&board).contains(&"low".to_string()));

    let list: Vec<LeaderboardEntry> = (0..10).map(|i| entry(&format!("p{i}"), 100 - i)).collect();
    let board = add_to_leaderboard(list, entry("top", 500));
    assert_eq!(board.len(), MAX_LEADERBOARD_ENTRIES);
    assert_eq!(board[0].name, "top");
    assert_eq!(board[9].name, "p8");

    // A tie with the last place loses to the earlier entry.
    let list: Vec<LeaderboardEntry> = (0..10).map(|i| entry(&format!("p{i}"), 100 - i)).collect();
    let board = add_to_leaderboard(list, entry("tie", 91));
    assert!(!names(&board).contains(&"tie".to_string()));
}

#[test]
fn leaderboard_ranks_unsorted_files() {
    let list = vec![entry("x", 1), entry("y", 3), entry("z", 2)];
    let board = add_to_leaderboard(list, entry("w", 2));
    assert_eq!(names(&board), vec!["y", "z", "w", "x"]);
    let board = add_to_leaderboard(Vec::new(), entry("solo", 0));
    assert_eq!(names(&board), vec!["solo"]);
}

#[test]
fn prepare_entry_sanitises_and_stamps() {
    let raw = LeaderboardEntry { name: "   ".to_string(), score: 42, date: "forged".to_string() };
    let stored = prepare_entry(raw, "2026-07-01T00:00:00+00:00".to_string());
    assert_eq!(stored.name, "Anonymous");
    assert_eq!(stored.score, 42);
    assert_eq!(stored.date, "2026-07-01T00:00:00+00:00");
}

// ---- auth ----

#[test]
fn no_pin_configured_implies_authenticated() {
    let sessions = SessionStore::new();
    assert!(is_authenticated(None, None, &sessions, None));
}

#[test]
fn valid_session_cookie_authenticates() {
    let mut sessions = SessionStore::new();
    sessions.register_session("token-a".to_string());
    assert!(is_authenticated(Some("12345678"), Some("token-a"), &sessions, None));
}

#[test]
fn invalid_session_cookie_rejects() {
    let sessions = SessionStore::new();
    assert!(!is_authenticated(Some("12345678"), Some("token-bogus"), &sessions, None));
}

#[test]
fn matching_x_pin_header_authenticates() {
    let sessions = SessionStore::new();
    assert!(is_authenticated(Some("12345678"), None, &sessions, Some("12345678")));
}

#[test]
fn wrong_x_pin_header_rejects() {
    let sessions = SessionStore::new();
    assert!(!is_authenticated(Some("12345678"), None, &sessions, Some("00000000")));
}

#[test]
fn no_creds_with_pin_configured_rejects() {
    let sessions = SessionStore::new();
    assert!(!is_authenticated(Some("12345678"), None, &sessions, None));
}

#[test]
fn stale_cookie_falls_back_to_header() {
    let sessions = SessionStore::new();
    assert!(is_authenticated(Some("1234"), Some("stale"), &sessions, Some("1234")));
    assert!(!is_authenticated(Some("1234"), Some("stale"), &sessions, Some("9999")));
    assert!(!is_authenticated(Some("1234"), Some("stale"), &sessions, None));
}

#[test]
fn session_lifecycle_register_and_revoke() {
    let mut state = SessionStore::new();
    assert_eq!(state.active_session_count(), 0);
    state.register_session("token-a".to_string());
    assert!(state.session_is_valid("token-a"));
    assert_eq!(state.active_session_count(), 1);
    state.revoke_session("token-a");
    assert!(!state.session_is_valid("token-a"));
}

#[test]
fn session_store_counts_distinct_tokens() {
    let mut state = SessionStore::new();
    state.register_session("a".to_string());
    state.register_session("b".to_string());
    state.register_session("a".to_string());
    assert_eq!(state.active_session_count(), 2);
    state.revoke_session("zzz");
    assert_eq!(state.active_session_count(), 2);
    state.revoke_session("a");
    assert!(state.session_is_valid("b"));
    assert_eq!(state.active_session_count(), 1);
}

#[test]
fn pin_checks_cover_every_verdict() {
    assert_eq!(check_pin("1234", "123"), PinVerdict::BadFormat);
    assert_eq!(check_pin("1234", &"9".repeat(65)), PinVerdict::BadFormat);
    assert_eq!(check_pin("1234", "4321"), PinVerdict::Mismatch);
    assert_eq!(check_pin("1234", "1234"), PinVerdict::Accepted);
    assert_eq!(check_pin("ééééé", "ééééé"), PinVerdict::Accepted);
    assert!(secrets_match("abc", "abc"));
    assert!(!secrets_match("abc", "abcd"));
    let payload = VerifyPinPayload { pin: "0000".to_string() };
    assert_eq!(check_pin("1234", &payload.pin), PinVerdict::Mismatch);
}

#[test]
fn lockout_arithmetic_and_message() {
    assert_eq!(attempts_left(5, 2), 3);
    assert_eq!(attempts_left(5, 9), 0);
    assert_eq!(lockout_minutes(0), 0);
    assert_eq!(lockout_minutes(60), 1);
    assert_eq!(lockout_minutes(61), 2);
    assert_eq!(lockout_message(899), "Too many attempts. Please try again in 15 minute(s).");
}

// ---- session ids ----

#[test]
fn session_id_is_32_hex_chars() {
    let id = generate_session_id();
    assert_eq!(id.len(), SESSION_ID_BYTES * 2);
    assert!(id.chars().all(|c| c.is_ascii_hexdigit()));
}

#[test]
fn session_ids_are_unique() {
    let mut seen = HashSet::new();
    for _ in 0..256 {
        let id = generate_session_id();
        assert!(seen.insert(id), "collision in 256 generated ids");
    }
}

#[test]
fn hex_encoding_is_lower_case_two_per_byte() {
    assert_eq!(hex_encode(&[0x00, 0x0f, 0xbe, 0xef, 0xff]), "000fbeefff");
    assert_eq!(hex_encode(&[]), "");
}

// ---- pages ----

#[test]
fn render_index_replaces_placeholder() {
    let body = "<title>{{SITE_TITLE}}</title>";
    let rendered = inject_site_title(body, APP_BRAND);
    assert!(
        rendered.contains(&format!("<title>{}</title>", APP_BRAND)),
        "rendered = {rendered:?}",
    );
}

#[test]
fn site_title_injection_matches_std_replace() {
    for body in ["", "{{SITE_TITLE}}", "a{{SITE_TITLE}}b{{SITE_TITLE}}", "{{SITE_{{SITE_TITLE}}", "no placeholder"] {
        assert_eq!(inject_site_title(body, "Snake"), body.replace("{{SITE_TITLE}}", "Snake"));
    }
    assert_eq!(replace_all_str("aaaa", "aa", "b"), "bb");
    assert!(is_html_content_type("text/html; charset=utf-8"));
    assert!(!is_html_content_type("application/json"));
}

#[test]
fn login_redirect_percent_encodes_the_uri() {
    assert_eq!(login_redirect_location("/"), "/login?redirect=%2F");
    assert_eq!(login_redirect_location("/a b?x=é"), "/login?redirect=%2Fa%20b%3Fx%3D%C3%A9");
    assert_eq!(login_redirect_location("abc123"), "/login?redirect=abc123");
}

#[test]
fn post_login_path_only_follows_local_paths() {
    assert_eq!(post_login_path(Some("/scores")), "/scores");
    assert_eq!(post_login_path(Some("//evil.example.com")), "/");
    assert_eq!(post_login_path(Some("https://evil.example.com")), "/");
    assert_eq!(post_login_path(Some("")), "/");
    assert_eq!(post_login_path(None), "/");
}

// ---- middleware ----

#[test]
fn hsts_follows_forwarded_proto_then_base_url() {
    assert!(request_is_secure(Some("HTTPS"), "http://x"));
    assert!(!request_is_secure(Some("http"), "https://x"));
    assert!(request_is_secure(None, "https://x"));
    assert!(!request_is_secure(None, "http://x"));
    assert_eq!(HSTS_HEADER_VALUE, "max-age=31536000; includeSubDomains");
}

#[test]
fn cors_policy_reads_origin_lists() {
    assert!(matches!(cors_policy(" * "), CorsPolicy::AnyOrigin));
    assert!(matches!(cors_policy("   "), CorsPolicy::NullOrigin));
    match cors_policy(" https://a.example , ,https://b.example,") {
        CorsPolicy::Origins(list) => assert_eq!(list, vec!["https://a.example", "https://b.example"]),
        _ => panic!("expected a list"),
    }
    assert_eq!(split_comma_items(",,"), Vec::<String>::new());
    assert_eq!(split_comma_items("a"), vec!["a"]);
}

#[test]
fn origin_check_decisions() {
    assert!(!origin_allowed(None, true, true, true));
    assert!(!origin_allowed(Some("null"), false, true, true));
    assert!(origin_allowed(Some("NULL"), true, false, false));
    assert!(origin_allowed(Some("http://localhost:4401"), false, false, true));
    assert!(origin_allowed(Some("http://host"), false, true, false));
    assert!(!origin_allowed(Some("https://evil.example.com"), true, false, false));
}

#[test]
fn login_redirect_parameter_cannot_break_out_of_the_query() {
    let location = login_redirect_location("/x&admin=1#frag\u{2003}/../");
    let param = location.strip_prefix("/login?redirect=").expect("prefix");
    assert!(param.chars().all(|c| c.is_ascii_alphanumeric() || c == '%'));
    assert_eq!(param, "%2Fx%26admin%3D1%23frag%E2%80%83%2F%2E%2E%2F");
}

#[test]
fn listed_origins_are_trimmed_and_non_empty() {
    for item in split_comma_items("\t https://a.example \u{3000},\n,https://b.example\r\n") {
        assert!(!item.is_empty());
        assert_eq!(item.trim(), item);
    }
}

#[test]
fn many_increments_add_up() {
    let mut m = Metrics::new("v", 0, 0);
    for _ in 0..1000 {
        m.inc_requests();
    }
    assert_eq!(m.requests_total, 1000);
    assert_eq!(m.requests_429_total, 0);
}

#[test]
fn origin_names_host_after_its_scheme() {
    assert!(names_host("http://localhost:4501", Some("localhost:4501")));
    assert!(names_host("https://snake.example", Some("snake.example")));
    assert!(names_host("snake.example", Some("snake.example")));
    assert!(!names_host("https://evil.example", Some("snake.example")));
    assert!(!names_host("http://localhost:4501", None));
    assert!(!names_host("ftp://snake.example", Some("snake.example")));
}

#[test]
fn origin_names_base_url_up_to_trailing_slashes() {
    assert!(names_base_url("https://snake.example", "https://snake.example/"));
    assert!(names_base_url("https://snake.example//", "https://snake.example"));
    assert!(!names_base_url("https://snake.example", ""));
    assert!(!names_base_url("", ""));
    assert!(!names_base_url("https://evil.example", "https://snake.example"));
    assert!(!names_base_url("http://snake.example", "https://snake.example"));
}
