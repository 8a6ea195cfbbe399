use std::cell::Cell;
use vault_core::{retry, try_parse_string, AppHeaders, BetterLogging, Cached, LimitedReader, CORS};

#[test]
fn cached_wrappers_carry_the_directive() {
    let long = Cached::long("body");
    assert_eq!(long.1, "public, max-age=604800");
    assert_eq!(long.0, "body");
    let short = Cached::short(5u32);
    assert_eq!(short.1, "public, max-age=600");
    assert_eq!(short.0, 5);
}

#[test]
fn valid_url_widens_file_origin() {
    assert_eq!(CORS::valid_url("file://".to_string()), "*");
    assert_eq!(
        CORS::valid_url("https://vault.example".to_string()),
        "https://vault.example"
    );
}

#[test]
fn app_headers_lists_the_security_policy() {
    let hs = AppHeaders().headers();
    assert_eq!(hs.len(), 6);
    assert_eq!(hs[0].0, "Feature-Policy");
    assert!(hs[0].1.contains("accelerometer 'none'"));
    assert!(hs[0].1.contains("sync-xhr 'self' https://haveibeenpwned.com"));
    assert_eq!(hs[1], ("Referrer-Policy", "same-origin"));
    assert_eq!(
        hs[5],
        (
            "Content-Security-Policy",
            "frame-ancestors 'self' chrome-extension://nngceckbapebfimnlniiiahkandclblb moz-extension://*;"
        )
    );
    assert_eq!(
        AppHeaders().default_cache_control(false),
        Some("no-cache, no-store, max-age=0")
    );
    assert_eq!(AppHeaders().default_cache_control(true), None);
}

#[test]
fn logging_follows_the_route_whitelist() {
    let plain = BetterLogging(false);
    assert!(plain.log_request("/api/sync", false));
    assert!(plain.log_request("/notifications/hub/negotiate", false));
    assert!(!plain.log_request("/alive", false));
    assert!(!plain.log_request("/bwrs_static/logo.png", false));
    assert!(!plain.log_request("/api/sync", true));
    let extra = BetterLogging(true);
    assert!(extra.log_request("/alive", true));
}

#[test]
fn route_prefixes_match_literally() {
    assert!(vault_core::logged_route("/admin"));
    assert!(vault_core::logged_route("/attachments/abc"));
    assert!(!vault_core::logged_route("/attach"));
    assert!(!vault_core::logged_route("api/sync"));
    assert!(vault_core::str_starts_with("éclair", "é"));
    assert!(!vault_core::str_starts_with("é", "éclair"));
}

#[test]
fn limited_reader_stops_past_the_budget() {
    let mut r = LimitedReader::new(10);
    assert!(r.admit_read(6));
    assert!(r.admit_read(4));
    assert!(!r.admit_read(1));
}

#[test]
fn retry_returns_first_success_within_budget() {
    let calls = Cell::new(0);
    let out: Result<i32, &str> = retry(
        || {
            calls.set(calls.get() + 1);
            if calls.get() < 3 { Err("transient") } else { Ok(42) }
        },
        5,
    );
    assert_eq!(out, Ok(42));
    assert_eq!(calls.get(), 3);

    let calls2 = Cell::new(0);
    let out2: Result<i32, &str> = retry(
        || {
            calls2.set(calls2.get() + 1);
            Err("down")
        },
        3,
    );
    assert_eq!(out2, Err("down"));
    assert_eq!(calls2.get(), 3);
}

#[test]
fn uuids_are_hyphenated_and_distinct() {
    let a = vault_core::get_uuid();
    let b = vault_core::get_uuid();
    assert_eq!(a.len(), 36);
    assert_ne!(a, b);
    for (i, c) in a.chars().enumerate() {
        if i == 8 || i == 13 || i == 18 || i == 23 {
            assert_eq!(c, '-');
        } else {
            assert!(c.is_ascii_hexdigit() && !c.is_ascii_uppercase());
        }
    }
    assert_eq!(a.chars().nth(14), Some('4'));
    assert!(matches!(a.chars().nth(19), Some('8' | '9' | 'a' | 'b')));
}

#[test]
fn try_parse_string_parses_through_results() {
    let n: Option<i32> = try_parse_string(Ok::<_, ()>("42"));
    assert_eq!(n, Some(42));
    let bad: Option<i32> = try_parse_string(Ok::<_, ()>("x"));
    assert_eq!(bad, None);
    let err: Option<i32> = try_parse_string(Err::<&str, _>(()));
    assert_eq!(err, None);
}

#[test]
fn upcase_first_handles_empty_multibyte_and_plain() {
    assert_eq!(vault_core::upcase_first(""), "");
    assert_eq!(vault_core::upcase_first("name"), "Name");
    assert_eq!(vault_core::upcase_first("éclair"), "Éclair");
    // some characters uppercase to more than one character
    assert_eq!(vault_core::upcase_first("ßest"), "SSest");
}

#[test]
fn process_key_keeps_the_abbreviation_whole() {
    assert_eq!(vault_core::_process_key("ssn"), "SSN");
    assert_eq!(vault_core::_process_key("SsN"), "SSN");
    assert_eq!(vault_core::_process_key("name"), "Name");
    assert_eq!(vault_core::_process_key("folderId"), "FolderId");
}

#[test]
fn display_size_scales_and_trims() {
    assert_eq!(vault_core::get_display_size(0), "0 bytes");
    assert_eq!(vault_core::get_display_size(1024), "1024 bytes");
    assert_eq!(vault_core::get_display_size(1536), "1.5 KB");
    assert_eq!(vault_core::get_display_size(1025), "1 KB");
    assert_eq!(vault_core::get_display_size(2 * 1024 * 1024), "2 MB");
    assert_eq!(vault_core::get_display_size(1288490189), "1.2 GB");
    assert_eq!(vault_core::get_display_size(-5), "-5 bytes");
}

#[test]
fn timestamps_render_like_the_wire_format() {
    assert_eq!(
        vault_core::format_timestamp(0, 0),
        "1970-01-01T00:00:00.000000Z"
    );
    // cross-checked against the calendar crate's rendering
    for (secs, micros) in [
        (951_868_800u64, 1u32),      // a leap-century March
        (4_107_542_399, 999_999),    // a far year end
        (1_230_768_000, 42_000),
        (86_399, 123_456),
    ] {
        let expected = chrono::DateTime::from_timestamp(secs as i64, micros * 1000)
            .unwrap()
            .naive_utc()
            .format("%Y-%m-%dT%H:%M:%S%.6fZ")
            .to_string();
        assert_eq!(vault_core::format_timestamp(secs, micros), expected);
    }
}
