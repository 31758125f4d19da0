use estate_harvest::config::{driver_kind, parse_mode, ConfigError, DriverKind, Mode, SourceProfile};
use estate_harvest::pagination::StopRule;
use estate_harvest::retry::{Backoff, RetryPolicy};
use estate_harvest::schema::{to_llm_request_body_json, FREE_LLAMA_MODEL, SYSTEM_CONTENT, USER_CONTENT};

#[test]
fn mode_names_select_modes() {
    assert_eq!(parse_mode("remax"), Some(Mode::Remax));
    assert_eq!(parse_mode("era"), Some(Mode::Era));
    assert_eq!(parse_mode("supercasas"), Some(Mode::SuperCasas));
    assert_eq!(parse_mode("imovirtual"), Some(Mode::Imovirtual));
    assert_eq!(parse_mode("idealista"), Some(Mode::Idealista));
    assert_eq!(parse_mode("llm"), Some(Mode::Enrich));
    assert_eq!(parse_mode("Remax"), None);
    assert_eq!(parse_mode(""), None);
}

#[test]
fn driver_path_selects_browser() {
    assert_eq!(driver_kind("/opt/chromedriver"), Ok(DriverKind::Chrome));
    assert_eq!(driver_kind("/usr/bin/safaridriver"), Ok(DriverKind::Safari));
    assert_eq!(driver_kind("/usr/bin/geckodriver"), Err(ConfigError::UnsupportedDriver));
}

#[test]
fn profiles_follow_sources() {
    let idealista: SourceProfile = Mode::Idealista.profile().unwrap();
    assert_eq!(idealista.stop_rule, StopRule::Marker);
    assert!(idealista.by_region);
    assert_eq!(
        idealista.listing_retry,
        RetryPolicy { backoff: Backoff::Exponential { base_ms: 500, max_delay_ms: 30000 }, max_retries: 3 }
    );
    assert_eq!(Mode::Era.profile().unwrap().stop_rule, StopRule::RepeatedPage);
    assert_eq!(Mode::SuperCasas.profile().unwrap().listing_retry.max_retries, 6);
    assert_eq!(Mode::Enrich.profile(), None);
}

#[test]
fn request_body_wraps_listing() {
    let body = to_llm_request_body_json("{\"url_id\":\"A1\"}".to_string());
    assert_eq!(body.model, FREE_LLAMA_MODEL);
    assert_eq!(body.messages.len(), 2);
    assert_eq!(body.messages[0].role, "system");
    assert_eq!(body.messages[0].content, SYSTEM_CONTENT);
    assert_eq!(body.messages[1].role, "user");
    assert_eq!(body.messages[1].content, format!("{}\n {}", USER_CONTENT, "{\"url_id\":\"A1\"}"));
}

#[test]
fn every_source_retries_listings_and_pages() {
    for mode in [Mode::Era, Mode::Remax, Mode::Imovirtual, Mode::SuperCasas, Mode::Idealista] {
        let profile = mode.profile().unwrap();
        assert!(profile.listing_retry.max_retries >= 1);
        assert_eq!(profile.page_retry.max_retries, 2);
    }
    assert_eq!(
        Mode::Imovirtual.profile().unwrap().listing_retry,
        RetryPolicy { backoff: Backoff::Exponential { base_ms: 500, max_delay_ms: 30000 }, max_retries: 3 }
    );
}
