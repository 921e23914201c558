use mxu_telemetry::config::{
    build_startup_config, collect_gpu, collect_hardware, configure_scope, do_init,
    failure_event_config, init_at_startup, is_active, telemetry_init, telemetry_set_enabled, Guard,
    InitPlan, SwitchPlan, TelemetryInitConfig,
};
use mxu_telemetry::event::Datum;
use mxu_telemetry::sampling::{
    bucket_is_sampled, hashed_machine_id, should_sample_attachment, SampleRate,
};
use mxu_telemetry::version::{coerce_version, is_blocked_by_build, is_debug_version};
use sha2::Digest;

const DSN: &str = "https://public@example.invalid/1";

fn rate(value: f32) -> SampleRate {
    SampleRate { bits: value.to_bits() }
}

fn read_rate(value: &serde_json::Value) -> Option<SampleRate> {
    value.as_f64().map(|number| rate(number as f32))
}

fn json(text: &str) -> serde_json::Value {
    serde_json::from_str(text).expect("valid JSON")
}

fn config() -> TelemetryInitConfig {
    TelemetryInitConfig {
        dsn: DSN.to_string(),
        enabled: true,
        release: "MXU@1.0.0+App@1.0.0".to_string(),
        environment: "test".to_string(),
        tracing: true,
        traces_sample_rate: rate(0.5),
        failure_attachments_sample_rate: rate(1.5),
        app_name: "App".to_string(),
        app_version: "1.0.0".to_string(),
        mxu_version: "1.0.0".to_string(),
    }
}

#[test]
fn attachment_sampling_has_stable_boundaries() {
    assert!(!should_sample_attachment("run", 1, rate(0.0)));
    assert!(should_sample_attachment("run", 1, rate(1.0)));
    assert_eq!(
        should_sample_attachment("run", 42, rate(0.5)),
        should_sample_attachment("run", 42, rate(0.5))
    );
}

#[test]
fn sampling_compares_the_digest_with_the_rate() {
    let rates = [
        -1.0f32, -0.0, 0.0, f32::MIN_POSITIVE, 1e-40, 1e-9, 0.1, 0.25, 0.333, 0.5, 0.75, 0.9,
        0.999_999_94, 1.0, 2.0, f32::INFINITY, f32::NEG_INFINITY, f32::NAN,
    ];
    for id in -20i64..20 {
        let mut hasher = sha2::Sha256::new();
        hasher.update(b"mxu-failure-attachment-v1:");
        hasher.update("run-界".as_bytes());
        hasher.update(id.to_le_bytes());
        let digest = hasher.finalize();
        let mut start = [0u8; 8];
        start.copy_from_slice(&digest[..8]);
        let normalized = u64::from_le_bytes(start) as f64 / u64::MAX as f64;
        for value in rates {
            let clamped = value.clamp(0.0, 1.0);
            let expected = if clamped <= 0.0 {
                false
            } else if clamped >= 1.0 {
                true
            } else {
                normalized < clamped as f64
            };
            assert_eq!(should_sample_attachment("run-界", id, rate(value)), expected);
        }
    }
}

#[test]
fn buckets_are_compared_as_doubles() {
    let buckets = [
        0u64, 1, 2, 3, 1 << 52, (1 << 53) - 1, 1 << 53, (1 << 53) + 1, (1 << 62) + 255,
        (1 << 62) + 257, u64::MAX / 2, u64::MAX / 2 + 1, u64::MAX / 3, u64::MAX - 1025,
        u64::MAX - 1024, u64::MAX - 1023, u64::MAX,
    ];
    let rates = [
        0.0f32, f32::MIN_POSITIVE, 1e-45, 1e-20, 5.421_011e-20, 0.25, 0.333_333_34, 0.5,
        0.500_000_06, 0.999_999_94, 1.0,
    ];
    for bucket in buckets {
        for value in rates {
            let expected = if value <= 0.0 {
                false
            } else if value >= 1.0 {
                true
            } else {
                (bucket as f64 / u64::MAX as f64) < value as f64
            };
            assert_eq!(bucket_is_sampled(bucket, rate(value)), expected);
        }
    }
}

#[test]
fn rates_are_clamped_like_numbers() {
    for value in [-2.0f32, -0.0, 0.0, 0.3, 1.0, 1.000_000_1, f32::INFINITY, f32::NEG_INFINITY] {
        assert_eq!(rate(value).clamp(), rate(value.clamp(0.0, 1.0)));
    }
    assert!(f32::from_bits(rate(f32::NAN).clamp().bits).is_nan());
}

#[test]
fn machine_ids_are_salted_digests() {
    assert_eq!(
        hashed_machine_id(Some("abc".to_string())),
        "dd597551afbadf428edcb72f0644c607ea0f0ccfdee84d65b366d46f96e00f84"
    );
    assert_eq!(
        hashed_machine_id(None),
        "1fa83d4fd4be208997e589d2cdd1c66f0701e2920b4c3b1447a7b43def8ad86a"
    );
}

#[test]
fn versions_before_one_or_with_private_tags_are_debug_versions() {
    for (version, debug) in [
        ("", false),
        ("DEBUG_VERSION", true),
        ("1.0.0", false),
        ("v1.0.0", false),
        ("vV1.0.0", false),
        ("0.9.9", true),
        ("1.0.0-beta.1", true),
        ("1.2.0-beta.1", false),
        ("1.2.0-x.rc.1", false),
        ("1.2.0-betas", true),
        ("1.2.0-ci.123", true),
        ("1.2.0+build", false),
        ("1.2", false),
        ("0.9", true),
        ("build 2.x", false),
        ("nothing", false),
    ] {
        assert_eq!(is_debug_version(version), debug, "{version}");
    }
}

#[test]
fn numbers_are_taken_from_odd_versions() {
    for (text, parts) in [
        ("1.2", Some((1, 2, 0))),
        ("a12.34.56.78", Some((12, 34, 56))),
        ("3.x", Some((3, 0, 0))),
        ("7.", Some((7, 0, 0))),
        ("007", Some((7, 0, 0))),
        ("none", None),
        ("18446744073709551615", Some((u64::MAX, 0, 0))),
        ("18446744073709551616", None),
        ("1.18446744073709551616", None),
    ] {
        let version = coerce_version(text).map(|found| (found.major, found.minor, found.patch));
        assert_eq!(version, parts, "{text}");
    }
}

#[test]
fn builds_are_blocked_unless_forced() {
    assert!(is_blocked_by_build(None, true, "1.0.0"));
    assert!(!is_blocked_by_build(None, false, "1.0.0"));
    assert!(is_blocked_by_build(None, false, "0.1.0"));
    assert!(!is_blocked_by_build(Some("1"), true, "0.1.0"));
    assert!(is_blocked_by_build(Some("true"), true, "1.0.0"));
}

#[test]
fn startup_config_reads_both_files() {
    let interface = json(
        r#"{"name":"App","version":"1.2.3","telemetry":{"sentry":{"dsn":"  https://public@example.invalid/1 ",
            "tracing":false,"traces_sample_rate":0.25,"failure_attachments_sample_rate":"x"}}}"#,
    );
    let settings =
        json(r#"{"settings":{"helpImproveSoftware":false,"mirrorChyan":{"channel":"beta"}}}"#);
    let config = build_startup_config(Some(&interface), Some(&settings), "9.8.7", &read_rate)
        .expect("a configuration");
    assert_eq!(config.dsn, DSN);
    assert!(!config.enabled);
    assert_eq!(config.release, "MXU@9.8.7+App@1.2.3");
    assert_eq!(config.environment, "beta");
    assert!(!config.tracing);
    assert_eq!(config.traces_sample_rate, rate(0.25));
    assert_eq!(config.failure_attachments_sample_rate, rate(1.0));
    assert_eq!(config.mxu_version, "9.8.7");
}

#[test]
fn startup_config_has_defaults() {
    let interface = json(r#"{"telemetry":{"sentry":{"dsn":"https://public@example.invalid/1"}}}"#);
    let empty = json("{}");
    let config = build_startup_config(Some(&interface), Some(&empty), "1.0.0", &read_rate)
        .expect("a configuration");
    assert!(config.enabled);
    assert_eq!(config.app_name, "");
    assert_eq!(config.app_version, "0.0.0");
    assert_eq!(config.environment, "production");
    assert!(config.tracing);
    assert_eq!(config.traces_sample_rate, rate(1.0));
    assert_eq!(config.failure_attachments_sample_rate, rate(1.0));

    let named = json(
        r#"{"telemetry":{"sentry":{"dsn":"https://public@example.invalid/1","environment":"lab"}}}"#,
    );
    let config = build_startup_config(Some(&named), Some(&empty), "1.0.0", &read_rate)
        .expect("a configuration");
    assert_eq!(config.environment, "lab");
}

#[test]
fn startup_config_needs_an_address() {
    let empty = json("{}");
    for text in [
        "{}",
        r#"{"telemetry":{}}"#,
        r#"{"telemetry":{"sentry":{"dsn":7}}}"#,
        r#"{"telemetry":{"sentry":{"dsn":"  "}}}"#,
    ] {
        let interface = json(text);
        assert!(build_startup_config(Some(&interface), Some(&empty), "1.0.0", &read_rate).is_none());
        let plan =
            init_at_startup(Some(&interface), Some(&empty), "1.0.0", &read_rate, Some("1"), false);
        assert!(matches!(plan, InitPlan::Unconfigured));
    }
    let interface = json(r#"{"telemetry":{"sentry":{"dsn":"https://public@example.invalid/1"}}}"#);
    assert!(build_startup_config(None, Some(&empty), "1.0.0", &read_rate).is_none());
    assert!(build_startup_config(Some(&interface), None, "1.0.0", &read_rate).is_none());
}

#[test]
fn startup_starts_keeps_or_is_blocked() {
    let interface = json(
        r#"{"version":"1.0.0","telemetry":{"sentry":{"dsn":"https://public@example.invalid/1"}}}"#,
    );
    let on = json("{}");
    let off = json(r#"{"settings":{"helpImproveSoftware":false}}"#);
    let plan = |settings: &serde_json::Value, debug_build: bool| {
        init_at_startup(Some(&interface), Some(settings), "1.0.0", &read_rate, None, debug_build)
    };
    assert!(matches!(plan(&on, false), InitPlan::Start(_)));
    assert!(matches!(plan(&off, false), InitPlan::Keep(_)));
    assert!(matches!(plan(&on, true), InitPlan::Blocked));
}

#[test]
fn later_configuration_updates_or_starts() {
    assert!(matches!(
        telemetry_init(config(), true, None, true),
        InitPlan::Update { switch_off: false, .. }
    ));
    let mut disabled = config();
    disabled.enabled = false;
    assert!(matches!(
        telemetry_init(disabled.clone(), true, None, true),
        InitPlan::Update { switch_off: true, .. }
    ));
    assert!(matches!(telemetry_init(disabled, false, None, false), InitPlan::Keep(_)));
    assert!(matches!(telemetry_init(config(), false, None, true), InitPlan::Blocked));
    assert!(matches!(telemetry_init(config(), false, Some("1"), true), InitPlan::Start(_)));
    let mut blank = config();
    blank.dsn = " ".to_string();
    assert!(matches!(telemetry_init(blank, false, None, false), InitPlan::Keep(_)));
}

#[test]
fn switching_follows_the_client_and_the_kept_configuration() {
    let mut kept = config();
    kept.enabled = false;
    assert!(matches!(telemetry_set_enabled(true, true, Some(&kept)), SwitchPlan::Nothing));
    assert!(matches!(telemetry_set_enabled(true, false, None), SwitchPlan::Nothing));
    assert!(matches!(
        telemetry_set_enabled(true, false, Some(&kept)),
        SwitchPlan::Start(started) if started.enabled
    ));
    assert!(matches!(
        telemetry_set_enabled(false, true, None),
        SwitchPlan::ShutDown { end_session: true }
    ));
    assert!(matches!(
        telemetry_set_enabled(false, false, None),
        SwitchPlan::ShutDown { end_session: false }
    ));
}

#[test]
fn client_is_active_while_it_is_held() {
    assert!(is_active(Guard::Held));
    assert!(!is_active(Guard::Empty));
    assert!(!is_active(Guard::Unavailable));
}

#[test]
fn client_settings_follow_the_configuration() {
    let settings = do_init(&config()).expect("a valid address");
    assert_eq!(settings.dsn, DSN);
    assert_eq!(settings.traces_sample_rate, rate(0.5));
    assert!(settings.enable_logs);
    assert!(!settings.send_default_pii);
    assert!(settings.auto_session_tracking);
    assert!(settings.application_session);
    assert_eq!(settings.shutdown_timeout_secs, 1);
    let mut untraced = config();
    untraced.tracing = false;
    assert_eq!(do_init(&untraced).expect("a valid address").traces_sample_rate, rate(0.0));
    let mut high = config();
    high.traces_sample_rate = rate(7.0);
    assert_eq!(do_init(&high).expect("a valid address").traces_sample_rate, rate(1.0));
    let mut wrong = config();
    wrong.dsn = "nowhere".to_string();
    let refusal = "nowhere".parse::<sentry::types::Dsn>().err().expect("no address").to_string();
    assert_eq!(do_init(&wrong).err(), Some(refusal));
}

#[test]
fn failure_events_take_a_clamped_rate() {
    let events = failure_event_config(Some(&config()));
    assert_eq!(events.app_name, "App");
    assert_eq!(events.failure_attachments_sample_rate, rate(1.0));
    let none = failure_event_config(None);
    assert_eq!(none.app_name, "");
    assert_eq!(none.failure_attachments_sample_rate, rate(0.0));
}

#[test]
fn scope_names_the_machine_and_its_hardware() {
    let hardware = collect_hardware(
        Some(" CPU ".to_string()),
        8,
        3 * 1024 * 1024 + 5,
        Some("Linux".to_string()),
        None,
        collect_gpu(Some(" GPU\n".to_string())),
    );
    assert_eq!(hardware.cpu, "CPU");
    assert_eq!(hardware.cpu_cores, 8);
    assert_eq!(hardware.memory_total_mb, 3);
    assert_eq!(hardware.gpu, "GPU");
    assert_eq!(hardware.os, "Linux");
    assert_eq!(collect_gpu(None), "");
    let scope = configure_scope(&config(), "id", &hardware);
    assert_eq!(scope.user_id, "id");
    assert_eq!(scope.tags.get("app.name").map(String::as_str), Some("App"));
    assert_eq!(scope.tags.get("mxu.version").map(String::as_str), Some("1.0.0"));
    assert!(matches!(scope.hardware.get("memory_total_mb"), Some(Datum::Natural(3))));
    assert!(matches!(scope.hardware.get("gpu"), Some(Datum::Text(name)) if name == "GPU"));
}

#[test]
fn startup_config_reads_each_rate_from_its_own_key() {
    let interface = json(
        r#"{"telemetry":{"sentry":{"dsn":"https://public@example.invalid/1",
            "traces_sample_rate":0.125,"failure_attachments_sample_rate":0.75}}}"#,
    );
    let config = build_startup_config(Some(&interface), Some(&json("{}")), "1.0.0", &read_rate)
        .expect("a configuration");
    assert_eq!(config.traces_sample_rate, rate(0.125));
    assert_eq!(config.failure_attachments_sample_rate, rate(0.75));
}
