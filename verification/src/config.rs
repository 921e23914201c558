//! How reporting is configured, and when it is switched on and off.

use vstd::prelude::*;
use serde_json::Value;
use crate::event::{Datum, DatumView};
use crate::json::{
    field_of, flag_of, get, get_flag, get_text, json, json_of, text_of, Json,
};
use crate::map::StringMap;
use crate::path::option_view;
use crate::report::{EventConfig, FailureEventConfig};
use crate::sampling::{SampleRate, ONE_BITS};
use crate::text::{blank, concat, is_blank, trim, trimmed, Padding};
use crate::version::{is_blocked, is_blocked_by_build};

verus! {

/// How reporting is configured.
#[derive(Debug)]
pub struct TelemetryInitConfig {
    /// Where events go; an empty text switches reporting off.
    pub dsn: String,
    /// The user wants reporting.
    pub enabled: bool,
    pub release: String,
    pub environment: String,
    /// Transactions are reported.
    pub tracing: bool,
    pub traces_sample_rate: SampleRate,
    /// How many of the failures go with screenshots; events and logs are always sent.
    pub failure_attachments_sample_rate: SampleRate,
    pub app_name: String,
    pub app_version: String,
    pub mxu_version: String,
}

/// The content of a configuration.
#[verifier::ext_equal]
pub struct InitConfig {
    pub dsn: Seq<char>,
    pub enabled: bool,
    pub release: Seq<char>,
    pub environment: Seq<char>,
    pub tracing: bool,
    pub traces_sample_rate: SampleRate,
    pub failure_attachments_sample_rate: SampleRate,
    pub app_name: Seq<char>,
    pub app_version: Seq<char>,
    pub mxu_version: Seq<char>,
}

impl View for TelemetryInitConfig {
    type V = InitConfig;

    open spec fn view(&self) -> InitConfig {
        InitConfig {
            dsn: self.dsn@,
            enabled: self.enabled,
            release: self.release@,
            environment: self.environment@,
            tracing: self.tracing,
            traces_sample_rate: self.traces_sample_rate,
            failure_attachments_sample_rate: self.failure_attachments_sample_rate,
            app_name: self.app_name@,
            app_version: self.app_version@,
            mxu_version: self.mxu_version@,
        }
    }
}

impl Clone for TelemetryInitConfig {
    fn clone(&self) -> (copy: Self)
        ensures
            copy@ == self@,
    {
        TelemetryInitConfig {
            dsn: self.dsn.clone(),
            enabled: self.enabled,
            release: self.release.clone(),
            environment: self.environment.clone(),
            tracing: self.tracing,
            traces_sample_rate: self.traces_sample_rate,
            failure_attachments_sample_rate: self.failure_attachments_sample_rate,
            app_name: self.app_name.clone(),
            app_version: self.app_version.clone(),
            mxu_version: self.mxu_version.clone(),
        }
    }
}

/// What of a configuration an event needs, with the rate brought into its range.
pub open spec fn event_config_of(config: InitConfig) -> EventConfig {
    EventConfig {
        app_name: config.app_name,
        app_version: config.app_version,
        mxu_version: config.mxu_version,
        failure_attachments_sample_rate: config.failure_attachments_sample_rate.clamped(),
    }
}

/// What of a configuration an event needs; where there is none, nothing is known.
pub fn failure_event_config(config: Option<&TelemetryInitConfig>) -> (event_config:
    FailureEventConfig)
    ensures
        event_config@ == (match config {
            Some(config) => event_config_of(config@),
            None => EventConfig::unknown(),
        }),
{
    match config {
        Some(config) => FailureEventConfig {
            app_name: config.app_name.clone(),
            app_version: config.app_version.clone(),
            mxu_version: config.mxu_version.clone(),
            failure_attachments_sample_rate: config.failure_attachments_sample_rate.clamp(),
        },
        None => FailureEventConfig::default(),
    }
}

/// The section of a project's interface that configures reporting.
pub open spec fn sentry_section(interface: Option<Json>) -> Option<Json> {
    field_of(field_of(interface, "telemetry"@), "sentry"@)
}

/// Where a project wants events to go.
pub open spec fn project_dsn(interface: Option<Json>) -> Option<Seq<char>> {
    match text_of(field_of(sentry_section(interface), "dsn"@)) {
        Some(dsn) => if trimmed(dsn, Padding::WhiteSpace).len() == 0 {
            None
        } else {
            Some(trimmed(dsn, Padding::WhiteSpace))
        },
        None => None,
    }
}

/// The configuration that a project's interface and the settings of the application come to, with
/// the given rates, for an interface that tells where events go.
pub open spec fn project_config(
    interface: Option<Json>,
    settings: Option<Json>,
    mxu_version: Seq<char>,
    traces_sample_rate: SampleRate,
    failure_attachments_sample_rate: SampleRate,
) -> InitConfig {
    let section = sentry_section(interface);
    let app_name = text_of(field_of(interface, "name"@)).unwrap_or(seq![]);
    let app_version = text_of(field_of(interface, "version"@)).unwrap_or("0.0.0"@);
    let channel = text_of(field_of(field_of(settings, "mirrorChyan"@), "channel"@)).unwrap_or(
        "production"@,
    );
    InitConfig {
        dsn: project_dsn(interface).unwrap_or(seq![]),
        enabled: flag_of(field_of(settings, "helpImproveSoftware"@)).unwrap_or(true),
        release: "MXU@"@ + mxu_version + "+"@ + app_name + "@"@ + app_version,
        environment: text_of(field_of(section, "environment"@)).unwrap_or(channel),
        tracing: flag_of(field_of(section, "tracing"@)).unwrap_or(true),
        traces_sample_rate,
        failure_attachments_sample_rate,
        app_name,
        app_version,
        mxu_version,
    }
}

/// `read` gave `rate` for `value`; without a value, or where it is no number, the rate is one.
pub open spec fn is_rate<R: Fn(&Value) -> Option<SampleRate>>(
    read: R,
    value: Option<Json>,
    rate: SampleRate,
) -> bool {
    match value {
        None => rate == (SampleRate { bits: ONE_BITS }),
        Some(value) => exists|given: Value, answer: Option<SampleRate>|
            {
                &&& json(given) == value
                &&& #[trigger] call_ensures(read, (&given,), answer)
                &&& rate == (match answer {
                    Some(answer) => answer,
                    None => SampleRate { bits: ONE_BITS },
                })
            },
    }
}

/// `config` is the configuration that a project's interface and the settings come to.
pub open spec fn is_project_config<R: Fn(&Value) -> Option<SampleRate>>(
    interface: Option<Json>,
    root: Json,
    mxu_version: Seq<char>,
    read: R,
    config: InitConfig,
) -> bool {
    let section = sentry_section(interface);
    &&& is_rate(read, field_of(section, "traces_sample_rate"@), config.traces_sample_rate)
    &&& is_rate(
        read,
        field_of(section, "failure_attachments_sample_rate"@),
        config.failure_attachments_sample_rate,
    )
    &&& config == project_config(
        interface,
        root.field("settings"@),
        mxu_version,
        config.traces_sample_rate,
        config.failure_attachments_sample_rate,
    )
}

/// Reads a rate; without a value, or where it is no number, it is one.
fn rate_or_one<R: Fn(&Value) -> Option<SampleRate>>(value: Option<&Value>, read: &R) -> (rate:
    SampleRate)
    requires
        forall|value: &Value| call_requires(*read, (value,)),
    ensures
        is_rate(*read, json_of(value), rate),
{
    match value {
        None => SampleRate { bits: ONE_BITS },
        Some(value) => {
            let answer = read(value);
            assert(call_ensures(*read, (value,), answer));
            match answer {
                Some(rate) => rate,
                None => SampleRate { bits: ONE_BITS },
            }
        },
    }
}

fn text_or(value: Option<&Value>, default: &str) -> (text: String)
    ensures
        text@ == text_of(json_of(value)).unwrap_or(default@),
{
    match get_text(value) {
        Some(text) => text,
        None => default.to_owned(),
    }
}

/// Makes the configuration of a project.
///
/// There is none unless the interface was loaded and tells where events go, and the configuration of
/// the application can be read. `read_rate` reads a number as a rate.
pub fn build_startup_config<R: Fn(&Value) -> Option<SampleRate>>(
    project_interface: Option<&Value>,
    app_config: Option<&Value>,
    mxu_version: &str,
    read_rate: &R,
) -> (config: Option<TelemetryInitConfig>)
    requires
        forall|value: &Value| call_requires(*read_rate, (value,)),
    ensures
        config is Some <==> project_dsn(json_of(project_interface)) is Some && app_config is Some,
        config matches Some(config) ==> is_project_config(
            json_of(project_interface),
            json_of(app_config)->0,
            mxu_version@,
            *read_rate,
            config@,
        ),
{
    let section = get(get(project_interface, "telemetry"), "sentry");
    let dsn = match get_text(get(section, "dsn")) {
        Some(dsn) => trim(dsn.as_str(), Padding::WhiteSpace),
        None => {
            return None;
        },
    };
    if crate::event::is_empty(dsn.as_str()) {
        return None;
    }
    let app_config = match app_config {
        Some(app_config) => app_config,
        None => {
            return None;
        },
    };
    let app_name = text_or(get(project_interface, "name"), "");
    let app_version = text_or(get(project_interface, "version"), "0.0.0");
    let settings = get(Some(app_config), "settings");
    let enabled = match get_flag(get(settings, "helpImproveSoftware")) {
        Some(enabled) => enabled,
        None => true,
    };
    let channel = text_or(get(get(settings, "mirrorChyan"), "channel"), "production");
    let release = concat("MXU@", mxu_version);
    let release = concat(release.as_str(), "+");
    let release = concat(release.as_str(), app_name.as_str());
    let release = concat(release.as_str(), "@");
    let release = concat(release.as_str(), app_version.as_str());
    let environment = text_or(get(section, "environment"), channel.as_str());
    let tracing = match get_flag(get(section, "tracing")) {
        Some(tracing) => tracing,
        None => true,
    };
    let traces_sample_rate = rate_or_one(get(section, "traces_sample_rate"), read_rate);
    let failure_attachments_sample_rate = rate_or_one(
        get(section, "failure_attachments_sample_rate"),
        read_rate,
    );
    proof {
        reveal_strlit("");
        assert(""@ =~= seq![]);
    }
    Some(
        TelemetryInitConfig {
            dsn,
            enabled,
            release,
            environment,
            tracing,
            traces_sample_rate,
            failure_attachments_sample_rate,
            app_name,
            app_version,
            mxu_version: mxu_version.to_owned(),
        },
    )
}

/// What holds the client of the reporting service.
#[derive(Clone, Copy, PartialEq, Eq, Structural, Debug)]
pub enum Guard {
    /// It cannot be looked at.
    Unavailable,
    /// It holds no client.
    Empty,
    /// It holds a client.
    Held,
}

/// Whether reporting is active: a client exists.
pub fn is_active(guard: Guard) -> (active: bool)
    ensures
        active == (guard == Guard::Held),
{
    guard == Guard::Held
}

/// The configuration asks for reporting and tells where events go.
pub open spec fn wants_client(config: InitConfig) -> bool {
    config.enabled && !is_blank(config.dsn)
}

fn client_wanted(config: &TelemetryInitConfig) -> (wanted: bool)
    ensures
        wanted == wants_client(config@),
{
    config.enabled && !blank(config.dsn.as_str())
}

/// What is done with a configuration when reporting may start.
#[derive(Debug)]
pub enum InitPlan {
    /// There is no configuration.
    Unconfigured,
    /// This build does not report.
    Blocked,
    /// The configuration is kept, but no client is made.
    Keep(TelemetryInitConfig),
    /// The configuration is kept, and a client is made with it.
    Start(TelemetryInitConfig),
    /// A client exists: the configuration is kept, and reporting is switched off if it asks for that.
    Update { config: TelemetryInitConfig, switch_off: bool },
}

/// What is done with a configuration that no client exists for yet.
pub open spec fn is_first_plan(
    plan: InitPlan,
    config: InitConfig,
    force: Option<Seq<char>>,
    debug_build: bool,
) -> bool {
    if is_blocked(force, debug_build, config.app_version) {
        plan is Blocked
    } else if wants_client(config) {
        plan matches InitPlan::Start(kept) && kept@ == config
    } else {
        plan matches InitPlan::Keep(kept) && kept@ == config
    }
}

/// The content of a text, where there is one.
pub open spec fn str_view(text: Option<&str>) -> Option<Seq<char>> {
    match text {
        Some(text) => Some(text@),
        None => None,
    }
}

fn first_plan(config: TelemetryInitConfig, force: Option<&str>, debug_build: bool) -> (plan:
    InitPlan)
    ensures
        is_first_plan(plan, config@, str_view(force), debug_build),
{
    if is_blocked_by_build(force, debug_build, config.app_version.as_str()) {
        InitPlan::Blocked
    } else if client_wanted(&config) {
        InitPlan::Start(config)
    } else {
        InitPlan::Keep(config)
    }
}

/// Decides whether reporting starts with the application, before there is a window.
///
/// `force` is the value of the variable that lets builds for testing report, where it is set.
pub fn init_at_startup<R: Fn(&Value) -> Option<SampleRate>>(
    project_interface: Option<&Value>,
    app_config: Option<&Value>,
    mxu_version: &str,
    read_rate: &R,
    force: Option<&str>,
    debug_build: bool,
) -> (plan: InitPlan)
    requires
        forall|value: &Value| call_requires(*read_rate, (value,)),
    ensures
        if project_dsn(json_of(project_interface)) is Some && app_config is Some {
            exists|config: InitConfig|
                {
                    &&& #[trigger] is_project_config(
                        json_of(project_interface),
                        json_of(app_config)->0,
                        mxu_version@,
                        *read_rate,
                        config,
                    )
                    &&& is_first_plan(plan, config, str_view(force), debug_build)
                }
        } else {
            plan is Unconfigured
        },
{
    match build_startup_config(project_interface, app_config, mxu_version, read_rate) {
        Some(config) => {
            let ghost built = config@;
            let plan = first_plan(config, force, debug_build);
            assert(is_project_config(
                json_of(project_interface),
                json_of(app_config)->0,
                mxu_version@,
                *read_rate,
                built,
            ));
            plan
        },
        None => InitPlan::Unconfigured,
    }
}

/// Decides what is done with a configuration that comes after the start.
///
/// A second client would count as a second session, so where one exists it is kept.
pub fn telemetry_init(
    config: TelemetryInitConfig,
    active: bool,
    force: Option<&str>,
    debug_build: bool,
) -> (plan: InitPlan)
    ensures
        if active {
            plan matches InitPlan::Update { config: kept, switch_off } && kept@ == config@
                && switch_off == !config.enabled
        } else {
            is_first_plan(plan, config@, str_view(force), debug_build)
        },
{
    if active {
        let switch_off = !config.enabled;
        return InitPlan::Update { config, switch_off };
    }
    first_plan(config, force, debug_build)
}

/// What is done when the user switches reporting on or off.
#[derive(Debug)]
pub enum SwitchPlan {
    Nothing,
    /// A client is made.
    Start(TelemetryInitConfig),
    /// No report is accepted or sent any more, the session ends where there is one, the client is
    /// given up and all runs are forgotten.
    ShutDown { end_session: bool },
}

/// Decides what is done when the user switches reporting on or off.
///
/// `cached` is the configuration that was kept last.
pub fn telemetry_set_enabled(
    enabled: bool,
    active: bool,
    cached: Option<&TelemetryInitConfig>,
) -> (plan: SwitchPlan)
    ensures
        if !enabled {
            plan == (SwitchPlan::ShutDown { end_session: active })
        } else if active {
            plan is Nothing
        } else {
            match cached {
                Some(config) => if is_blank(config@.dsn) {
                    plan is Nothing
                } else {
                    plan matches SwitchPlan::Start(started) && started@ == (InitConfig {
                        enabled: true,
                        ..config@
                    })
                },
                None => plan is Nothing,
            }
        },
{
    if !enabled {
        return SwitchPlan::ShutDown { end_session: active };
    }
    if active {
        return SwitchPlan::Nothing;
    }
    match cached {
        Some(config) => {
            if blank(config.dsn.as_str()) {
                return SwitchPlan::Nothing;
            }
            let mut config = config.clone();
            config.enabled = true;
            SwitchPlan::Start(config)
        },
        None => SwitchPlan::Nothing,
    }
}

/// What the parser of `sentry::types::Dsn` says of a text that it refuses.
pub uninterp spec fn dsn_refusal(dsn: Seq<char>) -> Option<Seq<char>>;

/// `str::parse::<sentry::types::Dsn>` accepts a text, or says why it does not.
#[verifier::external_body]
fn check_dsn(dsn: &str) -> (refusal: Option<String>)
    ensures
        option_view(refusal) == dsn_refusal(dsn@),
{
    match dsn.parse::<sentry::types::Dsn>() {
        Ok(_) => None,
        Err(error) => Some(format!("{error}")),
    }
}

/// How the client of the reporting service is made.
#[derive(Debug)]
pub struct ClientSettings {
    pub dsn: String,
    pub release: String,
    pub environment: String,
    pub traces_sample_rate: SampleRate,
    pub enable_logs: bool,
    pub send_default_pii: bool,
    pub auto_session_tracking: bool,
    /// One session for the whole run of the application.
    pub application_session: bool,
    pub shutdown_timeout_secs: u64,
}

/// The settings are those that the configuration asks for: no personal data, logs, one session for
/// the run of the application, and transactions only where they are wanted.
pub open spec fn are_settings_of(settings: ClientSettings, config: InitConfig) -> bool {
    &&& settings.dsn@ == config.dsn
    &&& settings.release@ == config.release
    &&& settings.environment@ == config.environment
    &&& settings.traces_sample_rate == (if config.tracing {
        config.traces_sample_rate.clamped()
    } else {
        SampleRate { bits: 0 }
    })
    &&& settings.enable_logs
    &&& !settings.send_default_pii
    &&& settings.auto_session_tracking
    &&& settings.application_session
    &&& settings.shutdown_timeout_secs == 1
}

/// Makes the settings of the client for a configuration whose address is accepted.
fn client_settings(config: &TelemetryInitConfig) -> (settings: ClientSettings)
    ensures
        are_settings_of(settings, config@),
{
    let traces_sample_rate = if config.tracing {
        config.traces_sample_rate.clamp()
    } else {
        SampleRate { bits: 0 }
    };
    ClientSettings {
        dsn: config.dsn.clone(),
        release: config.release.clone(),
        environment: config.environment.clone(),
        traces_sample_rate,
        enable_logs: true,
        send_default_pii: false,
        auto_session_tracking: true,
        application_session: true,
        shutdown_timeout_secs: 1,
    }
}

/// Makes the settings of the client, or says why the address is refused.
pub fn do_init(config: &TelemetryInitConfig) -> (settings: Result<ClientSettings, String>)
    ensures
        match dsn_refusal(config@.dsn) {
            Some(refusal) => settings matches Err(message) && message@ == refusal,
            None => settings matches Ok(settings) && are_settings_of(settings, config@),
        },
{
    match check_dsn(config.dsn.as_str()) {
        Some(refusal) => Err(refusal),
        None => Ok(client_settings(config)),
    }
}

/// The machine that events come from.
#[derive(Debug)]
pub struct HardwareInfo {
    pub cpu: String,
    pub cpu_cores: u32,
    pub memory_total_mb: u64,
    pub gpu: String,
    pub os: String,
}

/// The name of a graphics adapter, trimmed; empty where it is not known.
pub fn collect_gpu(description: Option<String>) -> (name: String)
    ensures
        name@ == (match description {
            Some(description) => trimmed(description@, Padding::WhiteSpace),
            None => seq![],
        }),
{
    match description {
        Some(description) => trim(description.as_str(), Padding::WhiteSpace),
        None => String::new(),
    }
}

fn or_empty(text: Option<String>) -> (result: String)
    ensures
        result@ == option_view(text).unwrap_or(seq![]),
{
    match text {
        Some(text) => text,
        None => String::new(),
    }
}

/// Makes the description of a machine of what its system tells: the brand of the first processor,
/// the number of processors, the bytes of memory, the name and version of the system, and the
/// graphics adapter.
pub fn collect_hardware(
    brand: Option<String>,
    processors: usize,
    total_memory: u64,
    os_name: Option<String>,
    os_version: Option<String>,
    gpu: String,
) -> (hardware: HardwareInfo)
    ensures
        hardware.cpu@ == trimmed(option_view(brand).unwrap_or(seq![]), Padding::WhiteSpace),
        hardware.cpu_cores == processors as u32,
        hardware.memory_total_mb == total_memory / 1_048_576,
        hardware.gpu@ == gpu@,
        hardware.os@ == trimmed(
            option_view(os_name).unwrap_or(seq![]) + " "@ + option_view(os_version).unwrap_or(
                seq![],
            ),
            Padding::WhiteSpace,
        ),
{
    let cpu = trim(or_empty(brand).as_str(), Padding::WhiteSpace);
    let os = concat(or_empty(os_name).as_str(), " ");
    let os = concat(os.as_str(), or_empty(os_version).as_str());
    HardwareInfo {
        cpu,
        cpu_cores: processors as u32,
        memory_total_mb: total_memory / 1024 / 1024,
        gpu,
        os: trim(os.as_str(), Padding::WhiteSpace),
    }
}

/// What all events have in common.
#[derive(Debug)]
pub struct ScopeSettings {
    pub user_id: String,
    pub tags: StringMap<String>,
    pub hardware: StringMap<Datum>,
}

/// Makes what all events have in common: the anonymous user, the versions and the machine.
pub fn configure_scope(
    config: &TelemetryInitConfig,
    machine_id: &str,
    hardware: &HardwareInfo,
) -> (scope: ScopeSettings)
    ensures
        scope.user_id@ == machine_id@,
        scope.tags@ == Map::<Seq<char>, Seq<char>>::empty().insert(
            "app.name"@,
            config@.app_name,
        ).insert("app.version"@, config@.app_version).insert("mxu.version"@, config@.mxu_version),
        scope.hardware@ == Map::<Seq<char>, DatumView>::empty().insert(
            "cpu"@,
            DatumView::Text(hardware.cpu@),
        ).insert("cpu_cores"@, DatumView::Natural(hardware.cpu_cores as u64)).insert(
            "memory_total_mb"@,
            DatumView::Natural(hardware.memory_total_mb),
        ).insert("gpu"@, DatumView::Text(hardware.gpu@)).insert(
            "os"@,
            DatumView::Text(hardware.os@),
        ),
{
    let mut tags: StringMap<String> = StringMap::new();
    tags.insert("app.name".to_owned(), config.app_name.clone());
    tags.insert("app.version".to_owned(), config.app_version.clone());
    tags.insert("mxu.version".to_owned(), config.mxu_version.clone());
    let mut facts: StringMap<Datum> = StringMap::new();
    facts.insert("cpu".to_owned(), Datum::Text(hardware.cpu.clone()));
    facts.insert("cpu_cores".to_owned(), Datum::Natural(hardware.cpu_cores as u64));
    facts.insert("memory_total_mb".to_owned(), Datum::Natural(hardware.memory_total_mb));
    facts.insert("gpu".to_owned(), Datum::Text(hardware.gpu.clone()));
    facts.insert("os".to_owned(), Datum::Text(hardware.os.clone()));
    ScopeSettings { user_id: machine_id.to_owned(), tags, hardware: facts }
}

} // verus!
