//! How reporting is configured and switched, which builds report, and what is sampled.

use vstd::prelude::*;
use vstd::arithmetic::div_mod::lemma_fundamental_div_mod;
use vstd::arithmetic::power2::{lemma2_to64, lemma_pow2_adds, lemma_pow2_pos, pow2};
use vstd::bytes::{spec_u64_from_le_bytes, spec_u64_to_le_bytes};
use vstd::utf8::encode_utf8;
use crate::config::{
    build_startup_config, collect_gpu, collect_hardware, configure_scope, do_init, dsn_refusal,
    failure_event_config, init_at_startup, is_active, is_project_config, project_dsn,
    telemetry_init, telemetry_set_enabled, ClientSettings, Guard, HardwareInfo, InitConfig,
    InitPlan, ScopeSettings, SwitchPlan, TelemetryInitConfig,
};
use crate::event::DatumView;
use crate::json::{json, json_of, Json};
use crate::laws::nodes::{has_member, lacks_member};
use crate::report::FailureEventConfig;
use crate::sampling::{
    bucket_is_sampled, double_step, hashed_machine_id, is_sampled, nearest_double, sha256,
    should_sample_attachment, SampleRate,
};
use crate::text::{decimal, hex, is_blank, trimmed, without_start, Padding};
use crate::version::{
    coerced, digit_run, from_first_digit, has_tag, is_blocked_by_build, is_debug, is_debug_release,
    is_debug_version, leading_numbers, number_of, parsed_version, VersionParts,
};
use serde_json::Value;

verus! {

/// Switching reporting off ends it and its session where it is active, switching it on starts it with
/// the configuration that was kept, unless it is active, none was kept or it has no address.
pub proof fn lemma_telemetry_set_enabled(
    enabled: bool,
    active: bool,
    cached: Option<&TelemetryInitConfig>,
    plan: SwitchPlan,
)
    requires
        call_ensures(telemetry_set_enabled, (enabled, active, cached), plan),
    ensures
        plan is ShutDown <==> !enabled,
        plan matches SwitchPlan::ShutDown { end_session } ==> end_session == active,
        plan is Start <==> enabled && !active && cached is Some && !is_blank(cached->0@.dsn),
        plan matches SwitchPlan::Start(config) ==> {
            &&& config@.enabled
            &&& config@.dsn == cached->0@.dsn
            &&& config@.release == cached->0@.release
            &&& config@.environment == cached->0@.environment
            &&& config@.tracing == cached->0@.tracing
            &&& config@.traces_sample_rate == cached->0@.traces_sample_rate
            &&& config@.failure_attachments_sample_rate
                == cached->0@.failure_attachments_sample_rate
            &&& config@.app_name == cached->0@.app_name
            &&& config@.app_version == cached->0@.app_version
            &&& config@.mxu_version == cached->0@.mxu_version
        },
{
}

/// A configuration that comes while reporting is active is kept, and switches it off if it asks for
/// that. Otherwise a build for testing does not report unless it is forced to, and the others start
/// exactly when the configuration asks for it and has an address.
pub proof fn lemma_telemetry_init(
    config: TelemetryInitConfig,
    active: bool,
    force: Option<&str>,
    debug_build: bool,
    plan: InitPlan,
)
    requires
        call_ensures(telemetry_init, (config, active, force, debug_build), plan),
    ensures
        ({
            let forced = force matches Some(value) && value@ == "1"@;
            let blocked = !forced && (debug_build || is_debug(config@.app_version));
            &&& plan is Update <==> active
            &&& plan matches InitPlan::Update { config: kept, switch_off } ==> kept@ == config@
                && switch_off == !config.enabled
            &&& plan is Blocked <==> !active && blocked
            &&& plan is Start <==> !active && !blocked && config.enabled && !is_blank(config@.dsn)
            &&& plan is Keep <==> !active && !blocked && !(config.enabled && !is_blank(
                config@.dsn,
            ))
            &&& plan matches InitPlan::Start(kept) ==> kept@ == config@
            &&& plan matches InitPlan::Keep(kept) ==> kept@ == config@
        }),
{
}

/// Reporting is active exactly while a client is held.
pub proof fn lemma_is_active(guard: Guard, active: bool)
    requires
        call_ensures(is_active, (guard,), active),
    ensures
        active <==> guard is Held,
{
}

/// The text at a path of two members.
pub open spec fn text_at(value: Json, first: Seq<char>, key: Seq<char>, text: Seq<char>) -> bool {
    exists|inner: Json|
        #[trigger] has_member(value, first, inner) && has_member(inner, key, Json::Text(text))
}

/// What a project asks for in the section of its interface that is for reporting.
pub open spec fn is_section(interface: Json, section: Json) -> bool {
    exists|telemetry: Json|
        #[trigger] has_member(interface, "telemetry"@, telemetry) && has_member(
            telemetry,
            "sentry"@,
            section,
        )
}

/// There is a configuration exactly when the interface has an address that is more than white space,
/// and the settings could be read. The address is trimmed.
pub proof fn lemma_project_address(interface: Json, section: Json, address: Seq<char>)
    requires
        is_section(interface, section),
    ensures
        has_member(section, "dsn"@, Json::Text(address)) ==> project_dsn(Some(interface)) == (
        if trimmed(address, Padding::WhiteSpace).len() > 0 {
            Some(trimmed(address, Padding::WhiteSpace))
        } else {
            None
        }),
        lacks_member(section, "dsn"@) ==> project_dsn(Some(interface)) is None,
        project_dsn(None) is None,
{
}

/// What a project and the settings are configured to, member by member.
pub proof fn lemma_project_config<R: Fn(&Value) -> Option<SampleRate>>(
    interface: Json,
    section: Json,
    root: Json,
    settings: Json,
    mxu_version: Seq<char>,
    read: R,
    config: InitConfig,
    text: Seq<char>,
    flag: bool,
    chyan: Json,
)
    requires
        is_section(interface, section),
        has_member(root, "settings"@, settings),
        is_project_config(Some(interface), root, mxu_version, read, config),
    ensures
        config.mxu_version == mxu_version,
        has_member(section, "dsn"@, Json::Text(text)) && trimmed(text, Padding::WhiteSpace).len()
            > 0 ==> config.dsn == trimmed(text, Padding::WhiteSpace),
        has_member(interface, "name"@, Json::Text(text)) ==> config.app_name == text,
        lacks_member(interface, "name"@) ==> config.app_name.len() == 0,
        has_member(interface, "version"@, Json::Text(text)) ==> config.app_version == text,
        lacks_member(interface, "version"@) ==> config.app_version == "0.0.0"@,
        config.release == "MXU@"@ + mxu_version + "+"@ + config.app_name + "@"@
            + config.app_version,
        has_member(settings, "helpImproveSoftware"@, Json::Bool(flag)) ==> config.enabled == flag,
        lacks_member(settings, "helpImproveSoftware"@) ==> config.enabled,
        has_member(section, "tracing"@, Json::Bool(flag)) ==> config.tracing == flag,
        lacks_member(section, "tracing"@) ==> config.tracing,
        has_member(section, "environment"@, Json::Text(text)) ==> config.environment == text,
        lacks_member(section, "environment"@) && has_member(settings, "mirrorChyan"@, chyan)
            && has_member(chyan, "channel"@, Json::Text(text)) ==> config.environment == text,
        lacks_member(section, "environment"@) && lacks_member(settings, "mirrorChyan"@)
            ==> config.environment == "production"@,
        lacks_member(section, "traces_sample_rate"@) ==> config.traces_sample_rate.bits
            == 0x3f80_0000,
        lacks_member(section, "failure_attachments_sample_rate"@)
            ==> config.failure_attachments_sample_rate.bits == 0x3f80_0000,
{
}

/// A rate that a project asks for is what its number is read as, each under its own key; where it is
/// no number, the rate is one.
pub proof fn lemma_project_rates<R: Fn(&Value) -> Option<SampleRate>>(
    interface: Json,
    section: Json,
    root: Json,
    mxu_version: Seq<char>,
    read: R,
    config: InitConfig,
    value: Json,
)
    requires
        is_section(interface, section),
        is_project_config(Some(interface), root, mxu_version, read, config),
    ensures
        has_member(section, "traces_sample_rate"@, value) ==> exists|
            given: Value,
            answer: Option<SampleRate>,
        |
            {
                &&& json(given) == value
                &&& #[trigger] call_ensures(read, (&given,), answer)
                &&& answer matches Some(rate) ==> config.traces_sample_rate == rate
                &&& answer is None ==> config.traces_sample_rate.bits == 0x3f80_0000
            },
        has_member(section, "failure_attachments_sample_rate"@, value) ==> exists|
            given: Value,
            answer: Option<SampleRate>,
        |
            {
                &&& json(given) == value
                &&& #[trigger] call_ensures(read, (&given,), answer)
                &&& answer matches Some(rate) ==> config.failure_attachments_sample_rate == rate
                &&& answer is None ==> config.failure_attachments_sample_rate.bits == 0x3f80_0000
            },
{
}

/// The configuration of a project is made of its interface and the settings, where both are there.
pub proof fn lemma_build_startup_config<R: Fn(&Value) -> Option<SampleRate>>(
    interface: Option<&Value>,
    settings: Option<&Value>,
    mxu_version: &str,
    read: &R,
    config: Option<TelemetryInitConfig>,
)
    requires
        call_ensures(build_startup_config::<R>, (interface, settings, mxu_version, read), config),
    ensures
        config is Some <==> project_dsn(json_of(interface)) is Some && settings is Some,
        config matches Some(config) ==> {
            &&& Some(config@.dsn) == project_dsn(json_of(interface))
            &&& config@.mxu_version == mxu_version@
            &&& is_project_config(
                json_of(interface),
                json(*settings->0),
                mxu_version@,
                *read,
                config@,
            )
        },
{
}

/// When the application starts, reporting starts under the same conditions as later, with the
/// configuration of the project.
pub proof fn lemma_init_at_startup<R: Fn(&Value) -> Option<SampleRate>>(
    interface: Option<&Value>,
    settings: Option<&Value>,
    mxu_version: &str,
    read: &R,
    force: Option<&str>,
    debug_build: bool,
    plan: InitPlan,
)
    requires
        call_ensures(
            init_at_startup::<R>,
            (interface, settings, mxu_version, read, force, debug_build),
            plan,
        ),
    ensures
        plan is Unconfigured <==> project_dsn(json_of(interface)) is None || settings is None,
        !(plan is Update),
        plan matches InitPlan::Start(config) ==> {
            &&& config@.enabled
            &&& Some(config@.dsn) == project_dsn(json_of(interface))
            &&& config@.mxu_version == mxu_version@
            &&& (force matches Some(value) && value@ == "1"@) || (!debug_build && !is_debug(
                config@.app_version,
            ))
        },
        plan matches InitPlan::Keep(config) ==> !config@.enabled || is_blank(config@.dsn),
        plan is Blocked ==> !(force matches Some(value) && value@ == "1"@),
        plan is Blocked && !debug_build ==> exists|config: InitConfig| #[trigger]
            is_project_config(
                json_of(interface),
                json(*settings->0),
                mxu_version@,
                *read,
                config,
            ) && is_debug(config.app_version),
        debug_build && !(force matches Some(value) && value@ == "1"@) ==> plan is Blocked
            || plan is Unconfigured,
{
}

/// The client is made with the address, the release and the environment of the configuration, with
/// logs and one session, without personal data, and with the rate of transactions only where they are
/// wanted. An address that is refused makes none.
pub proof fn lemma_do_init(config: &TelemetryInitConfig, settings: Result<ClientSettings, String>)
    requires
        call_ensures(do_init, (config,), settings),
    ensures
        settings is Ok <==> dsn_refusal(config@.dsn) is None,
        settings matches Err(message) ==> Some(message@) == dsn_refusal(config@.dsn),
        settings matches Ok(made) ==> {
            &&& made.dsn@ == config@.dsn
            &&& made.release@ == config@.release
            &&& made.environment@ == config@.environment
            &&& !config.tracing ==> made.traces_sample_rate.bits == 0
            &&& config.tracing && config.traces_sample_rate.bits <= 0x3f80_0000
                ==> made.traces_sample_rate == config.traces_sample_rate
            &&& config.tracing && 0x3f80_0000 < config.traces_sample_rate.bits <= 0x7f80_0000
                ==> made.traces_sample_rate.bits == 0x3f80_0000
            &&& config.tracing && 0x8000_0000 < config.traces_sample_rate.bits <= 0xff80_0000
                ==> made.traces_sample_rate.bits == 0
            &&& made.enable_logs
            &&& !made.send_default_pii
            &&& made.auto_session_tracking
            &&& made.application_session
            &&& made.shutdown_timeout_secs == 1
        },
{
}

/// What an event needs of the configuration: the project, its version, the version of the application,
/// and the rate of screenshots within its range. Without a configuration nothing is known and no
/// screenshots are sent.
pub proof fn lemma_failure_event_config(
    config: Option<&TelemetryInitConfig>,
    made: FailureEventConfig,
)
    requires
        call_ensures(failure_event_config, (config,), made),
    ensures
        config matches Some(config) ==> {
            let rate = config.failure_attachments_sample_rate;
            &&& made@.app_name == config@.app_name
            &&& made@.app_version == config@.app_version
            &&& made@.mxu_version == config@.mxu_version
            &&& rate.bits <= 0x3f80_0000 ==> made@.failure_attachments_sample_rate == rate
            &&& 0x3f80_0000 < rate.bits <= 0x7f80_0000
                ==> made@.failure_attachments_sample_rate.bits == 0x3f80_0000
            &&& 0x8000_0000 < rate.bits <= 0xff80_0000
                ==> made@.failure_attachments_sample_rate.bits == 0
        },
        config is None ==> made@.app_name.len() == 0 && made@.app_version.len() == 0
            && made@.mxu_version.len() == 0 && made@.failure_attachments_sample_rate.bits == 0,
{
}

/// What all events have in common, key by key.
pub proof fn lemma_configure_scope(
    config: &TelemetryInitConfig,
    machine_id: &str,
    hardware: &HardwareInfo,
    scope: ScopeSettings,
)
    requires
        call_ensures(configure_scope, (config, machine_id, hardware), scope),
    ensures
        scope.user_id@ == machine_id@,
        scope.tags@.dom().contains("app.name"@) && scope.tags@["app.name"@] == config@.app_name,
        scope.tags@.dom().contains("app.version"@) && scope.tags@["app.version"@]
            == config@.app_version,
        scope.tags@.dom().contains("mxu.version"@) && scope.tags@["mxu.version"@]
            == config@.mxu_version,
        scope.hardware@.dom().contains("cpu"@) && scope.hardware@["cpu"@] == DatumView::Text(
            hardware.cpu@,
        ),
        scope.hardware@.dom().contains("cpu_cores"@) && scope.hardware@["cpu_cores"@]
            == DatumView::Natural(hardware.cpu_cores as u64),
        scope.hardware@.dom().contains("memory_total_mb"@) && scope.hardware@["memory_total_mb"@]
            == DatumView::Natural(hardware.memory_total_mb),
        scope.hardware@.dom().contains("gpu"@) && scope.hardware@["gpu"@] == DatumView::Text(
            hardware.gpu@,
        ),
        scope.hardware@.dom().contains("os"@) && scope.hardware@["os"@] == DatumView::Text(
            hardware.os@,
        ),
{
    reveal_strlit("app.name");
    reveal_strlit("app.version");
    reveal_strlit("mxu.version");
    reveal_strlit("cpu");
    reveal_strlit("cpu_cores");
    reveal_strlit("memory_total_mb");
    reveal_strlit("gpu");
    reveal_strlit("os");
    assert("app.name"@.len() == 8 && "app.version"@.len() == 11 && "mxu.version"@.len() == 11);
    assert("app.version"@[0] == 'a' && "mxu.version"@[0] == 'm');
    assert("cpu"@.len() == 3 && "cpu_cores"@.len() == 9 && "memory_total_mb"@.len() == 15
        && "gpu"@.len() == 3 && "os"@.len() == 2);
    assert("cpu"@[0] == 'c' && "gpu"@[0] == 'g');
}

/// The description of a machine: trimmed names, the number of processors, and whole mebibytes.
pub proof fn lemma_collect_hardware(
    brand: Option<String>,
    processors: usize,
    total_memory: u64,
    os_name: Option<String>,
    os_version: Option<String>,
    gpu: String,
    hardware: HardwareInfo,
)
    requires
        call_ensures(
            collect_hardware,
            (brand, processors, total_memory, os_name, os_version, gpu),
            hardware,
        ),
    ensures
        brand matches Some(text) ==> hardware.cpu@ == trimmed(text@, Padding::WhiteSpace),
        brand is None ==> hardware.cpu@.len() == 0,
        processors <= u32::MAX ==> hardware.cpu_cores == processors,
        hardware.memory_total_mb * 1048576 <= total_memory,
        total_memory < (hardware.memory_total_mb + 1) * 1048576,
        hardware.gpu@ == gpu@,
        os_name is Some && os_version is Some ==> hardware.os@ == trimmed(
            os_name->0@ + " "@ + os_version->0@,
            Padding::WhiteSpace,
        ),
{
}

/// The name of a graphics adapter is trimmed, and empty where it is not known.
pub proof fn lemma_collect_gpu(description: Option<String>, name: String)
    requires
        call_ensures(collect_gpu, (description,), name),
    ensures
        description matches Some(text) ==> name@ == trimmed(text@, Padding::WhiteSpace),
        description is None ==> name@.len() == 0,
{
}

/// The identity of a machine is told as a digest, salted for this purpose, in hexadecimal digits.
pub proof fn lemma_hashed_machine_id(raw: Option<String>, id: String)
    requires
        call_ensures(hashed_machine_id, (raw,), id),
    ensures
        raw matches Some(raw) ==> id@ == hex(sha256(encode_utf8("mxu-telemetry-v1:"@ + raw@))),
        raw is None ==> id@ == hex(
            sha256(encode_utf8("mxu-telemetry-v1:"@ + "unknown-machine"@)),
        ),
{
}

/// Whether the screenshots of a task are sent depends on its run, its identity and the rate alone: the
/// first eight bytes of a digest of the two decide.
pub proof fn lemma_should_sample(run_id: &str, maa_task_id: i64, rate: SampleRate, sampled: bool)
    requires
        call_ensures(should_sample_attachment, (run_id, maa_task_id, rate), sampled),
    ensures
        sampled == is_sampled(
            spec_u64_from_le_bytes(
                sha256(
                    encode_utf8("mxu-failure-attachment-v1:"@ + run_id@) + spec_u64_to_le_bytes(
                        maa_task_id as u64,
                    ),
                ).take(8),
            ),
            rate,
        ),
        rate.bits == 0 ==> !sampled,
        0x8000_0000 <= rate.bits <= 0xff80_0000 ==> !sampled,
        0x3f80_0000 <= rate.bits <= 0x7f80_0000 ==> sampled,
{
}

/// A number of less than fifty-three bits is a binary64 number. Any other is rounded to a multiple of
/// the distance of such numbers, by at most half of it.
pub proof fn lemma_nearest_double(value: nat)
    requires
        value <= u64::MAX,
    ensures
        value < 0x20_0000_0000_0000 ==> nearest_double(value) == value,
        value >= 0x20_0000_0000_0000 && value < 0x40_0000_0000_0000 ==> double_step(value) == 2,
        value >= 0x8000_0000_0000_0000 ==> double_step(value) == 2048,
        2 * nearest_double(value) <= 2 * value + double_step(value),
        2 * value <= 2 * nearest_double(value) + double_step(value),
{
    reveal_with_fuel(double_step, 13);
    let step = double_step(value) as int;
    let whole = value as int / step;
    lemma_fundamental_div_mod(value as int, step);
    assert((whole + 1) * step == whole * step + step) by (nonlinear_arith);
    assert(step * whole == whole * step) by (nonlinear_arith);
}

/// At a rate of two to the power of minus `k` a bucket is sampled exactly when it is below that part
/// of all buckets.
pub proof fn lemma_sampled_part(bucket: u64, rate: SampleRate, k: nat)
    requires
        1 <= k <= 64,
        rate.bits == (127 - k) * 0x80_0000,
    ensures
        is_sampled(bucket, rate) <==> nearest_double(bucket as nat) < pow2((64 - k) as nat),
{
    assert(rate.bits / 0x80_0000 == 127 - k);
    assert(rate.bits % 0x80_0000 == 0);
    assert(63 * 0x80_0000 <= (127 - k) * 0x80_0000 <= 126 * 0x80_0000);
    lemma2_to64();
    assert(pow2(23) == 0x80_0000);
    lemma_pow2_adds(23, (127 - k) as nat);
    lemma_pow2_adds(86, (64 - k) as nat);
    lemma_pow2_pos(86);
    let rounded = nearest_double(bucket as nat) as int;
    let part = pow2((64 - k) as nat) as int;
    let scale = pow2(86) as int;
    assert(rounded < part <==> rounded * scale < part * scale) by (nonlinear_arith)
        requires
            scale > 0,
    ;
    assert(part * scale == scale * part) by (nonlinear_arith);
}

/// What is decided of a bucket is decided by its place and the rate.
pub proof fn lemma_bucket(bucket: u64, rate: SampleRate, sampled: bool)
    requires
        call_ensures(bucket_is_sampled, (bucket, rate), sampled),
    ensures
        sampled == is_sampled(bucket, rate),
{
}

/// The rate is brought into its range: below zero to zero, above one to one; within it, and where it
/// is no number, it stays.
pub proof fn lemma_clamped(rate: SampleRate)
    ensures
        rate.bits <= 0x3f80_0000 ==> rate.clamped() == rate,
        0x3f80_0000 < rate.bits <= 0x7f80_0000 ==> rate.clamped().bits == 0x3f80_0000,
        0x7f80_0000 < rate.bits <= 0x8000_0000 ==> rate.clamped() == rate,
        0x8000_0000 < rate.bits <= 0xff80_0000 ==> rate.clamped().bits == 0,
        0xff80_0000 < rate.bits ==> rate.clamped() == rate,
{
}

/// Which versions are for testing: those before the first release, and those before a release that are
/// called neither beta nor release candidate.
pub proof fn lemma_debug_release(parts: VersionParts)
    ensures
        parts.major == 0 ==> is_debug_release(parts),
        parts.major >= 1 && parts.pre.len() == 0 ==> !is_debug_release(parts),
        parts.major == 1 && parts.minor == 0 && parts.patch == 0 && parts.pre.len() > 0
            ==> is_debug_release(parts),
        parts.major >= 1 && (parts.major > 1 || parts.minor > 0 || parts.patch > 0)
            && parts.pre.len() > 0 ==> (is_debug_release(parts) <==> !has_tag(parts.pre, "beta"@)
            && !has_tag(parts.pre, "rc"@)),
{
}

/// A name stands in a text between dots and the ends of the text.
pub proof fn lemma_tag(front: Seq<char>, tag: Seq<char>, rest: Seq<char>)
    ensures
        has_tag(tag, tag),
        has_tag(front + seq!['.'] + tag, tag),
        has_tag(tag + seq!['.'] + rest, tag),
        has_tag(front + seq!['.'] + tag + seq!['.'] + rest, tag),
        tag.len() > 0 && front.len() > 0 && !front.contains('.') && front.len() != tag.len()
            ==> !has_tag(front, tag),
{
    assert(tag.subrange(0, tag.len() as int) =~= tag);
    assert(crate::version::is_tag_at(tag, tag, 0));
    let one = front + seq!['.'] + tag;
    let at = front.len() as int + 1;
    assert(one.subrange(at, at + tag.len()) =~= tag);
    assert(one[at - 1] == '.');
    assert(crate::version::is_tag_at(one, tag, at));
    let two = tag + seq!['.'] + rest;
    assert(two.subrange(0, tag.len() as int) =~= tag);
    assert(two[tag.len() as int] == '.');
    assert(crate::version::is_tag_at(two, tag, 0));
    let three = front + seq!['.'] + tag + seq!['.'] + rest;
    assert(three.subrange(at, at + tag.len()) =~= tag);
    assert(three[at - 1] == '.');
    assert(three[at + tag.len()] == '.');
    assert(crate::version::is_tag_at(three, tag, at));
    if tag.len() > 0 && front.len() > 0 && !front.contains('.') && front.len() != tag.len()
        && has_tag(front, tag) {
        let place = choose|place: int| #[trigger] crate::version::is_tag_at(front, tag, place);
        if place > 0 {
            assert(front.contains(front[place - 1]));
        } else {
            assert(front.contains(front[place + tag.len()]));
        }
    }
}

/// Whether a version is for testing: none is where it is empty; the name for builds without one is;
/// one that can be read is told by its parts, without the letter in front of it; and one that cannot is
/// told by its first numbers.
pub proof fn lemma_is_debug_version(version: &str, debug: bool)
    requires
        call_ensures(is_debug_version, (version,), debug),
    ensures
        ({
            let plain = without_start(version@, Padding::VersionLetter);
            &&& version@.len() == 0 ==> !debug
            &&& version@ == "DEBUG_VERSION"@ && version@.len() > 0 ==> debug
            &&& version@.len() > 0 && version@ != "DEBUG_VERSION"@ ==> {
                &&& parsed_version(plain) matches Some(parts) ==> debug == is_debug_release(parts)
                &&& parsed_version(plain) is None ==> match coerced(plain) {
                    Some(parts) => debug == (parts.major == 0),
                    None => !debug,
                }
            }
        }),
{
}

/// A build for testing does not report, unless it is forced to by the value one.
pub proof fn lemma_is_blocked(force: Option<&str>, debug_build: bool, version: &str, blocked: bool)
    requires
        call_ensures(is_blocked_by_build, (force, debug_build, version), blocked),
    ensures
        force matches Some(value) && value@ == "1"@ ==> !blocked,
        !(force matches Some(value) && value@ == "1"@) ==> blocked == (debug_build || is_debug(
            version@,
        )),
{
}

proof fn lemma_digit_run(digits: Seq<char>, rest: Seq<char>)
    requires
        forall|i: int| 0 <= i < digits.len() ==> '0' <= #[trigger] digits[i] <= '9',
        rest.len() > 0 ==> !('0' <= rest[0] <= '9'),
    ensures
        digit_run(digits + rest) == digits.len(),
    decreases digits.len(),
{
    let all = digits + rest;
    if digits.len() == 0 {
        assert(all =~= rest);
    } else {
        assert(all[0] == digits[0]);
        let fewer = digits.skip(1);
        assert forall|i: int| 0 <= i < fewer.len() implies '0' <= #[trigger] fewer[i] <= '9' by {
            assert(fewer[i] == digits[i + 1]);
        }
        assert(all.skip(1) =~= fewer + rest);
        lemma_digit_run(fewer, rest);
    }
}

proof fn lemma_number_of(value: nat)
    ensures
        number_of(decimal(value)) == value,
    decreases value,
{
    reveal_with_fuel(number_of, 2);
    if value >= 10 {
        lemma_number_of(value / 10);
        assert(decimal(value).drop_last() =~= decimal(value / 10));
    } else {
        assert(decimal(value).drop_last() =~= seq![]);
    }
}

proof fn lemma_first_number(value: u64, rest: Seq<char>, limit: nat)
    requires
        rest.len() > 0 ==> !('0' <= rest[0] <= '9'),
        limit > 0,
    ensures
        ({
            let text = decimal(value as nat) + rest;
            let goes_on = rest.len() > 1 && rest[0] == '.' && '0' <= rest[1] <= '9';
            &&& !goes_on ==> leading_numbers(text, limit) == Some(seq![value])
            &&& goes_on ==> leading_numbers(text, limit) == (match leading_numbers(
                rest.skip(1),
                (limit - 1) as nat,
            ) {
                Some(others) => Some(seq![value] + others),
                None => None,
            })
        }),
{
    crate::laws::basics::lemma_decimal(value as nat);
    lemma_digit_run(decimal(value as nat), rest);
    lemma_number_of(value as nat);
    let text = decimal(value as nat) + rest;
    let run = digit_run(text) as int;
    assert(text.take(run) =~= decimal(value as nat));
    assert(text.skip(run) =~= rest);
}

proof fn lemma_skip_junk(junk: Seq<char>, text: Seq<char>)
    requires
        forall|i: int| 0 <= i < junk.len() ==> !('0' <= #[trigger] junk[i] <= '9'),
        text.len() > 0,
        '0' <= text[0] <= '9',
    ensures
        from_first_digit(junk + text) == text,
    decreases junk.len(),
{
    let all = junk + text;
    if junk.len() == 0 {
        assert(all =~= text);
    } else {
        assert(all[0] == junk[0]);
        let fewer = junk.skip(1);
        assert forall|i: int| 0 <= i < fewer.len() implies !('0' <= #[trigger] fewer[i] <= '9') by {
            assert(fewer[i] == junk[i + 1]);
        }
        assert(all.skip(1) =~= fewer + text);
        lemma_skip_junk(fewer, text);
    }
}

/// Of a text that is no version the first three numbers stand for one, wherever they begin and whatever
/// comes behind them; a number that is missing counts as zero.
pub proof fn lemma_coerced(junk: Seq<char>, major: u64, minor: u64, patch: u64, rest: Seq<char>)
    requires
        forall|i: int| 0 <= i < junk.len() ==> !('0' <= #[trigger] junk[i] <= '9'),
        rest.len() > 0 ==> !('0' <= rest[0] <= '9'),
    ensures
        coerced(
            junk + (decimal(major as nat) + (seq!['.'] + (decimal(minor as nat) + (seq!['.'] + (
            decimal(patch as nat) + rest))))),
        ) matches Some(parts) && parts.major == major && parts.minor == minor && parts.patch
            == patch && parts.pre.len() == 0 && parts.build.len() == 0,
        !(rest.len() > 1 && rest[0] == '.' && '0' <= rest[1] <= '9') ==> (coerced(
            junk + (decimal(major as nat) + rest),
        ) matches Some(parts) && parts.major == major && parts.minor == 0 && parts.patch == 0),
        coerced(junk) is None,
{
    reveal_with_fuel(leading_numbers, 4);
    crate::laws::basics::lemma_decimal(major as nat);
    crate::laws::basics::lemma_decimal(minor as nat);
    crate::laws::basics::lemma_decimal(patch as nat);
    let third = decimal(patch as nat) + rest;
    let second = decimal(minor as nat) + (seq!['.'] + third);
    let first = decimal(major as nat) + (seq!['.'] + second);
    assert(third[0] == decimal(patch as nat)[0]);
    assert(second[0] == decimal(minor as nat)[0]);
    assert(first[0] == decimal(major as nat)[0]);
    lemma_skip_junk(junk, first);
    lemma_first_number(major, seq!['.'] + second, 3);
    assert((seq!['.'] + second)[1] == second[0]);
    assert((seq!['.'] + second).skip(1) =~= second);
    lemma_first_number(minor, seq!['.'] + third, 2);
    assert((seq!['.'] + third)[1] == third[0]);
    assert((seq!['.'] + third).skip(1) =~= third);
    lemma_first_number(patch, rest, 1);
    let numbers = leading_numbers(first, 3);
    assert(numbers is Some);
    assert(numbers->0[0] == major && numbers->0[1] == minor);
    if rest.len() > 1 && rest[0] == '.' && '0' <= rest[1] <= '9' {
        assert(numbers->0[2] == patch);
    } else {
        assert(numbers->0[2] == patch);
    }
    let alone = decimal(major as nat) + rest;
    assert(alone[0] == decimal(major as nat)[0]);
    lemma_skip_junk(junk, alone);
    lemma_first_number(major, rest, 3);
    lemma_no_digit(junk);
}

proof fn lemma_no_digit(junk: Seq<char>)
    requires
        forall|i: int| 0 <= i < junk.len() ==> !('0' <= #[trigger] junk[i] <= '9'),
    ensures
        from_first_digit(junk).len() == 0,
    decreases junk.len(),
{
    if junk.len() > 0 {
        let fewer = junk.skip(1);
        assert forall|i: int| 0 <= i < fewer.len() implies !('0' <= #[trigger] fewer[i] <= '9') by {
            assert(fewer[i] == junk[i + 1]);
        }
        lemma_no_digit(fewer);
    }
}

/// A number that lies in the middle between two binary64 numbers is rounded to the even one of them.
pub proof fn lemma_ties_to_even(value: nat)
    requires
        0x20_0000_0000_0000 <= value <= u64::MAX,
    ensures
        nearest_double(value) % double_step(value) == 0,
        2 * nearest_double(value) == 2 * value + double_step(value) || 2 * nearest_double(value)
            + double_step(value) == 2 * value ==> (nearest_double(value) / double_step(value)) % 2
            == 0,
{
    reveal_with_fuel(double_step, 13);
    let step = double_step(value) as int;
    let whole = value as int / step;
    let rest = value as int % step;
    lemma_fundamental_div_mod(value as int, step);
    assert((whole + 1) * step == whole * step + step) by (nonlinear_arith);
    assert(step * whole == whole * step) by (nonlinear_arith);
    vstd::arithmetic::div_mod::lemma_div_multiples_vanish(whole, step);
    vstd::arithmetic::div_mod::lemma_div_multiples_vanish(whole + 1, step);
    vstd::arithmetic::div_mod::lemma_mod_multiples_basic(whole, step);
    vstd::arithmetic::div_mod::lemma_mod_multiples_basic(whole + 1, step);
    assert(step * (whole + 1) == (whole + 1) * step) by (nonlinear_arith);
}

/// At a rate that is too small to be told apart from zero by a bucket, only the first one is sampled.
pub proof fn lemma_smallest_rates(bucket: u64, rate: SampleRate)
    requires
        0 < rate.bits < 0x80_0000,
    ensures
        is_sampled(bucket, rate) <==> bucket == 0,
{
    lemma2_to64();
    lemma_pow2_adds(25, 61);
    lemma_pow2_pos(61);
    lemma_nearest_double(bucket as nat);
    let rounded = nearest_double(bucket as nat) as int;
    let scale = pow2(86) as int;
    assert(pow2(25) == 0x200_0000);
    assert(scale >= 0x200_0000) by (nonlinear_arith)
        requires
            scale == 0x200_0000 * pow2(61),
            pow2(61) >= 1,
    ;
    assert(rounded >= 1 ==> rounded * scale >= scale) by (nonlinear_arith)
        requires
            scale > 0,
    ;
    assert(rounded == 0 ==> rounded * scale == 0) by (nonlinear_arith);
    let (significand, power) = (rate.significand() as int, pow2(rate.exponent()) as int);
    assert(power == 2);
    assert(significand * power == 2 * significand) by (nonlinear_arith)
        requires
            power == 2,
    ;
    assert(double_step(bucket as nat) <= 2048) by {
        reveal_with_fuel(double_step, 13);
    }
}

/// A rate is brought into its range.
pub proof fn lemma_clamp(rate: SampleRate, clamped: SampleRate)
    requires
        call_ensures(SampleRate::clamp, (rate,), clamped),
    ensures
        rate.bits <= 0x3f80_0000 ==> clamped == rate,
        0x3f80_0000 < rate.bits <= 0x7f80_0000 ==> clamped.bits == 0x3f80_0000,
        0x7f80_0000 < rate.bits <= 0x8000_0000 ==> clamped == rate,
        0x8000_0000 < rate.bits <= 0xff80_0000 ==> clamped.bits == 0,
        0xff80_0000 < rate.bits ==> clamped == rate,
{
}

} // verus!
