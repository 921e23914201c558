use mxu_telemetry::map::StringMap;
use mxu_telemetry::order::sort_and_dedup;
use mxu_telemetry::path::{
    is_log_file, is_on_error_image, log_kind, log_priority, normalize_archive_path,
    safe_relative_path, OsName, PathComponent,
};
use mxu_telemetry::state::{
    log_to_stdout, maa_get_all_states, maa_get_cached_adb_devices,
    maa_get_cached_gamescope_instances, maa_get_cached_win32_windows,
    maa_get_cached_wlroots_sockets, maa_get_instance_state, InstanceRecord, Observation,
};
use mxu_telemetry::text::{format_hex, format_i64, format_u64, trim, Padding};
use mxu_telemetry::time::{elapsed_ms, modified_since, unix_time_ms, FileStamp, Timestamp};

fn path(text: &str) -> Vec<PathComponent> {
    text.split('/').map(|name| PathComponent::Normal(OsName::Text(name.to_string()))).collect()
}

#[test]
fn sorts_and_removes_repetitions() {
    let texts = vec!["b".to_string(), "a".to_string(), "b".to_string()];
    assert_eq!(sort_and_dedup(texts), vec!["a".to_string(), "b".to_string()]);
}

#[test]
fn numbers_are_written_like_the_standard_library_does() {
    for value in [0u64, 9, 10, 1_000_000, u64::MAX] {
        assert_eq!(format_u64(value), value.to_string());
    }
    for value in [0i64, -1, 10, i64::MAX, i64::MIN] {
        assert_eq!(format_i64(value), value.to_string());
    }
    assert_eq!(format_hex(&[0, 15, 16, 255]), "000f10ff");
}

#[test]
fn padding_is_trimmed_from_both_ends() {
    assert_eq!(trim("\u{2003} a b\n", Padding::WhiteSpace), "a b");
    assert_eq!(trim("\0\0a\0b\0", Padding::Nul), "a\0b");
    assert_eq!(trim("   ", Padding::WhiteSpace), "");
}

#[test]
fn string_maps_replace_and_keep_order() {
    let mut map: StringMap<String> = StringMap::new();
    map.insert("b".to_string(), "1".to_string());
    map.insert("a".to_string(), "2".to_string());
    map.insert("b".to_string(), "3".to_string());
    let entries: Vec<(String, String)> = map.entries().clone();
    assert_eq!(
        entries,
        vec![("a".to_string(), "2".to_string()), ("b".to_string(), "3".to_string())]
    );
    assert_eq!(map.remove("a"), Some("2".to_string()));
    assert_eq!(map.remove("a"), None);
    assert_eq!(map.into_entries().len(), 1);
}

#[test]
fn paths_are_taken_relative_to_the_root() {
    let root = path("debug");
    let file = path("debug/on_error/a.png");
    let relative = safe_relative_path(&root, &file).expect("below the root");
    assert_eq!(normalize_archive_path(relative), Some("on_error/a.png".to_string()));
    assert!(safe_relative_path(&root, &path("other/a.png")).is_none());
    let mut up = path("debug");
    up.push(PathComponent::ParentDir);
    up.push(PathComponent::Normal(OsName::Text("a.log".to_string())));
    assert!(safe_relative_path(&root, &up).is_none());
}

#[test]
fn logs_and_screenshots_are_told_apart() {
    assert!(is_on_error_image(&path("on_error/a.PNG")));
    assert!(is_on_error_image(&path("on_error/deep/a.jpeg")));
    assert!(!is_on_error_image(&path("vision/a.png")));
    assert!(!is_on_error_image(&path("on_error/a.txt")));
    assert!(is_log_file(&path("agent/maafw.log")));
    assert!(!is_log_file(&path("config.json")));
    assert_eq!(log_kind("maafw.log"), "maafw");
    assert_eq!(log_kind("unrelated.log"), "other");
    assert!(log_priority("maafw.log") < log_priority("unrelated.log"));
}

#[test]
fn modification_times_have_two_seconds_of_grace() {
    let at = |secs: i64, nanos: u32| Timestamp { secs, nanos };
    let stamp = |modified: Option<Timestamp>| FileStamp { len: 1, modified };
    assert!(modified_since(stamp(Some(at(98, 5))), at(100, 5)));
    assert!(!modified_since(stamp(Some(at(98, 4))), at(100, 5)));
    assert!(!modified_since(stamp(None), at(100, 0)));
    assert!(!modified_since(stamp(Some(at(i64::MAX - 1, 0))), at(0, 0)));
}

#[test]
fn times_are_counted_in_milliseconds() {
    assert_eq!(unix_time_ms(Timestamp { secs: 10, nanos: 1_999_999 }), Some(10_001));
    assert_eq!(unix_time_ms(Timestamp { secs: -1, nanos: 999_999_999 }), None);
    assert_eq!(elapsed_ms(5, 2_000_004), 1);
    assert_eq!(elapsed_ms(7, 3), 0);
}

#[test]
fn lines_are_stamped_one_by_one() {
    assert_eq!(log_to_stdout("a\r\nb\n\nc", "T"), vec!["[T] a", "[T] b", "[T] ", "[T] c"]);
    assert_eq!(log_to_stdout("end\n", "T"), vec!["[T] end"]);
    assert!(log_to_stdout("", "T").is_empty());
    for message in ["a\r", "a\r\r\n", "\n", "\r\n\r", "a\n\r\nb", "界\u{2028}x\n"] {
        let expected: Vec<String> = message.lines().map(|line| format!("[T] {line}")).collect();
        assert_eq!(log_to_stdout(message, "T"), expected);
    }
}

fn record(running: Option<bool>) -> InstanceRecord<Option<bool>, u8> {
    InstanceRecord {
        handles: running,
        stop_in_progress: true,
        stop_started_at: Some(5),
        task_run_state: 7,
    }
}

fn observe(running: &Option<bool>) -> Observation {
    Observation {
        controller_connected: Some(true),
        resource_loaded: None,
        tasker_inited: Some(false),
        tasker_running: *running,
    }
}

#[test]
fn instance_state_ends_a_finished_stop() {
    let mut instances = StringMap::new();
    instances.insert("idle".to_string(), record(None));
    instances.insert("busy".to_string(), record(Some(true)));
    let state = maa_get_instance_state(&mut instances, "idle", observe).expect("a state");
    assert!(state.connected);
    assert!(!state.resource_loaded);
    assert!(!state.tasker_inited);
    assert!(!state.is_running);
    assert_eq!(state.task_run_state, 7);
    let idle = instances.get("idle").expect("the instance");
    assert!(!idle.stop_in_progress);
    assert_eq!(idle.stop_started_at, None);
    let state = maa_get_instance_state(&mut instances, "busy", observe).expect("a state");
    assert!(state.is_running);
    assert!(instances.get("busy").expect("the instance").stop_in_progress);
    assert_eq!(
        maa_get_instance_state(&mut instances, "none", observe).err(),
        Some("Instance not found".to_string())
    );
}

#[test]
fn all_states_are_listed_with_the_caches() {
    let mut instances = StringMap::new();
    instances.insert("idle".to_string(), record(Some(false)));
    instances.insert("busy".to_string(), record(Some(true)));
    let states = maa_get_all_states(
        &mut instances,
        &vec![1u8],
        &vec![2u16],
        &vec!["socket".to_string()],
        &vec![3u32],
        observe,
    );
    assert!(states.instances.get("busy").expect("the instance").is_running);
    assert!(!states.instances.get("idle").expect("the instance").is_running);
    assert_eq!(states.cached_adb_devices, vec![1]);
    assert_eq!(states.cached_win32_windows, vec![2]);
    assert_eq!(states.cached_wlroots_sockets, vec!["socket".to_string()]);
    assert_eq!(states.cached_gamescope_instances, vec![3]);
    assert!(!instances.get("idle").expect("the instance").stop_in_progress);
    assert!(instances.get("busy").expect("the instance").stop_in_progress);
}

#[test]
fn caches_are_copied_unless_they_are_out_of_reach() {
    let poisoned = || Err("poisoned lock".to_string());
    let refused: Result<Vec<u8>, String> = Err("poisoned lock".to_string());
    assert_eq!(maa_get_cached_adb_devices(Ok(&vec![1u8])), Ok(vec![1]));
    assert_eq!(maa_get_cached_adb_devices::<u8>(poisoned()), refused);
    assert_eq!(maa_get_cached_win32_windows(Ok(&vec![1u8])), Ok(vec![1]));
    assert_eq!(maa_get_cached_win32_windows::<u8>(poisoned()), refused);
    assert_eq!(maa_get_cached_gamescope_instances(Ok(&vec![1u8])), Ok(vec![1]));
    assert_eq!(maa_get_cached_gamescope_instances::<u8>(poisoned()), refused);
    assert_eq!(
        maa_get_cached_wlroots_sockets(Ok(&vec!["s".to_string()])),
        Ok(vec!["s".to_string()])
    );
    assert!(maa_get_cached_wlroots_sockets(Err("poisoned lock".to_string())).is_err());
}

#[test]
fn all_states_agree_with_the_states_of_each() {
    let instances = || {
        let mut instances = StringMap::new();
        instances.insert("idle".to_string(), record(None));
        instances.insert("busy".to_string(), record(Some(true)));
        instances
    };
    let none: Vec<u8> = Vec::new();
    let mut together = instances();
    let states =
        maa_get_all_states(&mut together, &none, &none, &Vec::new(), &none, observe);
    for id in ["idle", "busy"] {
        let mut alone = instances();
        let shown = format!("{:?}", states.instances.get(id));
        let before = maa_get_instance_state(&mut alone, id, observe).expect("a state");
        assert_eq!(shown, format!("{:?}", Some(&before)));
        assert_eq!(format!("{:?}", alone.get(id)), format!("{:?}", together.get(id)));
        let after = maa_get_instance_state(&mut together, id, observe).expect("a state");
        assert_eq!(shown, format!("{:?}", Some(&after)));
    }
}
