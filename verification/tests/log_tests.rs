use hope::cache_log::BuildScriptRunEvent;
use hope::cache_log::BuildScriptWrapperRunEvent;
use hope::cache_log::CacheLogLine;
use hope::cache_log::PullCrateOutputsEvent;
use hope::cache_log::PushCrateOutputsEvent;
use hope::cache_log::format_duration_secs;
use hope::cache_log::log_file_name;

#[test]
fn log_file_name_is_fixed() {
    assert_eq!(log_file_name(), "hope-log.jsonl");
}

#[test]
fn duration_formatting_gives_three_decimals() {
    assert_eq!(format_duration_secs(0), "0.000");
    assert_eq!(format_duration_secs(7), "0.007");
    assert_eq!(format_duration_secs(42), "0.042");
    assert_eq!(format_duration_secs(1234), "1.234");
    assert_eq!(format_duration_secs(12345), "12.345");
    assert_eq!(format_duration_secs(1000), "1.000");
}

#[test]
fn pulled_line_has_the_documented_shape() {
    let line = CacheLogLine::PulledCrateOutputs(PullCrateOutputsEvent {
        crate_unit_name: "anyhow-9f86d081884c7d65".to_string(),
        copied_at: "2024-05-01T12:00:00+00:00".to_string(),
        copied_from: "local cache".to_string(),
        duration_millis: 123,
    });
    assert_eq!(
        line.to_json_line(),
        "{\"PulledCrateOutputs\":{\"crate_unit_name\":\"anyhow-9f86d081884c7d65\",\
         \"copied_at\":\"2024-05-01T12:00:00+00:00\",\"copied_from\":\"local cache\",\
         \"duration_secs\":0.123}}"
    );
}

#[test]
fn pushed_line_has_the_documented_shape() {
    let line = CacheLogLine::PushedCrateOutputs(PushCrateOutputsEvent {
        crate_unit_name: "typenum-aa".to_string(),
        copied_at: "2024-05-01T12:00:01+00:00".to_string(),
        copied_from: "local cache".to_string(),
        duration_millis: 2000,
    });
    assert_eq!(
        line.to_json_line(),
        "{\"PushedCrateOutputs\":{\"crate_unit_name\":\"typenum-aa\",\
         \"copied_at\":\"2024-05-01T12:00:01+00:00\",\"copied_from\":\"local cache\",\
         \"duration_secs\":2.000}}"
    );
}

#[test]
fn run_lines_have_the_documented_shape() {
    let w = CacheLogLine::RanBuildScriptWrapper(BuildScriptWrapperRunEvent {
        crate_name: "typenum".to_string(),
        ran_at: "2024-05-01T12:00:02+00:00".to_string(),
    });
    assert_eq!(
        w.to_json_line(),
        "{\"RanBuildScriptWrapper\":{\"crate_name\":\"typenum\",\
         \"ran_at\":\"2024-05-01T12:00:02+00:00\"}}"
    );
    let r = CacheLogLine::RanBuildScript(BuildScriptRunEvent {
        crate_name: "typenum".to_string(),
        ran_at: "2024-05-01T12:00:03+00:00".to_string(),
    });
    assert_eq!(
        r.to_json_line(),
        "{\"RanBuildScript\":{\"crate_name\":\"typenum\",\
         \"ran_at\":\"2024-05-01T12:00:03+00:00\"}}"
    );
}

#[test]
fn json_strings_are_escaped() {
    let line = CacheLogLine::RanBuildScript(BuildScriptRunEvent {
        crate_name: "we\"ird\\name\nwith\tcontrol\u{1}".to_string(),
        ran_at: "t".to_string(),
    });
    assert_eq!(
        line.to_json_line(),
        "{\"RanBuildScript\":{\"crate_name\":\
         \"we\\\"ird\\\\name\\nwith\\tcontrol\\u0001\",\"ran_at\":\"t\"}}"
    );
}

#[test]
fn emitted_lines_parse_as_json() {
    let line = CacheLogLine::PulledCrateOutputs(PullCrateOutputsEvent {
        crate_unit_name: "odd \"name\"\\".to_string(),
        copied_at: "2024-05-01T12:00:00+00:00".to_string(),
        copied_from: "local cache".to_string(),
        duration_millis: 1500,
    });
    let text = line.to_json_line();
    let v: serde_json::Value = serde_json::from_str(&text).unwrap();
    let inner = v.get("PulledCrateOutputs").unwrap();
    assert_eq!(
        inner.get("crate_unit_name").unwrap().as_str().unwrap(),
        "odd \"name\"\\"
    );
    assert_eq!(inner.get("copied_from").unwrap().as_str().unwrap(), "local cache");
    assert_eq!(inner.get("duration_secs").unwrap().as_f64().unwrap(), 1.5);
}
