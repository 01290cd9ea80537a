use fxprof_processed_profile::Profile;
use serde_json::Value;
use std::time::Duration;
use utilization_profile::categories::categories;
use utilization_profile::timeline::{timestamp_of, MAX_DURATION};
use utilization_profile::{CategoryColor, CategoryOrSubcategory, CategoryRule, Converter, Row};

fn converter() -> Converter {
    Converter::with_reference_time("jobs.csv", categories(), Duration::from_secs(1_700_000_000))
}

fn row(job_type_name: &str, duration: u64) -> Row<'_> {
    Row {
        repository_name: "autoland",
        job_type_name,
        platform: "linux1804-64",
        job_group_symbol: "Btime",
        duration,
    }
}

fn thread(profile: &Profile) -> Value {
    let json = serde_json::to_value(profile).unwrap();
    assert_eq!(json["threads"].as_array().unwrap().len(), 1);
    json["threads"][0].clone()
}

fn integers(column: &Value) -> Vec<i64> {
    column.as_array().unwrap().iter().map(|value| value.as_i64().unwrap()).collect()
}

fn floats(column: &Value) -> Vec<f64> {
    column.as_array().unwrap().iter().map(|value| value.as_f64().unwrap()).collect()
}

/// The timestamps of a thread's samples, in milliseconds.
fn timestamps(thread: &Value) -> Vec<f64> {
    let mut at = 0.0;
    floats(&thread["samples"]["timeDeltas"])
        .into_iter()
        .map(|delta| {
            at += delta;
            at
        })
        .collect()
}

/// The frames of a stack, outermost first, each as label, category index and
/// subcategory index.
fn frames(thread: &Value, stack: i64) -> Vec<(String, i64, i64)> {
    let mut found = Vec::new();
    let mut next = Some(stack);
    while let Some(stack) = next {
        let stack = stack as usize;
        let frame = thread["stackTable"]["frame"][stack].as_u64().unwrap() as usize;
        let func = thread["frameTable"]["func"][frame].as_u64().unwrap() as usize;
        let name = thread["funcTable"]["name"][func].as_u64().unwrap() as usize;
        found.push((
            thread["stringArray"][name].as_str().unwrap().to_string(),
            thread["frameTable"]["category"][frame].as_i64().unwrap(),
            thread["frameTable"]["subcategory"][frame].as_i64().unwrap(),
        ));
        next = thread["stackTable"]["prefix"][stack].as_i64();
    }
    found.reverse();
    found
}

fn frame(label: &str, category: i64, subcategory: i64) -> (String, i64, i64) {
    (label.to_string(), category, subcategory)
}

#[test]
fn a_new_converter_has_an_empty_timeline() {
    let converter = converter();
    assert_eq!(converter.accumulated_seconds(), 0);
    let profile = converter.finish();
    let thread = thread(&profile);
    assert_eq!(thread["samples"]["length"].as_u64(), Some(0));
    assert_eq!(thread["stackTable"]["length"].as_u64(), Some(0));
}

#[test]
fn the_profile_has_one_process_with_one_main_thread() {
    let profile = converter().finish();
    let json = serde_json::to_value(&profile).unwrap();
    assert_eq!(json["meta"]["product"].as_str(), Some("Utilization"));
    assert_eq!(json["meta"]["interval"].as_f64(), Some(1000.0));
    assert_eq!(json["meta"]["startTime"].as_f64(), Some(1_700_000_000_000.0));
    let thread = thread(&profile);
    assert_eq!(thread["processName"].as_str(), Some("Utilization"));
    assert_eq!(thread["pid"].as_str(), Some("0"));
    assert_eq!(thread["tid"].as_str(), Some("0"));
    assert_eq!(thread["isMainThread"].as_bool(), Some(true));
    assert_eq!(thread["processStartupTime"].as_f64(), Some(0.0));
    assert_eq!(thread["registerTime"].as_f64(), Some(0.0));
}

#[test]
fn the_reference_time_is_kept_to_the_fraction() {
    let converter =
        Converter::with_reference_time("jobs.csv", categories(), Duration::new(1, 976_562_500));
    let json = serde_json::to_value(&converter.finish()).unwrap();
    assert_eq!(json["meta"]["startTime"].as_f64(), Some(1976.5625));
}

#[test]
fn the_reference_time_defaults_to_now() {
    let before = std::time::UNIX_EPOCH.elapsed().unwrap().as_secs_f64() * 1000.0;
    let converter = Converter::new("jobs.csv", categories()).expect("clock before the epoch");
    let after = std::time::UNIX_EPOCH.elapsed().unwrap().as_secs_f64() * 1000.0;
    let json = serde_json::to_value(&converter.finish()).unwrap();
    let start = json["meta"]["startTime"].as_f64().unwrap();
    assert!(before <= start && start <= after);
}

#[test]
fn the_categories_of_the_table_are_registered() {
    let json = serde_json::to_value(&converter().finish()).unwrap();
    let names: Vec<&str> = json["meta"]["categories"]
        .as_array()
        .unwrap()
        .iter()
        .map(|entry| entry["name"].as_str().unwrap())
        .collect();
    assert_eq!(names, vec!["Other", "Tp6", "Startup", "Resource", "Benchmark"]);
}

#[test]
fn the_path_of_the_input_is_interned() {
    let converter =
        Converter::with_reference_time("/data/jobs-2024.csv", categories(), Duration::from_secs(1));
    let handle = converter.file_path();
    let profile = converter.finish();
    assert_eq!(profile.get_string(handle), "/data/jobs-2024.csv");
}

#[test]
fn durations_add_up_on_the_clock() {
    let mut converter = converter();
    let mut line = 2;
    for duration in [5, 10, 3] {
        converter.process_row(&row("test-tp6-1", duration), line);
        line += 1;
    }
    assert_eq!(converter.accumulated_seconds(), 18);
    let thread = thread(&converter.finish());
    assert_eq!(timestamps(&thread), vec![0.0, 5000.0, 5000.0, 15000.0, 15000.0, 18000.0]);
    assert_eq!(integers(&thread["samples"]["weight"]), vec![5, 0, 10, 0, 3, 0]);
    assert_eq!(integers(&thread["samples"]["threadCPUDelta"]), vec![
        0, 5_000_000, 0, 10_000_000, 0, 3_000_000
    ]);
}

#[test]
fn the_clock_follows_every_record() {
    let mut converter = converter();
    let mut expected = 0;
    for (index, duration) in [7u64, 0, 1, 3600, 0, 86_400].into_iter().enumerate() {
        converter.process_row(&row("build-linux64/opt", duration), index as u32 + 2);
        expected += duration;
        assert_eq!(converter.accumulated_seconds(), expected);
    }
    let thread = thread(&converter.finish());
    assert_eq!(integers(&thread["samples"]["weight"]).iter().sum::<i64>(), expected as i64);
    assert_eq!(*timestamps(&thread).last().unwrap(), expected as f64 * 1000.0);
    assert_eq!(timestamps(&thread)[0], 0.0);
}

#[test]
fn one_record_leaves_a_pair_of_samples() {
    let mut converter = converter();
    converter.process_row(&row("test-startup", 42), 2);
    let thread = thread(&converter.finish());
    assert_eq!(thread["samples"]["length"].as_u64(), Some(2));
    let stacks = integers(&thread["samples"]["stack"]);
    assert_eq!(stacks[0], stacks[1]);
    assert_eq!(timestamps(&thread), vec![0.0, 42_000.0]);
    assert_eq!(integers(&thread["samples"]["weight"]), vec![42, 0]);
    assert_eq!(integers(&thread["samples"]["threadCPUDelta"]), vec![0, 42_000_000]);
}

#[test]
fn every_record_leaves_a_pair_with_one_stack() {
    let mut converter = converter();
    let names = ["test-tp6m-fenix", "test-power", "test-tp6m-fenix", "build", "test-jetstream3"];
    for (index, name) in names.iter().enumerate() {
        converter.process_row(&row(name, index as u64 + 1), index as u32 + 2);
    }
    let thread = thread(&converter.finish());
    let stacks = integers(&thread["samples"]["stack"]);
    let weights = integers(&thread["samples"]["weight"]);
    let deltas = integers(&thread["samples"]["threadCPUDelta"]);
    assert_eq!(stacks.len(), 2 * names.len());
    for index in 0..names.len() {
        let duration = index as i64 + 1;
        assert_eq!(stacks[2 * index], stacks[2 * index + 1]);
        assert_eq!((weights[2 * index], deltas[2 * index]), (duration, 0));
        assert_eq!((weights[2 * index + 1], deltas[2 * index + 1]), (0, duration * 1_000_000));
        assert_eq!(frames(&thread, stacks[2 * index])[3].0, names[index]);
    }
}

#[test]
fn timestamps_never_go_back() {
    let mut converter = converter();
    for (index, duration) in [3u64, 0, 0, 12, 1, 0, 600].into_iter().enumerate() {
        converter.process_row(&row("test-resource", duration), index as u32 + 2);
    }
    let thread = thread(&converter.finish());
    for delta in floats(&thread["samples"]["timeDeltas"]) {
        assert!(delta >= 0.0);
    }
    let stamps = timestamps(&thread);
    for pair in 1..stamps.len() / 2 {
        assert!(stamps[2 * pair] >= stamps[2 * pair - 2]);
        assert!(stamps[2 * pair + 1] >= stamps[2 * pair - 1]);
    }
}

#[test]
fn a_record_of_no_duration_leaves_two_samples_at_one_instant() {
    let mut converter = converter();
    converter.process_row(&row("test-startup", 9), 2);
    converter.process_row(&row("test-startup", 0), 3);
    assert_eq!(converter.accumulated_seconds(), 9);
    let thread = thread(&converter.finish());
    assert_eq!(timestamps(&thread), vec![0.0, 9000.0, 9000.0, 9000.0]);
    assert_eq!(integers(&thread["samples"]["weight"]), vec![9, 0, 0, 0]);
    assert_eq!(integers(&thread["samples"]["threadCPUDelta"]), vec![0, 9_000_000, 0, 0]);
}

#[test]
fn the_stack_holds_repository_platform_group_and_job() {
    let mut converter = converter();
    let record = Row {
        repository_name: "mozilla-central",
        job_type_name: "test-android-hw/opt-tp6m-essential-fenix",
        platform: "android-hw-a55",
        job_group_symbol: "Btime-nofis",
        duration: 30,
    };
    converter.process_row(&record, 2);
    let thread = thread(&converter.finish());
    let stack = integers(&thread["samples"]["stack"])[0];
    assert_eq!(frames(&thread, stack), vec![
        frame("mozilla-central", 0, 0),
        frame("android-hw-a55", 0, 0),
        frame("Btime-nofis", 0, 0),
        frame("test-android-hw/opt-tp6m-essential-fenix", 1, 1),
    ]);
}

#[test]
fn only_the_job_frame_is_categorized() {
    let mut converter = converter();
    let record = Row {
        repository_name: "tp6m",
        job_type_name: "test-speedometer3",
        platform: "startup",
        job_group_symbol: "benchmark",
        duration: 1,
    };
    converter.process_row(&record, 2);
    let thread = thread(&converter.finish());
    assert_eq!(frames(&thread, integers(&thread["samples"]["stack"])[0]), vec![
        frame("tp6m", 0, 0),
        frame("startup", 0, 0),
        frame("benchmark", 0, 0),
        frame("test-speedometer3", 4, 2),
    ]);
}

#[test]
fn a_job_that_no_rule_matches_is_uncategorized() {
    let mut converter = converter();
    converter.process_row(&row("build-linux64/debug", 1), 2);
    let thread = thread(&converter.finish());
    let stack = integers(&thread["samples"]["stack"])[0];
    assert_eq!(frames(&thread, stack)[3], frame("build-linux64/debug", 0, 0));
}

#[test]
fn job_names_are_split_at_hyphens_and_slashes() {
    let mut converter = converter();
    converter.process_row(&row("test/tp6m/essential/chrome", 1), 2);
    converter.process_row(&row("test-tp6m_essential-chrome", 1), 3);
    converter.process_row(&row("test-tp6m--chrome", 1), 4);
    let thread = thread(&converter.finish());
    let stacks = integers(&thread["samples"]["stack"]);
    assert_eq!(frames(&thread, stacks[0])[3], frame("test/tp6m/essential/chrome", 1, 4));
    assert_eq!(frames(&thread, stacks[2])[3], frame("test-tp6m_essential-chrome", 0, 0));
    assert_eq!(frames(&thread, stacks[4])[3], frame("test-tp6m--chrome", 1, 0));
}

#[test]
fn a_job_name_keeps_its_category_over_a_hundred_records() {
    let mut converter = converter();
    for line in 2..102u32 {
        let record = Row {
            repository_name: if line % 2 == 0 { "autoland" } else { "try" },
            job_type_name: "test-tp6m-essential-fenix",
            platform: if line % 3 == 0 { "android-hw-a55" } else { "android-hw-s24" },
            job_group_symbol: "Btime",
            duration: line as u64,
        };
        converter.process_row(&record, line);
        if line % 10 == 0 {
            converter.process_row(&row("test-speedometer", 1), line);
        }
    }
    let thread = thread(&converter.finish());
    let stacks = integers(&thread["samples"]["stack"]);
    let mut seen = 0;
    for stack in stacks {
        let job = frames(&thread, stack)[3].clone();
        if job.0 == "test-tp6m-essential-fenix" {
            assert_eq!(job, frame("test-tp6m-essential-fenix", 1, 1));
            seen += 1;
        } else {
            assert_eq!(job, frame("test-speedometer", 4, 1));
        }
    }
    assert_eq!(seen, 200);
}

#[test]
fn every_label_is_interned_once() {
    let mut converter = converter();
    converter.process_row(&row("test-power", 4), 2);
    converter.process_row(&row("test-startup", 4), 3);
    converter.process_row(&row("test-power", 8), 4);
    let thread = thread(&converter.finish());
    let strings: Vec<&str> =
        thread["stringArray"].as_array().unwrap().iter().map(|text| text.as_str().unwrap()).collect();
    assert_eq!(strings, vec!["autoland", "linux1804-64", "Btime", "test-power", "test-startup"]);
    let stacks = integers(&thread["samples"]["stack"]);
    assert_ne!(stacks[0], stacks[2]);
    assert_eq!(frames(&thread, stacks[4])[3], frame("test-power", 3, 0));
}

#[test]
fn the_line_of_a_record_leaves_its_samples_as_they_are() {
    let mut by_line = converter();
    by_line.process_row(&row("test-tp6", 7), 2);
    by_line.process_row(&row("test-tp6", 9), 3);
    let mut far_apart = converter();
    far_apart.process_row(&row("test-tp6", 7), 1000);
    far_apart.process_row(&row("test-tp6", 9), u32::MAX);
    let left = thread(&by_line.finish());
    let right = thread(&far_apart.finish());
    assert_eq!(left["samples"]["weight"], right["samples"]["weight"]);
    assert_eq!(left["samples"]["timeDeltas"], right["samples"]["timeDeltas"]);
    assert_eq!(left["samples"]["threadCPUDelta"], right["samples"]["threadCPUDelta"]);
}

#[test]
fn the_weight_of_a_sample_holds_31_bits() {
    assert_eq!(MAX_DURATION, 2_147_483_647);
    assert_eq!(MAX_DURATION + 1, 2_147_483_648);
    assert!(i32::try_from(MAX_DURATION).is_ok());
    assert!(i32::try_from(MAX_DURATION + 1).is_err());
}

#[test]
fn the_longest_duration_that_fits_is_accepted() {
    assert_eq!(MAX_DURATION, i32::MAX as u64);
    let mut converter = converter();
    converter.process_row(&row("test-tp6", MAX_DURATION), 2);
    assert_eq!(converter.accumulated_seconds(), 2_147_483_647);
    let thread = thread(&converter.finish());
    assert_eq!(integers(&thread["samples"]["weight"]), vec![2_147_483_647, 0]);
    assert_eq!(integers(&thread["samples"]["threadCPUDelta"]), vec![0, 2_147_483_647_000_000]);
    assert_eq!(timestamps(&thread), vec![0.0, 2_147_483_647_000.0]);
}

#[test]
fn a_timestamp_is_a_thousand_milliseconds_for_every_second() {
    assert_eq!(timestamp_of(0), 0);
    assert_eq!(timestamp_of(1), 1_000_000_000);
    assert_eq!(timestamp_of(18), 18_000_000_000);
    assert_eq!(timestamp_of(18_446_744_073), 18_446_744_073_000_000_000);
}

#[test]
fn a_timestamp_too_late_for_the_profile_is_the_latest_there_is() {
    assert_eq!(timestamp_of(18_446_744_074), u64::MAX);
    assert_eq!(timestamp_of(u64::MAX), u64::MAX);
    let mut converter = converter();
    for line in 2..11 {
        converter.process_row(&row("test-tp6", MAX_DURATION), line);
    }
    assert_eq!(converter.accumulated_seconds(), 9 * 2_147_483_647);
    let thread = thread(&converter.finish());
    let stamps = timestamps(&thread);
    assert_eq!(stamps[16], 8.0 * 2_147_483_647_000.0);
    assert_eq!(stamps[17], u64::MAX as f64 / 1_000_000.0);
}

#[test]
fn a_custom_table_decides_the_categories() {
    const RULES: &[CategoryRule] = &[
        (&["nightly"], CategoryOrSubcategory::Subcategory("Builds", CategoryColor::Orange, "Nightly")),
        (&["build"], CategoryOrSubcategory::Category("Builds", CategoryColor::Orange)),
    ];
    let mut converter =
        Converter::with_reference_time("jobs.csv", RULES, Duration::from_secs(0));
    converter.process_row(&row("build-linux64-nightly", 60), 2);
    converter.process_row(&row("build-linux64", 60), 3);
    converter.process_row(&row("test-tp6m", 60), 4);
    let profile = converter.finish();
    let json = serde_json::to_value(&profile).unwrap();
    assert_eq!(json["meta"]["categories"][1]["name"].as_str(), Some("Builds"));
    assert_eq!(json["meta"]["categories"][1]["color"].as_str(), Some("orange"));
    let thread = thread(&profile);
    let stacks = integers(&thread["samples"]["stack"]);
    assert_eq!(frames(&thread, stacks[0])[3], frame("build-linux64-nightly", 1, 1));
    assert_eq!(frames(&thread, stacks[2])[3], frame("build-linux64", 1, 0));
    assert_eq!(frames(&thread, stacks[4])[3], frame("test-tp6m", 0, 0));
}

#[test]
fn records_compare_by_their_fields() {
    assert_eq!(row("a", 1), row("a", 1));
    assert_ne!(row("a", 1), row("a", 2));
    assert_ne!(row("a", 1), row("b", 1));
}
