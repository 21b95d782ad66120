use gaze_core::overlay::DisabledSlice;
use gaze_core::overlay::DisabledStore;
use gaze_core::relations::get_all_participant_sessions;
use gaze_core::relations::get_participants_for_test;
use gaze_core::relations::get_tests_for_participant;
use gaze_core::relations::get_timeline_recordings;
use gaze_core::relations::list_gaze_slices;
use gaze_core::relations::participants_by_test;
use gaze_core::relations::tests_by_participant;
use gaze_core::samples::GazeData;
use gaze_core::samples::GazeFilter;
use gaze_core::samples::QueryError;
use gaze_core::samples::get_gaze_data;
use gaze_core::stats::get_box_stats;
use gaze_core::tables::get_static_data;

fn sample(test: &str, part: &str, rec: &str, box_name: &str, ts: &str) -> GazeData {
    GazeData {
        gaze_x: Some("0.5".to_string()),
        gaze_y: None,
        box_name: box_name.to_string(),
        media_name: "img.png".to_string(),
        timeline: "TL1".to_string(),
        participant: part.to_string(),
        recording: rec.to_string(),
        timestamp: ts.to_string(),
        test_name: test.to_string(),
    }
}

fn filter_for(test: &str) -> GazeFilter {
    GazeFilter {
        test_name: Some(test.to_string()),
        test_name_alt: None,
        participants: Vec::new(),
        timeline: None,
        recording: None,
        limit: None,
        offset: None,
    }
}

fn scenario_samples() -> Vec<GazeData> {
    vec![
        sample("A", "P1", "R1", "X", "t1"),
        sample("A", "P1", "R1", "Y", "t2"),
        sample("A", "P2", "R2", "X", "t3"),
    ]
}

fn pct(stats: &gaze_core::stats::GazeStats, key: &str) -> Option<u64> {
    stats
        .box_percentages
        .iter()
        .find(|(k, _)| k == key)
        .map(|(_, v)| *v)
}

#[test]
fn box_stats_no_exclusions() {
    let samples = scenario_samples();
    let overlay = DisabledStore::new();
    let stats = get_box_stats(&samples, &filter_for("A"), &overlay).unwrap();
    assert_eq!(stats.total_points, 3);
    // shares are held in hundredths of a percent, rounded to the nearest
    assert_eq!(pct(&stats, "X"), Some(6667));
    assert_eq!(pct(&stats, "Y"), Some(3333));
    assert_eq!(stats.box_percentages.len(), 2);
    assert!((6667 as f64 / 100.0 - 66.67).abs() < 1e-9);
    assert!((3333 as f64 / 100.0 - 33.33).abs() < 1e-9);
}

#[test]
fn box_stats_with_exclusion() {
    let samples = scenario_samples();
    let overlay = DisabledStore::from_slices(vec![DisabledSlice::new(
        "A".to_string(),
        "R1".to_string(),
        "P1".to_string(),
    )]);
    let stats = get_box_stats(&samples, &filter_for("A"), &overlay).unwrap();
    assert_eq!(stats.total_points, 1);
    assert_eq!(pct(&stats, "X"), Some(10000));
    assert_eq!(stats.box_percentages.len(), 1);
}

#[test]
fn box_stats_nothing_matches() {
    let samples = scenario_samples();
    let overlay = DisabledStore::new();
    let stats = get_box_stats(&samples, &filter_for("ZZ"), &overlay).unwrap();
    assert_eq!(stats.total_points, 0);
    assert!(stats.box_percentages.is_empty());
}

#[test]
fn box_stats_missing_test_is_rejected() {
    let samples = scenario_samples();
    let overlay = DisabledStore::new();
    let mut filter = filter_for("A");
    filter.test_name = None;
    let err = get_box_stats(&samples, &filter, &overlay).unwrap_err();
    assert!(matches!(err, QueryError::MissingParameter(_)));
}

#[test]
fn gaze_data_limit_and_offset() {
    let mut samples = Vec::new();
    // timestamps t01..t20, inserted out of order
    for i in (1..=20).rev() {
        samples.push(sample("A", "P1", "R1", "X", &format!("t{:02}", i)));
    }
    let overlay = DisabledStore::new();
    let mut filter = filter_for("A");
    filter.limit = Some(10);
    filter.offset = Some(5);
    let rows = get_gaze_data(&samples, &filter, &overlay).unwrap();
    let ts: Vec<String> = rows.iter().map(|g| g.timestamp.clone()).collect();
    let expected: Vec<String> = (6..=15).map(|i| format!("t{:02}", i)).collect();
    assert_eq!(ts, expected);
}

#[test]
fn gaze_data_zero_limit_ignores_offset() {
    let mut samples = Vec::new();
    for i in 1..=7 {
        samples.push(sample("A", "P1", "R1", "X", &format!("t{}", i)));
    }
    let overlay = DisabledStore::new();
    let mut filter = filter_for("A");
    filter.limit = Some(0);
    filter.offset = Some(3);
    let rows = get_gaze_data(&samples, &filter, &overlay).unwrap();
    assert_eq!(rows.len(), 7);
}

#[test]
fn gaze_data_empty_participants_restricts_nothing() {
    let samples = scenario_samples();
    let overlay = DisabledStore::new();
    let rows = get_gaze_data(&samples, &filter_for("A"), &overlay).unwrap();
    let parts: Vec<&str> = rows.iter().map(|g| g.participant.as_str()).collect();
    assert!(parts.contains(&"P1"));
    assert!(parts.contains(&"P2"));
    assert_eq!(rows.len(), 3);
}

#[test]
fn gaze_data_participant_list_restricts() {
    let samples = scenario_samples();
    let overlay = DisabledStore::new();
    let mut filter = filter_for("A");
    filter.participants = vec!["P2".to_string()];
    let rows = get_gaze_data(&samples, &filter, &overlay).unwrap();
    assert_eq!(rows.len(), 1);
    assert_eq!(rows[0].participant, "P2");
}

#[test]
fn gaze_data_alias_test_name_works() {
    let samples = scenario_samples();
    let overlay = DisabledStore::new();
    let mut filter = filter_for("A");
    filter.test_name = None;
    filter.test_name_alt = Some("A".to_string());
    let rows = get_gaze_data(&samples, &filter, &overlay).unwrap();
    assert_eq!(rows.len(), 3);
}

#[test]
fn gaze_data_excludes_overlay_slices() {
    let samples = scenario_samples();
    let overlay = DisabledStore::from_slices(vec![DisabledSlice::new(
        "A".to_string(),
        "R1".to_string(),
        "P1".to_string(),
    )]);
    let rows = get_gaze_data(&samples, &filter_for("A"), &overlay).unwrap();
    assert_eq!(rows.len(), 1);
    assert_eq!(rows[0].participant, "P2");
}

#[test]
fn timeline_recordings_distinct_and_sorted() {
    let samples = vec![
        sample("A", "P1", "R2", "X", "t1"),
        sample("A", "P1", "R2", "Y", "t2"),
        sample("A", "P2", "R1", "X", "t3"),
    ];
    let overlay = DisabledStore::new();
    let rows = get_timeline_recordings(&samples, &filter_for("A"), &overlay).unwrap();
    assert_eq!(rows.len(), 2);
    assert_eq!(rows[0].timeline, "TL1");
    assert_eq!(rows[0].recording, "R1");
    assert_eq!(rows[1].recording, "R2");
}

#[test]
fn sessions_empty_lists_give_empty() {
    let samples = scenario_samples();
    let overlay = DisabledStore::new();
    let rows = get_all_participant_sessions(&samples, &Vec::new(), &vec!["P1".to_string()], &overlay);
    assert!(rows.is_empty());
    let rows = get_all_participant_sessions(&samples, &vec!["A".to_string()], &Vec::new(), &overlay);
    assert!(rows.is_empty());
}

#[test]
fn sessions_listing_is_filtered_and_sorted() {
    let samples = scenario_samples();
    let overlay = DisabledStore::new();
    let rows = get_all_participant_sessions(
        &samples,
        &vec!["A".to_string()],
        &vec!["P1".to_string(), "P2".to_string()],
        &overlay,
    );
    assert_eq!(rows.len(), 2);
    assert_eq!(rows[0].participant, "P1");
    assert_eq!(rows[0].recording, "R1");
    assert_eq!(rows[1].participant, "P2");
}

#[test]
fn list_gaze_slices_distinct_sorted() {
    let samples = scenario_samples();
    let rows = list_gaze_slices(&samples, &None, &Vec::new());
    assert_eq!(rows.len(), 2);
    assert_eq!(rows[0].recording_name, "R1");
    assert_eq!(rows[1].recording_name, "R2");
    let only_p2 = list_gaze_slices(&samples, &None, &vec!["P2".to_string()]);
    assert_eq!(only_p2.len(), 1);
    assert_eq!(only_p2[0].participant_name, "P2");
}

#[test]
fn participants_for_test_keeps_pair_with_surviving_recording() {
    let samples = vec![
        sample("T", "P1", "R1", "X", "t1"),
        sample("T", "P1", "R2", "X", "t2"),
    ];
    let overlay = DisabledStore::from_slices(vec![DisabledSlice::new(
        "T".to_string(),
        "R1".to_string(),
        "P1".to_string(),
    )]);
    let parts = get_participants_for_test(&samples, &"T".to_string(), &overlay);
    assert_eq!(parts, vec!["P1".to_string()]);
}

#[test]
fn participants_for_test_drops_fully_covered_pair() {
    let samples = vec![
        sample("T", "P1", "R1", "X", "t1"),
        sample("T", "P1", "R2", "X", "t2"),
    ];
    let overlay = DisabledStore::from_slices(vec![
        DisabledSlice::new("T".to_string(), "R1".to_string(), "P1".to_string()),
        DisabledSlice::new("T".to_string(), "R2".to_string(), "P1".to_string()),
    ]);
    let parts = get_participants_for_test(&samples, &"T".to_string(), &overlay);
    assert!(parts.is_empty());
}

#[test]
fn tests_for_participant_honours_overlay() {
    let samples = vec![
        sample("T1", "P", "R1", "X", "t1"),
        sample("T2", "P", "R1", "X", "t2"),
    ];
    let overlay = DisabledStore::from_slices(vec![DisabledSlice::new(
        "T2".to_string(),
        "R1".to_string(),
        "P".to_string(),
    )]);
    let tests = get_tests_for_participant(&samples, &"P".to_string(), &overlay);
    assert_eq!(tests, vec!["T1".to_string()]);
}

#[test]
fn relation_maps_keep_pair_until_all_recordings_covered() {
    let triples = vec![
        ("T".to_string(), "P1".to_string(), "R1".to_string()),
        ("T".to_string(), "P1".to_string(), "R2".to_string()),
    ];
    let one = DisabledStore::from_slices(vec![DisabledSlice::new(
        "T".to_string(),
        "R1".to_string(),
        "P1".to_string(),
    )]);
    let by_test = participants_by_test(&triples, &one);
    assert_eq!(by_test.len(), 1);
    assert_eq!(by_test[0].0, "T");
    assert_eq!(by_test[0].1, vec!["P1".to_string()]);
    let both = DisabledStore::from_slices(vec![
        DisabledSlice::new("T".to_string(), "R1".to_string(), "P1".to_string()),
        DisabledSlice::new("T".to_string(), "R2".to_string(), "P1".to_string()),
    ]);
    assert!(participants_by_test(&triples, &both).is_empty());
    let by_part = tests_by_participant(&triples, &one);
    assert_eq!(by_part.len(), 1);
    assert_eq!(by_part[0].0, "P1");
    assert_eq!(by_part[0].1, vec!["T".to_string()]);
}

#[test]
fn static_data_shapes_lists_and_maps() {
    let participant_vals = vec![
        Some("  Bob ".to_string()),
        Some("Alice".to_string()),
        Some("Bob".to_string()),
        Some("   ".to_string()),
        None,
    ];
    let test_vals = vec![Some("T2".to_string()), Some("T1".to_string())];
    let triples = vec![("T1".to_string(), "Alice".to_string(), "R1".to_string())];
    let overlay = DisabledStore::new();
    let data = get_static_data(Vec::new(), Vec::new(), &participant_vals, &test_vals, &triples, &overlay);
    assert_eq!(data.participants, vec!["Alice".to_string(), "Bob".to_string()]);
    assert_eq!(data.test_names, vec!["T1".to_string(), "T2".to_string()]);
    assert!(data.test_group.is_empty());
    assert_eq!(data.participants_by_test.len(), 1);
    assert_eq!(data.participants_by_test[0].0, "T1");
    assert_eq!(data.tests_by_participant[0].0, "Alice");
}
