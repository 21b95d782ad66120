use gaze_core::search::CatalogRow;
use gaze_core::search::DurationRow;
use gaze_core::search::search_slices;
use gaze_core::search::search_tests;
use gaze_core::tables::DbValue;
use gaze_core::tables::ParticipantsTable;
use gaze_core::tables::build_row;
use gaze_core::tables::i64_to_string;
use gaze_core::tables::participants_table;
use gaze_core::tables::value_to_string;
use gaze_core::text::MediaKind;
use gaze_core::text::media_kind;
use gaze_core::text::str_le;
use gaze_core::text::trim_str;

fn cat(test: &str, group: Option<&str>, image: Option<&str>, sentence: Option<&str>) -> CatalogRow {
    CatalogRow {
        test_name: test.to_string(),
        group: group.map(|s| s.to_string()),
        image_name: image.map(|s| s.to_string()),
        sentence: sentence.map(|s| s.to_string()),
    }
}

fn dur(test: &str, rec: &str, part: &str, media: &str, micros: u64) -> DurationRow {
    DurationRow {
        test_name: test.to_string(),
        recording_name: rec.to_string(),
        participant_name: part.to_string(),
        media_name: media.to_string(),
        duration_micros: micros,
    }
}

#[test]
fn media_kind_by_extension_ignores_case() {
    assert_eq!(media_kind("clip.mp4"), MediaKind::Mp4);
    assert_eq!(media_kind("CLIP.MP4"), MediaKind::Mp4);
    assert_eq!(media_kind("img.png"), MediaKind::Png);
    assert_eq!(media_kind("IMG.PnG"), MediaKind::Png);
    assert_eq!(media_kind("notes.txt"), MediaKind::Other);
    assert_eq!(media_kind("mp4"), MediaKind::Other);
}

#[test]
fn search_tests_counts_occurrences_with_both_kinds() {
    let catalog = vec![cat("A", Some("g1"), Some("i1"), Some("s1"))];
    let durs = vec![
        dur("A", "R1", "P1", "a.mp4", 2_000_000),
        dur("A", "R1", "P1", "a.png", 1_000_000),
        dur("A", "R2", "P2", "b.mp4", 5_000_000),
    ];
    let rows = search_tests(&catalog, &durs);
    assert_eq!(rows.len(), 1);
    let r = &rows[0];
    assert_eq!(r.test_name, "A");
    assert_eq!(r.group.as_deref(), Some("g1"));
    // only (A,R1,P1) has both kinds
    assert_eq!(r.occurrences, Some(1));
    assert_eq!(r.mp4_triples, Some(2));
    assert_eq!(r.png_triples, Some(1));
    assert_eq!(r.pair_duration_total_micros, Some(3_000_000));
}

#[test]
fn search_tests_left_join_keeps_catalog_only_tests() {
    let catalog = vec![cat("B", None, None, None)];
    let durs = vec![dur("A", "R", "P", "x.mp4", 10)];
    let rows = search_tests(&catalog, &durs);
    assert_eq!(rows.len(), 2);
    assert_eq!(rows[0].test_name, "A");
    assert_eq!(rows[1].test_name, "B");
    // a test absent from the duration table keeps null aggregates
    assert_eq!(rows[1].occurrences, None);
    assert_eq!(rows[1].pair_duration_total_micros, None);
    // a test with durations but no paired slice has zero occurrences and no total
    assert_eq!(rows[0].occurrences, Some(0));
    assert_eq!(rows[0].mp4_triples, Some(1));
    assert_eq!(rows[0].png_triples, Some(0));
    assert_eq!(rows[0].pair_duration_total_micros, None);
}

#[test]
fn search_tests_takes_least_nonblank_catalog_fields() {
    let catalog = vec![
        cat("A", Some("zeta"), Some(""), Some("later")),
        cat("A", Some("alpha"), None, Some("earlier")),
    ];
    let rows = search_tests(&catalog, &Vec::new());
    assert_eq!(rows[0].group.as_deref(), Some("alpha"));
    assert_eq!(rows[0].image_name, None);
    assert_eq!(rows[0].sentence.as_deref(), Some("earlier"));
}

#[test]
fn search_slices_joins_catalog_and_durations() {
    let triples = vec![
        ("A".to_string(), "R1".to_string(), "P1".to_string()),
        ("A".to_string(), "R2".to_string(), "P2".to_string()),
    ];
    let catalog = vec![cat("A", Some("g"), None, None)];
    let durs = vec![
        dur("A", "R1", "P1", "a.mp4", 4),
        dur("A", "R1", "P1", "a.png", 6),
    ];
    let rows = search_slices(&triples, &catalog, &durs, &None, &Vec::new());
    assert_eq!(rows.len(), 2);
    // ordered by test, participant, recording
    assert_eq!(rows[0].participant_name, "P1");
    assert_eq!(rows[0].group.as_deref(), Some("g"));
    assert_eq!(rows[0].mp4_duration_micros, Some(4));
    assert_eq!(rows[0].png_duration_micros, Some(6));
    assert_eq!(rows[0].pair_duration_micros, Some(10));
    // left join: a triple without duration rows keeps null durations
    assert_eq!(rows[1].participant_name, "P2");
    assert_eq!(rows[1].pair_duration_micros, None);
    assert_eq!(rows[1].mp4_duration_micros, None);
}

#[test]
fn search_slices_filters_by_test_and_participants() {
    let triples = vec![
        ("A".to_string(), "R1".to_string(), "P1".to_string()),
        ("B".to_string(), "R1".to_string(), "P1".to_string()),
        ("A".to_string(), "R2".to_string(), "P2".to_string()),
    ];
    let rows = search_slices(
        &triples,
        &Vec::new(),
        &Vec::new(),
        &Some("A".to_string()),
        &vec!["P1".to_string()],
    );
    assert_eq!(rows.len(), 1);
    assert_eq!(rows[0].test_name, "A");
    assert_eq!(rows[0].participant_name, "P1");
}

#[test]
fn duration_sums_saturate_instead_of_wrapping() {
    let durs = vec![
        dur("A", "R", "P", "a.mp4", u64::MAX),
        dur("A", "R", "P", "b.mp4", 5),
        dur("A", "R", "P", "a.png", 1),
    ];
    let rows = search_tests(&Vec::new(), &durs);
    assert_eq!(rows[0].pair_duration_total_micros, Some(u64::MAX));
}

#[test]
fn value_to_string_shapes_each_kind() {
    assert_eq!(value_to_string(DbValue::Null), None);
    assert_eq!(value_to_string(DbValue::Int(123)), Some("123".to_string()));
    assert_eq!(value_to_string(DbValue::Int(-5)), Some("-5".to_string()));
    assert_eq!(
        value_to_string(DbValue::Real("1.5".to_string())),
        Some("1.5".to_string())
    );
    assert_eq!(
        value_to_string(DbValue::Text("abc".to_string())),
        Some("abc".to_string())
    );
    assert_eq!(
        value_to_string(DbValue::Blob(vec![1, 2, 3])),
        Some("AQID".to_string())
    );
}

#[test]
fn i64_rendering_handles_extremes() {
    assert_eq!(i64_to_string(0), "0");
    assert_eq!(i64_to_string(i64::MAX), "9223372036854775807");
    assert_eq!(i64_to_string(i64::MIN), "-9223372036854775808");
}

#[test]
fn build_row_pairs_columns_with_values() {
    let cols = vec!["a".to_string(), "b".to_string()];
    let row = build_row(&cols, vec![DbValue::Int(7), DbValue::Null]);
    assert_eq!(row.len(), 2);
    assert_eq!(row[0], ("a".to_string(), Some("7".to_string())));
    assert_eq!(row[1], ("b".to_string(), None));
}

#[test]
fn participants_table_fallback_rule() {
    assert_eq!(participants_table(true, true), ParticipantsTable::Primary);
    assert_eq!(participants_table(true, false), ParticipantsTable::Primary);
    assert_eq!(participants_table(false, true), ParticipantsTable::Legacy);
    assert_eq!(participants_table(false, false), ParticipantsTable::Absent);
}

#[test]
fn text_helpers_trim_and_order() {
    assert_eq!(trim_str("  a b \t\n"), "a b");
    assert_eq!(trim_str("   "), "");
    assert!(str_le("abc", "abd"));
    assert!(str_le("abc", "abc"));
    assert!(!str_le("b", "abc"));
    assert!(str_le("ab", "abc"));
}
