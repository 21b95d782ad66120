use gaze_core::overlay::DisabledSlice;
use gaze_core::overlay::DisabledStore;
use gaze_core::samples::GazeFilter;
use gaze_core::samples::QueryError;
use gaze_core::sql::SqlParam;
use gaze_core::sql::box_stats_query;
use gaze_core::sql::column_values_query;
use gaze_core::sql::dump_select_query;
use gaze_core::sql::gaze_query;
use gaze_core::sql::list_slices_query;
use gaze_core::sql::pragma_columns_query;
use gaze_core::sql::sessions_query;
use gaze_core::sql::static_triples_query;
use gaze_core::sql::table_exists_query;
use gaze_core::sql::timeline_recordings_query;

fn text_param(p: &SqlParam) -> Option<&str> {
    match p {
        SqlParam::Text(s) => Some(s.as_str()),
        SqlParam::Int(_) => None,
    }
}

fn int_param(p: &SqlParam) -> Option<i64> {
    match p {
        SqlParam::Text(_) => None,
        SqlParam::Int(i) => Some(*i),
    }
}

fn filter_for(test: &str) -> GazeFilter {
    GazeFilter {
        test_name: Some(test.to_string()),
        test_name_alt: None,
        participants: Vec::new(),
        timeline: None,
        recording: None,
        limit: None,
        offset: None,
    }
}

const GAZE_BASE: &str = "SELECT \"Gaze point X\", \"Gaze point Y\", Box, \"Presented Media name\", \"Timeline name\", \"Participant name\", \"Recording name\", \"Exact time\", \"Test Name\" FROM gaze_data WHERE \"Test Name\" = ?1";

#[test]
fn gaze_query_plain_filter() {
    let overlay = DisabledStore::new();
    let q = gaze_query(&filter_for("A"), &overlay).unwrap();
    assert_eq!(q.text, format!("{} ORDER BY \"Exact time\"", GAZE_BASE));
    assert_eq!(q.params.len(), 1);
    assert_eq!(text_param(&q.params[0]), Some("A"));
}

#[test]
fn gaze_query_binds_values_instead_of_interpolating() {
    let overlay = DisabledStore::new();
    let mut filter = filter_for("A'; DROP TABLE gaze_data; --");
    filter.participants = vec!["Robert\"; --".to_string()];
    let q = gaze_query(&filter, &overlay).unwrap();
    // the text depends only on the filter's shape, never on its values
    assert_eq!(
        q.text,
        format!(
            "{} AND \"Participant name\" IN (?) ORDER BY \"Exact time\"",
            GAZE_BASE
        )
    );
    assert!(!q.text.contains("DROP"));
    assert_eq!(text_param(&q.params[0]), Some("A'; DROP TABLE gaze_data; --"));
    assert_eq!(text_param(&q.params[1]), Some("Robert\"; --"));
}

#[test]
fn gaze_query_paging_policy() {
    let overlay = DisabledStore::new();
    let mut filter = filter_for("A");
    filter.limit = Some(10);
    filter.offset = Some(5);
    let q = gaze_query(&filter, &overlay).unwrap();
    assert!(q.text.ends_with(" ORDER BY \"Exact time\" LIMIT ? OFFSET ?"));
    assert_eq!(int_param(&q.params[1]), Some(10));
    assert_eq!(int_param(&q.params[2]), Some(5));

    // offset without a limit is a no-op
    filter.limit = None;
    let q = gaze_query(&filter, &overlay).unwrap();
    assert!(q.text.ends_with(" ORDER BY \"Exact time\""));
    assert_eq!(q.params.len(), 1);

    // a limit without an offset binds only the limit
    filter.limit = Some(3);
    filter.offset = Some(0);
    let q = gaze_query(&filter, &overlay).unwrap();
    assert!(q.text.ends_with(" LIMIT ?"));
    assert_eq!(int_param(&q.params[1]), Some(3));
}

#[test]
fn gaze_query_restricts_overlay_to_compatible_slices() {
    let overlay = DisabledStore::from_slices(vec![
        DisabledSlice::new("A".to_string(), "R1".to_string(), "P1".to_string()),
        DisabledSlice::new("B".to_string(), "R9".to_string(), "P9".to_string()),
    ]);
    let q = gaze_query(&filter_for("A"), &overlay).unwrap();
    assert!(q.text.contains(
        " AND NOT ((\"Test Name\" = ? AND \"Recording name\" = ? AND \"Participant name\" = ?))"
    ));
    // one compatible slice: test value plus its three names
    assert_eq!(q.params.len(), 4);
    assert_eq!(text_param(&q.params[1]), Some("A"));
    assert_eq!(text_param(&q.params[2]), Some("R1"));
    assert_eq!(text_param(&q.params[3]), Some("P1"));
}

#[test]
fn gaze_query_missing_test_is_rejected() {
    let overlay = DisabledStore::new();
    let mut filter = filter_for("A");
    filter.test_name = None;
    let err = gaze_query(&filter, &overlay).unwrap_err();
    assert!(matches!(err, QueryError::MissingParameter(_)));
}

#[test]
fn placeholders_match_bound_values() {
    let overlay = DisabledStore::from_slices(vec![
        DisabledSlice::new("A".to_string(), "R1".to_string(), "P1".to_string()),
        DisabledSlice::new("A".to_string(), "R2".to_string(), "P2".to_string()),
    ]);
    let mut filter = filter_for("A");
    filter.participants = vec!["P1".to_string(), "P2".to_string(), "P3".to_string()];
    filter.timeline = Some("TL".to_string());
    filter.recording = None;
    filter.limit = Some(7);
    filter.offset = Some(2);
    let q = gaze_query(&filter, &overlay).unwrap();
    let marks = q.text.matches('?').count();
    assert_eq!(marks, q.params.len());
    assert_eq!(q.params.len(), 1 + 3 + 1 + 3 * 2 + 2);
}

#[test]
fn box_stats_query_groups_by_box() {
    let overlay = DisabledStore::new();
    let q = box_stats_query(&filter_for("A"), &overlay).unwrap();
    assert_eq!(
        q.text,
        "SELECT Box, COUNT(*) AS count FROM gaze_data WHERE \"Test Name\" = ?1 GROUP BY Box"
    );
    assert_eq!(q.params.len(), 1);
}

#[test]
fn timeline_recordings_query_orders_pairs() {
    let overlay = DisabledStore::new();
    let q = timeline_recordings_query(&filter_for("A"), &overlay).unwrap();
    assert_eq!(
        q.text,
        "SELECT DISTINCT \"Timeline name\", \"Recording name\" FROM gaze_data WHERE \"Test Name\" = ?1 ORDER BY \"Timeline name\", \"Recording name\""
    );
}

#[test]
fn sessions_query_requires_both_lists() {
    let overlay = DisabledStore::new();
    assert!(sessions_query(&Vec::new(), &vec!["P".to_string()], &overlay).is_none());
    assert!(sessions_query(&vec!["T".to_string()], &Vec::new(), &overlay).is_none());
    let q = sessions_query(&vec!["T".to_string()], &vec!["P".to_string()], &overlay).unwrap();
    assert!(q.text.contains("\"Test Name\" IN (?)"));
    assert!(q.text.contains("\"Participant name\" IN (?)"));
    assert_eq!(q.params.len(), 2);
}

#[test]
fn list_slices_query_optional_test() {
    let q = list_slices_query(&None, &Vec::new());
    assert_eq!(
        q.text,
        "SELECT DISTINCT \"Test Name\", \"Recording name\", \"Participant name\" FROM gaze_data WHERE 1=1 ORDER BY 1,2,3"
    );
    assert!(q.params.is_empty());
    let q = list_slices_query(&Some("A".to_string()), &vec!["P".to_string()]);
    assert!(q.text.contains(" AND \"Test Name\" = ?"));
    assert!(q.text.contains(" AND \"Participant name\" IN (?)"));
    assert_eq!(q.params.len(), 2);
}

#[test]
fn helper_queries_have_expected_shape() {
    let q = table_exists_query(&"participants".to_string());
    assert_eq!(
        q.text,
        "SELECT 1 FROM sqlite_master WHERE type='table' AND name=?1 LIMIT 1"
    );
    assert_eq!(text_param(&q.params[0]), Some("participants"));

    let q = pragma_columns_query("recordings");
    assert_eq!(q.text, "PRAGMA table_info(recordings)");

    let cols = vec!["a".to_string(), "b c".to_string()];
    let q = dump_select_query("recordings", &cols);
    assert_eq!(q.text, "SELECT \"a\",\"b c\" FROM recordings");

    let q = column_values_query("recordings", "Participant");
    assert_eq!(q.text, "SELECT \"Participant\" FROM recordings");

    let q = static_triples_query();
    assert!(q.text.starts_with("SELECT DISTINCT \"Test Name\", \"Participant name\", \"Recording name\" FROM gaze_data"));
    assert!(q.params.is_empty());
}
