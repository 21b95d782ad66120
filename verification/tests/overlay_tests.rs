use gaze_core::codec::overlay_from_text;
use gaze_core::codec::parse_disabled_slices;
use gaze_core::codec::render_disabled_slices;
use gaze_core::overlay::DisabledSlice;
use gaze_core::overlay::DisabledStore;

fn slice(t: &str, r: &str, p: &str) -> DisabledSlice {
    DisabledSlice::new(t.to_string(), r.to_string(), p.to_string())
}

fn sorted_keys(v: &[DisabledSlice]) -> Vec<(String, String, String)> {
    let mut keys: Vec<(String, String, String)> = v
        .iter()
        .map(|d| {
            (
                d.test_name.clone(),
                d.recording_name.clone(),
                d.participant_name.clone(),
            )
        })
        .collect();
    keys.sort();
    keys
}

#[test]
fn toggle_off_then_on_restores_membership() {
    let mut store = DisabledStore::from_slices(vec![slice("A", "R1", "P1"), slice("B", "R2", "P2")]);
    let before = sorted_keys(&store.get_disabled_slices());
    store.toggle_disabled_slice(slice("A", "R1", "P1"), false);
    store.toggle_disabled_slice(slice("A", "R1", "P1"), true);
    let after = sorted_keys(&store.get_disabled_slices());
    assert_eq!(before, after);
}

#[test]
fn toggle_on_then_off_restores_membership() {
    let mut store = DisabledStore::from_slices(vec![slice("B", "R2", "P2")]);
    let before = sorted_keys(&store.get_disabled_slices());
    store.toggle_disabled_slice(slice("A", "R1", "P1"), true);
    store.toggle_disabled_slice(slice("A", "R1", "P1"), false);
    let after = sorted_keys(&store.get_disabled_slices());
    assert_eq!(before, after);
}

#[test]
fn replace_deduplicates() {
    let mut store = DisabledStore::new();
    store.set_disabled_slices(vec![
        slice("A", "R", "P"),
        slice("A", "R", "P"),
        slice("B", "R", "P"),
    ]);
    assert_eq!(store.get_disabled_slices().len(), 2);
}

#[test]
fn contains_follows_toggles() {
    let mut store = DisabledStore::new();
    assert!(!store.contains(&slice("A", "R", "P")));
    store.toggle_disabled_slice(slice("A", "R", "P"), true);
    assert!(store.contains(&slice("A", "R", "P")));
    store.toggle_disabled_slice(slice("A", "R", "P"), false);
    assert!(!store.contains(&slice("A", "R", "P")));
}

#[test]
fn render_parse_round_trip_plain() {
    let slices = vec![slice("TestA", "Rec 1", "Part-1"), slice("TestB", "Rec 2", "Part 2")];
    let text = render_disabled_slices(&slices);
    let back = parse_disabled_slices(&text).expect("rendered document must read back");
    assert_eq!(sorted_keys(&slices), sorted_keys(&back));
}

#[test]
fn render_parse_round_trip_with_escapes() {
    let slices = vec![
        slice("quote \" in name", "back\\slash", "line\nbreak"),
        slice("tab\there", "\u{0001}control", "plain"),
    ];
    let text = render_disabled_slices(&slices);
    let back = parse_disabled_slices(&text).expect("escaped document must read back");
    assert_eq!(sorted_keys(&slices), sorted_keys(&back));
}

#[test]
fn render_parse_round_trip_empty() {
    let slices: Vec<DisabledSlice> = Vec::new();
    let text = render_disabled_slices(&slices);
    assert_eq!(text, "[]");
    let back = parse_disabled_slices(&text).expect("empty document must read back");
    assert!(back.is_empty());
}

#[test]
fn rendered_document_is_valid_json_for_serde() {
    let slices = vec![slice("A \"x\"", "R\\1", "P\n2")];
    let text = render_disabled_slices(&slices);
    let value: serde_json::Value = serde_json::from_str(&text).expect("serde must accept it");
    let arr = value.as_array().expect("an array");
    assert_eq!(arr.len(), 1);
    assert_eq!(arr[0]["test_name"], "A \"x\"");
    assert_eq!(arr[0]["recording_name"], "R\\1");
    assert_eq!(arr[0]["participant_name"], "P\n2");
}

#[test]
fn pretty_printed_document_in_field_order_reads_back() {
    // the shape a struct with these fields serializes to, including a
    // shorthand escape the library's own renderer never emits
    let text = "[\n  {\n    \"test_name\": \"T\\u0007x\",\n    \"recording_name\": \"R\\bs\",\n    \"participant_name\": \"P\"\n  }\n]";
    let back = parse_disabled_slices(text).expect("pretty document must read back");
    assert_eq!(back.len(), 1);
    assert_eq!(back[0].test_name, "T\u{0007}x");
    assert_eq!(back[0].recording_name, "R\u{0008}s");
    assert_eq!(back[0].participant_name, "P");
}

#[test]
fn unreadable_text_gives_empty_overlay() {
    for bad in ["", "not json", "[{\"test_name\": \"a\"}]", "[1, 2]", "{\"a\": 1}"] {
        assert!(parse_disabled_slices(bad).is_none(), "{bad:?} should not parse");
        let store = overlay_from_text(bad);
        assert!(store.get_disabled_slices().is_empty());
    }
}

#[test]
fn persist_reload_gives_equal_set() {
    let mut store = DisabledStore::new();
    store.set_disabled_slices(vec![slice("T1", "R1", "P1"), slice("T2", "R2", "P2")]);
    let text = render_disabled_slices(&store.get_disabled_slices());
    let reloaded = overlay_from_text(&text);
    assert_eq!(
        sorted_keys(&store.get_disabled_slices()),
        sorted_keys(&reloaded.get_disabled_slices())
    );
}

#[test]
fn unicode_escape_reads_back() {
    let text = "[{\"test_name\": \"\\u0041\\u00e9\", \"recording_name\": \"r\", \"participant_name\": \"p\"}]";
    let back = parse_disabled_slices(text).expect("unicode escapes read back");
    assert_eq!(back[0].test_name, "A\u{e9}");
}

#[test]
fn persist_round_trip_function_preserves_keys() {
    let slices = vec![slice("T \"q\"", "R\\x", "P\u{0002}"), slice("T2", "R2", "P2")];
    let back = gaze_core::codec::persist_round_trip(&slices);
    assert_eq!(sorted_keys(&slices), sorted_keys(&back));
}
