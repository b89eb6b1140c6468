use backdrop::BackdropError;
use backdrop::BackdropMode;
use backdrop::RotationRun;
use backdrop::Selector;
use backdrop::TopologySnapshot;
use backdrop::active_workspaces;
use backdrop::assign;
use backdrop::canonical_slots;
use backdrop::canonicalize;
use backdrop::extract_monitor;
use backdrop::is_last_image_key;
use backdrop::list_validation;
use backdrop::last_image_key;
use backdrop::mode_from_lookups;
use backdrop::parse_list;
use backdrop::pick_among;
use backdrop::resolve_snapshot;
use backdrop::rng_seeded;
use backdrop::split_tokens;
use backdrop::str_le;
use backdrop::trim_str;
use backdrop::u64_to_string;
use backdrop::validate_workspace_request;
use backdrop::workspace_range;

fn strings(v: &[&str]) -> Vec<String> {
    v.iter().map(|s| s.to_string()).collect()
}

fn topology_keys() -> Vec<String> {
    strings(&[
        "/backdrop/screen0/monitorA/workspace0/color-style",
        "/backdrop/screen0/monitorA/workspace1/color-style",
        "/backdrop/screen0/monitorB/workspace0/color-style",
        "/backdrop/screen0/monitorB/workspace1/color-style",
        "/backdrop/screen0/monitorA/workspace0/last-image",
        "/backdrop/screen0/monitorA/workspace1/last-image",
        "/backdrop/screen0/monitorB/workspace0/last-image",
        "/backdrop/screen0/monitorB/workspace1/last-image",
    ])
}

#[test]
fn pick_returns_existing_member() {
    let candidates = strings(&["c.jpg", "a.jpg", "b.jpg", "a.jpg"]);
    let present = strings(&["b.jpg", "a.jpg"]);
    let mut rng = rng_seeded(7);
    for _ in 0..20 {
        let picked = pick_among(&candidates, &mut rng, &present).unwrap();
        assert!(candidates.contains(&picked));
        assert!(present.contains(&picked));
    }
}

#[test]
fn pick_single_present_candidate() {
    let candidates = strings(&["only.jpg"]);
    let present = strings(&["only.jpg"]);
    let mut rng = rng_seeded(1);
    let picked = pick_among(&candidates, &mut rng, &present).unwrap();
    assert_eq!(picked, "only.jpg");
}

#[test]
fn pick_fails_when_nothing_exists() {
    let candidates = strings(&["a.jpg", "b.jpg", "c.jpg"]);
    let present: Vec<String> = Vec::new();
    let mut rng = rng_seeded(3);
    let err = pick_among(&candidates, &mut rng, &present).unwrap_err();
    assert!(matches!(err, BackdropError::NoImage));
}

#[test]
fn pick_fails_on_empty_pool() {
    let candidates: Vec<String> = Vec::new();
    let present = strings(&["a.jpg"]);
    let mut rng = rng_seeded(5);
    let err = pick_among(&candidates, &mut rng, &present).unwrap_err();
    assert!(matches!(err, BackdropError::NoImage));
}

#[test]
fn selector_examines_each_distinct_candidate_once() {
    let candidates = strings(&["x.jpg", "y.jpg", "x.jpg", "z.jpg"]);
    let mut sel = Selector::new(&candidates);
    assert_eq!(sel.remaining_count(), 3);
    let mut rng = rng_seeded(11);
    let mut probes = 0;
    while let Some(i) = sel.propose(&mut rng) {
        let outcome = sel.resolve(i, false);
        assert!(outcome.is_none());
        probes += 1;
        assert!(probes <= 3);
    }
    assert_eq!(probes, 3);
    assert_eq!(sel.remaining_count(), 0);
}

#[test]
fn selector_returns_present_candidate() {
    let candidates = strings(&["x.jpg"]);
    let mut sel = Selector::new(&candidates);
    let mut rng = rng_seeded(2);
    let i = sel.propose(&mut rng).unwrap();
    assert_eq!(i, 0);
    let picked = sel.resolve(i, true).unwrap();
    assert_eq!(picked, "x.jpg");
    assert_eq!(sel.remaining_count(), 1);
}

#[test]
fn topology_two_monitors_two_workspaces() {
    let snap = resolve_snapshot(&topology_keys(), None, None).unwrap();
    assert_eq!(snap.monitors, strings(&["A", "B"]));
    assert_eq!(snap.workspace_count, 2);
    assert_eq!(snap.mode, BackdropMode::Single(0));
}

#[test]
fn topology_monitors_sorted_and_deduplicated() {
    let keys = strings(&[
        "/backdrop/screen0/monitorHDMI1/workspace0/color-style",
        "/backdrop/screen0/monitorDP1/workspace0/color-style",
        "/backdrop/screen0/monitorDP1/workspace1/color-style",
        "/backdrop/screen0/monitorDP1/workspace0/last-image",
    ]);
    let snap = resolve_snapshot(&keys, None, None).unwrap();
    assert_eq!(snap.monitors, strings(&["DP1", "HDMI1"]));
    assert_eq!(snap.workspace_count, 1);
}

#[test]
fn topology_fails_without_monitors() {
    let keys = strings(&[
        "/backdrop/screen0/monitor0/image-path",
        "/backdrop/single-workspace-mode",
    ]);
    let err = resolve_snapshot(&keys, None, None).unwrap_err();
    assert!(matches!(err, BackdropError::NoTopology));
}

#[test]
fn mode_defaults_when_lookups_fail() {
    assert_eq!(mode_from_lookups(None, None), BackdropMode::Single(0));
    assert_eq!(mode_from_lookups(Some(true), None), BackdropMode::Single(0));
    assert_eq!(mode_from_lookups(None, Some(3)), BackdropMode::Single(0));
}

#[test]
fn mode_from_fetched_values() {
    assert_eq!(mode_from_lookups(Some(true), Some(2)), BackdropMode::Single(2));
    assert_eq!(mode_from_lookups(Some(false), Some(2)), BackdropMode::PerWorkspace);
    // a fetched negative workspace number is clamped to zero
    assert_eq!(mode_from_lookups(Some(true), Some(-5)), BackdropMode::Single(0));
}

#[test]
fn canonical_slot_order_is_monitor_major() {
    let monitors = strings(&["A", "B"]);
    let slots = canonical_slots(&monitors, 2);
    let got: Vec<(String, u64)> =
        slots.iter().map(|s| (s.monitor.clone(), s.workspace)).collect();
    let want = vec![
        ("A".to_string(), 0),
        ("A".to_string(), 1),
        ("B".to_string(), 0),
        ("B".to_string(), 1),
    ];
    assert_eq!(got, want);
}

#[test]
fn explicit_assignment_without_repeat() {
    let tokens = split_tokens("a.jpg::b.jpg:");
    assert_eq!(tokens, strings(&["a.jpg", "", "b.jpg", ""]));
    let monitors = strings(&["A", "B"]);
    let slots = canonical_slots(&monitors, 2);
    let writes = assign(&tokens, &slots, false);
    let got: Vec<(String, u64, String)> = writes
        .iter()
        .map(|w| (w.monitor.clone(), w.workspace, w.image.clone()))
        .collect();
    let want = vec![
        ("A".to_string(), 0, "a.jpg".to_string()),
        ("B".to_string(), 0, "b.jpg".to_string()),
    ];
    assert_eq!(got, want);
}

#[test]
fn explicit_assignment_with_repeat() {
    let tokens = strings(&["a.jpg", "b.jpg"]);
    let monitors = strings(&["A", "B"]);
    let slots = canonical_slots(&monitors, 2);
    let writes = assign(&tokens, &slots, true);
    let got: Vec<(String, u64, String)> = writes
        .iter()
        .map(|w| (w.monitor.clone(), w.workspace, w.image.clone()))
        .collect();
    let want = vec![
        ("A".to_string(), 0, "a.jpg".to_string()),
        ("A".to_string(), 1, "b.jpg".to_string()),
        ("B".to_string(), 0, "a.jpg".to_string()),
        ("B".to_string(), 1, "b.jpg".to_string()),
    ];
    assert_eq!(got, want);
}

#[test]
fn assignment_stops_when_tokens_run_out() {
    let tokens = strings(&["a.jpg"]);
    let monitors = strings(&["A", "B"]);
    let slots = canonical_slots(&monitors, 2);
    let writes = assign(&tokens, &slots, false);
    assert_eq!(writes.len(), 1);
    assert_eq!(writes[0].monitor, "A");
    assert_eq!(writes[0].workspace, 0);
    assert_eq!(writes[0].image, "a.jpg");
}

#[test]
fn assignment_with_no_tokens_writes_nothing() {
    let tokens: Vec<String> = Vec::new();
    let monitors = strings(&["A"]);
    let slots = canonical_slots(&monitors, 1);
    assert_eq!(assign(&tokens, &slots, true).len(), 0);
    assert_eq!(assign(&tokens, &slots, false).len(), 0);
}

#[test]
fn empty_token_string_is_one_empty_token() {
    assert_eq!(split_tokens(""), strings(&[""]));
    assert_eq!(split_tokens(":"), strings(&["", ""]));
}

#[test]
fn list_loading_keeps_blank_lines_drops_comments() {
    let text = "# comment\n\n/tmp/x.jpg";
    assert_eq!(parse_list(text), strings(&["", "/tmp/x.jpg"]));
}

#[test]
fn list_loading_trims_and_keeps_order() {
    let text = "  /a.jpg \n\t# note\n/b.jpg\n/a.jpg\n";
    assert_eq!(parse_list(text), strings(&["/a.jpg", "/b.jpg", "/a.jpg"]));
}

#[test]
fn list_loading_empty_text() {
    assert_eq!(parse_list("").len(), 0);
}

#[test]
fn trim_removes_surrounding_whitespace() {
    assert_eq!(trim_str("  a b \t"), "a b");
    assert_eq!(trim_str("\r\n"), "");
    assert_eq!(trim_str("x"), "x");
}

#[test]
fn extract_monitor_captures_token() {
    assert_eq!(
        extract_monitor("/backdrop/screen0/monitorDP1/workspace0/color-style"),
        Some("DP1".to_string())
    );
    assert_eq!(
        extract_monitor("/backdrop/screen0/monitor/workspace/color-style"),
        Some("".to_string())
    );
    assert_eq!(extract_monitor("/backdrop/screen0/monitor0/image-path"), None);
    assert_eq!(extract_monitor(""), None);
}

#[test]
fn extract_monitor_is_greedy() {
    // the capture runs to the last workspace marker that leaves room
    let got = extract_monitor(
        "/backdrop/screen0/monitorA/workspaceB/workspace0/color-style",
    );
    assert_eq!(got, Some("A/workspaceB".to_string()));
}

#[test]
fn last_image_key_recognition() {
    assert!(is_last_image_key(
        "/backdrop/screen0/monitorDP1/workspace0/last-image",
        "DP1"
    ));
    assert!(!is_last_image_key(
        "/backdrop/screen0/monitorDP1/workspace0/last-image",
        "DP"
    ));
    assert!(!is_last_image_key(
        "/backdrop/screen0/monitorDP1/workspace0/color-style",
        "DP1"
    ));
}

#[test]
fn last_image_key_construction() {
    assert_eq!(
        last_image_key("DP1", 3),
        "/backdrop/screen0/monitorDP1/workspace3/last-image"
    );
    let built = last_image_key("A", 0);
    assert!(is_last_image_key(&built, "A"));
}

#[test]
fn decimal_rendering() {
    assert_eq!(u64_to_string(0), "0");
    assert_eq!(u64_to_string(7), "7");
    assert_eq!(u64_to_string(10), "10");
    assert_eq!(u64_to_string(1234567890), "1234567890");
    assert_eq!(u64_to_string(u64::MAX), "18446744073709551615");
}

#[test]
fn workspace_range_is_dense() {
    let r = workspace_range(3);
    assert_eq!(r, vec![0, 1, 2]);
    assert_eq!(workspace_range(0).len(), 0);
}

#[test]
fn active_workspaces_by_mode() {
    assert_eq!(active_workspaces(BackdropMode::Single(5), 2), vec![5]);
    assert_eq!(active_workspaces(BackdropMode::PerWorkspace, 3), vec![0, 1, 2]);
}

#[test]
fn rotation_run_continues_past_failures() {
    let snap = TopologySnapshot {
        monitors: strings(&["A", "B"]),
        workspace_count: 2,
        mode: BackdropMode::Single(1),
    };
    let mut run = RotationRun::new(&snap);
    assert!(!run.is_done());
    let (m, w) = run.current().unwrap();
    assert_eq!((m.as_str(), w), ("A", 1));
    run.record_success();
    let (m, w) = run.current().unwrap();
    assert_eq!((m.as_str(), w), ("B", 1));
    run.record_failure(BackdropError::NoImage);
    assert!(run.is_done());
    assert!(run.current().is_none());
    assert_eq!(run.failure_count(), 1);
    assert_eq!(run.failures[0].monitor, "B");
    assert_eq!(run.failures[0].workspace, 1);
    assert!(matches!(run.failures[0].error, BackdropError::NoImage));
}

#[test]
fn rotation_run_per_workspace_covers_grid() {
    let snap = TopologySnapshot {
        monitors: strings(&["A", "B"]),
        workspace_count: 2,
        mode: BackdropMode::PerWorkspace,
    };
    let mut run = RotationRun::new(&snap);
    let mut visited = Vec::new();
    while let Some((m, w)) = run.current() {
        visited.push((m, w));
        run.record_success();
    }
    let want = vec![
        ("A".to_string(), 0),
        ("A".to_string(), 1),
        ("B".to_string(), 0),
        ("B".to_string(), 1),
    ];
    assert_eq!(visited, want);
    assert_eq!(run.failure_count(), 0);
}

#[test]
fn canonicalize_sorts_and_deduplicates() {
    let v = strings(&["b", "a", "b", "c", "a"]);
    assert_eq!(canonicalize(&v), strings(&["a", "b", "c"]));
    assert_eq!(canonicalize(&Vec::new()).len(), 0);
}

#[test]
fn string_order_is_lexicographic() {
    assert!(str_le("", "a"));
    assert!(str_le("a", "a"));
    assert!(str_le("DP1", "HDMI1"));
    assert!(!str_le("b", "ab"));
    assert!(str_le("ab", "b"));
}

#[test]
fn workspace_request_validation() {
    assert_eq!(validate_workspace_request(0, 2), Some(0));
    assert_eq!(validate_workspace_request(1, 2), Some(1));
    assert_eq!(validate_workspace_request(2, 2), None);
    assert_eq!(validate_workspace_request(-1, 2), None);
    assert_eq!(validate_workspace_request(0, 0), None);
}

#[test]
fn list_validation_maps_exhaustion_to_validation() {
    assert!(list_validation(Ok("a.jpg".to_string())).is_ok());
    assert!(matches!(
        list_validation(Err(BackdropError::NoImage)),
        Err(BackdropError::Validation)
    ));
    assert!(matches!(
        list_validation(Err(BackdropError::Io("denied".to_string()))),
        Err(BackdropError::Io(_))
    ));
}

#[test]
fn error_descriptions() {
    assert_eq!(
        BackdropError::Transport("timeout".to_string()).describe(),
        "configuration service call failed"
    );
    assert_eq!(
        BackdropError::Schema.describe(),
        "property value absent or of unexpected type"
    );
    assert_eq!(BackdropError::NoTopology.describe(), "no monitors discovered");
    assert_eq!(
        BackdropError::NoImage.describe(),
        "could not pick an image from the list"
    );
    assert_eq!(
        BackdropError::Io("denied".to_string()).describe(),
        "could not read the list file"
    );
    assert_eq!(
        BackdropError::Validation.describe(),
        "list file holds no existing image"
    );
}
