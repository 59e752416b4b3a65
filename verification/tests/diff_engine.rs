use ftm::diff::{assemble_hunk, DiffTag};
use ftm::engine::{CheckoutError, EngineState};

fn lines(xs: &[&str]) -> Vec<String> {
    xs.iter().map(|s| s.to_string()).collect()
}

#[test]
fn hunk_holds_context_and_change() {
    let old_lines = lines(&["a", "b", "c", "d", "e", "f", "g"]);
    let new_lines = lines(&["a", "b", "c", "d", "X", "f", "g"]);
    // Line 4 ("e") was replaced by "X".
    let h = assemble_hunk(&old_lines, &new_lines, 4, 5, 4, 5);
    assert_eq!(h.old_start, 2);
    assert_eq!(h.new_start, 2);
    let tags: Vec<DiffTag> = h.lines.iter().map(|l| l.tag).collect();
    assert_eq!(
        tags,
        vec![
            DiffTag::Equal,
            DiffTag::Equal,
            DiffTag::Equal,
            DiffTag::Delete,
            DiffTag::Insert,
            DiffTag::Equal,
            DiffTag::Equal,
        ]
    );
    let contents: Vec<&str> = h.lines.iter().map(|l| l.content.as_str()).collect();
    assert_eq!(contents, vec!["b", "c", "d", "e", "X", "f", "g"]);
}

#[test]
fn hunk_at_start_clamps_context() {
    let old_lines = lines(&["a", "b"]);
    let new_lines = lines(&["z", "a", "b"]);
    // An insertion at the very front.
    let h = assemble_hunk(&old_lines, &new_lines, 0, 0, 0, 1);
    assert_eq!(h.old_start, 1);
    assert_eq!(h.new_start, 1);
    let tags: Vec<DiffTag> = h.lines.iter().map(|l| l.tag).collect();
    assert_eq!(tags, vec![DiffTag::Insert, DiffTag::Equal, DiffTag::Equal]);
    let contents: Vec<&str> = h.lines.iter().map(|l| l.content.as_str()).collect();
    assert_eq!(contents, vec!["z", "a", "b"]);
}

#[test]
fn checkout_validates_directory() {
    let mut st = EngineState::Idle;
    assert_eq!(
        st.checkout("rel/path".to_string(), false, true, true).unwrap_err(),
        CheckoutError::NotAbsolute
    );
    assert_eq!(
        st.checkout("/gone".to_string(), true, false, true).unwrap_err(),
        CheckoutError::Missing
    );
    let plan = st.checkout("/work".to_string(), true, true, false).unwrap();
    assert!(plan.initialize);
    match &st {
        EngineState::Watching { root } => assert_eq!(root, "/work"),
        EngineState::Idle => panic!("expected a watching state"),
    }
}

#[test]
fn second_checkout_is_refused() {
    let mut st = EngineState::Idle;
    st.checkout("/one".to_string(), true, true, true).unwrap();
    assert_eq!(
        st.checkout("/two".to_string(), true, true, true).unwrap_err(),
        CheckoutError::AlreadyCheckedOut
    );
}

#[test]
fn existing_config_needs_no_initialization() {
    let mut st = EngineState::Idle;
    let plan = st.checkout("/work".to_string(), true, true, true).unwrap();
    assert!(!plan.initialize);
}

#[test]
fn watchdog_shuts_down_when_metadata_vanishes() {
    let mut st = EngineState::Idle;
    assert!(!st.watchdog_tick(false));
    st.checkout("/work".to_string(), true, true, true).unwrap();
    assert!(!st.watchdog_tick(true));
    assert!(st.watchdog_tick(false));
    assert!(matches!(st, EngineState::Idle));
}
