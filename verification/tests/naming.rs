use workspace_switcher::errors::Error;
use workspace_switcher::naming::{derive_names, find_focused_workspace, WorkspaceInfo};
use workspace_switcher::topology::{index, MonitorIndex, OutputInfo};

fn out(name: &str, x: i32, y: i32) -> OutputInfo {
    OutputInfo { name: name.to_string(), active: true, x, y }
}

fn ws(name: &str, focused: bool, output: &str) -> WorkspaceInfo {
    WorkspaceInfo { name: name.to_string(), focused, output: output.to_string() }
}

/// An index with HDMI-1 at rank 1 and eDP-1 at rank 2.
fn two_monitor_index() -> MonitorIndex {
    index(&vec![out("HDMI-1", 0, 0), out("eDP-1", 1920, 0)]).unwrap()
}

#[test]
fn keeps_minor_of_two_part_name() {
    let mi = two_monitor_index();
    let plan = derive_names(3, &mi, &ws("3.2", true, "eDP-1")).unwrap();
    let pairs: Vec<(String, String)> = plan
        .targets
        .iter()
        .map(|t| (t.output.clone(), t.workspace.clone()))
        .collect();
    assert_eq!(
        pairs,
        vec![
            ("HDMI-1".to_string(), "3.1".to_string()),
            ("eDP-1".to_string(), "3.2".to_string()),
        ]
    );
    assert_eq!(plan.restore, "3.2");
}

#[test]
fn derives_minor_from_output_rank_for_bare_name() {
    let mi = two_monitor_index();
    let plan = derive_names(5, &mi, &ws("1", true, "eDP-1")).unwrap();
    assert_eq!(plan.restore, "5.2");
}

#[test]
fn malformed_minor_is_an_error() {
    let mi = two_monitor_index();
    let err = derive_names(7, &mi, &ws("7.x", true, "eDP-1")).unwrap_err();
    assert_eq!(err, Error::MalformedMinor);
}

#[test]
fn empty_minor_is_malformed() {
    let mi = two_monitor_index();
    let err = derive_names(7, &mi, &ws("7.", true, "eDP-1")).unwrap_err();
    assert_eq!(err, Error::MalformedMinor);
}

#[test]
fn oversized_minor_is_malformed() {
    let mi = two_monitor_index();
    let err = derive_names(1, &mi, &ws("1.4294967296", true, "eDP-1")).unwrap_err();
    assert_eq!(err, Error::MalformedMinor);
}

#[test]
fn unknown_output_is_an_error() {
    let mi = two_monitor_index();
    let err = derive_names(4, &mi, &ws("1", true, "DP-9")).unwrap_err();
    assert_eq!(err, Error::UnknownOutput);
}

#[test]
fn three_part_name_falls_back_to_output_rank() {
    let mi = two_monitor_index();
    let plan = derive_names(6, &mi, &ws("1.2.3", true, "HDMI-1")).unwrap();
    assert_eq!(plan.restore, "6.1");
}

#[test]
fn minor_keeps_value_not_spelling() {
    let mi = two_monitor_index();
    let plan = derive_names(5, &mi, &ws("3.007", true, "eDP-1")).unwrap();
    assert_eq!(plan.restore, "5.7");
}

#[test]
fn finds_first_focused_workspace() {
    let list = vec![ws("1", false, "a"), ws("2", true, "b"), ws("3", true, "c")];
    assert_eq!(find_focused_workspace(&list).unwrap(), 1);
}

#[test]
fn no_focused_workspace_is_an_error() {
    let list = vec![ws("1", false, "a"), ws("2", false, "b")];
    assert_eq!(find_focused_workspace(&list).unwrap_err(), Error::NoFocusedWorkspace);
}
