use workspace_switcher::errors::Error;
use workspace_switcher::naming::WorkspaceInfo;
use workspace_switcher::plan::{plan_move, plan_switch, Step, SETTLE_CREATE_MS, SETTLE_REFOCUS_MS};
use workspace_switcher::topology::OutputInfo;
use workspace_switcher::tree::ContainerNode;

fn out(name: &str, x: i32, y: i32) -> OutputInfo {
    OutputInfo { name: name.to_string(), active: true, x, y }
}

fn ws(name: &str, focused: bool, output: &str) -> WorkspaceInfo {
    WorkspaceInfo { name: name.to_string(), focused, output: output.to_string() }
}

fn leaf(id: i64, focused: bool) -> ContainerNode {
    ContainerNode { id, focused, nodes: Vec::new() }
}

fn branch(id: i64, nodes: Vec<ContainerNode>) -> ContainerNode {
    ContainerNode { id, focused: false, nodes }
}

fn run_texts(steps: &[Step]) -> Vec<String> {
    steps
        .iter()
        .filter_map(|s| match s {
            Step::Run(c) => Some(c.clone()),
            Step::Settle(_) => None,
        })
        .collect()
}

fn settle_of(step: &Step) -> u64 {
    match step {
        Step::Settle(ms) => *ms,
        Step::Run(c) => panic!("expected a settle, found command {}", c),
    }
}

/// HDMI-1 left of eDP-1, focus on eDP-1's sub-workspace 2.
fn two_monitor_snapshot() -> (Vec<OutputInfo>, Vec<WorkspaceInfo>) {
    let outputs = vec![out("eDP-1", 1920, 0), out("HDMI-1", 0, 0)];
    let workspaces = vec![ws("1.1", false, "HDMI-1"), ws("1.2", true, "eDP-1")];
    (outputs, workspaces)
}

#[test]
fn switch_issues_three_commands_per_monitor_then_one_activate() {
    let (outputs, workspaces) = two_monitor_snapshot();
    let steps = plan_switch(4, &outputs, &workspaces).unwrap();
    let cmds = run_texts(&steps);
    assert_eq!(cmds.len(), 7); // 3 per monitor, then the final activate
    assert_eq!(
        cmds,
        vec![
            "focus output HDMI-1".to_string(),
            "focus parent".to_string(),
            "workspace --no-auto-back-and-forth 4.1".to_string(),
            "focus output eDP-1".to_string(),
            "focus parent".to_string(),
            "workspace --no-auto-back-and-forth 4.2".to_string(),
            "workspace 4.2".to_string(),
        ]
    );
}

#[test]
fn switch_settles_after_each_triplet_and_before_refocus() {
    let (outputs, workspaces) = two_monitor_snapshot();
    let steps = plan_switch(4, &outputs, &workspaces).unwrap();
    assert_eq!(steps.len(), 10); // 4 per monitor, settle, final activate
    assert_eq!(settle_of(&steps[3]), SETTLE_CREATE_MS);
    assert_eq!(settle_of(&steps[7]), SETTLE_CREATE_MS);
    assert_eq!(settle_of(&steps[8]), SETTLE_REFOCUS_MS);
    assert!(matches!(&steps[9], Step::Run(_)));
}

#[test]
fn move_adds_one_move_command_before_the_final_activate() {
    let (outputs, workspaces) = two_monitor_snapshot();
    let roots = vec![branch(1, vec![branch(2, vec![leaf(97, true)])])];
    let steps = plan_move(2, &outputs, &workspaces, &roots).unwrap();
    let cmds = run_texts(&steps);
    assert_eq!(cmds.len(), 8);
    assert_eq!(cmds[6], "[con_id=\"97\"] move container to workspace 2.2");
    assert_eq!(cmds[7], "workspace 2.2");
    // the move command comes right after workspace creation, then a settle,
    // then the final activate
    assert_eq!(steps.len(), 11);
    assert!(matches!(&steps[8], Step::Run(_)));
    assert_eq!(settle_of(&steps[9]), SETTLE_REFOCUS_MS);
    assert!(matches!(&steps[10], Step::Run(_)));
}

#[test]
fn switch_on_empty_topology_fails() {
    let outputs = vec![OutputInfo { name: "off".to_string(), active: false, x: 0, y: 0 }];
    let workspaces = vec![ws("1", true, "off")];
    assert_eq!(plan_switch(1, &outputs, &workspaces).unwrap_err(), Error::EmptyTopology);
}

#[test]
fn switch_without_focused_workspace_fails() {
    let (outputs, _) = two_monitor_snapshot();
    let workspaces = vec![ws("1.1", false, "HDMI-1")];
    assert_eq!(
        plan_switch(1, &outputs, &workspaces).unwrap_err(),
        Error::NoFocusedWorkspace
    );
}

#[test]
fn switch_with_malformed_minor_fails() {
    let (outputs, _) = two_monitor_snapshot();
    let workspaces = vec![ws("7.x", true, "eDP-1")];
    assert_eq!(plan_switch(7, &outputs, &workspaces).unwrap_err(), Error::MalformedMinor);
}

#[test]
fn switch_from_unknown_output_fails() {
    let (outputs, _) = two_monitor_snapshot();
    let workspaces = vec![ws("3", true, "DP-9")];
    assert_eq!(plan_switch(3, &outputs, &workspaces).unwrap_err(), Error::UnknownOutput);
}

#[test]
fn move_without_focused_node_fails_before_anything_else() {
    // even an empty topology is reported only after the tree search
    let outputs: Vec<OutputInfo> = Vec::new();
    let workspaces: Vec<WorkspaceInfo> = Vec::new();
    let roots = vec![branch(1, vec![leaf(2, false)])];
    assert_eq!(
        plan_move(1, &outputs, &workspaces, &roots).unwrap_err(),
        Error::NoFocusedNode
    );
}

#[test]
fn single_monitor_bare_name_switch() {
    let outputs = vec![out("eDP-1", 0, 0)];
    let workspaces = vec![ws("3", true, "eDP-1")];
    let steps = plan_switch(9, &outputs, &workspaces).unwrap();
    let cmds = run_texts(&steps);
    assert_eq!(
        cmds,
        vec![
            "focus output eDP-1".to_string(),
            "focus parent".to_string(),
            "workspace --no-auto-back-and-forth 9.1".to_string(),
            "workspace 9.1".to_string(),
        ]
    );
}

#[test]
fn error_descriptions_are_short_diagnostics() {
    assert_eq!(Error::EmptyTopology.describe(), "no active outputs");
    assert_eq!(Error::NoFocusedNode.describe(), "no container is focused");
}
