use workspace_switcher::errors::Error;
use workspace_switcher::topology::{index, MonitorIndex, OutputInfo};

fn out(name: &str, active: bool, x: i32, y: i32) -> OutputInfo {
    OutputInfo { name: name.to_string(), active, x, y }
}

fn ranks(mi: &MonitorIndex) -> Vec<(String, u32)> {
    mi.slots
        .iter()
        .enumerate()
        .map(|(i, o)| (o.name.clone(), (i + 1) as u32))
        .collect()
}

#[test]
fn orders_by_x_then_y() {
    let outputs = vec![
        out("right", true, 1920, 0),
        out("left", true, 0, 0),
        out("lower-left", true, 0, 1080),
    ];
    let mi = index(&outputs).unwrap();
    assert_eq!(
        ranks(&mi),
        vec![
            ("left".to_string(), 1),
            ("lower-left".to_string(), 2),
            ("right".to_string(), 3),
        ]
    );
}

#[test]
fn rank_one_goes_to_smallest_key() {
    let outputs = vec![
        out("b", true, 5, 9),
        out("a", true, -3, 100),
        out("c", true, 5, -2),
    ];
    let mi = index(&outputs).unwrap();
    assert_eq!(mi.rank_of(&"a".to_string()), Some(1));
    assert_eq!(mi.rank_of(&"c".to_string()), Some(2));
    assert_eq!(mi.rank_of(&"b".to_string()), Some(3));
}

#[test]
fn permutations_yield_identical_mapping() {
    let a = vec![
        out("HDMI-1", true, 0, 0),
        out("eDP-1", true, 1920, 0),
        out("DP-3", true, 3840, 0),
    ];
    let b = vec![
        out("DP-3", true, 3840, 0),
        out("HDMI-1", true, 0, 0),
        out("eDP-1", true, 1920, 0),
    ];
    let ma = index(&a).unwrap();
    let mb = index(&b).unwrap();
    assert_eq!(ranks(&ma), ranks(&mb));
}

#[test]
fn inactive_outputs_are_ignored() {
    let outputs = vec![
        out("off", false, -10000, 0),
        out("on", true, 0, 0),
    ];
    let mi = index(&outputs).unwrap();
    assert_eq!(ranks(&mi), vec![("on".to_string(), 1)]);
    assert_eq!(mi.rank_of(&"off".to_string()), None);
}

#[test]
fn empty_topology_is_an_error() {
    let none: Vec<OutputInfo> = Vec::new();
    assert_eq!(index(&none).unwrap_err(), Error::EmptyTopology);
    let all_off = vec![out("a", false, 0, 0), out("b", false, 1, 1)];
    assert_eq!(index(&all_off).unwrap_err(), Error::EmptyTopology);
}

#[test]
fn same_x_breaks_tie_by_y() {
    let outputs = vec![out("low", true, 0, 500), out("high", true, 0, -500)];
    let mi = index(&outputs).unwrap();
    assert_eq!(mi.rank_of(&"high".to_string()), Some(1));
    assert_eq!(mi.rank_of(&"low".to_string()), Some(2));
}

#[test]
fn unknown_name_has_no_rank() {
    let outputs = vec![out("only", true, 0, 0)];
    let mi = index(&outputs).unwrap();
    assert_eq!(mi.rank_of(&"other".to_string()), None);
    assert_eq!(mi.len(), 1);
}
