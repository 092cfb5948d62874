//! The orchestrator: turns a target major workspace number and a snapshot
//! of the window manager's state into the exact sequence of control-channel
//! commands and settle-delays to issue. Per indexed monitor it focuses the
//! output, focuses its parent container, and creates or activates the
//! composite workspace; for the move action it relocates the focused
//! container to the restore workspace; and it ends by activating the
//! restore workspace. The caller performs the steps in order and aborts on
//! the first failure.

use crate::errors::Error;
use crate::naming::NamePlan;
use crate::naming::WorkspaceInfo;
use crate::naming::compose_name;
use crate::naming::derive_names;
use crate::naming::has_exactly_one_dot;
use crate::naming::is_first_focused;
use crate::naming::minor_text;
use crate::naming::minor_valid;
use crate::naming::spec_minor;
use crate::naming::find_focused_workspace;
use crate::numerals::dec_int;
use crate::numerals::i64_to_string;
use crate::topology::MonitorIndex;
use crate::topology::OutputInfo;
use crate::topology::active_outputs;
use crate::topology::find_name;
use crate::topology::index;
use crate::topology::lemma_find_name;
use crate::tree::ContainerNode;
use crate::tree::forest_focused_id;
use crate::tree::forest_has_focused;
use crate::tree::require_focused;
use vstd::prelude::*;
use vstd::seq_lib::group_to_multiset_ensures;
use vstd::string::StringExecFns;

verus! {

broadcast use group_to_multiset_ensures;

/// Milliseconds to pause after each per-monitor creation triplet: the
/// window manager registers a new workspace asynchronously, and rapid
/// repeated commands can otherwise fail intermittently.
pub const SETTLE_CREATE_MS: u64 = 20;

/// Milliseconds to pause before the final refocus (and after a move), for
/// the same reason.
pub const SETTLE_REFOCUS_MS: u64 = 100;

/// One step of the orchestration: a textual command for the window
/// manager's control channel, or a settle-delay in milliseconds.
#[derive(Debug)]
pub enum Step {
    Run(String),
    Settle(u64),
}

pub open spec fn step_is_run(s: Step, text: Seq<char>) -> bool {
    s matches Step::Run(c) && c@ == text
}

pub open spec fn step_is_settle(s: Step, ms: u64) -> bool {
    s == Step::Settle(ms)
}

pub open spec fn cmd_focus_output(name: Seq<char>) -> Seq<char> {
    "focus output "@ + name
}

pub open spec fn cmd_focus_parent() -> Seq<char> {
    "focus parent"@
}

pub open spec fn cmd_create_workspace(ws: Seq<char>) -> Seq<char> {
    "workspace --no-auto-back-and-forth "@ + ws
}

pub open spec fn cmd_activate_workspace(ws: Seq<char>) -> Seq<char> {
    "workspace "@ + ws
}

pub open spec fn cmd_move_container(id: i64, ws: Seq<char>) -> Seq<char> {
    "[con_id=\""@ + dec_int(id as int) + "\"] move container to workspace "@ + ws
}

fn run_focus_output(name: &String) -> (s: Step)
    ensures
        step_is_run(s, cmd_focus_output(name@)),
{
    let mut c = String::from_str("focus output ");
    c.append(name.as_str());
    Step::Run(c)
}

fn run_focus_parent() -> (s: Step)
    ensures
        step_is_run(s, cmd_focus_parent()),
{
    Step::Run(String::from_str("focus parent"))
}

fn run_create_workspace(ws: &String) -> (s: Step)
    ensures
        step_is_run(s, cmd_create_workspace(ws@)),
{
    let mut c = String::from_str("workspace --no-auto-back-and-forth ");
    c.append(ws.as_str());
    Step::Run(c)
}

fn run_activate_workspace(ws: &String) -> (s: Step)
    ensures
        step_is_run(s, cmd_activate_workspace(ws@)),
{
    let mut c = String::from_str("workspace ");
    c.append(ws.as_str());
    Step::Run(c)
}

fn run_move_container(id: i64, ws: &String) -> (s: Step)
    ensures
        step_is_run(s, cmd_move_container(id, ws@)),
{
    let mut c = String::from_str("[con_id=\"");
    let num = i64_to_string(id);
    c.append(num.as_str());
    c.append("\"] move container to workspace ");
    c.append(ws.as_str());
    proof {
        assert(c@ =~= cmd_move_container(id, ws@));
    }
    Step::Run(c)
}

/// The per-monitor creation prefix: for the output in slot `i`, steps
/// `4i..4i+4` focus that output, focus its parent, create or activate its
/// composite name, and settle.
pub open spec fn creation_steps_ok(steps: Seq<Step>, major: u32, mi: MonitorIndex) -> bool {
    let n = mi.slots@.len();
    &&& steps.len() == 4 * n
    &&& forall|i: int|
        0 <= i < n ==> {
            &&& step_is_run(steps[4 * i], cmd_focus_output((#[trigger] mi.slots@[i]).name@))
            &&& step_is_run(steps[4 * i + 1], cmd_focus_parent())
            &&& step_is_run(
                steps[4 * i + 2],
                cmd_create_workspace(compose_name(major, (i + 1) as u32)),
            )
            &&& step_is_settle(steps[4 * i + 3], SETTLE_CREATE_MS)
        }
}

/// The full switch sequence: the creation prefix, a settle, and the final
/// activation of the restore workspace.
pub open spec fn switch_steps_ok(
    steps: Seq<Step>,
    major: u32,
    mi: MonitorIndex,
    restore_minor: u32,
) -> bool {
    let n = mi.slots@.len();
    &&& steps.len() == 4 * n + 2
    &&& creation_steps_ok(steps.subrange(0, 4 * n as int), major, mi)
    &&& step_is_settle(steps[4 * n as int], SETTLE_REFOCUS_MS)
    &&& step_is_run(
        steps[4 * n as int + 1],
        cmd_activate_workspace(compose_name(major, restore_minor)),
    )
}

/// The full move sequence: the creation prefix, then exactly one command
/// moving the captured container to the restore workspace, a settle, and
/// the final activation.
pub open spec fn move_steps_ok(
    steps: Seq<Step>,
    major: u32,
    mi: MonitorIndex,
    restore_minor: u32,
    con_id: i64,
) -> bool {
    let n = mi.slots@.len();
    &&& steps.len() == 4 * n + 3
    &&& creation_steps_ok(steps.subrange(0, 4 * n as int), major, mi)
    &&& step_is_run(
        steps[4 * n as int],
        cmd_move_container(con_id, compose_name(major, restore_minor)),
    )
    &&& step_is_settle(steps[4 * n as int + 1], SETTLE_REFOCUS_MS)
    &&& step_is_run(
        steps[4 * n as int + 2],
        cmd_activate_workspace(compose_name(major, restore_minor)),
    )
}

/// Builds the creation prefix from a derived name plan.
fn creation_steps(plan: &NamePlan, Ghost(major): Ghost<u32>, Ghost(mi): Ghost<MonitorIndex>) -> (steps: Vec<Step>)
    requires
        plan.targets@.len() == mi.slots@.len(),
        forall|i: int|
            0 <= i < plan.targets@.len() ==> (#[trigger] plan.targets@[i]).output@
                == mi.slots@[i].name@ && plan.targets@[i].workspace@ == compose_name(
                major,
                (i + 1) as u32,
            ),
    ensures
        creation_steps_ok(steps@, major, mi),
{
    let n = plan.targets.len();
    let mut steps: Vec<Step> = Vec::new();
    let mut i: usize = 0;
    while i < n
        invariant
            0 <= i <= n == plan.targets@.len() == mi.slots@.len(),
            steps@.len() == 4 * i,
            forall|j: int|
                0 <= j < plan.targets@.len() ==> (#[trigger] plan.targets@[j]).output@
                    == mi.slots@[j].name@ && plan.targets@[j].workspace@ == compose_name(
                    major,
                    (j + 1) as u32,
                ),
            forall|j: int|
                0 <= j < i ==> {
                    &&& step_is_run(
                        steps@[4 * j],
                        cmd_focus_output((#[trigger] mi.slots@[j]).name@),
                    )
                    &&& step_is_run(steps@[4 * j + 1], cmd_focus_parent())
                    &&& step_is_run(
                        steps@[4 * j + 2],
                        cmd_create_workspace(compose_name(major, (j + 1) as u32)),
                    )
                    &&& step_is_settle(steps@[4 * j + 3], SETTLE_CREATE_MS)
                },
        decreases n - i,
    {
        let ghost pre = steps@;
        let t = &plan.targets[i];
        let s0 = run_focus_output(&t.output);
        let s1 = run_focus_parent();
        let s2 = run_create_workspace(&t.workspace);
        let s3 = Step::Settle(SETTLE_CREATE_MS);
        steps.push(s0);
        steps.push(s1);
        steps.push(s2);
        steps.push(s3);
        proof {
            assert(steps@ =~= pre.push(s0).push(s1).push(s2).push(s3));
            assert(steps@[4 * i as int] == s0);
            assert(steps@[4 * i as int + 1] == s1);
            assert(steps@[4 * i as int + 2] == s2);
            assert(steps@[4 * i as int + 3] == s3);
            assert forall|j: int| 0 <= j < i as int implies {
                &&& step_is_run(steps@[4 * j], cmd_focus_output((#[trigger] mi.slots@[j]).name@))
                &&& step_is_run(steps@[4 * j + 1], cmd_focus_parent())
                &&& step_is_run(
                    steps@[4 * j + 2],
                    cmd_create_workspace(compose_name(major, (j + 1) as u32)),
                )
                &&& step_is_settle(steps@[4 * j + 3], SETTLE_CREATE_MS)
            } by {
                assert(steps@[4 * j] == pre[4 * j]);
                assert(steps@[4 * j + 1] == pre[4 * j + 1]);
                assert(steps@[4 * j + 2] == pre[4 * j + 2]);
                assert(steps@[4 * j + 3] == pre[4 * j + 3]);
            }
        }
        i = i + 1;
    }
    steps
}

/// Plans the switch action against an already-built monitor index and the
/// focused workspace. Fails exactly as the restore minor's derivation
/// fails; on success the steps are the switch sequence for that minor.
pub fn switch_steps(major: u32, mi: &MonitorIndex, active: &WorkspaceInfo) -> (r: Result<
    Vec<Step>,
    Error,
>)
    requires
        mi.wf(),
    ensures
        r is Ok <==> spec_minor(*mi, *active) is Ok,
        r matches Err(e) ==> spec_minor(*mi, *active) == Err::<u32, Error>(e),
        r matches Ok(steps) ==> switch_steps_ok(
            steps@,
            major,
            *mi,
            spec_minor(*mi, *active)->Ok_0,
        ),
{
    let plan = match derive_names(major, mi, active) {
        Ok(p) => p,
        Err(e) => {
            return Err(e);
        },
    };
    let mut steps = creation_steps(&plan, Ghost(major), Ghost(*mi));
    let ghost created = steps@;
    steps.push(Step::Settle(SETTLE_REFOCUS_MS));
    steps.push(run_activate_workspace(&plan.restore));
    proof {
        assert(steps@.subrange(0, 4 * mi.slots@.len() as int) =~= created);
    }
    Ok(steps)
}

/// Plans the move action: the switch sequence with the captured container
/// moved to the restore workspace just before the settle and final
/// activation.
pub fn move_steps(major: u32, mi: &MonitorIndex, active: &WorkspaceInfo, con_id: i64) -> (r:
    Result<Vec<Step>, Error>)
    requires
        mi.wf(),
    ensures
        r is Ok <==> spec_minor(*mi, *active) is Ok,
        r matches Err(e) ==> spec_minor(*mi, *active) == Err::<u32, Error>(e),
        r matches Ok(steps) ==> move_steps_ok(
            steps@,
            major,
            *mi,
            spec_minor(*mi, *active)->Ok_0,
            con_id,
        ),
{
    let plan = match derive_names(major, mi, active) {
        Ok(p) => p,
        Err(e) => {
            return Err(e);
        },
    };
    let mut steps = creation_steps(&plan, Ghost(major), Ghost(*mi));
    let ghost created = steps@;
    steps.push(run_move_container(con_id, &plan.restore));
    steps.push(Step::Settle(SETTLE_REFOCUS_MS));
    steps.push(run_activate_workspace(&plan.restore));
    proof {
        assert(steps@.subrange(0, 4 * mi.slots@.len() as int) =~= created);
    }
    Ok(steps)
}

/// Whether some active output carries this name.
pub open spec fn active_name_known(outputs: Seq<OutputInfo>, name: Seq<char>) -> bool {
    exists|i: int|
        0 <= i < active_outputs(outputs).len() && (#[trigger] active_outputs(
            outputs,
        )[i]).name@ == name
}

/// Membership of a name among the slots transfers along the multiset
/// equality with the active outputs.
proof fn lemma_name_known_transfer(outputs: Seq<OutputInfo>, mi: MonitorIndex, name: Seq<char>)
    requires
        mi.slots@.to_multiset() == active_outputs(outputs).to_multiset(),
    ensures
        (find_name(mi.slots@, name) != -1) <==> active_name_known(outputs, name),
{
    let s = mi.slots@;
    let acts = active_outputs(outputs);
    lemma_find_name(s, name);
    if find_name(s, name) != -1 {
        let f = find_name(s, name);
        assert(s.contains(s[f]));
        assert(acts.to_multiset().count(s[f]) > 0);
        assert(acts.contains(s[f]));
        let i = choose|i: int| 0 <= i < acts.len() && acts[i] == s[f];
        assert(acts[i].name@ == name);
    }
    if active_name_known(outputs, name) {
        let i = choose|i: int| 0 <= i < acts.len() && acts[i].name@ == name;
        assert(acts.contains(acts[i]));
        assert(s.to_multiset().count(acts[i]) > 0);
        assert(s.contains(acts[i]));
        let j = choose|j: int| 0 <= j < s.len() && s[j] == acts[i];
        assert(s[j].name@ == name);
        assert(find_name(s, name) != -1);
    }
}

/// Whether a restore minor can be derived for this focused workspace over
/// this output set: a two-part name needs a valid minor, a one-part name
/// needs its output among the active ones.
pub open spec fn restore_derivable(outputs: Seq<OutputInfo>, active: WorkspaceInfo) -> bool {
    if has_exactly_one_dot(active.name@) {
        minor_valid(minor_text(active.name@))
    } else {
        active_name_known(outputs, active.output@)
    }
}

pub open spec fn has_focused_workspace(ws: Seq<WorkspaceInfo>) -> bool {
    exists|i: int| 0 <= i < ws.len() && (#[trigger] ws[i]).focused
}

/// `spec_minor` succeeds exactly when the restore minor is derivable; its
/// error is `MalformedMinor` on a bad two-part name and `UnknownOutput` on
/// an unindexed output.
proof fn lemma_spec_minor_cases(outputs: Seq<OutputInfo>, mi: MonitorIndex, active: WorkspaceInfo)
    requires
        mi.slots@.to_multiset() == active_outputs(outputs).to_multiset(),
    ensures
        spec_minor(mi, active) is Ok <==> restore_derivable(outputs, active),
        spec_minor(mi, active) is Err ==> spec_minor(mi, active)->Err_0 == (
        if has_exactly_one_dot(active.name@) {
            Error::MalformedMinor
        } else {
            Error::UnknownOutput
        }),
{
    lemma_name_known_transfer(outputs, mi, active.output@);
}

/// Plans the whole switch action from a snapshot of the outputs and
/// workspaces: index the active outputs, find the focused workspace,
/// derive the names, and emit the switch sequence. Each failure is owed
/// exactly as stated; on success the steps follow the switch shape over
/// some index of the active outputs.
pub fn plan_switch(major: u32, outputs: &Vec<OutputInfo>, workspaces: &Vec<WorkspaceInfo>) -> (r:
    Result<Vec<Step>, Error>)
    requires
        outputs@.len() <= u32::MAX,
    ensures
        r == Err::<Vec<Step>, Error>(Error::EmptyTopology) <==> active_outputs(outputs@).len()
            == 0,
        active_outputs(outputs@).len() > 0 ==> (r == Err::<Vec<Step>, Error>(
            Error::NoFocusedWorkspace,
        ) <==> !has_focused_workspace(workspaces@)),
        forall|fi: int|
            is_first_focused(workspaces@, fi) && active_outputs(outputs@).len() > 0 ==> {
                &&& r is Ok <==> restore_derivable(outputs@, workspaces@[fi])
                &&& r == Err::<Vec<Step>, Error>(Error::MalformedMinor) <==> (has_exactly_one_dot(
                    (#[trigger] workspaces@[fi]).name@,
                ) && !minor_valid(minor_text(workspaces@[fi].name@)))
                &&& r == Err::<Vec<Step>, Error>(Error::UnknownOutput) <==> (!has_exactly_one_dot(
                    workspaces@[fi].name@,
                ) && !active_name_known(outputs@, workspaces@[fi].output@))
            },
        r matches Ok(steps) ==> exists|mi: MonitorIndex, fi: int|
            {
                &&& #[trigger] mi.wf()
                &&& mi.slots@.to_multiset() == active_outputs(outputs@).to_multiset()
                &&& #[trigger] is_first_focused(workspaces@, fi)
                &&& spec_minor(mi, workspaces@[fi]) is Ok
                &&& switch_steps_ok(steps@, major, mi, spec_minor(mi, workspaces@[fi])->Ok_0)
            },
{
    let mi = match index(outputs) {
        Ok(mi) => mi,
        Err(e) => {
            return Err(e);
        },
    };
    let fi = match find_focused_workspace(workspaces) {
        Ok(fi) => fi,
        Err(e) => {
            return Err(e);
        },
    };
    proof {
        lemma_spec_minor_cases(outputs@, mi, workspaces@[fi as int]);
        assert(mi.slots@.to_multiset().len() == mi.slots@.len());
    }
    switch_steps(major, &mi, &workspaces[fi])
}

/// Plans the whole move action. The focused container is located first —
/// the tree must be inspected before the layout is perturbed — so a
/// focus-free tree fails with `NoFocusedNode` before anything else; the
/// remaining failures are those of the switch plan. On success the steps
/// follow the move shape, relocating a focused descendant's id.
pub fn plan_move(
    major: u32,
    outputs: &Vec<OutputInfo>,
    workspaces: &Vec<WorkspaceInfo>,
    roots: &Vec<ContainerNode>,
) -> (r: Result<Vec<Step>, Error>)
    requires
        outputs@.len() <= u32::MAX,
    ensures
        r == Err::<Vec<Step>, Error>(Error::NoFocusedNode) <==> !forest_has_focused(roots@),
        forest_has_focused(roots@) ==> (r == Err::<Vec<Step>, Error>(Error::EmptyTopology)
            <==> active_outputs(outputs@).len() == 0),
        forest_has_focused(roots@) && active_outputs(outputs@).len() > 0 ==> (r == Err::<
            Vec<Step>,
            Error,
        >(Error::NoFocusedWorkspace) <==> !has_focused_workspace(workspaces@)),
        forall|fi: int|
            is_first_focused(workspaces@, fi) && forest_has_focused(roots@) && active_outputs(
                outputs@,
            ).len() > 0 ==> {
                &&& r is Ok <==> restore_derivable(outputs@, workspaces@[fi])
                &&& r == Err::<Vec<Step>, Error>(Error::MalformedMinor) <==> (has_exactly_one_dot(
                    (#[trigger] workspaces@[fi]).name@,
                ) && !minor_valid(minor_text(workspaces@[fi].name@)))
                &&& r == Err::<Vec<Step>, Error>(Error::UnknownOutput) <==> (!has_exactly_one_dot(
                    workspaces@[fi].name@,
                ) && !active_name_known(outputs@, workspaces@[fi].output@))
            },
        r matches Ok(steps) ==> exists|mi: MonitorIndex, fi: int, con_id: i64|
            {
                &&& #[trigger] mi.wf()
                &&& mi.slots@.to_multiset() == active_outputs(outputs@).to_multiset()
                &&& #[trigger] is_first_focused(workspaces@, fi)
                &&& #[trigger] forest_focused_id(roots@, con_id)
                &&& spec_minor(mi, workspaces@[fi]) is Ok
                &&& move_steps_ok(steps@, major, mi, spec_minor(mi, workspaces@[fi])->Ok_0, con_id)
            },
{
    let con_id = match require_focused(roots) {
        Ok(id) => id,
        Err(e) => {
            return Err(e);
        },
    };
    let mi = match index(outputs) {
        Ok(mi) => mi,
        Err(e) => {
            return Err(e);
        },
    };
    let fi = match find_focused_workspace(workspaces) {
        Ok(fi) => fi,
        Err(e) => {
            return Err(e);
        },
    };
    proof {
        lemma_spec_minor_cases(outputs@, mi, workspaces@[fi as int]);
        assert(mi.slots@.to_multiset().len() == mi.slots@.len());
    }
    move_steps(major, &mi, &workspaces[fi], con_id)
}

/// How many steps of a sequence are commands (rather than delays).
pub open spec fn command_count(steps: Seq<Step>) -> nat
    decreases steps.len(),
{
    if steps.len() == 0 {
        0
    } else {
        command_count(steps.drop_last()) + if steps.last() is Run {
            1nat
        } else {
            0nat
        }
    }
}

proof fn lemma_command_count_push(s: Seq<Step>, x: Step)
    ensures
        command_count(s.push(x)) == command_count(s) + if x is Run {
            1nat
        } else {
            0nat
        },
{
    assert(s.push(x).drop_last() =~= s);
}

/// The creation prefix holds exactly three commands per indexed monitor.
proof fn lemma_creation_command_count(steps: Seq<Step>, major: u32, mi: MonitorIndex)
    requires
        creation_steps_ok(steps, major, mi),
    ensures
        command_count(steps) == 3 * mi.slots@.len(),
{
    let n = mi.slots@.len() as int;
    lemma_creation_command_count_prefix(steps, major, mi, n);
    assert(steps.subrange(0, 4 * n) =~= steps);
}

proof fn lemma_creation_command_count_prefix(steps: Seq<Step>, major: u32, mi: MonitorIndex, i: int)
    requires
        creation_steps_ok(steps, major, mi),
        0 <= i <= mi.slots@.len(),
    ensures
        command_count(steps.subrange(0, 4 * i)) == 3 * i,
    decreases i,
{
    if i == 0 {
        assert(steps.subrange(0, 0) =~= Seq::<Step>::empty());
    } else {
        lemma_creation_command_count_prefix(steps, major, mi, i - 1);
        let p = steps.subrange(0, 4 * (i - 1));
        let q = steps.subrange(0, 4 * i);
        let slot = mi.slots@[i - 1];
        assert(step_is_run(steps[4 * (i - 1)], cmd_focus_output(slot.name@)));
        assert(step_is_run(steps[4 * (i - 1) + 1], cmd_focus_parent()));
        assert(step_is_run(
            steps[4 * (i - 1) + 2],
            cmd_create_workspace(compose_name(major, i as u32)),
        ));
        assert(step_is_settle(steps[4 * (i - 1) + 3], SETTLE_CREATE_MS));
        assert(q =~= p.push(steps[4 * (i - 1)]).push(steps[4 * (i - 1) + 1]).push(
            steps[4 * (i - 1) + 2],
        ).push(steps[4 * (i - 1) + 3]));
        lemma_command_count_push(p, steps[4 * (i - 1)]);
        lemma_command_count_push(p.push(steps[4 * (i - 1)]), steps[4 * (i - 1) + 1]);
        lemma_command_count_push(
            p.push(steps[4 * (i - 1)]).push(steps[4 * (i - 1) + 1]),
            steps[4 * (i - 1) + 2],
        );
        lemma_command_count_push(
            p.push(steps[4 * (i - 1)]).push(steps[4 * (i - 1) + 1]).push(steps[4 * (i - 1) + 2]),
            steps[4 * (i - 1) + 3],
        );
    }
}

/// Law: a switch plan issues exactly three commands per indexed monitor,
/// followed by one final activation — and nothing else.
pub proof fn lemma_switch_command_count(steps: Seq<Step>, major: u32, mi: MonitorIndex, minor: u32)
    requires
        switch_steps_ok(steps, major, mi, minor),
    ensures
        command_count(steps) == 3 * mi.slots@.len() + 1,
{
    let n = mi.slots@.len() as int;
    let p = steps.subrange(0, 4 * n);
    lemma_creation_command_count(p, major, mi);
    assert(steps =~= p.push(steps[4 * n]).push(steps[4 * n + 1]));
    lemma_command_count_push(p, steps[4 * n]);
    lemma_command_count_push(p.push(steps[4 * n]), steps[4 * n + 1]);
}

/// Law: a move plan issues exactly one command more than the switch plan
/// for the same index: the single container move, placed after the
/// creation prefix and before the final activation.
pub proof fn lemma_move_command_count(
    steps: Seq<Step>,
    major: u32,
    mi: MonitorIndex,
    minor: u32,
    con_id: i64,
)
    requires
        move_steps_ok(steps, major, mi, minor, con_id),
    ensures
        command_count(steps) == 3 * mi.slots@.len() + 2,
{
    let n = mi.slots@.len() as int;
    let p = steps.subrange(0, 4 * n);
    lemma_creation_command_count(p, major, mi);
    assert(steps =~= p.push(steps[4 * n]).push(steps[4 * n + 1]).push(steps[4 * n + 2]));
    lemma_command_count_push(p, steps[4 * n]);
    lemma_command_count_push(p.push(steps[4 * n]), steps[4 * n + 1]);
    lemma_command_count_push(p.push(steps[4 * n]).push(steps[4 * n + 1]), steps[4 * n + 2]);
}

} // verus!
