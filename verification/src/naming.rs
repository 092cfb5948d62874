//! The workspace namer: builds the composite `"<major>.<rank>"` name for
//! every indexed monitor, and the name to restore focus to afterwards. The
//! restore name keeps the minor of the currently focused workspace when its
//! name already carries one, and otherwise uses the rank of the output that
//! holds the focused workspace.

use crate::errors::Error;
use crate::numerals::dec_digits;
use crate::numerals::digits_value;
use crate::numerals::is_digit_seq;
use crate::numerals::parse_u32;
use crate::numerals::u32_to_string;
use crate::topology::MonitorIndex;
use vstd::prelude::*;
use vstd::string::StrSliceExecFns;
use vstd::string::StringExecFns;

verus! {

/// A logical desktop as the window manager reports it: its name, whether
/// it holds the focus, and the output it currently occupies.
#[derive(Debug)]
pub struct WorkspaceInfo {
    pub name: String,
    pub focused: bool,
    pub output: String,
}

/// `d` is the position of the one and only '.' in `s`.
pub open spec fn is_only_dot(s: Seq<char>, d: int) -> bool {
    &&& 0 <= d < s.len()
    &&& s[d] == '.'
    &&& forall|i: int| 0 <= i < s.len() && i != d ==> s[i] != '.'
}

/// The name splits on '.' into exactly two parts.
pub open spec fn has_exactly_one_dot(s: Seq<char>) -> bool {
    exists|d: int| is_only_dot(s, d)
}

/// The text after the one '.' of a two-part name.
pub open spec fn minor_text(s: Seq<char>) -> Seq<char> {
    let d = choose|d: int| is_only_dot(s, d);
    s.subrange(d + 1, s.len() as int)
}

/// The composite workspace name `"<major>.<minor>"`.
pub open spec fn compose_name(major: u32, minor: u32) -> Seq<char> {
    dec_digits(major as nat) + seq!['.'] + dec_digits(minor as nat)
}

/// Whether a minor segment is a non-empty digit string whose value fits.
pub open spec fn minor_valid(t: Seq<char>) -> bool {
    t.len() > 0 && is_digit_seq(t) && digits_value(t) <= u32::MAX
}

/// The minor number of the restore name: the focused workspace's own minor
/// when its name has exactly two parts (`MalformedMinor` when that second
/// part is not an unsigned integer that fits), and otherwise the rank of
/// the output holding the focused workspace (`UnknownOutput` when the
/// index does not know that output).
pub open spec fn spec_minor(index: MonitorIndex, active: WorkspaceInfo) -> Result<u32, Error> {
    if has_exactly_one_dot(active.name@) {
        let t = minor_text(active.name@);
        if minor_valid(t) {
            Ok((digits_value(t) as u32))
        } else {
            Err(Error::MalformedMinor)
        }
    } else {
        match index.spec_rank_of(active.output@) {
            Some(r) => Ok(r),
            None => Err(Error::UnknownOutput),
        }
    }
}

/// One monitor's assignment: the output to focus and the composite
/// workspace name to create or activate on it.
#[derive(Debug)]
pub struct Target {
    pub output: String,
    pub workspace: String,
}

/// The per-monitor assignments, in rank order, and the name to refocus
/// once they are in place.
#[derive(Debug)]
pub struct NamePlan {
    pub targets: Vec<Target>,
    pub restore: String,
}

fn compose_string(major: u32, minor: u32) -> (r: String)
    ensures
        r@ == compose_name(major, minor),
{
    let mut s = u32_to_string(major);
    s.append(".");
    let m = u32_to_string(minor);
    s.append(m.as_str());
    proof {
        reveal_strlit(".");
        assert(s@ =~= compose_name(major, minor));
    }
    s
}

/// Finds the position of the one '.' of `s`, when `s` has exactly one.
fn find_only_dot(s: &str) -> (r: Option<usize>)
    ensures
        r matches Some(d) ==> is_only_dot(s@, d as int),
        r is None ==> !has_exactly_one_dot(s@),
{
    let len = s.unicode_len();
    let mut i: usize = 0;
    while i < len
        invariant
            0 <= i <= len == s@.len(),
            forall|j: int| 0 <= j < i ==> s@[j] != '.',
        decreases len - i,
    {
        if s.get_char(i) == '.' {
            // scan the rest for a second dot
            let d = i;
            let mut k: usize = d + 1;
            while k < len
                invariant
                    d < k <= len == s@.len(),
                    s@[d as int] == '.',
                    forall|j: int| 0 <= j < d ==> s@[j] != '.',
                    forall|j: int| d < j < k ==> s@[j] != '.',
                decreases len - k,
            {
                if s.get_char(k) == '.' {
                    proof {
                        assert forall|c: int| !is_only_dot(s@, c) by {
                            if is_only_dot(s@, c) {
                                if c == d {
                                    assert(s@[k as int] != '.');
                                } else {
                                    assert(s@[d as int] != '.');
                                }
                            }
                        }
                    }
                    return None;
                }
                k = k + 1;
            }
            return Some(d);
        }
        i = i + 1;
    }
    proof {
        assert forall|c: int| !is_only_dot(s@, c) by {
            if is_only_dot(s@, c) {
                assert(s@[c] != '.');
            }
        }
    }
    None
}

/// Derives, for a target major number, the composite name of every indexed
/// monitor (slot `i` gets `"<major>.<i + 1>"`) and the restore name
/// `"<major>.<minor>"`, with the minor chosen as `spec_minor` says.
pub fn derive_names(major: u32, index: &MonitorIndex, active: &WorkspaceInfo) -> (r: Result<
    NamePlan,
    Error,
>)
    requires
        index.wf(),
    ensures
        r is Ok <==> spec_minor(*index, *active) is Ok,
        r matches Err(e) ==> spec_minor(*index, *active) == Err::<u32, Error>(e),
        r matches Ok(p) ==> {
            &&& p.targets@.len() == index.slots@.len()
            &&& forall|i: int|
                0 <= i < p.targets@.len() ==> (#[trigger] p.targets@[i]).output@
                    == index.slots@[i].name@ && p.targets@[i].workspace@ == compose_name(
                    major,
                    (i + 1) as u32,
                )
            &&& p.restore@ == compose_name(major, spec_minor(*index, *active)->Ok_0)
        },
{
    let name_str = active.name.as_str();
    let minor: u32 = match find_only_dot(name_str) {
        Some(d) => {
            let len = name_str.unicode_len();
            let t = name_str.substring_char(d + 1, len);
            proof {
                let dd = choose|dd: int| is_only_dot(active.name@, dd);
                if dd != d {
                    assert(active.name@[d as int] != '.');
                }
                assert(t@ == minor_text(active.name@));
            }
            match parse_u32(t) {
                Some(v) => v,
                None => {
                    return Err(Error::MalformedMinor);
                },
            }
        },
        None => {
            match index.rank_of(&active.output) {
                Some(r) => r,
                None => {
                    return Err(Error::UnknownOutput);
                },
            }
        },
    };
    let n = index.len();
    let mut targets: Vec<Target> = Vec::new();
    let mut i: usize = 0;
    while i < n
        invariant
            0 <= i <= n,
            n == index.slots@.len() <= u32::MAX,
            targets@.len() == i,
            forall|j: int|
                0 <= j < i ==> (#[trigger] targets@[j]).output@ == index.slots@[j].name@
                    && targets@[j].workspace@ == compose_name(major, (j + 1) as u32),
        decreases n - i,
    {
        let rank: u32 = (i as u32) + 1;
        let t = Target {
            output: index.slots[i].name.clone(),
            workspace: compose_string(major, rank),
        };
        targets.push(t);
        i = i + 1;
    }
    Ok(NamePlan { targets, restore: compose_string(major, minor) })
}

/// `i` is the position of the first focused workspace.
pub open spec fn is_first_focused(s: Seq<WorkspaceInfo>, i: int) -> bool {
    &&& 0 <= i < s.len()
    &&& s[i].focused
    &&& forall|j: int| 0 <= j < i ==> !(#[trigger] s[j]).focused
}

/// The position of the first focused workspace; fails with
/// `NoFocusedWorkspace` exactly when none is focused.
pub fn find_focused_workspace(workspaces: &Vec<WorkspaceInfo>) -> (r: Result<usize, Error>)
    ensures
        r is Ok <==> exists|i: int|
            0 <= i < workspaces@.len() && (#[trigger] workspaces@[i]).focused,
        r is Err ==> r == Err::<usize, Error>(Error::NoFocusedWorkspace),
        r matches Ok(i) ==> is_first_focused(workspaces@, i as int),
{
    let n = workspaces.len();
    let mut i: usize = 0;
    while i < n
        invariant
            0 <= i <= n == workspaces@.len(),
            forall|j: int| 0 <= j < i ==> !(#[trigger] workspaces@[j]).focused,
        decreases n - i,
    {
        if workspaces[i].focused {
            return Ok(i);
        }
        i = i + 1;
    }
    Err(Error::NoFocusedWorkspace)
}

} // verus!
