//! The monitor indexer: filters the reported outputs down to the active
//! ones, orders them left-to-right then top-to-bottom by their rectangle's
//! position, and assigns each a dense 1-based rank. The rank is a
//! deterministic function of the active-output set alone.

use crate::errors::Error;
use vstd::prelude::*;
use vstd::relations::sorted_by;
use vstd::seq_lib::group_to_multiset_ensures;

verus! {

broadcast use group_to_multiset_ensures;

/// A physical or virtual monitor, as reported by the window manager:
/// its unique name, whether it is active, and its rectangle's position.
#[derive(Debug)]
pub struct OutputInfo {
    pub name: String,
    pub active: bool,
    pub x: i32,
    pub y: i32,
}

/// The ordering key: position ascending in `x`, ties broken by `y`.
pub open spec fn key_le(a: OutputInfo, b: OutputInfo) -> bool {
    a.x < b.x || (a.x == b.x && a.y <= b.y)
}

pub open spec fn key_lt(a: OutputInfo, b: OutputInfo) -> bool {
    a.x < b.x || (a.x == b.x && a.y < b.y)
}

pub open spec fn same_key(a: OutputInfo, b: OutputInfo) -> bool {
    a.x == b.x && a.y == b.y
}

/// The ordering key as a relation value, for `sorted_by`.
pub open spec fn key_leq() -> spec_fn(OutputInfo, OutputInfo) -> bool {
    |a: OutputInfo, b: OutputInfo| key_le(a, b)
}

/// The subsequence of outputs that are active, in reported order.
pub open spec fn active_outputs(s: Seq<OutputInfo>) -> Seq<OutputInfo> {
    s.filter(|o: OutputInfo| o.active)
}

/// No two outputs share a rectangle position.
pub open spec fn distinct_keys(s: Seq<OutputInfo>) -> bool {
    forall|i: int, j: int| 0 <= i < j < s.len() ==> !same_key(#[trigger] s[i], #[trigger] s[j])
}

/// No two outputs share a name.
pub open spec fn distinct_names(s: Seq<OutputInfo>) -> bool {
    forall|i: int, j: int|
        0 <= i < j < s.len() ==> (#[trigger] s[i].name)@ != (#[trigger] s[j].name)@
}

/// The position of the first output named `name`, or -1 if there is none.
pub open spec fn find_name(s: Seq<OutputInfo>, name: Seq<char>) -> int
    decreases s.len(),
{
    if s.len() == 0 {
        -1
    } else if s[0].name@ == name {
        0
    } else if find_name(s.drop_first(), name) < 0 {
        -1
    } else {
        find_name(s.drop_first(), name) + 1
    }
}

/// `find_name` returns -1 exactly when no output carries the name, and
/// otherwise the first position that does.
pub proof fn lemma_find_name(s: Seq<OutputInfo>, name: Seq<char>)
    ensures
        find_name(s, name) == -1 <==> (forall|j: int|
            0 <= j < s.len() ==> (#[trigger] s[j].name)@ != name),
        find_name(s, name) != -1 ==> {
            let f = find_name(s, name);
            &&& 0 <= f < s.len()
            &&& s[f].name@ == name
            &&& forall|j: int| 0 <= j < f ==> (#[trigger] s[j].name)@ != name
        },
    decreases s.len(),
{
    if s.len() == 0 {
    } else if s[0].name@ == name {
    } else {
        lemma_find_name(s.drop_first(), name);
        let t = s.drop_first();
        assert forall|j: int| 1 <= j < s.len() implies (#[trigger] s[j].name)@ == t[j - 1].name@ by {
            assert(t[j - 1] == s[j]);
        }
        if find_name(t, name) == -1 {
            assert forall|j: int| 0 <= j < s.len() implies (#[trigger] s[j].name)@ != name by {
                if j >= 1 {
                    assert(t[j - 1].name@ != name);
                }
            }
        } else {
            let f = find_name(t, name);
            assert(s[f + 1] == t[f]);
            assert forall|j: int| 0 <= j < f + 1 implies (#[trigger] s[j].name)@ != name by {
                if j >= 1 {
                    assert(t[j - 1].name@ != name);
                }
            }
        }
    }
}

/// The monitor index: the active outputs in key order. The output at
/// position `i` has rank `i + 1`; rank 0 is reserved to mean "no rank".
#[derive(Debug)]
pub struct MonitorIndex {
    pub slots: Vec<OutputInfo>,
}

impl MonitorIndex {
    pub open spec fn wf(self) -> bool {
        &&& sorted_by(self.slots@, key_leq())
        &&& self.slots@.len() <= u32::MAX
    }

    /// The rank of the output named `name`: its slot position plus one.
    pub open spec fn spec_rank_of(self, name: Seq<char>) -> Option<u32> {
        let f = find_name(self.slots@, name);
        if f == -1 {
            None
        } else {
            Some((f + 1) as u32)
        }
    }

    pub fn len(&self) -> (r: usize)
        ensures
            r == self.slots@.len(),
    {
        self.slots.len()
    }

    pub fn rank_of(&self, name: &String) -> (r: Option<u32>)
        requires
            self.wf(),
        ensures
            r == self.spec_rank_of(name@),
    {
        proof {
            lemma_find_name(self.slots@, name@);
        }
        let n = self.slots.len();
        let mut i: usize = 0;
        while i < n
            invariant
                0 <= i <= n,
                n == self.slots@.len() <= u32::MAX,
                forall|j: int| 0 <= j < i ==> (#[trigger] self.slots@[j].name)@ != name@,
                find_name(self.slots@, name@) != -1 ==> {
                    let f = find_name(self.slots@, name@);
                    &&& 0 <= f < n
                    &&& self.slots@[f].name@ == name@
                    &&& forall|j: int|
                        0 <= j < f ==> (#[trigger] self.slots@[j].name)@ != name@
                },
                find_name(self.slots@, name@) == -1 <==> (forall|j: int|
                    0 <= j < n ==> (#[trigger] self.slots@[j].name)@ != name@),
            decreases n - i,
        {
            if self.slots[i].name == *name {
                proof {
                    assert(find_name(self.slots@, name@) == i);
                }
                return Some((i as u32) + 1);
            }
            i = i + 1;
        }
        None
    }
}

fn key_before(a: &OutputInfo, b: &OutputInfo) -> (r: bool)
    ensures
        r == key_lt(*a, *b),
{
    a.x < b.x || (a.x == b.x && a.y < b.y)
}

/// One unfolding of the active-output filter over a push.
proof fn lemma_active_outputs_push(s: Seq<OutputInfo>, o: OutputInfo)
    ensures
        active_outputs(s.push(o)) == if o.active {
            active_outputs(s).push(o)
        } else {
            active_outputs(s)
        },
{
    reveal(Seq::filter);
    assert(s.push(o).drop_last() =~= s);
}

/// Orders the active outputs by position and ranks them. Fails with
/// `EmptyTopology` exactly when no output is active. On success the index
/// holds, in key order, exactly the active outputs (as a multiset).
pub fn index(outputs: &Vec<OutputInfo>) -> (r: Result<MonitorIndex, Error>)
    requires
        outputs@.len() <= u32::MAX,
    ensures
        r is Ok <==> active_outputs(outputs@).len() > 0,
        r is Err ==> r == Err::<MonitorIndex, Error>(Error::EmptyTopology),
        r matches Ok(mi) ==> mi.wf() && mi.slots@.to_multiset() == active_outputs(
            outputs@,
        ).to_multiset(),
{
    let ghost leq = key_leq();
    let mut slots: Vec<OutputInfo> = Vec::new();
    let n = outputs.len();
    let mut i: usize = 0;
    while i < n
        invariant
            0 <= i <= n,
            n == outputs@.len() <= u32::MAX,
            leq == key_leq(),
            sorted_by(slots@, leq),
            slots@.to_multiset() == active_outputs(outputs@.subrange(0, i as int)).to_multiset(),
            slots@.len() <= i,
        decreases n - i,
    {
        let o = &outputs[i];
        proof {
            assert(outputs@.subrange(0, i + 1) =~= outputs@.subrange(0, i as int).push(
                outputs@[i as int],
            ));
            lemma_active_outputs_push(outputs@.subrange(0, i as int), outputs@[i as int]);
        }
        if o.active {
            let item = OutputInfo { name: o.name.clone(), active: o.active, x: o.x, y: o.y };
            proof {
                assert(item == outputs@[i as int]);
            }
            let m = slots.len();
            let mut k: usize = 0;
            while k < m && !key_before(&item, &slots[k])
                invariant
                    0 <= k <= m,
                    m == slots@.len(),
                    forall|j: int| 0 <= j < k ==> key_le(#[trigger] slots@[j], item),
                decreases m - k,
            {
                k = k + 1;
            }
            proof {
                let old_slots = slots@;
                let inserted = old_slots.insert(k as int, item);
                assert forall|a: int, b: int| 0 <= a < b < inserted.len() implies leq(
                    inserted[a],
                    inserted[b],
                ) by {
                    if b < k {
                        assert(leq(old_slots[a], old_slots[b]));
                    } else if a > k {
                        assert(leq(old_slots[a - 1], old_slots[b - 1]));
                    } else if a < k && b == k {
                        assert(key_le(old_slots[a], item));
                    } else if a < k && b > k {
                        assert(leq(old_slots[a], old_slots[b - 1]));
                    } else {
                        // a == k < b: the scan stopped at a strictly larger key
                        assert(key_lt(item, old_slots[k as int]));
                        if b - 1 > k {
                            assert(leq(old_slots[k as int], old_slots[b - 1]));
                        }
                    }
                }
            }
            slots.insert(k, item);
        }
        i = i + 1;
    }
    proof {
        assert(outputs@.subrange(0, n as int) =~= outputs@);
    }
    if slots.len() == 0 {
        proof {
            assert(slots@.to_multiset().len() == 0);
        }
        Err(Error::EmptyTopology)
    } else {
        proof {
            assert(slots@.to_multiset().len() == slots@.len());
        }
        Ok(MonitorIndex { slots })
    }
}

/// A pairwise collision that is absent from a sequence is absent from every
/// permutation of it, for any symmetric relation that an element bears to
/// itself.
proof fn lemma_perm_no_collision(
    x: Seq<OutputInfo>,
    y: Seq<OutputInfo>,
    bad: spec_fn(OutputInfo, OutputInfo) -> bool,
)
    requires
        x.to_multiset() == y.to_multiset(),
        forall|i: int, j: int| 0 <= i < j < x.len() ==> !bad(#[trigger] x[i], #[trigger] x[j]),
        forall|a: OutputInfo, b: OutputInfo| #[trigger] bad(a, b) ==> bad(b, a),
        forall|a: OutputInfo| #[trigger] bad(a, a),
    ensures
        forall|i: int, j: int| 0 <= i < j < y.len() ==> !bad(#[trigger] y[i], #[trigger] y[j]),
{
    assert forall|i: int, j: int| 0 <= i < j < y.len() implies !bad(#[trigger] y[i], #[trigger] y[j]) by {
        if bad(y[i], y[j]) {
            let e1 = y[i];
            let e2 = y[j];
            let yr = y.remove(j);
            assert(yr[i] == e1);
            assert(yr.contains(e1));
            assert(y.remove(j).to_multiset() == y.to_multiset().remove(e2));
            assert(yr.to_multiset().count(e1) > 0);
            assert(y.to_multiset().remove(e2).count(e1) > 0);
            if e1 != e2 {
                assert(x.to_multiset().count(e1) > 0);
                assert(y.contains(e2));
                assert(x.to_multiset().count(e2) > 0);
                assert(x.contains(e1));
                assert(x.contains(e2));
                let p = choose|p: int| 0 <= p < x.len() && x[p] == e1;
                let q = choose|q: int| 0 <= q < x.len() && x[q] == e2;
                if p < q {
                    assert(!bad(x[p], x[q]));
                } else {
                    assert(!bad(x[q], x[p]));
                }
                assert(false);
            } else {
                assert(x.to_multiset().count(e1) >= 2);
                assert(x.contains(e1));
                let p = choose|p: int| 0 <= p < x.len() && x[p] == e1;
                let xr = x.remove(p);
                assert(xr.to_multiset() == x.to_multiset().remove(e1));
                assert(xr.to_multiset().count(e1) > 0);
                assert(xr.contains(e1));
                let q0 = choose|q0: int| 0 <= q0 < xr.len() && xr[q0] == e1;
                let q = if q0 < p { q0 } else { q0 + 1 };
                assert(x[q] == e1);
                assert(q != p);
                if p < q {
                    assert(!bad(x[p], x[q]));
                } else {
                    assert(!bad(x[q], x[p]));
                }
                assert(false);
            }
        }
    }
}

/// Two sequences sorted by the position key, holding the same outputs and
/// with no repeated position among them, are the same sequence.
proof fn lemma_sorted_unique_distinct(x: Seq<OutputInfo>, y: Seq<OutputInfo>)
    requires
        sorted_by(x, key_leq()),
        sorted_by(y, key_leq()),
        distinct_keys(x),
        x.to_multiset() == y.to_multiset(),
    ensures
        x == y,
    decreases x.len(),
{
    if x.len() == 0 {
        assert(y.len() == 0);
        assert(x =~= y);
    } else {
        assert(y.to_multiset().len() == y.len());
        assert(y.len() > 0);
        assert(x.contains(x[0]));
        assert(y.to_multiset().count(x[0]) > 0);
        assert(y.contains(x[0]));
        assert(y.contains(y[0]));
        assert(x.to_multiset().count(y[0]) > 0);
        assert(x.contains(y[0]));
        let p = choose|p: int| 0 <= p < x.len() && x[p] == y[0];
        let q = choose|q: int| 0 <= q < y.len() && y[q] == x[0];
        if p > 0 {
            assert(key_leq()(x[0], x[p]));
        }
        if q > 0 {
            assert(key_leq()(y[0], y[q]));
        }
        assert(key_le(x[0], y[0]) || x[0] == y[0]);
        assert(key_le(y[0], x[0]) || y[0] == x[0]);
        assert(same_key(x[0], y[0]));
        if x[0] != y[0] {
            assert(p > 0);
            assert(same_key(x[0], x[p]));
            assert(false);
        }
        let xt = x.drop_first();
        let yt = y.drop_first();
        assert(x.remove(0) =~= xt);
        assert(y.remove(0) =~= yt);
        assert(xt.to_multiset() == x.to_multiset().remove(x[0]));
        assert(yt.to_multiset() == y.to_multiset().remove(y[0]));
        assert(xt.to_multiset() == yt.to_multiset());
        assert forall|i: int, j: int| 0 <= i < j < xt.len() implies !same_key(
            #[trigger] xt[i],
            #[trigger] xt[j],
        ) by {
            assert(xt[i] == x[i + 1] && xt[j] == x[j + 1]);
        }
        assert forall|i: int, j: int| 0 <= i < j < xt.len() implies key_leq()(xt[i], xt[j]) by {
            assert(xt[i] == x[i + 1] && xt[j] == x[j + 1]);
            assert(key_leq()(x[i + 1], x[j + 1]));
        }
        assert forall|i: int, j: int| 0 <= i < j < yt.len() implies key_leq()(yt[i], yt[j]) by {
            assert(yt[i] == y[i + 1] && yt[j] == y[j + 1]);
            assert(key_leq()(y[i + 1], y[j + 1]));
        }
        lemma_sorted_unique_distinct(xt, yt);
        assert forall|i: int| 0 <= i < x.len() implies x[i] == y[i] by {
            if i > 0 {
                assert(xt[i - 1] == yt[i - 1]);
            }
        }
        assert(x =~= y);
    }
}

/// Law: the index assigns the dense ranks 1..N — the output in slot `j`
/// has rank `j + 1` — and, when the index is not empty, rank 1 goes to an
/// output whose `(x, y)` key is smallest among all active outputs. The
/// hypotheses are exactly what `index` ensures of its result, plus the
/// model's promise that output names are unique.
pub proof fn lemma_index_ranks(outputs: Seq<OutputInfo>, mi: MonitorIndex)
    requires
        mi.wf(),
        mi.slots@.to_multiset() == active_outputs(outputs).to_multiset(),
        distinct_names(active_outputs(outputs)),
    ensures
        mi.slots@.len() == active_outputs(outputs).len(),
        forall|j: int|
            0 <= j < mi.slots@.len() ==> mi.spec_rank_of(#[trigger] mi.slots@[j].name@)
                == Some((j + 1) as u32),
        mi.slots@.len() > 0 ==> forall|o: OutputInfo|
            active_outputs(outputs).contains(o) ==> key_le(mi.slots@[0], o),
{
    let s = mi.slots@;
    let act = active_outputs(outputs);
    assert(s.to_multiset().len() == s.len());
    assert(act.to_multiset().len() == act.len());
    lemma_perm_no_collision(act, s, |a: OutputInfo, b: OutputInfo| a.name@ == b.name@);
    assert forall|j: int| 0 <= j < s.len() implies mi.spec_rank_of(#[trigger] s[j].name@) == Some(
        (j + 1) as u32,
    ) by {
        lemma_find_name(s, s[j].name@);
        let f = find_name(s, s[j].name@);
        assert(f != -1);
        if f < j {
            assert(s[f].name@ == s[j].name@);
            assert(false);
        }
        if f > j {
            assert(s[j].name@ != s[j].name@);
            assert(false);
        }
    }
    if s.len() > 0 {
        assert forall|o: OutputInfo| act.contains(o) implies key_le(s[0], o) by {
            assert(act.to_multiset().count(o) > 0);
            assert(s.contains(o));
            let p = choose|p: int| 0 <= p < s.len() && s[p] == o;
            if p > 0 {
                assert(key_leq()(s[0], s[p]));
            }
            assert(key_le(s[0], s[0]));
        }
    }
}

/// Law: the index is a deterministic function of the active-output set.
/// Two runs over inputs whose active outputs are permutations of one
/// another — with no two active outputs sharing a position — produce the
/// same slots, and so the same name-to-rank mapping. The hypotheses on
/// `ma` and `mb` are exactly what `index` ensures of its results.
pub proof fn lemma_index_deterministic(
    a: Seq<OutputInfo>,
    b: Seq<OutputInfo>,
    ma: MonitorIndex,
    mb: MonitorIndex,
)
    requires
        active_outputs(a).to_multiset() == active_outputs(b).to_multiset(),
        distinct_keys(active_outputs(a)),
        ma.wf(),
        mb.wf(),
        ma.slots@.to_multiset() == active_outputs(a).to_multiset(),
        mb.slots@.to_multiset() == active_outputs(b).to_multiset(),
    ensures
        ma.slots@ == mb.slots@,
        forall|name: Seq<char>| ma.spec_rank_of(name) == mb.spec_rank_of(name),
{
    lemma_perm_no_collision(
        active_outputs(a),
        ma.slots@,
        |u: OutputInfo, v: OutputInfo| same_key(u, v),
    );
    lemma_sorted_unique_distinct(ma.slots@, mb.slots@);
}

} // verus!
