use vstd::prelude::*;

use std::collections::BTreeSet;

use crate::controller::universes_in_order;
use crate::data_structures::level::Level;
use crate::data_structures::show::{ascending, enumerates_ascending, lemma_ascending};
use crate::data_structures::universe::Universe;
use crate::data_structures::CHANNELS_PER_UNIVERSE;

verus! {

broadcast use {vstd::laws_cmp::group_laws_cmp, vstd::std_specs::btree::group_btree_axioms};

/// The levels of each universe as the bytes that go out: the universe's number and one byte
/// per channel.
pub fn output_frames(data: &Vec<(Universe, [Level; CHANNELS_PER_UNIVERSE])>) -> (res: Vec<
    (u16, [u8; CHANNELS_PER_UNIVERSE]),
>)
    ensures
        res@.len() == data@.len(),
        forall|j: int| 0 <= j < res@.len() ==> (#[trigger] res@[j]).0 == data@[j].0@,
        forall|j: int, k: int|
            0 <= j < res@.len() && 0 <= k < CHANNELS_PER_UNIVERSE ==> (#[trigger] res@[j].1@[k])
                == data@[j].1@[k]@,
{
    let mut res: Vec<(u16, [u8; CHANNELS_PER_UNIVERSE])> = Vec::new();
    let mut j: usize = 0;
    while j < data.len()
        invariant
            j <= data@.len(),
            res@.len() == j,
            forall|m: int| 0 <= m < j ==> (#[trigger] res@[m]).0 == data@[m].0@,
            forall|m: int, k: int|
                0 <= m < j && 0 <= k < CHANNELS_PER_UNIVERSE ==> (#[trigger] res@[m].1@[k])
                    == data@[m].1@[k]@,
        decreases data@.len() - j,
    {
        let levels = &data[j].1;
        let mut bytes = [0u8; CHANNELS_PER_UNIVERSE];
        let mut k: usize = 0;
        while k < CHANNELS_PER_UNIVERSE
            invariant
                k <= CHANNELS_PER_UNIVERSE,
                *levels == data@[j as int].1,
                forall|n: int| 0 <= n < k ==> (#[trigger] bytes@[n]) == levels@[n]@,
            decreases CHANNELS_PER_UNIVERSE - k,
        {
            bytes[k] = levels[k].get();
            k = k + 1;
        }
        res.push((data[j].0.get(), bytes));
        j = j + 1;
    }
    res
}

/// The numbers of `a` that are not in `b`, in increasing order.
fn ascending_difference(a: &BTreeSet<u16>, b: &BTreeSet<u16>) -> (res: Vec<u16>)
    ensures
        res@ == ascending(a@.difference(b@)),
        enumerates_ascending(res@, a@.difference(b@)),
{
    let order = universes_in_order(a);
    let mut res: Vec<u16> = Vec::new();
    let mut j: usize = 0;
    while j < order.len()
        invariant
            enumerates_ascending(order@, a@),
            j <= order@.len(),
            forall|x: u16| #[trigger]
                res@.contains(x) <==> order@.take(j as int).contains(x) && !b@.contains(x),
            forall|i: int| 0 <= i < res@.len() ==> order@.take(j as int).contains(#[trigger] res@[i]),
            forall|i: int, k: int| 0 <= i < k < res@.len() ==> res@[i] < res@[k],
        decreases order@.len() - j,
    {
        let u = order[j];
        let ghost before = res@;
        let ghost t0 = order@.take(j as int);
        let ghost t1 = order@.take(j + 1);
        proof {
            assert forall|x: u16| #[trigger] t1.contains(x) <==> t0.contains(x) || x == u by {
                if t1.contains(x) {
                    let i = choose|i: int| 0 <= i < t1.len() && t1[i] == x;
                    if i < j {
                        assert(t0[i] == x);
                    }
                }
                if t0.contains(x) {
                    let i = choose|i: int| 0 <= i < t0.len() && t0[i] == x;
                    assert(t1[i] == x);
                }
                if x == u {
                    assert(t1[j as int] == u);
                }
            }
        }
        if !b.contains(&u) {
            res.push(u);
            proof {
                assert forall|i: int, k: int| 0 <= i < k < res@.len() implies res@[i] < res@[k] by {
                    if k == res@.len() - 1 {
                        assert(t0.contains(res@[i]));
                        let m = choose|m: int| 0 <= m < t0.len() && t0[m] == res@[i];
                        assert(order@[m] < order@[j as int]);
                    }
                }
                assert forall|x: u16| #[trigger]
                    res@.contains(x) <==> t1.contains(x) && !b@.contains(x) by {
                    if res@.contains(x) && x != u {
                        let i = choose|i: int| 0 <= i < res@.len() && res@[i] == x;
                        assert(before.contains(x)) by {
                            assert(before[i] == x);
                        }
                    }
                    if t0.contains(x) && !b@.contains(x) {
                        assert(before.contains(x));
                        let i = choose|i: int| 0 <= i < before.len() && before[i] == x;
                        assert(res@[i] == x);
                    }
                    if x == u {
                        assert(res@[res@.len() - 1] == u);
                    }
                }
                assert forall|i: int| 0 <= i < res@.len() implies t1.contains(#[trigger] res@[i]) by {
                    if i < before.len() {
                        assert(t0.contains(before[i]));
                    }
                }
            }
        } else {
            proof {
                assert forall|i: int| 0 <= i < res@.len() implies t1.contains(#[trigger] res@[i]) by {
                    assert(t0.contains(res@[i]));
                }
            }
        }
        j = j + 1;
    }
    proof {
        assert(order@.take(order@.len() as int) =~= order@);
        assert(res@.to_set() =~= a@.difference(b@)) by {
            assert forall|x: u16| res@.to_set().contains(x) <==> a@.difference(b@).contains(x) by {
                assert(order@.to_set().contains(x) <==> order@.contains(x));
            }
        }
        lemma_ascending(res@, a@.difference(b@));
    }
    res
}

/// The bytes sent for a list of universe frames: for each in order, a start code of 0 and
/// its channel levels.
pub open spec fn frame_bytes(data: Seq<(u16, [u8; CHANNELS_PER_UNIVERSE])>) -> Seq<u8>
    decreases data.len(),
{
    if data.len() == 0 {
        seq![]
    } else {
        frame_bytes(data.drop_last()) + seq![0u8] + data.last().1@
    }
}

/// The universe numbers of a list of universe frames.
pub open spec fn frame_universes(data: Seq<(u16, [u8; CHANNELS_PER_UNIVERSE])>) -> Set<u16> {
    Set::new(|u: u16| exists|j: int| 0 <= j < data.len() && data[j].0 == u)
}

/// What one round of output does: end the streams of `terminate`, add `register` to the
/// universes the source sends to, then send `data` to `universes`.
pub struct SendPlan {
    pub terminate: Vec<u16>,
    pub register: Vec<u16>,
    pub universes: Vec<u16>,
    pub data: Vec<u8>,
}

/// Plans one round of output of `frames` from a source that sends to `current` now.
///
/// Without frames there is nothing to do. Otherwise the source stops sending to the
/// universes it no longer has frames for, starts sending to those it has not sent to yet,
/// and sends the frames to every universe it has frames for, all in increasing order.
pub fn plan_send(frames: &Vec<(u16, [u8; CHANNELS_PER_UNIVERSE])>, current: &Vec<u16>) -> (res:
    Option<SendPlan>)
    ensures
        res is None <==> frames@.len() == 0,
        res matches Some(p) ==> {
            &&& p.universes@ == ascending(frame_universes(frames@))
            &&& p.terminate@ == ascending(current@.to_set().difference(frame_universes(frames@)))
            &&& p.register@ == ascending(frame_universes(frames@).difference(current@.to_set()))
            &&& enumerates_ascending(p.universes@, frame_universes(frames@))
            &&& enumerates_ascending(
                p.terminate@,
                current@.to_set().difference(frame_universes(frames@)),
            )
            &&& enumerates_ascending(
                p.register@,
                frame_universes(frames@).difference(current@.to_set()),
            )
            &&& p.data@ == frame_bytes(frames@)
        },
{
    if frames.len() == 0 {
        return None;
    }
    let mut universes: BTreeSet<u16> = BTreeSet::new();
    let mut buf: Vec<u8> = Vec::new();
    let mut j: usize = 0;
    while j < frames.len()
        invariant
            j <= frames@.len(),
            universes@ == frame_universes(frames@.take(j as int)),
            buf@ == frame_bytes(frames@.take(j as int)),
        decreases frames@.len() - j,
    {
        let u = frames[j].0;
        universes.insert(u);
        buf.push(0u8);
        let levels = &frames[j].1;
        let mut k: usize = 0;
        let ghost start = buf@;
        while k < CHANNELS_PER_UNIVERSE
            invariant
                k <= CHANNELS_PER_UNIVERSE,
                *levels == frames@[j as int].1,
                buf@ == start + levels@.take(k as int),
            decreases CHANNELS_PER_UNIVERSE - k,
        {
            buf.push(levels[k]);
            proof {
                assert(levels@.take(k + 1) =~= levels@.take(k as int).push(levels@[k as int]));
            }
            k = k + 1;
        }
        proof {
            let t = frames@.take(j + 1);
            assert(t.drop_last() =~= frames@.take(j as int));
            assert(levels@.take(CHANNELS_PER_UNIVERSE as int) =~= levels@);
            assert(universes@ =~= frame_universes(t)) by {
                assert forall|x: u16| #[trigger] universes@.contains(x) implies frame_universes(
                    t,
                ).contains(x) by {
                    if x != u {
                        let m = choose|m: int| 0 <= m < j && frames@.take(j as int)[m].0 == x;
                        assert(t[m].0 == x);
                    } else {
                        assert(t[j as int].0 == x);
                    }
                }
                assert forall|x: u16| #[trigger] frame_universes(t).contains(x) implies universes@.contains(
                    x,
                ) by {
                    let m = choose|m: int| 0 <= m < t.len() && t[m].0 == x;
                    if m < j {
                        assert(frames@.take(j as int)[m].0 == x);
                    }
                }
            }
        }
        j = j + 1;
    }
    proof {
        assert(frames@.take(frames@.len() as int) =~= frames@);
    }
    let mut registered: BTreeSet<u16> = BTreeSet::new();
    let mut k: usize = 0;
    while k < current.len()
        invariant
            k <= current@.len(),
            registered@ == current@.take(k as int).to_set(),
        decreases current@.len() - k,
    {
        registered.insert(current[k]);
        proof {
            assert(current@.take(k + 1) =~= current@.take(k as int).push(current@[k as int]));
            assert(registered@ =~= current@.take(k + 1).to_set()) by {
                assert forall|x: u16| #[trigger] registered@.contains(x) == current@.take(k + 1).to_set().contains(x) by {
                    if x == current@[k as int] {
                        assert(current@.take(k + 1)[k as int] == x);
                    }
                    let t = current@.take(k + 1);
                    if t.contains(x) && x != current@[k as int] {
                        let i = choose|i: int| 0 <= i < t.len() && t[i] == x;
                        assert(current@.take(k as int)[i] == x);
                    }
                }
            }
        }
        k = k + 1;
    }
    proof {
        assert(current@.take(current@.len() as int) =~= current@);
    }
    let terminate = ascending_difference(&registered, &universes);
    let register = ascending_difference(&universes, &registered);
    let in_order = universes_in_order(&universes);
    Some(SendPlan { terminate, register, universes: in_order, data: buf })
}

/// The universes a source sends to after it ends the streams of `terminate` and adds
/// `register`, where it sent to `current` before.
pub open spec fn registered_after(current: Set<u16>, terminate: Seq<u16>, register: Seq<u16>) -> Set<
    u16,
> {
    current.difference(terminate.to_set()).union(register.to_set())
}

/// Once a plan is carried out, the source sends to exactly the universes it has frames for.
pub proof fn lemma_plan_registers(
    current: Set<u16>,
    frames: Set<u16>,
    terminate: Seq<u16>,
    register: Seq<u16>,
)
    requires
        enumerates_ascending(terminate, current.difference(frames)),
        enumerates_ascending(register, frames.difference(current)),
    ensures
        registered_after(current, terminate, register) == frames,
{
    assert(registered_after(current, terminate, register) =~= frames);
}

/// Each frame goes out as one start code and one byte per channel.
pub proof fn lemma_frame_bytes_len(data: Seq<(u16, [u8; CHANNELS_PER_UNIVERSE])>)
    ensures
        frame_bytes(data).len() == data.len() * (CHANNELS_PER_UNIVERSE + 1),
    decreases data.len(),
{
    if data.len() > 0 {
        lemma_frame_bytes_len(data.drop_last());
        assert(data.last().1@.len() == CHANNELS_PER_UNIVERSE);
        assert((data.len() - 1) * (CHANNELS_PER_UNIVERSE + 1) + CHANNELS_PER_UNIVERSE + 1 == data.len()
            * (CHANNELS_PER_UNIVERSE + 1)) by (nonlinear_arith);
    }
}

/// The bytes sent for a list of frames are, for each frame in order, a start code of 0 at
/// position `j * 513` followed by all of its channel levels, the last channel included.
pub proof fn lemma_frame_bytes_layout(data: Seq<(u16, [u8; CHANNELS_PER_UNIVERSE])>)
    ensures
        frame_bytes(data).len() == data.len() * (CHANNELS_PER_UNIVERSE + 1),
        forall|j: int|
            0 <= j < data.len() ==> #[trigger] frame_bytes(data)[j * (CHANNELS_PER_UNIVERSE + 1)]
                == 0,
        forall|j: int, k: int|
            0 <= j < data.len() && 0 <= k < CHANNELS_PER_UNIVERSE ==> #[trigger] frame_bytes(
                data,
            )[j * (CHANNELS_PER_UNIVERSE + 1) + 1 + k] == (#[trigger] data[j]).1@[k],
    decreases data.len(),
{
    lemma_frame_bytes_len(data);
    if data.len() > 0 {
        let d = data.drop_last();
        let n = data.len() - 1;
        lemma_frame_bytes_layout(d);
        let f = frame_bytes(d);
        let b = frame_bytes(data);
        let w = CHANNELS_PER_UNIVERSE + 1;
        assert(b == f + seq![0u8] + data[n].1@);
        assert(f.len() == n * w);
        assert(data[n].1@.len() == CHANNELS_PER_UNIVERSE);
        assert forall|j: int| 0 <= j < data.len() implies #[trigger] b[j * w] == 0 by {
            if j < n {
                assert(j * w + w <= n * w) by (nonlinear_arith)
                    requires
                        j < n,
                        w > 0,
                ;
                assert(f[j * w] == 0);
            } else {
                assert(j * w == n * w);
            }
        }
        assert forall|j: int, k: int|
            0 <= j < data.len() && 0 <= k < CHANNELS_PER_UNIVERSE implies #[trigger] b[j * w + 1 + k]
                == (#[trigger] data[j]).1@[k] by {
            if j < n {
                assert(j * w + w <= n * w) by (nonlinear_arith)
                    requires
                        j < n,
                        w > 0,
                ;
                assert(d[j] == data[j]);
                assert(f[j * w + 1 + k] == d[j].1@[k]);
            } else {
                assert(j * w == n * w);
            }
        }
    }
}

} // verus!
