//! The registry: the single source of truth for which sessions are connected
//! and which room each one is in.
//!
//! A session is represented by one record `(id, room)` in a member table, so
//! a room membership can never outlive the connection record it refers to,
//! and a session is in exactly one room at a time.  A room exists exactly as
//! long as it has a member; the implicit default room is `"Main"`.

use vstd::prelude::*;

verus! {

/// Name of the room every freshly registered session starts in.
pub open spec fn main_room() -> Seq<char> {
    "Main"@
}

/// Abstract state of the registry: the id counter and the member table,
/// one record per live session, carrying the room that session is in.
#[verifier::ext_equal]
pub struct RegistryView {
    pub next: u64,
    pub members: Seq<(u64, Seq<char>)>,
}

impl RegistryView {
    /// The id is that of a live session.
    pub open spec fn has_session(self, id: u64) -> bool {
        exists|i: int| 0 <= i < self.members.len() && (#[trigger] self.members[i]).0 == id
    }

    /// The session `id` is currently a member of `room`.
    pub open spec fn in_room(self, id: u64, room: Seq<char>) -> bool {
        self.members.contains((id, room))
    }

    /// Some live session is a member of `room`.
    pub open spec fn room_exists(self, room: Seq<char>) -> bool {
        exists|i: int| 0 <= i < self.members.len() && (#[trigger] self.members[i]).1 == room
    }

    /// The ids of the members of `room`, in table order.
    pub open spec fn member_seq(self, room: Seq<char>) -> Seq<u64> {
        self.members.filter(room_pred(room)).map_values(entry_id())
    }

    /// Well-formedness: ids are pairwise distinct (so a session is in at most
    /// one room), every id is below the counter (so fresh ids are unused),
    /// and every room name is non-empty.
    pub open spec fn wf(self) -> bool {
        &&& forall|i: int, j: int|
            0 <= i < j < self.members.len() ==> (#[trigger] self.members[i]).0 != (
            #[trigger] self.members[j]).0
        &&& forall|i: int| 0 <= i < self.members.len() ==> (#[trigger] self.members[i]).0 < self.next
        &&& forall|i: int|
            0 <= i < self.members.len() ==> (#[trigger] self.members[i]).1.len() > 0
    }

    /// State after a registration: the counter value becomes the new id,
    /// the new session starts in the default room.
    pub open spec fn register_t(self) -> RegistryView {
        RegistryView {
            next: (self.next + 1) as u64,
            members: self.members.push((self.next, main_room())),
        }
    }

    /// State after a deregistration: every record of `id` is dropped.
    pub open spec fn deregister_t(self, id: u64) -> RegistryView {
        RegistryView { next: self.next, members: self.members.filter(keep_other(id)) }
    }

    /// State after a join: the record of `id`, if any, now carries `room`.
    pub open spec fn join_t(self, id: u64, room: Seq<char>) -> RegistryView {
        RegistryView { next: self.next, members: self.members.map_values(move_to(id, room)) }
    }
}

/// Predicate selecting the member records of one room.
pub open spec fn room_pred(room: Seq<char>) -> spec_fn((u64, Seq<char>)) -> bool {
    |e: (u64, Seq<char>)| e.1 == room
}

/// The id carried by a member record.
pub open spec fn entry_id() -> spec_fn((u64, Seq<char>)) -> u64 {
    |e: (u64, Seq<char>)| e.0
}

/// Predicate selecting the member records that survive `deregister(id)`.
pub open spec fn keep_other(id: u64) -> spec_fn((u64, Seq<char>)) -> bool {
    |e: (u64, Seq<char>)| e.0 != id
}

/// Per-record effect of `join(id, room)`.
pub open spec fn move_to(id: u64, room: Seq<char>) -> spec_fn((u64, Seq<char>)) -> (
    u64,
    Seq<char>,
) {
    |e: (u64, Seq<char>)| if e.0 == id { (id, room) } else { e }
}

/// View of one stored member record.
spec fn pair_view() -> spec_fn((u64, String)) -> (u64, Seq<char>) {
    |p: (u64, String)| (p.0, p.1@)
}

/// Every element of a filtered sequence is an element of the original.
proof fn lemma_filter_sub<A>(s: Seq<A>, pred: spec_fn(A) -> bool)
    ensures
        forall|x: A| #[trigger] s.filter(pred).contains(x) ==> s.contains(x),
    decreases s.len(),
{
    reveal(Seq::filter);
    if s.len() > 0 {
        let sub = s.drop_last();
        lemma_filter_sub(sub, pred);
        assert forall|x: A| #[trigger] s.filter(pred).contains(x) implies s.contains(x) by {
            if sub.filter(pred).contains(x) {
                let i = choose|i: int| 0 <= i < sub.len() && sub[i] == x;
                assert(s[i] == x);
            } else {
                assert(s[s.len() - 1] == x);
            }
        }
    }
}

/// Filtering a sequence whose every element satisfies the predicate returns it
/// unchanged.
proof fn lemma_filter_all(s: Seq<(u64, Seq<char>)>, pred: spec_fn((u64, Seq<char>)) -> bool)
    requires
        forall|i: int| 0 <= i < s.len() ==> pred(#[trigger] s[i]),
    ensures
        s.filter(pred) == s,
    decreases s.len(),
{
    reveal(Seq::filter);
    if s.len() > 0 {
        let sub = s.drop_last();
        assert(forall|i: int| 0 <= i < sub.len() ==> pred(#[trigger] sub[i]));
        lemma_filter_all(sub, pred);
        assert(s.filter(pred) =~= s);
    } else {
        assert(s.filter(pred) =~= s);
    }
}

/// Filtering keeps the member ids pairwise distinct.
proof fn lemma_filter_distinct(s: Seq<(u64, Seq<char>)>, pred: spec_fn((u64, Seq<char>)) -> bool)
    requires
        forall|i: int, j: int| 0 <= i < j < s.len() ==> (#[trigger] s[i]).0 != (#[trigger] s[j]).0,
    ensures
        forall|i: int, j: int|
            0 <= i < j < s.filter(pred).len() ==> (#[trigger] s.filter(pred)[i]).0 != (
            #[trigger] s.filter(pred)[j]).0,
    decreases s.len(),
{
    reveal(Seq::filter);
    if s.len() > 0 {
        let sub = s.drop_last();
        assert(forall|i: int, j: int|
            0 <= i < j < sub.len() ==> (#[trigger] sub[i]).0 != (#[trigger] sub[j]).0);
        lemma_filter_distinct(sub, pred);
        lemma_filter_sub(sub, pred);
        let f = s.filter(pred);
        if pred(s.last()) {
            assert(f == sub.filter(pred).push(s.last()));
            assert forall|i: int, j: int|
                0 <= i < j < f.len() implies (#[trigger] f[i]).0 != (#[trigger] f[j]).0 by {
                if j < f.len() - 1 {
                    assert(sub.filter(pred)[i] == f[i]);
                    assert(sub.filter(pred)[j] == f[j]);
                } else {
                    assert(f[j] == s.last());
                    assert(sub.filter(pred).contains(f[i]));
                    assert(sub.contains(f[i]));
                    let k = choose|k: int| 0 <= k < sub.len() && sub[k] == f[i];
                    assert(s[k] == f[i]);
                    assert(s[s.len() - 1] == s.last());
                }
            }
        } else {
            assert(f == sub.filter(pred));
        }
    }
}

/// Deregistration preserves well-formedness and removes exactly the records
/// of the deregistered id.
pub proof fn lemma_deregister_wf(v: RegistryView, id: u64)
    requires
        v.wf(),
    ensures
        v.deregister_t(id).wf(),
        !v.deregister_t(id).has_session(id),
        forall|id2: u64, room: Seq<char>|
            id2 != id ==> (#[trigger] v.deregister_t(id).in_room(id2, room) <==> v.in_room(
                id2,
                room,
            )),
{
    let f = v.members.filter(keep_other(id));
    lemma_filter_sub(v.members, keep_other(id));
    lemma_filter_distinct(v.members, keep_other(id));
    broadcast use vstd::seq_lib::group_filter_ensures;

    assert forall|i: int| 0 <= i < f.len() implies (#[trigger] f[i]).0 < v.next && f[i].1.len() > 0
        && f[i].0 != id by {
        assert(f.contains(f[i]));
        assert(v.members.contains(f[i]));
        let k = choose|k: int| 0 <= k < v.members.len() && v.members[k] == f[i];
        assert(v.members[k].0 < v.next);
        assert(keep_other(id)(f[i]));
    }
    assert forall|id2: u64, room: Seq<char>| id2 != id && v.in_room(id2, room) implies
        v.deregister_t(id).in_room(id2, room) by {
        let k = choose|k: int| 0 <= k < v.members.len() && v.members[k] == (id2, room);
        assert(keep_other(id)(v.members[k]));
        assert(f.contains(v.members[k]));
    }
    assert forall|id2: u64, room: Seq<char>| id2 != id && v.deregister_t(id).in_room(id2, room)
        implies v.in_room(id2, room) by {
        assert(f.contains((id2, room)));
        assert(v.members.contains((id2, room)));
    }
}

/// A join preserves well-formedness; it changes at most the room carried by
/// the record of the joining id.
pub proof fn lemma_join_wf(v: RegistryView, id: u64, room: Seq<char>)
    requires
        v.wf(),
        room.len() > 0,
    ensures
        v.join_t(id, room).wf(),
        v.has_session(id) ==> v.join_t(id, room).in_room(id, room),
        !v.has_session(id) ==> v.join_t(id, room) == v,
        forall|id2: u64, r: Seq<char>|
            id2 != id ==> (#[trigger] v.join_t(id, room).in_room(id2, r) <==> v.in_room(id2, r)),
{
    let m = v.members.map_values(move_to(id, room));
    assert(m.len() == v.members.len());
    assert forall|i: int| 0 <= i < m.len() implies (#[trigger] m[i]).0 == v.members[i].0
        && m[i].1.len() > 0 by {
        assert(m[i] == move_to(id, room)(v.members[i]));
    }
    if v.has_session(id) {
        let k = choose|k: int| 0 <= k < v.members.len() && (#[trigger] v.members[k]).0 == id;
        assert(m[k] == (id, room));
        assert(m.contains(m[k]));
    } else {
        assert(m =~= v.members);
        assert(v.join_t(id, room) =~= v);
    }
    assert forall|id2: u64, r: Seq<char>| id2 != id && v.in_room(id2, r) implies v.join_t(
        id,
        room,
    ).in_room(id2, r) by {
        let k = choose|k: int| 0 <= k < v.members.len() && v.members[k] == (id2, r);
        assert(m[k] == move_to(id, room)(v.members[k]));
        assert(m[k] == (id2, r));
        assert(m.contains(m[k]));
    }
    assert forall|id2: u64, r: Seq<char>| id2 != id && v.join_t(id, room).in_room(id2, r) implies
        v.in_room(id2, r) by {
        let k = choose|k: int| 0 <= k < m.len() && m[k] == (id2, r);
        assert(m[k] == move_to(id, room)(v.members[k]));
        assert(v.members[k] == (id2, r));
        assert(v.members.contains(v.members[k]));
    }
}

/// One request of the registry's serialized stream, at the level of the
/// abstract state.
pub enum RegistryOp {
    Register,
    Deregister(u64),
    Join(u64, Seq<char>),
}

/// The precondition of one operation: the id counter has room for a fresh id,
/// and a joined room has a non-empty name.
pub open spec fn op_allowed(v: RegistryView, op: RegistryOp) -> bool {
    match op {
        RegistryOp::Register => v.next < u64::MAX,
        RegistryOp::Deregister(_) => true,
        RegistryOp::Join(_, room) => room.len() > 0,
    }
}

/// The state reached by one operation.
pub open spec fn apply_op(v: RegistryView, op: RegistryOp) -> RegistryView {
    match op {
        RegistryOp::Register => v.register_t(),
        RegistryOp::Deregister(id) => v.deregister_t(id),
        RegistryOp::Join(id, room) => v.join_t(id, room),
    }
}

/// The state reached by a sequence of operations, applied in order.
pub open spec fn apply_ops(v: RegistryView, ops: Seq<RegistryOp>) -> RegistryView
    decreases ops.len(),
{
    if ops.len() == 0 {
        v
    } else {
        apply_op(apply_ops(v, ops.drop_last()), ops.last())
    }
}

/// Every operation of the sequence is allowed in the state it runs in.
pub open spec fn ops_allowed(v: RegistryView, ops: Seq<RegistryOp>) -> bool
    decreases ops.len(),
{
    if ops.len() == 0 {
        true
    } else {
        ops_allowed(v, ops.drop_last()) && op_allowed(apply_ops(v, ops.drop_last()), ops.last())
    }
}

/// The ids handed out by the registrations of the sequence, in order.
pub open spec fn register_ids(v: RegistryView, ops: Seq<RegistryOp>) -> Seq<u64>
    decreases ops.len(),
{
    if ops.len() == 0 {
        Seq::empty()
    } else {
        let prev = register_ids(v, ops.drop_last());
        if ops.last() == RegistryOp::Register {
            prev.push(apply_ops(v, ops.drop_last()).next)
        } else {
            prev
        }
    }
}

/// Any single allowed operation preserves well-formedness and never lowers
/// the id counter.
pub proof fn lemma_op_wf(v: RegistryView, op: RegistryOp)
    requires
        v.wf(),
        op_allowed(v, op),
    ensures
        apply_op(v, op).wf(),
        apply_op(v, op).next >= v.next,
{
    match op {
        RegistryOp::Register => {
            reveal_strlit("Main");
            let w = v.register_t();
            assert forall|i: int, j: int| 0 <= i < j < w.members.len() implies (
            #[trigger] w.members[i]).0 != (#[trigger] w.members[j]).0 by {
                if j == w.members.len() - 1 {
                    assert(w.members[i] == v.members[i]);
                    assert(w.members[j].0 == v.next);
                }
            }
            assert forall|i: int| 0 <= i < w.members.len() implies (#[trigger] w.members[i]).0
                < w.next && w.members[i].1.len() > 0 by {
                if i < w.members.len() - 1 {
                    assert(w.members[i] == v.members[i]);
                } else {
                    assert(w.members[i] == (v.next, main_room()));
                }
            }
        }
        RegistryOp::Deregister(id) => {
            lemma_deregister_wf(v, id);
        }
        RegistryOp::Join(id, room) => {
            lemma_join_wf(v, id, room);
        }
    }
}

/// Membership invariant: after any allowed sequence of operations from a
/// well-formed state, every id appearing in any room's member set belongs to
/// a live session, and appears in at most one room.
pub proof fn lemma_membership_invariant(v: RegistryView, ops: Seq<RegistryOp>)
    requires
        v.wf(),
        ops_allowed(v, ops),
    ensures
        apply_ops(v, ops).wf(),
        forall|id: u64, r: Seq<char>|
            #[trigger] apply_ops(v, ops).in_room(id, r) ==> apply_ops(v, ops).has_session(id),
        forall|id: u64, r1: Seq<char>, r2: Seq<char>|
            #[trigger] apply_ops(v, ops).in_room(id, r1) && #[trigger] apply_ops(v, ops).in_room(
                id,
                r2,
            ) ==> r1 == r2,
        forall|id: u64|
            #[trigger] apply_ops(v, ops).has_session(id) ==> exists|r: Seq<char>|
                apply_ops(v, ops).in_room(id, r),
    decreases ops.len(),
{
    if ops.len() > 0 {
        lemma_membership_invariant(v, ops.drop_last());
        lemma_op_wf(apply_ops(v, ops.drop_last()), ops.last());
    }
    let w = apply_ops(v, ops);
    assert forall|id: u64, r: Seq<char>| #[trigger] w.in_room(id, r) implies w.has_session(
        id,
    ) by {
        let k = choose|k: int| 0 <= k < w.members.len() && w.members[k] == (id, r);
        assert(0 <= k < w.members.len() && w.members[k].0 == id);
    }
    assert forall|id: u64, r1: Seq<char>, r2: Seq<char>|
        #[trigger] w.in_room(id, r1) && #[trigger] w.in_room(id, r2) implies r1 == r2 by {
        let k1 = choose|k: int| 0 <= k < w.members.len() && w.members[k] == (id, r1);
        let k2 = choose|k: int| 0 <= k < w.members.len() && w.members[k] == (id, r2);
        if k1 != k2 {
            assert(w.members[k1].0 != w.members[k2].0);
        }
    }
    assert forall|id: u64| #[trigger] w.has_session(id) implies exists|r: Seq<char>| w.in_room(
        id,
        r,
    ) by {
        let k = choose|k: int| 0 <= k < w.members.len() && (#[trigger] w.members[k]).0 == id;
        assert(w.members.contains(w.members[k]));
        assert(w.in_room(id, w.members[k].1));
    }
}

/// Uniqueness: the ids handed out by the registrations of any allowed
/// operation sequence are pairwise distinct, and all below the final counter.
pub proof fn lemma_register_ids_distinct(v: RegistryView, ops: Seq<RegistryOp>)
    requires
        ops_allowed(v, ops),
    ensures
        forall|i: int|
            0 <= i < register_ids(v, ops).len() ==> #[trigger] register_ids(v, ops)[i]
                < apply_ops(v, ops).next,
        forall|i: int, j: int|
            0 <= i < j < register_ids(v, ops).len() ==> register_ids(v, ops)[i] != register_ids(
                v,
                ops,
            )[j],
    decreases ops.len(),
{
    if ops.len() > 0 {
        let sub = ops.drop_last();
        lemma_register_ids_distinct(v, sub);
        let mid = apply_ops(v, sub);
        let ids = register_ids(v, ops);
        let ids_sub = register_ids(v, sub);
        if ops.last() == RegistryOp::Register {
            assert(ids == ids_sub.push(mid.next));
            assert(apply_ops(v, ops).next == mid.next + 1);
            assert forall|i: int, j: int| 0 <= i < j < ids.len() implies ids[i] != ids[j] by {
                if j == ids.len() - 1 {
                    assert(ids[i] == ids_sub[i]);
                    assert(ids_sub[i] < mid.next);
                }
            }
        } else {
            assert(ids == ids_sub);
            assert(apply_ops(v, ops).next == mid.next);
        }
    }
}

/// Idempotent deregistration: a second deregistration of the same id, and a
/// deregistration of an id that is not live, leave the state unchanged.
pub proof fn lemma_deregister_idempotent(v: RegistryView, id: u64)
    ensures
        v.deregister_t(id).deregister_t(id) == v.deregister_t(id),
        !v.has_session(id) ==> v.deregister_t(id) == v,
{
    broadcast use vstd::seq_lib::group_filter_ensures;

    let f = v.members.filter(keep_other(id));
    assert(forall|i: int| 0 <= i < f.len() ==> keep_other(id)(#[trigger] f[i]));
    lemma_filter_all(f, keep_other(id));
    assert(v.deregister_t(id).deregister_t(id) =~= v.deregister_t(id));
    if !v.has_session(id) {
        assert forall|i: int| 0 <= i < v.members.len() implies keep_other(id)(
            #[trigger] v.members[i],
        ) by {
            assert(v.members[i].0 != id);
        }
        lemma_filter_all(v.members, keep_other(id));
        assert(v.deregister_t(id) =~= v);
    }
}

/// Fan-out is exact: under well-formedness, the member sequence of a room
/// lists every member of that room exactly once and nobody else.
pub proof fn lemma_broadcast_exact(v: RegistryView, room: Seq<char>)
    requires
        v.wf(),
    ensures
        forall|i: int, j: int|
            0 <= i < j < v.member_seq(room).len() ==> v.member_seq(room)[i] != v.member_seq(
                room,
            )[j],
        forall|id: u64| #[trigger] v.member_seq(room).contains(id) <==> v.in_room(id, room),
{
    let f = v.members.filter(room_pred(room));
    let ms = v.member_seq(room);
    lemma_filter_sub(v.members, room_pred(room));
    lemma_filter_distinct(v.members, room_pred(room));
    broadcast use vstd::seq_lib::group_filter_ensures;

    assert(forall|i: int| 0 <= i < ms.len() ==> ms[i] == (#[trigger] f[i]).0);
    assert forall|id: u64| #[trigger] ms.contains(id) implies v.in_room(id, room) by {
        let i = choose|i: int| 0 <= i < ms.len() && ms[i] == id;
        assert(room_pred(room)(f[i]));
        assert(f[i] == (id, room));
        assert(f.contains(f[i]));
        assert(v.members.contains(f[i]));
    }
    assert forall|id: u64| v.in_room(id, room) implies #[trigger] ms.contains(id) by {
        let k = choose|k: int| 0 <= k < v.members.len() && v.members[k] == (id, room);
        assert(room_pred(room)(v.members[k]));
        assert(f.contains(v.members[k]));
        let i = choose|i: int| 0 <= i < f.len() && f[i] == (id, room);
        assert(ms[i] == id);
    }
}

/// The registry itself.  All room-membership state of the process lives here;
/// the surrounding transport hands out the payloads that `broadcast` returns.
pub struct Registry {
    next_id: u64,
    members: Vec<(u64, String)>,
}

impl View for Registry {
    type V = RegistryView;

    closed spec fn view(&self) -> RegistryView {
        RegistryView { next: self.next_id, members: self.members@.map_values(pair_view()) }
    }
}

impl Registry {
    /// A registry with no sessions and no rooms; the state at process start.
    pub fn new() -> (r: Registry)
        ensures
            r@ == (RegistryView { next: 0, members: Seq::<(u64, Seq<char>)>::empty() }),
            r@.wf(),
    {
        let r = Registry { next_id: 0, members: Vec::new() };
        proof {
            assert(r@.members =~= Seq::<(u64, Seq<char>)>::empty());
            assert(r@ =~= (RegistryView { next: 0, members: Seq::<(u64, Seq<char>)>::empty() }));
        }
        r
    }

    /// The id the next registration will be assigned.
    pub fn next_id(&self) -> (n: u64)
        ensures
            n == self@.next,
    {
        self.next_id
    }

    /// Allocate a fresh id, record the session, and place it in the default
    /// room.  Never fails; the returned id was not live before the call.
    pub fn register(&mut self) -> (id: u64)
        requires
            old(self)@.wf(),
            old(self)@.next < u64::MAX,
        ensures
            final(self)@ == old(self)@.register_t(),
            id == old(self)@.next,
            final(self)@.wf(),
            !old(self)@.has_session(id),
            final(self)@.in_room(id, main_room()),
    {
        let id = self.next_id;
        self.next_id = self.next_id + 1;
        self.members.push((id, String::from_str("Main")));
        proof {
            reveal_strlit("Main");
            assert(self@.members =~= old(self)@.members.push((id, main_room())));
            assert(self@ =~= old(self)@.register_t());
            assert(self@.members.last() == (id, main_room()));
            assert(self@.in_room(id, main_room()));
        }
        id
    }

    /// Drop the record of `id` and thereby its room membership.  Idempotent:
    /// deregistering an unknown or already-removed id changes nothing.
    pub fn deregister(&mut self, id: u64)
        requires
            old(self)@.wf(),
        ensures
            final(self)@ == old(self)@.deregister_t(id),
            final(self)@.wf(),
            final(self)@.next == old(self)@.next,
            !final(self)@.has_session(id),
            forall|id2: u64, room: Seq<char>|
                id2 != id ==> (#[trigger] final(self)@.in_room(id2, room) <==> old(
                    self,
                )@.in_room(id2, room)),
    {
        let ghost mv = self@.members;
        let mut kept: Vec<(u64, String)> = Vec::new();
        let mut i: usize = 0;
        while i < self.members.len()
            invariant
                i <= self.members.len(),
                self == old(self),
                mv == self@.members,
                mv.len() == self.members@.len(),
                kept@.map_values(pair_view()) =~= mv.take(i as int).filter(keep_other(id)),
            decreases self.members.len() - i,
        {
            proof {
                reveal(Seq::filter);
                assert(mv.take(i + 1).drop_last() =~= mv.take(i as int));
                assert(mv.take(i + 1).last() == mv[i as int]);
                assert(mv[i as int] == pair_view()(self.members@[i as int]));
            }
            let p_id = self.members[i].0;
            if p_id != id {
                let room = self.members[i].1.clone();
                kept.push((p_id, room));
                proof {
                    assert(kept@.map_values(pair_view()) =~= mv.take(i + 1).filter(
                        keep_other(id),
                    ));
                }
            } else {
                proof {
                    assert(!keep_other(id)(mv[i as int]));
                    assert(kept@.map_values(pair_view()) =~= mv.take(i + 1).filter(
                        keep_other(id),
                    ));
                }
            }
            i = i + 1;
        }
        proof {
            assert(mv.take(mv.len() as int) =~= mv);
        }
        self.members = kept;
        proof {
            lemma_deregister_wf(old(self)@, id);
            assert(self@ =~= old(self)@.deregister_t(id));
        }
    }

    /// Move the session `id` to `room`: its record, if any, now carries the
    /// new room, leaving whichever room it was in before.  An unknown id is a
    /// silent no-op.
    pub fn join(&mut self, id: u64, room: String)
        requires
            old(self)@.wf(),
            room@.len() > 0,
        ensures
            final(self)@ == old(self)@.join_t(id, room@),
            final(self)@.wf(),
            final(self)@.next == old(self)@.next,
            old(self)@.has_session(id) ==> final(self)@.in_room(id, room@),
            !old(self)@.has_session(id) ==> final(self)@ == old(self)@,
            forall|id2: u64, r: Seq<char>|
                id2 != id ==> (#[trigger] final(self)@.in_room(id2, r) <==> old(self)@.in_room(
                    id2,
                    r,
                )),
    {
        let ghost mv = self@.members;
        let n = self.members.len();
        let mut i: usize = 0;
        while i < n
            invariant
                i <= n,
                n == self.members@.len(),
                self == old(self),
                old(self)@.wf(),
                mv == self@.members,
                room@.len() > 0,
                forall|k: int| 0 <= k < i ==> (#[trigger] mv[k]).0 != id,
            decreases n - i,
        {
            if self.members[i].0 == id {
                self.members.remove(i);
                self.members.insert(i, (id, room));
                proof {
                    assert forall|k: int| 0 <= k < mv.len() implies self@.members[k] == move_to(
                        id,
                        room@,
                    )(mv[k]) by {
                        if k == i {
                            assert(self@.members[k] == (id, room@));
                        } else if k < i {
                            assert(mv[k].0 != id);
                        } else {
                            assert(old(self)@.wf());
                            assert(mv[i as int].0 == id);
                            assert(mv[k].0 != id);
                        }
                    }
                    assert(self@.members =~= mv.map_values(move_to(id, room@)));
                    assert(self@ =~= old(self)@.join_t(id, room@));
                    lemma_join_wf(old(self)@, id, room@);
                }
                return ;
            }
            i = i + 1;
        }
        proof {
            lemma_join_wf(old(self)@, id, room@);
            assert(!old(self)@.has_session(id));
            assert(self@ == old(self)@.join_t(id, room@));
        }
    }

    /// One delivery of `payload` for every member of `room`, in table order:
    /// the deliveries to perform for a broadcast.  The registry never blocks
    /// on a session; handing the payloads out is the transport's work.
    pub fn broadcast(&self, room: &String, payload: &String) -> (out: Vec<(u64, String)>)
        requires
            self@.wf(),
        ensures
            out@.len() == self@.member_seq(room@).len(),
            forall|k: int|
                0 <= k < out@.len() ==> (#[trigger] out@[k]).0 == self@.member_seq(room@)[k],
            forall|k: int| 0 <= k < out@.len() ==> (#[trigger] out@[k]).1@ == payload@,
    {
        let ghost mv = self@.members;
        let mut out: Vec<(u64, String)> = Vec::new();
        let mut i: usize = 0;
        while i < self.members.len()
            invariant
                i <= self.members.len(),
                mv == self@.members,
                mv.len() == self.members@.len(),
                out@.len() == mv.take(i as int).filter(room_pred(room@)).len(),
                forall|k: int|
                    0 <= k < out@.len() ==> (#[trigger] out@[k]).0 == mv.take(i as int).filter(
                        room_pred(room@),
                    ).map_values(entry_id())[k],
                forall|k: int| 0 <= k < out@.len() ==> (#[trigger] out@[k]).1@ == payload@,
            decreases self.members.len() - i,
        {
            proof {
                reveal(Seq::filter);
                assert(mv.take(i + 1).drop_last() =~= mv.take(i as int));
                assert(mv.take(i + 1).last() == mv[i as int]);
                assert(mv[i as int] == pair_view()(self.members@[i as int]));
            }
            let ghost before = mv.take(i as int).filter(room_pred(room@));
            let ghost after = mv.take(i + 1).filter(room_pred(room@));
            if self.members[i].1 == *room {
                let msg = payload.clone();
                out.push((self.members[i].0, msg));
                proof {
                    assert(room_pred(room@)(mv[i as int]));
                    assert(after == before.push(mv[i as int]));
                    assert(after.map_values(entry_id()) =~= before.map_values(entry_id()).push(
                        mv[i as int].0,
                    ));
                }
            } else {
                proof {
                    assert(!room_pred(room@)(mv[i as int]));
                    assert(after == before);
                }
            }
            i = i + 1;
        }
        proof {
            assert(mv.take(mv.len() as int) =~= mv);
        }
        out
    }

    /// The names of the rooms that currently have at least one member, each
    /// exactly once.
    pub fn list_rooms(&self) -> (out: Vec<String>)
        requires
            self@.wf(),
        ensures
            forall|k: int| 0 <= k < out@.len() ==> self@.room_exists((#[trigger] out@[k])@),
            forall|k: int, l: int|
                0 <= k < l < out@.len() ==> (#[trigger] out@[k])@ != (#[trigger] out@[l])@,
            forall|room: Seq<char>|
                #[trigger] self@.room_exists(room) ==> exists|k: int|
                    0 <= k < out@.len() && (#[trigger] out@[k])@ == room,
    {
        let ghost mv = self@.members;
        let mut out: Vec<String> = Vec::new();
        let mut i: usize = 0;
        while i < self.members.len()
            invariant
                i <= self.members.len(),
                mv == self@.members,
                mv.len() == self.members@.len(),
                forall|k: int|
                    0 <= k < out@.len() ==> exists|j: int|
                        0 <= j < mv.len() && (#[trigger] mv[j]).1 == (#[trigger] out@[k])@,
                forall|k: int, l: int|
                    0 <= k < l < out@.len() ==> (#[trigger] out@[k])@ != (#[trigger] out@[l])@,
                forall|j: int|
                    0 <= j < i ==> exists|k: int|
                        0 <= k < out@.len() && (#[trigger] out@[k])@ == (#[trigger] mv[j]).1,
            decreases self.members.len() - i,
        {
            proof {
                assert(mv[i as int] == pair_view()(self.members@[i as int]));
            }
            let ghost prev = out@;
            let seen = Self::contains_room(&out, &self.members[i].1);
            if !seen {
                let name = self.members[i].1.clone();
                out.push(name);
                proof {
                    assert(out@[out@.len() - 1]@ == mv[i as int].1);
                    assert(forall|k: int| 0 <= k < prev.len() ==> out@[k] == prev[k]);
                    assert forall|j: int| 0 <= j < i + 1 implies exists|k: int|
                        0 <= k < out@.len() && (#[trigger] out@[k])@ == (#[trigger] mv[j]).1 by {
                        if j < i {
                            let k = choose|k: int|
                                0 <= k < prev.len() && (#[trigger] prev[k])@ == mv[j].1;
                            assert(out@[k]@ == mv[j].1);
                        } else {
                            assert(out@[out@.len() - 1]@ == mv[j].1);
                        }
                    }
                }
            } else {
                proof {
                    assert forall|j: int| 0 <= j < i + 1 implies exists|k: int|
                        0 <= k < out@.len() && (#[trigger] out@[k])@ == (#[trigger] mv[j]).1 by {
                        if j == i {
                            let k = choose|k: int|
                                0 <= k < out@.len() && (#[trigger] out@[k])@ == mv[i as int].1;
                            assert(out@[k]@ == mv[j].1);
                        }
                    }
                }
            }
            i = i + 1;
        }
        out
    }

    /// Linear scan: is `name` already in the list of room names?
    fn contains_room(out: &Vec<String>, name: &String) -> (found: bool)
        ensures
            found <==> exists|k: int| 0 <= k < out@.len() && (#[trigger] out@[k])@ == name@,
    {
        let mut k: usize = 0;
        while k < out.len()
            invariant
                k <= out.len(),
                forall|l: int| 0 <= l < k ==> (#[trigger] out@[l])@ != name@,
            decreases out.len() - k,
        {
            if out[k] == *name {
                return true;
            }
            k = k + 1;
        }
        false
    }
}

} // verus!
