//! Path finding over the dungeon graph: an unweighted breadth-first search
//! that returns a shortest connecting sequence of rooms, or reports that no
//! sequence of links joins the two endpoints.

use vstd::prelude::*;
use vstd::set_lib::lemma_int_range;
use vstd::set_lib::lemma_len_subset;
use vstd::set_lib::set_int_range;
use crate::dungeon::Direction;
use crate::dungeon::Dungeon;
use crate::dungeon::ErrorModel;
use crate::dungeon::Errors;
use crate::dungeon::Room;
use crate::dungeon::RoomModel;
use crate::dungeon::last_link_target;
use crate::dungeon::lemma_room_index_from;
use crate::dungeon::links_closed;
use crate::dungeon::model_has_room;
use crate::dungeon::room_index;

verus! {

/// The room index one step from room `i` in direction `d`: the most recently
/// added link in that direction, resolved by name, when its target exists.
pub open spec fn resolve(m: Seq<RoomModel>, i: int, d: Direction) -> Option<int> {
    if 0 <= i < m.len() {
        match last_link_target(m[i].links, d) {
            None => None,
            Some(t) => if model_has_room(m, t) {
                Some(room_index(m, t))
            } else {
                None
            },
        }
    } else {
        None
    }
}

/// A directed edge of the traversal graph: some direction leads from room
/// `i` to room `j`.
pub open spec fn edge(m: Seq<RoomModel>, i: int, j: int) -> bool {
    exists|d: Direction| resolve(m, i, d) == Some(j)
}

/// A non-empty sequence of room indices, each in range, each consecutive
/// pair joined by an edge.
pub open spec fn is_path(m: Seq<RoomModel>, p: Seq<int>) -> bool {
    &&& p.len() >= 1
    &&& forall|k: int| 0 <= k < p.len() ==> 0 <= #[trigger] p[k] < m.len()
    &&& forall|k: int| 0 <= k < p.len() - 1 ==> edge(m, #[trigger] p[k], p[k + 1])
}

/// A path from room `s` to room `e`.
pub open spec fn connects(m: Seq<RoomModel>, p: Seq<int>, s: int, e: int) -> bool {
    is_path(m, p) && p[0] == s && p[p.len() - 1] == e
}

/// The rooms a sequence of references points at, as mathematics.
pub open spec fn room_views(p: Seq<&Room>) -> Seq<RoomModel> {
    p.map_values(|room: &Room| room@)
}

/// The store indices the returned rooms resolve to, name by name.
pub open spec fn path_index_seq(m: Seq<RoomModel>, pv: Seq<RoomModel>) -> Seq<int> {
    Seq::new(pv.len(), |k: int| room_index(m, pv[k].name))
}

/// The returned rooms are rooms of the store and trace a path from the room
/// named `s` to the room named `e`.
pub open spec fn valid_room_path(
    m: Seq<RoomModel>,
    pv: Seq<RoomModel>,
    s: Seq<char>,
    e: Seq<char>,
) -> bool {
    &&& pv.len() >= 1
    &&& forall|k: int|
        0 <= k < pv.len() ==> model_has_room(m, (#[trigger] pv[k]).name) && pv[k] == m[
            path_index_seq(m, pv)[k]]
    &&& connects(m, path_index_seq(m, pv), room_index(m, s), room_index(m, e))
}

/// One direction of one processed room obeys the search's closure: whatever
/// it resolves to has been seen, no farther than one step later.
pub open spec fn dir_ok(
    m: Seq<RoomModel>,
    seen: Seq<bool>,
    dist: Seq<usize>,
    u: int,
    dd: Direction,
) -> bool {
    match resolve(m, u, dd) {
        Some(w) => 0 <= w < m.len() && seen[w] && dist[w] as int <= dist[u] as int + 1,
        None => true,
    }
}

/// Every seen room obeys the closure in every direction: the frontier has
/// been exhausted.
pub open spec fn bfs_closed(m: Seq<RoomModel>, seen: Seq<bool>, dist: Seq<usize>) -> bool {
    forall|u: int, dd: Direction|
        0 <= u < m.len() && seen[u] ==> #[trigger] dir_ok(m, seen, dist, u, dd)
}

pub open spec fn in_queue(q: Seq<usize>, u: int) -> bool {
    exists|k: int| 0 <= k < q.len() && q[k] as int == u
}

/// The rooms before the frontier pointer obey the closure in every
/// direction.
pub open spec fn processed_ok(
    m: Seq<RoomModel>,
    seen: Seq<bool>,
    dist: Seq<usize>,
    q: Seq<usize>,
    hh: int,
) -> bool {
    forall|k: int, dd: Direction|
        0 <= k < hh && k < q.len() ==> #[trigger] dir_ok(m, seen, dist, q[k] as int, dd)
}

/// The queue's tail never lies more than one step beyond the room under the
/// frontier pointer.
pub open spec fn frontier_ok(dist: Seq<usize>, q: Seq<usize>, h: int) -> bool {
    0 <= h < q.len() ==> dist[q[q.len() - 1] as int] as int <= dist[q[h] as int] as int + 1
}

/// The search state away from the frontier pointer: array sizes, the start
/// room at distance zero, the queue listing each seen room exactly once
/// with non-decreasing distances bounded by position, and a predecessor
/// chain that steps one edge and one distance unit back toward the start.
pub open spec fn bfs_state_ok(
    m: Seq<RoomModel>,
    seen: Seq<bool>,
    dist: Seq<usize>,
    pred: Seq<usize>,
    q: Seq<usize>,
    si: int,
) -> bool {
    &&& seen.len() == m.len()
    &&& dist.len() == m.len()
    &&& pred.len() == m.len()
    &&& 0 <= si < m.len()
    &&& seen[si]
    &&& dist[si] == 0
    &&& q.len() <= m.len()
    &&& forall|k: int| 0 <= k < q.len() ==> ((#[trigger] q[k]) as int) < m.len() && seen[q[k] as int]
    &&& forall|k1: int, k2: int| 0 <= k1 < k2 < q.len() ==> q[k1] != q[k2]
    &&& forall|k: int| 0 <= k < q.len() ==> dist[(#[trigger] q[k]) as int] as int <= k
    &&& forall|k1: int, k2: int|
        0 <= k1 <= k2 < q.len() ==> dist[(#[trigger] q[k1]) as int] as int <= dist[(
        #[trigger] q[k2]) as int] as int
    &&& forall|u: int| 0 <= u < m.len() && seen[u] ==> in_queue(q, u)
    &&& forall|v: int|
        0 <= v < m.len() && #[trigger] seen[v] && v != si ==> (pred[v] as int) < m.len()
            && seen[pred[v] as int] && dist[pred[v] as int] as int + 1 == dist[v] as int && edge(
            m,
            pred[v] as int,
            v,
        )
}

/// A queue of distinct room indices cannot outgrow the store.
proof fn lemma_queue_bounded(q: Seq<usize>, n: int)
    requires
        0 <= n,
        forall|k: int| 0 <= k < q.len() ==> ((#[trigger] q[k]) as int) < n,
        forall|k1: int, k2: int| 0 <= k1 < k2 < q.len() ==> q[k1] != q[k2],
    ensures
        q.len() <= n,
{
    let t = Seq::new(q.len(), |k: int| q[k] as int);
    assert(t.no_duplicates());
    t.unique_seq_to_set();
    lemma_int_range(0, n);
    assert(t.to_set().subset_of(set_int_range(0, n)));
    lemma_len_subset(t.to_set(), set_int_range(0, n));
}

/// Walking any path from a seen room keeps to seen rooms once the closure
/// holds, gaining at most one distance unit per edge.
proof fn lemma_path_stays_seen(
    m: Seq<RoomModel>,
    seen: Seq<bool>,
    dist: Seq<usize>,
    p: Seq<int>,
)
    requires
        seen.len() == m.len(),
        dist.len() == m.len(),
        bfs_closed(m, seen, dist),
        is_path(m, p),
        seen[p[0]],
    ensures
        seen[p[p.len() - 1]],
        dist[p[p.len() - 1]] as int <= dist[p[0]] as int + p.len() - 1,
    decreases p.len(),
{
    if p.len() > 1 {
        let q = p.drop_last();
        assert(is_path(m, q));
        lemma_path_stays_seen(m, seen, dist, q);
        let u = p[p.len() - 2];
        let v = p[p.len() - 1];
        assert(edge(m, u, v));
        let dd = choose|dd: Direction| resolve(m, u, dd) == Some(v);
        assert(dir_ok(m, seen, dist, u, dd));
    }
}

proof fn lemma_in_queue_push(q: Seq<usize>, w: usize)
    ensures
        forall|u: int| in_queue(q, u) ==> in_queue(q.push(w), u),
        in_queue(q.push(w), w as int),
{
    assert forall|u: int| in_queue(q, u) implies in_queue(q.push(w), u) by {
        let k = choose|k: int| 0 <= k < q.len() && q[k] as int == u;
        assert(q.push(w)[k] as int == u);
    }
    assert(q.push(w)[q.len() as int] == w);
}

impl Dungeon {
    /// The neighbor index one step from room `u` in direction `d`, as
    /// `resolve` names it.
    fn resolve_next(&self, u: usize, d: Direction) -> (r: Option<usize>)
        requires
            u < self.rooms.len(),
        ensures
            match r {
                Some(w) => resolve(self@, u as int, d) == Some(w as int) && w
                    < self.rooms.len(),
                None => resolve(self@, u as int, d) is None,
            },
    {
        let room = &self.rooms[u];
        let ghost links = room@.links;
        let mut k = room.neighbors.len();
        proof {
            assert(links.subrange(0, k as int) =~= links);
        }
        while k > 0
            invariant
                u < self.rooms.len(),
                k <= room.neighbors.len(),
                links == room@.links,
                room@ == self@[u as int],
                last_link_target(links, d) == last_link_target(
                    links.subrange(0, k as int),
                    d,
                ),
            decreases k,
        {
            let dd = room.neighbors[k - 1].0;
            proof {
                assert(links.subrange(0, k as int).last() == links[k as int - 1]);
                assert(links.subrange(0, k as int).drop_last() =~= links.subrange(
                    0,
                    k as int - 1,
                ));
            }
            if dd == d {
                let target = &room.neighbors[k - 1].1;
                let t = self.find_room_index(target.as_str());
                if t == self.rooms.len() {
                    return None;
                }
                return Some(t);
            }
            k = k - 1;
        }
        proof {
            assert(links.subrange(0, 0) =~= Seq::<(Direction, Seq<char>)>::empty());
        }
        None
    }

    /// Expands one direction of the room under the frontier pointer:
    /// whatever it resolves to is seen afterwards, one step farther at
    /// most, and everything already established stays established.
    #[verifier::rlimit(100)]
    #[verifier::spinoff_prover]
    fn bfs_expand(
        &self,
        u: usize,
        dd: Direction,
        seen: &mut Vec<bool>,
        dist: &mut Vec<usize>,
        pred: &mut Vec<usize>,
        queue: &mut Vec<usize>,
        h: usize,
        Ghost(si): Ghost<int>,
    )
        requires
            u < self.rooms.len(),
            bfs_state_ok(self@, old(seen)@, old(dist)@, old(pred)@, old(queue)@, si),
            frontier_ok(old(dist)@, old(queue)@, h as int),
            processed_ok(self@, old(seen)@, old(dist)@, old(queue)@, h as int),
            h < old(queue)@.len(),
            old(queue)@[h as int] == u,
        ensures
            bfs_state_ok(self@, final(seen)@, final(dist)@, final(pred)@, final(queue)@, si),
            frontier_ok(final(dist)@, final(queue)@, h as int),
            processed_ok(self@, final(seen)@, final(dist)@, final(queue)@, h as int),
            old(queue)@.is_prefix_of(final(queue)@),
            h < final(queue)@.len(),
            final(queue)@[h as int] == u,
            forall|v: int|
                0 <= v < self@.len() && old(seen)@[v] ==> final(seen)@[v] && final(dist)@[v]
                    == old(dist)@[v],
            dir_ok(self@, final(seen)@, final(dist)@, u as int, dd),
            forall|d2: Direction|
                dir_ok(self@, old(seen)@, old(dist)@, u as int, d2) ==> #[trigger] dir_ok(
                    self@,
                    final(seen)@,
                    final(dist)@,
                    u as int,
                    d2,
                ),
    {
        let ghost m = self@;
        match self.resolve_next(u, dd) {
            None => {},
            Some(w) => {
                if !seen[w] {
                    let ghost q0 = queue@;
                    let du = dist[u];
                    seen[w] = true;
                    dist[w] = du + 1;
                    pred[w] = u;
                    queue.push(w);
                    proof {
                        lemma_in_queue_push(q0, w);
                        assert(queue@[q0.len() as int] == w);
                        assert forall|k1: int, k2: int| 0 <= k1 < k2 < queue@.len() implies queue@[
                            k1] != queue@[k2] by {
                            if k2 == q0.len() {
                                assert(old(seen)@[q0[k1] as int]);
                            }
                        }
                        lemma_queue_bounded(queue@, m.len() as int);
                        assert(edge(m, u as int, w as int)) by {
                            assert(resolve(m, u as int, dd) == Some(w as int));
                        }
                        assert forall|k1: int, k2: int| 0 <= k1 <= k2 < queue@.len() implies dist@[
                            queue@[k1] as int] as int <= dist@[(queue@[k2]) as int] as int by {
                            if k2 == q0.len() {
                                assert(dist@[queue@[k2] as int] as int == du as int + 1);
                                if k1 < k2 {
                                    assert(queue@[k1] == q0[k1]);
                                    assert(q0[k1] as int != w as int);
                                    assert(dist@[q0[k1] as int] == old(dist)@[q0[k1] as int]);
                                    assert(old(dist)@[q0[k1] as int] as int <= old(dist)@[q0[
                                        q0.len() - 1] as int] as int);
                                    assert(old(dist)@[q0[q0.len() - 1] as int] as int <= du as int
                                        + 1);
                                }
                            }
                        }
                    }
                } else {
                    proof {
                        assert(in_queue(queue@, w as int));
                        let k = choose|k: int|
                            0 <= k < queue@.len() && queue@[k] as int == w as int;
                        assert(dist@[queue@[k] as int] as int <= dist@[queue@[queue@.len() - 1]
                            as int] as int);
                        assert(dist@[queue@[queue@.len() - 1] as int] as int <= dist@[queue@[
                            h as int] as int] as int + 1);
                    }
                }
            },
        }
        proof {
            assert forall|k: int, d2: Direction| 0 <= k < h && k < queue@.len() implies
                #[trigger] dir_ok(m, seen@, dist@, queue@[k] as int, d2) by {
                let v = old(queue)@[k] as int;
                assert(queue@[k] == old(queue)@[k]);
                assert(dir_ok(m, old(seen)@, old(dist)@, v, d2));
                assert(old(seen)@[v]);
                match resolve(m, v, d2) {
                    Some(w2) => {
                        assert(old(seen)@[w2]);
                        assert(seen@[w2]);
                        assert(dist@[w2] == old(dist)@[w2]);
                        assert(dist@[v] == old(dist)@[v]);
                    },
                    None => {},
                }
            }
            assert forall|d2: Direction|
                dir_ok(m, old(seen)@, old(dist)@, u as int, d2) implies #[trigger] dir_ok(
                m,
                seen@,
                dist@,
                u as int,
                d2,
            ) by {
                assert(old(seen)@[u as int]);
                match resolve(m, u as int, d2) {
                    Some(w2) => {
                        assert(old(seen)@[w2]);
                        assert(seen@[w2]);
                        assert(dist@[w2] == old(dist)@[w2]);
                        assert(dist@[u as int] == old(dist)@[u as int]);
                    },
                    None => {},
                }
            }
        }
    }

    /// Expands all four directions of the room under the frontier pointer,
    /// carrying every search invariant one step forward.
    #[verifier::rlimit(100)]
    #[verifier::spinoff_prover]
    fn bfs_round(
        &self,
        seen: &mut Vec<bool>,
        dist: &mut Vec<usize>,
        pred: &mut Vec<usize>,
        queue: &mut Vec<usize>,
        h: usize,
        Ghost(si): Ghost<int>,
    )
        requires
            bfs_state_ok(self@, old(seen)@, old(dist)@, old(pred)@, old(queue)@, si),
            frontier_ok(old(dist)@, old(queue)@, h as int),
            processed_ok(self@, old(seen)@, old(dist)@, old(queue)@, h as int),
            h < old(queue)@.len(),
        ensures
            bfs_state_ok(self@, final(seen)@, final(dist)@, final(pred)@, final(queue)@, si),
            frontier_ok(final(dist)@, final(queue)@, h as int + 1),
            processed_ok(self@, final(seen)@, final(dist)@, final(queue)@, h as int + 1),
            final(queue)@.len() >= old(queue)@.len(),
    {
        let ghost m = self@;
        let u = queue[h];
        self.bfs_expand(u, Direction::North, seen, dist, pred, queue, h, Ghost(si));
        self.bfs_expand(u, Direction::South, seen, dist, pred, queue, h, Ghost(si));
        self.bfs_expand(u, Direction::East, seen, dist, pred, queue, h, Ghost(si));
        self.bfs_expand(u, Direction::West, seen, dist, pred, queue, h, Ghost(si));
        proof {
            assert(dir_ok(m, seen@, dist@, u as int, Direction::North));
            assert(dir_ok(m, seen@, dist@, u as int, Direction::South));
            assert(dir_ok(m, seen@, dist@, u as int, Direction::East));
            assert(dir_ok(m, seen@, dist@, u as int, Direction::West));
            assert forall|k: int, dd: Direction| 0 <= k < h + 1 && k < queue@.len() implies
                #[trigger] dir_ok(m, seen@, dist@, queue@[k] as int, dd) by {
                if k == h {
                    assert(queue@[k] == u);
                    assert(dd == Direction::North || dd == Direction::South || dd
                        == Direction::East || dd == Direction::West);
                }
            }
            assert(frontier_ok(dist@, queue@, h as int + 1)) by {
                if h as int + 1 < queue@.len() {
                    assert(dist@[queue@[h as int] as int] as int <= dist@[queue@[h as int + 1]
                        as int] as int);
                }
            }
        }
    }

    /// Searches breadth-first for a connecting sequence of rooms from
    /// `start_room_name` to `end_room_name`. A missing endpoint is an
    /// error, the start room checked first; two unconnected rooms are
    /// `Ok(None)`; otherwise the returned rooms, endpoints included, are a
    /// shortest path by link count.
    #[verifier::rlimit(100)]
    #[verifier::spinoff_prover]
    pub fn find_path(&self, start_room_name: &str, end_room_name: &str) -> (r: Result<
        Option<Vec<&Room>>,
        Errors,
    >)
        requires
            self.wf(),
            links_closed(self@),
        ensures
            match r {
                Err(e) => {
                    ||| !model_has_room(self@, start_room_name@) && e@ == ErrorModel::UnknownRoom(
                        start_room_name@,
                    )
                    ||| model_has_room(self@, start_room_name@) && !model_has_room(
                        self@,
                        end_room_name@,
                    ) && e@ == ErrorModel::UnknownRoom(end_room_name@)
                },
                Ok(found) => model_has_room(self@, start_room_name@) && model_has_room(
                    self@,
                    end_room_name@,
                ) && match found {
                    Some(path) => ({
                        &&& valid_room_path(
                            self@,
                            room_views(path@),
                            start_room_name@,
                            end_room_name@,
                        )
                        &&& forall|q: Seq<int>|
                            connects(
                                self@,
                                q,
                                room_index(self@, start_room_name@),
                                room_index(self@, end_room_name@),
                            ) ==> room_views(path@).len() <= q.len()
                    }),
                    None => forall|q: Seq<int>|
                        !connects(
                            self@,
                            q,
                            room_index(self@, start_room_name@),
                            room_index(self@, end_room_name@),
                        ),
                },
            },
    {
        let ghost m = self@;
        let n = self.rooms.len();
        let si = self.find_room_index(start_room_name);
        if si == n {
            return Err(Errors::UnknownRoom(start_room_name.to_owned()));
        }
        let ei = self.find_room_index(end_room_name);
        if ei == n {
            return Err(Errors::UnknownRoom(end_room_name.to_owned()));
        }
        proof {
            lemma_room_index_from(m, start_room_name@, 0);
            lemma_room_index_from(m, end_room_name@, 0);
        }
        let mut seen: Vec<bool> = Vec::new();
        let mut dist: Vec<usize> = Vec::new();
        let mut pred: Vec<usize> = Vec::new();
        let mut t: usize = 0;
        while t < n
            invariant
                t <= n,
                seen@.len() == t,
                dist@.len() == t,
                pred@.len() == t,
                forall|v: int| 0 <= v < t ==> !seen@[v],
                forall|v: int| 0 <= v < t ==> dist@[v] == 0usize,
                forall|v: int| 0 <= v < t ==> pred@[v] == 0usize,
            decreases n - t,
        {
            seen.push(false);
            dist.push(0);
            pred.push(0);
            t = t + 1;
        }
        seen[si] = true;
        pred[si] = si;
        let mut queue: Vec<usize> = Vec::new();
        queue.push(si);
        let mut h: usize = 0;
        proof {
            assert(in_queue(queue@, si as int)) by {
                assert(queue@[0] as int == si as int);
            }
            assert(bfs_state_ok(m, seen@, dist@, pred@, queue@, si as int));
        }
        while h < queue.len()
            invariant
                m == self@,
                n == self.rooms.len(),
                m.len() == n,
                si < n,
                ei < n,
                h <= queue@.len(),
                bfs_state_ok(m, seen@, dist@, pred@, queue@, si as int),
                frontier_ok(dist@, queue@, h as int),
                processed_ok(m, seen@, dist@, queue@, h as int),
            decreases n - h,
        {
            self.bfs_round(&mut seen, &mut dist, &mut pred, &mut queue, h, Ghost(si as int));
            h = h + 1;
        }
        proof {
            assert(bfs_closed(m, seen@, dist@)) by {
                assert forall|u: int, dd: Direction| 0 <= u < m.len() && seen@[u] implies
                    #[trigger] dir_ok(m, seen@, dist@, u, dd) by {
                    let k = choose|k: int| 0 <= k < queue@.len() && queue@[k] as int == u;
                    assert(dir_ok(m, seen@, dist@, queue@[k] as int, dd));
                }
            }
        }
        if !seen[ei] {
            proof {
                assert forall|q: Seq<int>| !connects(m, q, si as int, ei as int) by {
                    if connects(m, q, si as int, ei as int) {
                        lemma_path_stays_seen(m, seen@, dist@, q);
                    }
                }
            }
            return Ok(None);
        }
        // Follow the predecessor chain from the end room back to the start.
        let mut rev_path: Vec<usize> = Vec::new();
        let mut cur = ei;
        rev_path.push(ei);
        while cur != si
            invariant
                m == self@,
                n == self.rooms.len(),
                m.len() == n,
                si < n,
                ei < n,
                cur < n,
                seen@.len() == n,
                dist@.len() == n,
                pred@.len() == n,
                bfs_state_ok(m, seen@, dist@, pred@, queue@, si as int),
                seen@[cur as int],
                rev_path@.len() >= 1,
                rev_path@[0] == ei,
                rev_path@[rev_path@.len() - 1] == cur,
                dist@[cur as int] as int + rev_path@.len() - 1 == dist@[ei as int] as int,
                forall|k: int|
                    0 <= k < rev_path@.len() ==> ((#[trigger] rev_path@[k]) as int) < n && seen@[
                        rev_path@[k] as int],
                forall|k: int|
                    0 <= k < rev_path@.len() - 1 ==> edge(
                        m,
                        rev_path@[k + 1] as int,
                        (#[trigger] rev_path@[k]) as int,
                    ),
            decreases dist@[cur as int],
        {
            let next = pred[cur];
            rev_path.push(next);
            cur = next;
        }
        let len = rev_path.len();
        let mut path: Vec<&Room> = Vec::new();
        let mut t2: usize = 0;
        while t2 < len
            invariant
                m == self@,
                n == self.rooms.len(),
                m.len() == n,
                len == rev_path@.len(),
                len <= n,
                t2 <= len,
                path@.len() == t2,
                forall|k: int| 0 <= k < len ==> ((#[trigger] rev_path@[k]) as int) < n,
                forall|k: int|
                    0 <= k < t2 ==> (#[trigger] path@[k])@ == m[rev_path@[len - 1 - k] as int],
            decreases len - t2,
        {
            let idx = rev_path[len - 1 - t2];
            path.push(&self.rooms[idx]);
            t2 = t2 + 1;
        }
        proof {
            let pv = room_views(path@);
            let idxs = path_index_seq(m, pv);
            assert(pv.len() == len);
            assert forall|k: int| 0 <= k < pv.len() implies model_has_room(
                m,
                (#[trigger] pv[k]).name,
            ) && pv[k] == m[idxs[k]] && idxs[k] == rev_path@[len - 1 - k] as int by {
                let j = rev_path@[len - 1 - k] as int;
                assert(pv[k] == m[j]);
                crate::dungeon::lemma_witness_has_room(m, m[j].name, j);
                lemma_room_index_from(m, m[j].name, 0);
                assert(room_index(m, m[j].name) == j);
            }
            assert(idxs[0] == si as int && idxs[idxs.len() - 1] == ei as int);
            assert forall|k: int| 0 <= k < idxs.len() - 1 implies edge(
                m,
                #[trigger] idxs[k],
                idxs[k + 1],
            ) by {
                assert(edge(m, rev_path@[len - 1 - k] as int, rev_path@[len - 2 - k] as int));
            }
            assert(is_path(m, idxs));
            assert forall|q: Seq<int>| connects(m, q, si as int, ei as int) implies pv.len()
                <= q.len() by {
                lemma_path_stays_seen(m, seen@, dist@, q);
            }
        }
        Ok(Some(path))
    }
}

} // verus!
