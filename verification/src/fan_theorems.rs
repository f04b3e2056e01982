//! What holds of sorted fans and of the corners placed on them.

use crate::fan::{
    backward_of, chained, cyclic_next, expand_vertex, fan_neighbors, fan_resolves, first_match,
    forward_of, index_run, is_near, lemma_first_match, placed, reused, sorted_fan, FanOrder,
    FanView,
};
use crate::index_list::swapped;
use vstd::prelude::*;

verus! {

/// The fan is one closed cycle around `v`: it has at least two faces, each of them exists
/// and contains `v`, and the vertex that precedes `v` in a face is the one that follows `v`
/// in the next face, where the face after the last one is the first.
pub open spec fn fan_closed(faces: Seq<Seq<usize>>, v: usize, fan: Seq<usize>) -> bool {
    &&& fan.len() >= 2
    &&& fan_resolves(faces, v, fan)
    &&& forall|i: int|
        0 <= i < fan.len() ==> (#[trigger] backward_of(faces, v, fan)[i]) == forward_of(
            faces,
            v,
            fan,
        )[cyclic_next(i, fan.len() as int)]
}

/// The neighbors in `order` are those of its faces.
pub open spec fn tracks(faces: Seq<Seq<usize>>, v: usize, order: FanOrder) -> bool {
    &&& fan_resolves(faces, v, order.faces)
    &&& order.forward == forward_of(faces, v, order.faces)
    &&& order.backward == backward_of(faces, v, order.faces)
}

/// Every face before position `upto` follows on the face before it.
pub open spec fn linked(order: FanOrder, upto: int) -> bool {
    forall|j: int| 1 <= j < upto ==> (#[trigger] order.forward[j]) == order.backward[j - 1]
}

/// Exchanging two items of a sequence keeps what it holds.
pub proof fn lemma_swapped_multiset(s: Seq<usize>, a: int, b: int)
    requires
        0 <= a < s.len(),
        0 <= b < s.len(),
    ensures
        swapped(s, a, b).to_multiset() == s.to_multiset(),
        swapped(s, a, b).len() == s.len(),
{
    broadcast use vstd::seq_lib::group_to_multiset_ensures;

    let once = s.update(a, s[b]);
    let twice = once.update(b, s[a]);
    assert(swapped(s, a, b) =~= twice);
    vstd::seq_lib::to_multiset_update(s, a, s[b]);
    vstd::seq_lib::to_multiset_update(once, b, s[a]);
    assert(s.to_multiset().contains(s[a]));
    assert(s.to_multiset().contains(s[b]));
    assert(twice.to_multiset() =~= s.to_multiset());
}

/// Exchanging two faces of a fan exchanges their neighbors with them.
pub proof fn lemma_swap_tracks(faces: Seq<Seq<usize>>, v: usize, order: FanOrder, a: int, b: int)
    requires
        tracks(faces, v, order),
        0 <= a < order.faces.len(),
        0 <= b < order.faces.len(),
    ensures
        tracks(faces, v, order.swap(a, b)),
{
    let after = order.swap(a, b);
    assert forall|i: int| 0 <= i < after.faces.len() implies (#[trigger] fan_neighbors(
        faces,
        v,
        after.faces,
        i,
    )) is Some by {
        let from = if i == a {
            b
        } else if i == b {
            a
        } else {
            i
        };
        assert(fan_neighbors(faces, v, after.faces, i) == fan_neighbors(
            faces,
            v,
            order.faces,
            from,
        ));
    }
    assert(after.forward =~= forward_of(faces, v, after.faces));
    assert(after.backward =~= backward_of(faces, v, after.faces));
}

/// Chaining from position `i` on, where the faces before `i` are linked already: the result
/// holds the same faces with their neighbors, and the chain held to the end exactly when
/// every face of the result follows on the face before it.
pub proof fn lemma_chained(faces: Seq<Seq<usize>>, v: usize, order: FanOrder, i: int)
    requires
        order.aligned(),
        1 <= i <= order.faces.len(),
        tracks(faces, v, order),
        linked(order, i),
    ensures
        chained(order, i).0.faces.len() == order.faces.len(),
        chained(order, i).0.faces.to_multiset() == order.faces.to_multiset(),
        chained(order, i).0.faces[0] == order.faces[0],
        tracks(faces, v, chained(order, i).0),
        chained(order, i).1 <==> linked(chained(order, i).0, order.faces.len() as int),
    decreases order.faces.len() - i,
{
    if i < order.faces.len() {
        let j = first_match(order.forward, order.backward[i - 1], i);
        lemma_first_match(order.forward, order.backward[i - 1], i);
        if j >= order.faces.len() {
            assert(order.forward[i] != order.backward[i - 1]);
        } else {
            let next = order.swap(i, j);
            lemma_swap_tracks(faces, v, order, i, j);
            lemma_swapped_multiset(order.faces, i, j);
            assert(linked(next, i + 1)) by {
                assert forall|m: int| 1 <= m < i + 1 implies (#[trigger] next.forward[m])
                    == next.backward[m - 1] by {
                    if m < i {
                        assert(order.forward[m] == order.backward[m - 1]);
                    }
                }
            }
            lemma_chained(faces, v, next, i + 1);
        }
    }
}

/// Sorting a fan keeps its faces, and finds the vertex watertight exactly when the sorted
/// fan is one closed cycle around it.
pub proof fn lemma_sorted_fan(faces: Seq<Seq<usize>>, v: usize, fan: Seq<usize>)
    ensures
        sorted_fan(faces, v, fan).0.len() == fan.len(),
        sorted_fan(faces, v, fan).0.to_multiset() == fan.to_multiset(),
        sorted_fan(faces, v, fan).1 <==> fan_closed(faces, v, sorted_fan(faces, v, fan).0),
{
    if fan.len() >= 2 && fan_resolves(faces, v, fan) {
        let start = FanOrder {
            faces: fan,
            forward: forward_of(faces, v, fan),
            backward: backward_of(faces, v, fan),
        };
        lemma_chained(faces, v, start, 1);
        let (end, complete) = chained(start, 1);
        let k = fan.len() as int;
        if complete && end.backward[k - 1] == end.forward[0] {
            assert forall|i: int| 0 <= i < k implies (#[trigger] backward_of(
                faces,
                v,
                end.faces,
            )[i]) == forward_of(faces, v, end.faces)[cyclic_next(i, k)] by {
                if i + 1 < k {
                    assert(end.forward[i + 1] == end.backward[i]);
                }
            }
        }
        if fan_closed(faces, v, end.faces) {
            assert forall|j: int| 1 <= j < k implies (#[trigger] end.forward[j]) == end.backward[j
                - 1] by {
                assert(backward_of(faces, v, end.faces)[j - 1] == forward_of(
                    faces,
                    v,
                    end.faces,
                )[cyclic_next(j - 1, k)]);
            }
            assert(backward_of(faces, v, end.faces)[k - 1] == forward_of(faces, v, end.faces)[cyclic_next(
                k - 1,
                k,
            )]);
        }
    }
}

/// No two corners of the fan fall together.
pub open spec fn all_apart(table: Seq<Vec<bool>>) -> bool {
    forall|i: int, j: int| !is_near(table, i, j)
}

/// Every corner among the first `k` falls together with every earlier one.
pub open spec fn all_together(table: Seq<Vec<bool>>, k: int) -> bool {
    forall|i: int, j: int| 0 <= j < i < k ==> is_near(table, i, j)
}

/// The face at position `i` of the fan has no successor in it: no face has, as the vertex
/// that follows `v`, the vertex that precedes `v` in that face.
pub open spec fn open_at(faces: Seq<Seq<usize>>, v: usize, fan: Seq<usize>, i: int) -> bool {
    forall|j: int|
        0 <= j < fan.len() ==> backward_of(faces, v, fan)[i] != (#[trigger] forward_of(
            faces,
            v,
            fan,
        )[j])
}

/// The fan is open at one of its faces: the vertex is on the boundary of the mesh.
pub open spec fn on_boundary(faces: Seq<Seq<usize>>, v: usize, fan: Seq<usize>) -> bool {
    exists|i: int| 0 <= i < fan.len() && #[trigger] open_at(faces, v, fan, i)
}

/// Every corner placed has an entry, the first corner has a vertex of its own, and the
/// corners with a vertex of their own are among those placed.
pub proof fn lemma_placed_shape(table: Seq<Vec<bool>>, k: int, base: int, i: int)
    requires
        0 <= i,
    ensures
        placed(table, k, base, i).cantellated.len() == i,
        placed(table, k, base, i).created.len() <= i,
        i > 0 ==> placed(table, k, base, i).created.len() >= 1,
    decreases i,
{
    if i > 0 {
        lemma_placed_shape(table, k, base, i - 1);
    }
}

/// Which corners get a vertex of their own does not depend on how many vertices the result
/// mesh had before.
pub proof fn lemma_created_any_base(table: Seq<Vec<bool>>, k: int, base: int, other: int, i: int)
    requires
        0 <= i,
    ensures
        placed(table, k, base, i).created == placed(table, k, other, i).created,
    decreases i,
{
    if i > 0 {
        lemma_created_any_base(table, k, base, other, i - 1);
        lemma_placed_shape(table, k, base, i - 1);
        lemma_placed_shape(table, k, other, i - 1);
        let one = placed(table, k, base, i - 1);
        let two = placed(table, k, other, i - 1);
        assert(reused(table, k, one, i - 1) is None <==> reused(table, k, two, i - 1) is None);
    }
}

/// Where no two corners fall together, every corner gets a vertex of its own: the next free
/// one.
pub proof fn lemma_placed_apart(table: Seq<Vec<bool>>, k: int, base: int, i: int)
    requires
        0 <= i,
        all_apart(table),
    ensures
        placed(table, k, base, i).cantellated == index_run(base, i as nat),
        placed(table, k, base, i).created == Seq::new(i as nat, |t: int| t),
    decreases i,
{
    if i > 0 {
        lemma_placed_apart(table, k, base, i - 1);
        let before = placed(table, k, base, i - 1);
        assert(reused(table, k, before, i - 1) is None) by {
            assert(!is_near(table, i - 1, before.created.last()));
            assert(!is_near(table, i - 1, 0));
        }
        assert(placed(table, k, base, i).cantellated =~= index_run(base, i as nat));
        assert(placed(table, k, base, i).created =~= Seq::new(i as nat, |t: int| t));
    } else {
        assert(placed(table, k, base, i).cantellated =~= index_run(base, i as nat));
        assert(placed(table, k, base, i).created =~= Seq::new(i as nat, |t: int| t));
    }
}

/// Where every corner falls together with the earlier ones, all of them share the vertex of
/// the first.
pub proof fn lemma_placed_together(table: Seq<Vec<bool>>, k: int, base: int, i: int)
    requires
        1 <= i <= k,
        all_together(table, k),
    ensures
        placed(table, k, base, i).cantellated == Seq::new(i as nat, |t: int| base as usize),
        placed(table, k, base, i).created == seq![0int],
    decreases i,
{
    if i > 1 {
        lemma_placed_together(table, k, base, i - 1);
        let before = placed(table, k, base, i - 1);
        assert(before.created.last() == 0);
        assert(is_near(table, i - 1, 0));
        assert(reused(table, k, before, i - 1) == Some(before.cantellated[i - 2]));
        assert(placed(table, k, base, i).cantellated =~= Seq::new(i as nat, |t: int| base as usize));
    } else {
        let before = placed(table, k, base, 0);
        assert(reused(table, k, before, 0) is None);
        assert(placed(table, k, base, i).cantellated =~= Seq::new(i as nat, |t: int| base as usize));
        assert(placed(table, k, base, i).created =~= seq![0int]);
    }
}

/// Cap of a vertex whose corners are all apart.
///
/// A vertex with at least three faces, no two of whose corners fall together, gets a vertex
/// of the result mesh for each face. It gets a cap exactly when its sorted fan is one closed
/// cycle, and the cap then lists these vertices, one per face, in the order of the fan.
pub proof fn cap_of_distinct_corners(
    faces: Seq<Seq<usize>>,
    fan: FanView,
    table: Seq<Vec<bool>>,
    base: int,
)
    requires
        fan.faces.len() >= 3,
        all_apart(table),
    ensures
        expand_vertex(faces, fan, table, base).vertices.len() == fan.faces.len(),
        expand_vertex(faces, fan, table, base).cap is Some <==> fan_closed(
            faces,
            fan.index,
            expand_vertex(faces, fan, table, base).fan.faces,
        ),
        expand_vertex(faces, fan, table, base).cap is Some ==> {
            &&& expand_vertex(faces, fan, table, base).cap.unwrap().len() == fan.faces.len()
            &&& expand_vertex(faces, fan, table, base).cap.unwrap() == expand_vertex(
                faces,
                fan,
                table,
                base,
            ).fan.cantellated
        },
{
    lemma_sorted_fan(faces, fan.index, fan.faces);
    let k = fan.faces.len() as int;
    lemma_placed_apart(table, k, base, k);
}

/// A vertex on the boundary of the mesh gets no cap, whatever falls together.
pub proof fn boundary_vertex_has_no_cap(
    faces: Seq<Seq<usize>>,
    fan: FanView,
    table: Seq<Vec<bool>>,
    base: int,
)
    requires
        on_boundary(faces, fan.index, fan.faces),
    ensures
        expand_vertex(faces, fan, table, base).cap is None,
{
    broadcast use vstd::seq_lib::group_to_multiset_ensures;

    let v = fan.index;
    let (sorted, watertight) = sorted_fan(faces, v, fan.faces);
    lemma_sorted_fan(faces, v, fan.faces);
    if watertight {
        let k = sorted.len() as int;
        let i = choose|i: int| 0 <= i < fan.faces.len() && #[trigger] open_at(faces, v, fan.faces, i);
        let open = fan.faces[i];
        assert(fan.faces.contains(open));
        assert(sorted.to_multiset().count(open) > 0);
        assert(sorted.contains(open));
        let at = choose|at: int| 0 <= at < sorted.len() && sorted[at] == open;
        let next = cyclic_next(at, k);
        assert(fan_neighbors(faces, v, sorted, at) == fan_neighbors(faces, v, fan.faces, i));
        assert(backward_of(faces, v, sorted)[at] == forward_of(faces, v, sorted)[next]);
        assert(sorted.contains(sorted[next]));
        assert(fan.faces.to_multiset().count(sorted[next]) > 0);
        assert(fan.faces.contains(sorted[next]));
        let j = choose|j: int| 0 <= j < fan.faces.len() && fan.faces[j] == sorted[next];
        assert(fan_neighbors(faces, v, sorted, next) == fan_neighbors(faces, v, fan.faces, j));
        assert(backward_of(faces, v, fan.faces)[i] == forward_of(faces, v, fan.faces)[j]);
    }
}

/// A vertex all of whose corners fall together gets one vertex of the result mesh, which
/// all its corners share, and no cap.
pub proof fn coinciding_corners_collapse(
    faces: Seq<Seq<usize>>,
    fan: FanView,
    table: Seq<Vec<bool>>,
    base: int,
)
    requires
        fan.faces.len() >= 1,
        all_together(table, fan.faces.len() as int),
    ensures
        expand_vertex(faces, fan, table, base).vertices.len() == 1,
        expand_vertex(faces, fan, table, base).cap is None,
        expand_vertex(faces, fan, table, base).fan.cantellated == Seq::new(
            fan.faces.len(),
            |t: int| base as usize,
        ),
{
    lemma_sorted_fan(faces, fan.index, fan.faces);
    let k = fan.faces.len() as int;
    lemma_placed_together(table, k, base, k);
}

} // verus!
