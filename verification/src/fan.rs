//! The fan of a vertex: its incident faces, brought into cyclic order.

use crate::fan_theorems::{fan_closed, lemma_placed_shape, lemma_sorted_fan};
use crate::index_list::{swapped, IndexList};
use crate::mesh::{Corner, Mesh};
use vstd::prelude::*;

verus! {

/// What a fan record holds, as plain sequences.
pub struct FanView {
    pub index: usize,
    pub faces: Seq<usize>,
    pub cantellated: Seq<usize>,
}

/// The record of one vertex of the input mesh.
#[derive(Clone, Debug)]
pub struct CantellatedVertex {
    /// Index of the vertex in the input mesh.
    pub index: usize,
    /// Faces of the input mesh that the vertex is part of.
    pub faces: IndexList,
    /// Vertices of the result mesh that the vertex was expanded into: `cantellated[i]` is the
    /// corner that belongs to `faces[i]`. Two entries are equal where two corners fell
    /// together.
    pub cantellated: IndexList,
}

impl View for CantellatedVertex {
    type V = FanView;

    open spec fn view(&self) -> FanView {
        FanView { index: self.index, faces: self.faces@, cantellated: self.cantellated@ }
    }
}

/// The views of a list of fan records.
pub open spec fn fan_views(fans: Seq<CantellatedVertex>) -> Seq<FanView> {
    Seq::new(fans.len(), |v: int| fans[v]@)
}

/// The position after `p` on a cycle of `n` positions.
pub open spec fn cyclic_next(p: int, n: int) -> int {
    if p + 1 >= n {
        0
    } else {
        p + 1
    }
}

/// The position before `p` on a cycle of `n` positions.
pub open spec fn cyclic_prev(p: int, n: int) -> int {
    if p <= 0 {
        n - 1
    } else {
        p - 1
    }
}

/// The first position at or after `from` where `s` holds `target`, or the length of `s`
/// where there is none.
pub open spec fn first_match(s: Seq<usize>, target: usize, from: int) -> int
    decreases s.len() - from,
{
    if from >= s.len() {
        s.len() as int
    } else if s[from] == target {
        from
    } else {
        first_match(s, target, from + 1)
    }
}

/// `first_match` finds a position that holds the target, and skips none that does.
pub proof fn lemma_first_match(s: Seq<usize>, target: usize, from: int)
    requires
        0 <= from <= s.len(),
    ensures
        from <= first_match(s, target, from) <= s.len(),
        first_match(s, target, from) < s.len() ==> s[first_match(s, target, from)] == target,
        forall|j: int| from <= j < first_match(s, target, from) ==> s[j] != target,
    decreases s.len() - from,
{
    if from < s.len() && s[from] != target {
        lemma_first_match(s, target, from + 1);
    }
}

/// The vertex that follows `v` in the face's winding and the one that precedes it, or `None`
/// where the face does not contain `v`.
pub open spec fn neighbors(face: Seq<usize>, v: usize) -> Option<(usize, usize)> {
    let p = first_match(face, v, 0);
    if p < face.len() {
        Some((face[cyclic_next(p, face.len() as int)], face[cyclic_prev(p, face.len() as int)]))
    } else {
        None
    }
}

/// The neighbors of `v` in the face that the fan names at position `i`, or `None` where the
/// mesh has no such face or the face does not contain `v`.
pub open spec fn fan_neighbors(faces: Seq<Seq<usize>>, v: usize, fan: Seq<usize>, i: int) -> Option<
    (usize, usize),
> {
    if fan[i] < faces.len() {
        neighbors(faces[fan[i] as int], v)
    } else {
        None
    }
}

/// Every face of the fan exists and contains `v`.
pub open spec fn fan_resolves(faces: Seq<Seq<usize>>, v: usize, fan: Seq<usize>) -> bool {
    forall|i: int| 0 <= i < fan.len() ==> (#[trigger] fan_neighbors(faces, v, fan, i)) is Some
}

/// For each face of the fan, the vertex that follows `v` in it.
pub open spec fn forward_of(faces: Seq<Seq<usize>>, v: usize, fan: Seq<usize>) -> Seq<usize> {
    Seq::new(fan.len(), |i: int| fan_neighbors(faces, v, fan, i).unwrap().0)
}

/// For each face of the fan, the vertex that precedes `v` in it.
pub open spec fn backward_of(faces: Seq<Seq<usize>>, v: usize, fan: Seq<usize>) -> Seq<usize> {
    Seq::new(fan.len(), |i: int| fan_neighbors(faces, v, fan, i).unwrap().1)
}

/// The faces of a fan with, in parallel, the forward and the backward neighbor of each.
pub struct FanOrder {
    pub faces: Seq<usize>,
    pub forward: Seq<usize>,
    pub backward: Seq<usize>,
}

impl FanOrder {
    /// The three sequences have one length.
    pub open spec fn aligned(self) -> bool {
        self.forward.len() == self.faces.len() && self.backward.len() == self.faces.len()
    }

    /// Positions `a` and `b` exchanged in all three sequences.
    pub open spec fn swap(self, a: int, b: int) -> FanOrder {
        FanOrder {
            faces: swapped(self.faces, a, b),
            forward: swapped(self.forward, a, b),
            backward: swapped(self.backward, a, b),
        }
    }
}

/// Chains the faces from position `i` on: the face that goes to position `i` is the first one
/// at or after `i` whose forward neighbor is the backward neighbor of the face at `i - 1`.
/// Where there is none the chain is broken: the order stays as it is by then, and the flag is
/// `false`.
pub open spec fn chained(order: FanOrder, i: int) -> (FanOrder, bool)
    recommends
        order.aligned(),
    decreases order.faces.len() - i,
{
    if i < 1 || i >= order.faces.len() {
        (order, true)
    } else {
        let j = first_match(order.forward, order.backward[i - 1], i);
        if j >= order.faces.len() {
            (order, false)
        } else {
            chained(order.swap(i, j), i + 1)
        }
    }
}

/// The fan in cyclic order, and whether it is watertight.
///
/// A fan of fewer than two faces, or with a face that does not exist or does not contain the
/// vertex, stays as it is and is not watertight. Otherwise the faces are chained from
/// position 1 on, and the fan is watertight when the chain was not broken and the backward
/// neighbor of the last face is the forward neighbor of the first.
pub open spec fn sorted_fan(faces: Seq<Seq<usize>>, v: usize, fan: Seq<usize>) -> (
    Seq<usize>,
    bool,
) {
    if fan.len() < 2 || !fan_resolves(faces, v, fan) {
        (fan, false)
    } else {
        let start = FanOrder {
            faces: fan,
            forward: forward_of(faces, v, fan),
            backward: backward_of(faces, v, fan),
        };
        let (end, complete) = chained(start, 1);
        (end.faces, complete && end.backward[end.backward.len() - 1] == end.forward[0])
    }
}

/// The corner that the record holds for `face`: the entry of `cantellated` at the first
/// position where `faces` names the face, or `None` where no position does or `cantellated`
/// does not reach that far.
pub open spec fn corner_for_face(fan: FanView, face: usize) -> Option<usize> {
    let i = first_match(fan.faces, face, 0);
    if i < fan.faces.len() && i < fan.cantellated.len() {
        Some(fan.cantellated[i])
    } else {
        None
    }
}

/// The vertex of the result mesh that is the corner of vertex `v` in the face `face`, or
/// `None` where the vertex has no record or its record none for the face.
pub open spec fn corner_of(fans: Seq<FanView>, v: usize, face: usize) -> Option<usize> {
    if v < fans.len() {
        corner_for_face(fans[v as int], face)
    } else {
        None
    }
}

/// Whether the table says that corners `i` and `j` of a fan fall together. A position that
/// the table does not reach counts as apart.
pub open spec fn is_near(table: Seq<Vec<bool>>, i: int, j: int) -> bool {
    0 <= i < table.len() && 0 <= j < table[i]@.len() && table[i]@[j]
}

/// The corners of a fan as far as they have been placed.
pub struct Placement {
    /// For each corner placed, the vertex of the result mesh that it uses.
    pub cantellated: Seq<usize>,
    /// The positions in the fan of the corners that got a vertex of their own, in order.
    pub created: Seq<int>,
}

/// The vertex that corner `p` of a fan of `k` corners shares with an earlier corner, if any.
///
/// The first corner shares none. A later corner goes with the corner before it where the
/// table has it near the corner that created that one's vertex. Failing that, the last corner
/// goes with the first where the table has the two near.
pub open spec fn reused(table: Seq<Vec<bool>>, k: int, before: Placement, p: int) -> Option<usize> {
    if p <= 0 {
        None
    } else if is_near(table, p, before.created.last()) {
        Some(before.cantellated[p - 1])
    } else if p + 1 == k && is_near(table, p, 0) {
        Some(before.cantellated[0])
    } else {
        None
    }
}

/// The first `i` corners of a fan of `k` corners placed, where the result mesh had `base`
/// vertices before: a corner that shares no vertex gets the next free one.
pub open spec fn placed(table: Seq<Vec<bool>>, k: int, base: int, i: int) -> Placement
    decreases i,
{
    if i <= 0 {
        Placement { cantellated: Seq::empty(), created: Seq::empty() }
    } else {
        let before = placed(table, k, base, i - 1);
        match reused(table, k, before, i - 1) {
            Some(index) => Placement {
                cantellated: before.cantellated.push(index),
                created: before.created,
            },
            None => Placement {
                cantellated: before.cantellated.push((base + before.created.len()) as usize),
                created: before.created.push(i - 1),
            },
        }
    }
}

/// The corners of vertex `v` that got a vertex of their own, as vertices of the result mesh.
pub open spec fn corners_of(v: usize, fan: Seq<usize>, created: Seq<int>) -> Seq<Corner> {
    Seq::new(created.len(), |t: int| Corner { vertex: v, face: Some(fan[created[t]]) })
}

/// `count` consecutive indices from `base` on.
pub open spec fn index_run(base: int, count: nat) -> Seq<usize> {
    Seq::new(count, |t: int| (base + t) as usize)
}

/// What the expansion of one vertex yields.
pub struct Expanded {
    /// The record of the vertex afterwards.
    pub fan: FanView,
    /// The vertices that the result mesh gains.
    pub vertices: Seq<Corner>,
    /// The cap face that the result mesh gains, if any.
    pub cap: Option<Seq<usize>>,
}

/// The expansion of a vertex whose faces are in cyclic order already into a result mesh that
/// has `base` vertices.
///
/// A vertex without faces is kept as it is. Otherwise every face gets a corner, in the order
/// of the fan. The cap lists the vertices that were created, and exists where the vertex is
/// watertight and more than two were created.
pub open spec fn expand_sorted(fan: FanView, watertight: bool, table: Seq<Vec<bool>>, base: int) -> Expanded {
    if fan.faces.len() == 0 {
        Expanded {
            fan: FanView { index: fan.index, faces: fan.faces, cantellated: Seq::empty() },
            vertices: seq![Corner { vertex: fan.index, face: None }],
            cap: None,
        }
    } else {
        let all = placed(table, fan.faces.len() as int, base, fan.faces.len() as int);
        Expanded {
            fan: FanView { index: fan.index, faces: fan.faces, cantellated: all.cantellated },
            vertices: corners_of(fan.index, fan.faces, all.created),
            cap: if watertight && all.created.len() > 2 {
                Some(index_run(base, all.created.len()))
            } else {
                None
            },
        }
    }
}

/// The expansion of the vertex of `fan` into a result mesh that has `base` vertices: its
/// faces are brought into cyclic order, and the vertex is expanded on them.
pub open spec fn expand_vertex(
    faces: Seq<Seq<usize>>,
    fan: FanView,
    table: Seq<Vec<bool>>,
    base: int,
) -> Expanded {
    let (sorted, watertight) = sorted_fan(faces, fan.index, fan.faces);
    expand_sorted(
        FanView { index: fan.index, faces: sorted, cantellated: fan.cantellated },
        watertight,
        table,
        base,
    )
}

/// The faces of a result mesh after it gained `cap`, or nothing.
pub open spec fn with_cap(faces: Seq<Seq<usize>>, cap: Option<Seq<usize>>) -> Seq<Seq<usize>> {
    match cap {
        Some(face) => faces.push(face),
        None => faces,
    }
}

/// Whether the table says that corners `i` and `j` fall together.
fn near_at(table: &Vec<Vec<bool>>, i: usize, j: usize) -> (near: bool)
    ensures
        near == is_near(table@, i as int, j as int),
{
    if i < table.len() {
        let row = &table[i];
        if j < row.len() {
            row[j]
        } else {
            false
        }
    } else {
        false
    }
}

/// The first position at or after `from` where the slice holds `target`, or its length.
fn find_from(list: &[usize], target: usize, from: usize) -> (j: usize)
    requires
        from <= list@.len(),
    ensures
        j == first_match(list@, target, from as int),
        from <= j <= list@.len(),
{
    let mut j: usize = from;
    while j < list.len() && list[j] != target
        invariant
            from <= j <= list@.len(),
            first_match(list@, target, j as int) == first_match(list@, target, from as int),
        decreases list@.len() - j,
    {
        j += 1;
    }
    j
}

/// The vertices that follow and precede `v` in the face.
fn face_neighbors(face: &[usize], v: usize) -> (found: Option<(usize, usize)>)
    ensures
        found == neighbors(face@, v),
{
    let n: usize = face.len();
    let p: usize = find_from(face, v, 0);
    if p < n {
        let next: usize = if p + 1 == n {
            0
        } else {
            p + 1
        };
        let prev: usize = if p == 0 {
            n - 1
        } else {
            p - 1
        };
        Some((face[next], face[prev]))
    } else {
        None
    }
}

/// The forward and backward neighbors of `v` in every face of the fan, or `None` where one
/// of the faces does not exist or does not contain `v`.
fn neighbor_lists<P>(mesh: &Mesh<P>, v: usize, fan: &IndexList) -> (found: Option<
    (IndexList, IndexList),
>)
    ensures
        found is Some <==> fan_resolves(mesh.topology(), v, fan@),
        found is Some ==> found.unwrap().0@ == forward_of(mesh.topology(), v, fan@)
            && found.unwrap().1@ == backward_of(mesh.topology(), v, fan@),
{
    let ghost faces = mesh.topology();
    let list = fan.as_slice();
    let mut forward = IndexList::new();
    let mut backward = IndexList::new();
    let mut i: usize = 0;
    while i < list.len()
        invariant
            list@ == fan@,
            faces == mesh.topology(),
            i <= list@.len(),
            forward@.len() == i,
            backward@.len() == i,
            forall|a: int| 0 <= a < i ==> (#[trigger] fan_neighbors(faces, v, fan@, a)) is Some,
            forall|a: int|
                0 <= a < i ==> forward@[a] == fan_neighbors(faces, v, fan@, a).unwrap().0
                    && backward@[a] == fan_neighbors(faces, v, fan@, a).unwrap().1,
        decreases list@.len() - i,
    {
        let f: usize = list[i];
        if f >= mesh.faces.len() {
            assert(fan_neighbors(faces, v, fan@, i as int) is None);
            return None;
        }
        match face_neighbors(mesh.faces[f].as_slice(), v) {
            None => {
                assert(fan_neighbors(faces, v, fan@, i as int) is None);
                return None;
            },
            Some((next, prev)) => {
                forward.push(next);
                backward.push(prev);
            },
        }
        i += 1;
    }
    assert(forward@ =~= forward_of(faces, v, fan@));
    assert(backward@ =~= backward_of(faces, v, fan@));
    Some((forward, backward))
}

/// Chains the faces in place from position 1 on, and says whether the chain held to the end.
fn chain_lists(faces: &mut IndexList, forward: &mut IndexList, backward: &mut IndexList) -> (complete:
    bool)
    requires
        old(forward)@.len() == old(faces)@.len(),
        old(backward)@.len() == old(faces)@.len(),
    ensures
        (FanOrder { faces: final(faces)@, forward: final(forward)@, backward: final(backward)@ }, complete)
            == chained(
            FanOrder { faces: old(faces)@, forward: old(forward)@, backward: old(backward)@ },
            1,
        ),
        final(faces)@.len() == old(faces)@.len(),
        final(forward)@.len() == old(faces)@.len(),
        final(backward)@.len() == old(faces)@.len(),
{
    let ghost start = FanOrder { faces: faces@, forward: forward@, backward: backward@ };
    let k: usize = faces.len();
    let mut i: usize = 1;
    while i < k
        invariant
            1 <= i,
            start == (FanOrder { faces: old(faces)@, forward: old(forward)@, backward: old(backward)@ }),
            k == old(faces)@.len(),
            k == faces@.len(),
            forward@.len() == k,
            backward@.len() == k,
            chained(FanOrder { faces: faces@, forward: forward@, backward: backward@ }, i as int)
                == chained(start, 1),
        decreases k - i,
    {
        let ghost order = FanOrder { faces: faces@, forward: forward@, backward: backward@ };
        let target: usize = backward.as_slice()[i - 1];
        let j: usize = find_from(forward.as_slice(), target, i);
        if j >= k {
            assert(chained(order, i as int) == (order, false));
            return false;
        }
        assert(chained(order, i as int) == chained(order.swap(i as int, j as int), i + 1));
        faces.swap(i, j);
        forward.swap(i, j);
        backward.swap(i, j);
        i += 1;
    }
    assert(chained(FanOrder { faces: faces@, forward: forward@, backward: backward@ }, i as int).1);
    true
}

impl CantellatedVertex {
    /// The record of vertex `index`, with no faces yet.
    pub fn new(index: usize) -> (fan: Self)
        ensures
            fan.index == index,
            fan.faces@ == Seq::<usize>::empty(),
            fan.cantellated@ == Seq::<usize>::empty(),
    {
        CantellatedVertex { index, faces: IndexList::new(), cantellated: IndexList::new() }
    }

    /// Brings the faces into cyclic order around the vertex and says whether the vertex is
    /// watertight: whether the faces, in the order they are left in, form one closed cycle
    /// around it. The record keeps its faces, and nothing else of it changes.
    pub fn sort_faces<P>(&mut self, mesh: &Mesh<P>) -> (watertight: bool)
        ensures
            final(self).index == old(self).index,
            final(self).cantellated@ == old(self).cantellated@,
            final(self).faces@ == sorted_fan(mesh.topology(), old(self).index, old(self).faces@).0,
            watertight == sorted_fan(mesh.topology(), old(self).index, old(self).faces@).1,
            final(self).faces@.to_multiset() == old(self).faces@.to_multiset(),
            watertight == fan_closed(mesh.topology(), old(self).index, final(self).faces@),
    {
        proof {
            lemma_sorted_fan(mesh.topology(), self.index, self.faces@);
        }
        if self.faces.len() < 2 {
            return false;
        }
        match neighbor_lists(mesh, self.index, &self.faces) {
            None => false,
            Some((forward, backward)) => {
                let mut forward = forward;
                let mut backward = backward;
                let complete = chain_lists(&mut self.faces, &mut forward, &mut backward);
                if complete {
                    let k: usize = backward.len();
                    backward.as_slice()[k - 1] == forward.as_slice()[0]
                } else {
                    false
                }
            },
        }
    }

    /// The vertex of the result mesh that is this vertex's corner in the face `face_index`.
    pub fn get_cantellated_vertex_by_face(&self, face_index: usize) -> (corner: Option<usize>)
        ensures
            corner == corner_for_face(self@, face_index),
    {
        let i: usize = find_from(self.faces.as_slice(), face_index, 0);
        if i < self.faces.len() {
            self.cantellated.get(i)
        } else {
            None
        }
    }

    /// Expands the vertex into the result mesh: one corner per incident face, and the cap
    /// face where the vertex is watertight. `near[i][j]` says whether the corners of the
    /// faces at positions `i` and `j` of the sorted fan fall together.
    ///
    /// The record is left with its faces in cyclic order and a corner for each of them.
    /// Corners that it held before are dropped.
    pub fn cantellate<P>(
        &mut self,
        near: &Vec<Vec<bool>>,
        mesh: &Mesh<P>,
        result_mesh: &mut Mesh<Corner>,
    )
        ensures
            ({
                let out = expand_vertex(
                    mesh.topology(),
                    old(self)@,
                    near@,
                    old(result_mesh).vertices@.len() as int,
                );
                &&& final(self)@ == out.fan
                &&& final(result_mesh).vertices@ == old(result_mesh).vertices@ + out.vertices
                &&& final(result_mesh).topology() == with_cap(old(result_mesh).topology(), out.cap)
                &&& out.cap is Some ==> fan_closed(mesh.topology(), old(self).index, out.fan.faces)
            }),
            final(self).faces@.to_multiset() == old(self).faces@.to_multiset(),
            final(self).cantellated@.len() == final(self).faces@.len(),
            final(result_mesh).vertices@.len() > old(result_mesh).vertices@.len(),
    {
        let watertight = self.sort_faces(mesh);
        self.place_corners(watertight, near, result_mesh);
    }

    /// Expands the vertex on its faces as they stand: every face gets a corner, in the order
    /// of the fan, and the result mesh gets the cap where `watertight` says so and more than
    /// two vertices were created for the corners. A vertex without faces is kept as it is.
    ///
    /// Corners that the record held before are dropped.
    pub fn place_corners(
        &mut self,
        watertight: bool,
        near: &Vec<Vec<bool>>,
        result_mesh: &mut Mesh<Corner>,
    )
        ensures
            ({
                let out = expand_sorted(
                    old(self)@,
                    watertight,
                    near@,
                    old(result_mesh).vertices@.len() as int,
                );
                &&& final(self)@ == out.fan
                &&& final(result_mesh).vertices@ == old(result_mesh).vertices@ + out.vertices
                &&& final(result_mesh).topology() == with_cap(old(result_mesh).topology(), out.cap)
                &&& out.cap is Some ==> watertight
            }),
            final(self).faces@ == old(self).faces@,
            final(self).cantellated@.len() == final(self).faces@.len(),
            final(result_mesh).vertices@.len() > old(result_mesh).vertices@.len(),
    {
        proof {
            lemma_placed_shape(
                near@,
                self.faces@.len() as int,
                result_mesh.vertices@.len() as int,
                self.faces@.len() as int,
            );
        }
        let ghost base = result_mesh.vertices@.len() as int;
        let ghost kept = result_mesh.vertices@;
        let v: usize = self.index;
        self.cantellated = IndexList::new();
        // A vertex that is not part of any face stays a single point.
        if self.faces.len() == 0 {
            result_mesh.vertices.push(Corner { vertex: v, face: None });
            assert(result_mesh.vertices@ =~= kept + seq![Corner { vertex: v, face: None }]);
            assert(result_mesh.topology() =~= old(result_mesh).topology());
            return ;
        }
        let k: usize = self.faces.len();
        let ghost fan = self.faces@;
        let mut face = IndexList::new();
        let mut last_created: usize = 0;
        let mut i: usize = 0;
        while i < k
            invariant
                i <= k,
                k == fan.len(),
                base == kept.len(),
                self.index == v,
                self.faces@ == fan,
                self.cantellated@ == placed(near@, k as int, base, i as int).cantellated,
                self.cantellated@.len() == i,
                face@ == index_run(base, placed(near@, k as int, base, i as int).created.len()),
                result_mesh.vertices@ == kept + corners_of(
                    v,
                    fan,
                    placed(near@, k as int, base, i as int).created,
                ),
                result_mesh.faces@ == old(result_mesh).faces@,
                i > 0 ==> placed(near@, k as int, base, i as int).created.len() > 0
                    && placed(near@, k as int, base, i as int).created.last() == last_created,
            decreases k - i,
        {
            let ghost before = placed(near@, k as int, base, i as int);
            let ghost after = placed(near@, k as int, base, i + 1);
            let f: usize = self.faces.as_slice()[i];
            // A corner that falls together with a neighbour shares its vertex: that avoids
            // edges without length. The neighbour is the corner before, and for the last
            // corner also the first.
            let shared: Option<usize> = if i == 0 {
                None
            } else if near_at(near, i, last_created) {
                Some(self.cantellated.as_slice()[i - 1])
            } else if i + 1 == k && near_at(near, i, 0) {
                Some(self.cantellated.as_slice()[0])
            } else {
                None
            };
            assert(shared == reused(near@, k as int, before, i as int));
            match shared {
                Some(index) => {
                    self.cantellated.push(index);
                },
                None => {
                    let index: usize = result_mesh.vertices.len();
                    self.cantellated.push(index);
                    face.push(index);
                    result_mesh.vertices.push(Corner { vertex: v, face: Some(f) });
                    last_created = i;
                    assert(index == base + before.created.len());
                    assert(face@ =~= index_run(base, after.created.len()));
                    assert(result_mesh.vertices@ =~= kept + corners_of(v, fan, after.created));
                },
            }
            i += 1;
        }
        let ghost all = placed(near@, k as int, base, k as int);
        if watertight && face.len() > 2 {
            result_mesh.faces.push(face);
            assert(result_mesh.topology() =~= old(result_mesh).topology().push(
                index_run(base, all.created.len()),
            ));
        } else {
            assert(result_mesh.topology() =~= old(result_mesh).topology());
        }
    }
}

/// The faces of the record in cyclic order, and whether the vertex is watertight. The record
/// stays as it is.
pub(crate) fn sorted_copy<P>(mesh: &Mesh<P>, record: &CantellatedVertex) -> (sorted: (IndexList, bool))
    ensures
        sorted.0@ == sorted_fan(mesh.topology(), record.index, record.faces@).0,
        sorted.1 == sorted_fan(mesh.topology(), record.index, record.faces@).1,
{
    let mut copy = CantellatedVertex {
        index: record.index,
        faces: record.faces.clone(),
        cantellated: IndexList::new(),
    };
    let watertight = copy.sort_faces(mesh);
    (copy.faces, watertight)
}

/// The corner of vertex `v` in the face `face`.
pub(crate) fn find_corner(cantellated_vertices: &Vec<CantellatedVertex>, v: usize, face: usize) -> (corner:
    Option<usize>)
    ensures
        corner == corner_of(fan_views(cantellated_vertices@), v, face),
{
    if v < cantellated_vertices.len() {
        cantellated_vertices[v].get_cantellated_vertex_by_face(face)
    } else {
        None
    }
}

} // verus!
