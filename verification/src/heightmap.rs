use vstd::prelude::*;

verus! {

broadcast use vstd::std_specs::hash::group_hash_axioms;

/// Number of labels handed out before the end of `labels`: one more than
/// the largest label seen, or 0 when there is none.
pub open spec fn label_count(labels: Seq<u32>) -> nat
    decreases labels.len(),
{
    if labels.len() == 0 {
        0
    } else {
        let before = label_count(labels.drop_last());
        let last = labels.last() as nat + 1;
        if before < last {
            last
        } else {
            before
        }
    }
}

/// `kept` and `new_index` describe the deduplication of the vertices named
/// by `index` (vertex `v` standing for `keys[v]`): every index is replaced
/// by a label that names the kept vertex with the same key, kept vertices
/// have distinct keys, labels are handed out as 0, 1, 2, ... in order of
/// first use, and the vertex kept for a label is the one named where the
/// label was first handed out.
pub open spec fn is_deduplication(
    keys: Seq<i128>,
    index: Seq<u32>,
    kept: Seq<u32>,
    new_index: Seq<u32>,
) -> bool {
    &&& new_index.len() == index.len()
    &&& kept.len() == label_count(new_index)
    &&& forall|k: int| 0 <= k < index.len() ==> #[trigger] label_ok(keys, index, kept, new_index, k)
    &&& forall|a: int, b: int|
        0 <= a < b < kept.len() ==> keys[kept[a] as int] != keys[kept[b] as int]
}

proof fn lemma_label_count_push(labels: Seq<u32>, x: u32)
    ensures
        label_count(labels.push(x)) == (if label_count(labels) < x as nat + 1 {
            x as nat + 1
        } else {
            label_count(labels)
        }),
{
    assert(labels.push(x).drop_last() =~= labels);
}

/// The label at position `k` of `labels` names, among `kept`, a vertex with
/// the key of `index[k]`, is at most one past the labels before it, and
/// when it is a fresh label its kept vertex is `index[k]`.
pub open spec fn label_ok(keys: Seq<i128>, index: Seq<u32>, kept: Seq<u32>, labels: Seq<u32>, k: int) -> bool {
    &&& labels[k] < kept.len()
    &&& keys[kept[labels[k] as int] as int] == keys[index[k] as int]
    &&& labels[k] <= label_count(labels.take(k))
    &&& labels[k] == label_count(labels.take(k)) ==> kept[labels[k] as int] == index[k]
}

/// A new label fits in a `u32`: the kept vertices are pairwise distinct
/// `u32` values, and so is the new one from all of them.
proof fn lemma_label_fits(keys: Seq<i128>, kept: Seq<u32>, v: u32)
    requires
        forall|a: int, b: int| 0 <= a < b < kept.len() ==> keys[kept[a] as int] != keys[kept[b] as int],
        forall|m: int| 0 <= m < kept.len() ==> keys[kept[m] as int] != keys[v as int],
    ensures
        kept.len() <= u32::MAX,
{
    let all = kept.push(v);
    let ints = Seq::new(all.len(), |j: int| all[j] as int);
    assert forall|a: int, b: int| 0 <= a < ints.len() && 0 <= b < ints.len() && a != b implies ints[a] != ints[b] by {
        if a < b {
            if b == kept.len() {
                assert(keys[all[a] as int] != keys[v as int]);
            } else {
                assert(keys[all[a] as int] != keys[all[b] as int]);
            }
        } else {
            if a == kept.len() {
                assert(keys[all[b] as int] != keys[v as int]);
            } else {
                assert(keys[all[b] as int] != keys[all[a] as int]);
            }
        }
    }
    assert(ints.no_duplicates());
    ints.unique_seq_to_set();
    let range = vstd::set_lib::set_int_range(0, 4294967296);
    vstd::set_lib::lemma_int_range(0, 4294967296);
    assert(ints.to_set().subset_of(range)) by {
        assert forall|x: int| ints.to_set().contains(x) implies range.contains(x) by {
            let j = choose|j: int| 0 <= j < ints.len() && ints[j] == x;
            assert(ints[j] == all[j] as int);
        }
    }
    vstd::set_lib::lemma_len_subset(ints.to_set(), range);
}

/// Merges the vertices that have the same key.
///
/// `vertex_keys[v]` is the key of vertex `v`; `index_data` names vertices by
/// position. The result is the list of kept vertices, each given by its
/// position in `vertex_keys`, and `index_data` rewritten to name kept
/// vertices by their position in that list.
pub fn optimize_vertex_index(vertex_keys: &Vec<i128>, index_data: Vec<u32>) -> (r: (
    Vec<u32>,
    Vec<u32>,
))
    requires
        forall|k: int| 0 <= k < index_data@.len() ==> index_data@[k] < vertex_keys@.len(),
    ensures
        is_deduplication(vertex_keys@, index_data@, r.0@, r.1@),
        r.0@.len() <= index_data@.len(),
        forall|m: int| 0 <= m < r.0@.len() ==> #[trigger] r.0@[m] < vertex_keys@.len(),
{
    let mut index_data = index_data;
    let ghost index = index_data@;
    let ghost keys = vertex_keys@;
    let mut kept: Vec<u32> = Vec::new();
    let mut map: std::collections::HashMap<i128, usize> = std::collections::HashMap::new();
    let n = index_data.len();
    let mut i: usize = 0;
    while i < n
        invariant
            n == index.len(),
            index_data@.len() == n,
            keys == vertex_keys@,
            0 <= i <= n,
            forall|k: int| 0 <= k < n ==> index[k] < keys.len(),
            forall|k: int| i <= k < n ==> index_data@[k] == index[k],
            kept@.len() == label_count(index_data@.take(i as int)),
            kept@.len() <= i,
            kept@.len() <= u32::MAX + 1,
            forall|m: int| 0 <= m < kept@.len() ==> #[trigger] kept@[m] < keys.len(),
            forall|key: i128| #[trigger] map@.contains_key(key) ==> {
                &&& map@[key] < kept@.len()
                &&& keys[kept@[map@[key] as int] as int] == key
            },
            forall|m: int| 0 <= m < kept@.len() ==> map@.contains_key(#[trigger] keys[kept@[m] as int]),
            forall|k: int| 0 <= k < i ==> #[trigger] label_ok(keys, index, kept@, index_data@, k),
            forall|a: int, b: int|
                0 <= a < b < kept@.len() ==> keys[kept@[a] as int] != keys[kept@[b] as int],
        decreases n - i,
    {
        let v = index_data[i];
        assert(v == index[i as int]);
        let key = vertex_keys[v as usize];
        let ghost before = index_data@;
        let ghost kept_before = kept@;
        let label: u32;
        match map.get(&key) {
            Some(position) => {
                assert(map@.contains_key(key));
                label = *position as u32;
            },
            None => {
                assert forall|m: int| 0 <= m < kept@.len() implies keys[kept@[m] as int] != keys[v as int] by {
                    assert(map@.contains_key(keys[kept@[m] as int]));
                }
                proof {
                    lemma_label_fits(keys, kept@, v);
                }
                label = kept.len() as u32;
                kept.push(v);
                map.insert(key, kept.len() - 1);
            },
        }
        assert(label < kept@.len());
        assert(keys[kept@[label as int] as int] == key);
        index_data.set(i, label);
        proof {
            assert(index_data@.take(i as int) =~= before.take(i as int));
            assert(index_data@.take(i + 1) =~= before.take(i as int).push(label));
            lemma_label_count_push(before.take(i as int), label);
            assert forall|k: int| 0 <= k < i + 1 implies #[trigger] label_ok(keys, index, kept@, index_data@, k) by {
                if k < i {
                    assert(index_data@.take(k) =~= before.take(k));
                    assert(label_ok(keys, index, kept_before, before, k));
                    assert(kept@[before[k] as int] == kept_before[before[k] as int]);
                }
            }
        }
        i = i + 1;
    }
    proof {
        assert(index_data@.take(n as int) =~= index_data@);
        assert forall|k: int| 0 <= k < index.len() implies #[trigger] index_data@[k] < kept@.len() by {
            assert(label_ok(keys, index, kept@, index_data@, k));
        }
    }
    (kept, index_data)
}

/// The triangles of `index` seen in a mirror, each index moved by `offset`:
/// the first two corners of each triangle swapped.
pub open spec fn mirrored_triangles(index: Seq<u32>, offset: u32) -> Seq<u32> {
    Seq::new(
        index.len(),
        |k: int|
            {
                let corner = if k % 3 == 0 {
                    k + 1
                } else if k % 3 == 1 {
                    k - 1
                } else {
                    k
                };
                (index[corner] + offset) as u32
            },
    )
}

/// The triangles of `index_data` (three indices each) seen in a mirror:
/// the first two corners of each triangle swapped, so that the winding
/// stays the same once the vertices are reflected, and every index moved
/// by `offset` to name the reflected copy of its vertex.
pub fn mirror_triangles(index_data: &Vec<u32>, offset: u32) -> (r: Vec<u32>)
    requires
        index_data@.len() % 3 == 0,
        forall|k: int| 0 <= k < index_data@.len() ==> index_data@[k] + offset <= u32::MAX,
    ensures
        r@ == mirrored_triangles(index_data@, offset),
        r@.len() == index_data@.len(),
        forall|t: int|
            #![trigger r@[3 * t]]
            0 <= t < index_data@.len() / 3 ==> {
                &&& r@[3 * t] == index_data@[3 * t + 1] + offset
                &&& r@[3 * t + 1] == index_data@[3 * t] + offset
                &&& r@[3 * t + 2] == index_data@[3 * t + 2] + offset
            },
{
    let n = index_data.len();
    let triangles = n / 3;
    let mut r: Vec<u32> = Vec::new();
    let mut t: usize = 0;
    while t < triangles
        invariant
            n == index_data@.len(),
            n % 3 == 0,
            triangles == n / 3,
            0 <= t <= triangles,
            r@.len() == 3 * t,
            forall|k: int| 0 <= k < n ==> index_data@[k] + offset <= u32::MAX,
            forall|u: int|
                #![trigger r@[3 * u]]
                0 <= u < t ==> {
                    &&& r@[3 * u] == index_data@[3 * u + 1] + offset
                    &&& r@[3 * u + 1] == index_data@[3 * u] + offset
                    &&& r@[3 * u + 2] == index_data@[3 * u + 2] + offset
                },
        decreases triangles - t,
    {
        let a = index_data[3 * t];
        let b = index_data[3 * t + 1];
        let c = index_data[3 * t + 2];
        let ghost before = r@;
        r.push(b + offset);
        r.push(a + offset);
        r.push(c + offset);
        proof {
            assert forall|u: int| 0 <= u < t + 1 implies {
                &&& #[trigger] r@[3 * u] == index_data@[3 * u + 1] + offset
                &&& r@[3 * u + 1] == index_data@[3 * u] + offset
                &&& r@[3 * u + 2] == index_data@[3 * u + 2] + offset
            } by {
                if u < t {
                    assert(before[3 * u] == r@[3 * u]);
                    assert(before[3 * u + 1] == r@[3 * u + 1]);
                    assert(before[3 * u + 2] == r@[3 * u + 2]);
                }
            }
        }
        t = t + 1;
    }
    proof {
        assert forall|k: int| 0 <= k < n implies #[trigger] r@[k] == mirrored_triangles(index_data@, offset)[k] by {
            let u = k / 3;
            assert(0 <= u < triangles && k == 3 * u + k % 3);
            assert(r@[3 * u] == index_data@[3 * u + 1] + offset);
        }
        assert(r@ =~= mirrored_triangles(index_data@, offset));
    }
    r
}


/// A vertex of the terrain mesh on the grid of half texels: it stands at
/// `(x / 2, y / 2)` in texels.
#[derive(Clone, Copy, Debug, PartialEq, Eq, Structural)]
pub struct GridVertex {
    pub x: i32,
    pub y: i32,
}

/// A piece of the ring mesh.
pub enum Cell {
    /// The square of side `s` with corner `(i, j)`, cut in two triangles.
    Square(int, int, int),
    /// The square of side `to` with corner `(i, j)` that meets squares of
    /// side `from` along its side `x = i`: three triangles fanned from
    /// `(i, j + from)`.
    ColumnJoin(int, int, int, int),
    /// The square of side `to` with corner `(i, j)` that meets squares of
    /// side `from` along its side `y = j`: three triangles fanned from
    /// `(i + from, j)`.
    RowJoin(int, int, int, int),
}

/// Corners of the square of side `s` with corner `(i, j)`, counterclockwise.
pub open spec fn square_corners(i: int, j: int, s: int) -> Seq<(int, int)> {
    seq![(i, j), (i + s, j), (i + s, j + s), (i, j + s)]
}

/// The vertices that a cell adds to the mesh.
pub open spec fn cell_vertices(c: Cell) -> Seq<(int, int)> {
    match c {
        Cell::Square(i, j, s) => square_corners(i, j, s),
        Cell::ColumnJoin(i, j, to, from) => square_corners(i, j, to).push((i, j + from)),
        Cell::RowJoin(i, j, to, from) => square_corners(i, j, to).push((i + from, j)),
    }
}

/// The triangles of a cell, three corners each, as positions among the
/// cell's own vertices.
pub open spec fn cell_corners(c: Cell) -> Seq<int> {
    match c {
        Cell::Square(..) => seq![0, 1, 2, 0, 2, 3],
        Cell::ColumnJoin(..) => seq![4, 0, 1, 4, 1, 2, 4, 2, 3],
        Cell::RowJoin(..) => seq![4, 1, 2, 4, 2, 3, 4, 3, 0],
    }
}

/// The vertices of the cells `cs`, cell after cell.
pub open spec fn mesh_vertices(cs: Seq<Cell>) -> Seq<(int, int)>
    decreases cs.len(),
{
    if cs.len() == 0 {
        Seq::empty()
    } else {
        mesh_vertices(cs.drop_last()) + cell_vertices(cs.last())
    }
}

/// The triangle corners of the cells `cs`, as positions in
/// `mesh_vertices(cs)`.
pub open spec fn mesh_indices(cs: Seq<Cell>) -> Seq<int>
    decreases cs.len(),
{
    if cs.len() == 0 {
        Seq::empty()
    } else {
        let base = mesh_vertices(cs.drop_last()).len() as int;
        mesh_indices(cs.drop_last()) + cell_corners(cs.last()).map_values(|k: int| k + base)
    }
}

/// Positions of the vertices `vs`.
pub open spec fn positions(vs: Seq<GridVertex>) -> Seq<(int, int)> {
    vs.map_values(|v: GridVertex| (v.x as int, v.y as int))
}

/// The mesh being built: vertices and triangle corners.
struct MeshBuilder {
    verts: Vec<GridVertex>,
    idx: Vec<u32>,
}

/// Largest coordinate of a vertex of the ring mesh.
pub const MAX_COORD: i32 = 50000;

impl MeshBuilder {
    /// The builder holds the mesh of `cells`, its triangles name its
    /// vertices, and its coordinates lie in `0..=MAX_COORD`.
    spec fn holds(&self, cells: Seq<Cell>) -> bool {
        &&& positions(self.verts@) == mesh_vertices(cells)
        &&& self.idx@.map_values(|k: u32| k as int) == mesh_indices(cells)
        &&& self.idx@.len() % 3 == 0
        &&& self.idx@.len() <= 2 * self.verts@.len()
        &&& forall|k: int| 0 <= k < self.idx@.len() ==> #[trigger] self.idx@[k] < self.verts@.len()
        &&& forall|k: int|
            0 <= k < self.verts@.len() ==> 0 <= (#[trigger] self.verts@[k]).x <= MAX_COORD && 0
                <= self.verts@[k].y <= MAX_COORD
    }

    /// Adds the vertices `vs` and the corners `corners` (positions among
    /// `vs`) for the cell `c`.
    fn push_cell(&mut self, vs: &Vec<GridVertex>, corners: &Vec<u32>, Ghost(cells): Ghost<Seq<Cell>>, Ghost(c): Ghost<Cell>)
        requires
            old(self).holds(cells),
            positions(vs@) == cell_vertices(c),
            corners@.map_values(|k: u32| k as int) == cell_corners(c),
            corners@.len() % 3 == 0,
            corners@.len() <= 2 * vs@.len(),
            forall|k: int| 0 <= k < corners@.len() ==> #[trigger] corners@[k] < vs@.len(),
            forall|k: int|
                0 <= k < vs@.len() ==> 0 <= (#[trigger] vs@[k]).x <= MAX_COORD && 0 <= vs@[k].y
                    <= MAX_COORD,
            old(self).verts@.len() + vs@.len() <= u32::MAX,
        ensures
            final(self).holds(cells.push(c)),
            final(self).verts@.len() == old(self).verts@.len() + vs@.len(),
    {
        let base = self.verts.len() as u32;
        let ghost old_verts = self.verts@;
        let ghost old_idx = self.idx@;
        let mut k: usize = 0;
        while k < vs.len()
            invariant
                0 <= k <= vs@.len(),
                self.verts@ == old_verts + vs@.take(k as int),
                self.idx@ == old_idx,
            decreases vs@.len() - k,
        {
            self.verts.push(vs[k]);
            proof {
                assert(vs@.take(k + 1) =~= vs@.take(k as int).push(vs@[k as int]));
            }
            k = k + 1;
        }
        let mut t: usize = 0;
        while t < corners.len()
            invariant
                0 <= t <= corners@.len(),
                self.verts@ == old_verts + vs@,
                base == old_verts.len(),
                base + vs@.len() <= u32::MAX,
                forall|q: int| 0 <= q < corners@.len() ==> #[trigger] corners@[q] < vs@.len(),
                self.idx@ == old_idx + corners@.take(t as int).map_values(|q: u32| (q + base) as u32),
            decreases corners@.len() - t,
        {
            self.idx.push(corners[t] + base);
            proof {
                assert(corners@.take(t + 1).map_values(|q: u32| (q + base) as u32)
                    =~= corners@.take(t as int).map_values(|q: u32| (q + base) as u32).push((corners@[t as int] + base) as u32));
            }
            t = t + 1;
        }
        proof {
            assert(vs@.take(vs@.len() as int) =~= vs@);
            assert(corners@.take(corners@.len() as int) =~= corners@);
            let cs2 = cells.push(c);
            assert(cs2.drop_last() =~= cells);
            assert(positions(self.verts@) =~= mesh_vertices(cs2));
            assert(self.idx@.map_values(|q: u32| q as int) =~= mesh_indices(cs2));
        }
    }
}


/// One ring of the mesh around the squares already laid, whose far corner
/// is at `(m, m)`: a ring of squares of side `s`, or the change from squares
/// of side `from` to squares of side `to`.
pub enum Pass {
    Step(int),
    Trans(int, int),
}

/// How far a pass moves the far corner.
pub open spec fn pass_size(p: Pass) -> int {
    match p {
        Pass::Step(s) => s,
        Pass::Trans(_, to) => to,
    }
}

/// How many of `0, s, 2s, ...` are at most `hi`.
pub open spec fn count_upto(hi: int, s: int) -> nat {
    if hi >= 0 {
        (hi / s + 1) as nat
    } else {
        0
    }
}

/// How many of `0, s, 2s, ...` are below `hi`.
pub open spec fn count_below(hi: int, s: int) -> nat {
    if hi > 0 {
        ((hi - 1) / s + 1) as nat
    } else {
        0
    }
}

/// The cells of pass `p` when the far corner is at `(m, m)`: for a change
/// of size, the corner square, then the joins along the column `x = m`,
/// then those along the row `y = m`; for a ring of squares, the squares
/// along the row `y = m`, then those along the column `x = m`.
pub open spec fn pass_cells(p: Pass, m: int) -> Seq<Cell> {
    match p {
        Pass::Trans(from, to) => seq![Cell::Square(m, m, to)] + Seq::new(
            count_upto(m - to, to),
            |k: int| Cell::ColumnJoin(m, k * to, to, from),
        ) + Seq::new(count_upto(m - to, to), |k: int| Cell::RowJoin(k * to, m, to, from)),
        Pass::Step(s) => Seq::new(count_upto(m, s), |k: int| Cell::Square(k * s, m, s)) + Seq::new(
            count_below(m, s),
            |k: int| Cell::Square(m, k * s, s),
        ),
    }
}

impl MeshBuilder {
    fn add_square(&mut self, i: i32, j: i32, s: i32, Ghost(cells): Ghost<Seq<Cell>>)
        requires
            old(self).holds(cells),
            0 <= i,
            0 <= j,
            0 < s,
            i + s <= MAX_COORD,
            j + s <= MAX_COORD,
            old(self).verts@.len() + 4 <= u32::MAX,
        ensures
            final(self).holds(cells.push(Cell::Square(i as int, j as int, s as int))),
            final(self).verts@.len() == old(self).verts@.len() + 4,
    {
        let vs = vec![
            GridVertex { x: i, y: j },
            GridVertex { x: i + s, y: j },
            GridVertex { x: i + s, y: j + s },
            GridVertex { x: i, y: j + s },
        ];
        let corners: Vec<u32> = vec![0, 1, 2, 0, 2, 3];
        let ghost c = Cell::Square(i as int, j as int, s as int);
        proof {
            assert(positions(vs@) =~= cell_vertices(c));
            assert(corners@.map_values(|k: u32| k as int) =~= cell_corners(c));
        }
        self.push_cell(&vs, &corners, Ghost(cells), Ghost(c));
    }

    fn add_column_join(&mut self, i: i32, j: i32, to: i32, from: i32, Ghost(cells): Ghost<Seq<Cell>>)
        requires
            old(self).holds(cells),
            0 <= i,
            0 <= j,
            0 < from < to,
            i + to <= MAX_COORD,
            j + to <= MAX_COORD,
            old(self).verts@.len() + 5 <= u32::MAX,
        ensures
            final(self).holds(cells.push(Cell::ColumnJoin(i as int, j as int, to as int, from as int))),
            final(self).verts@.len() == old(self).verts@.len() + 5,
    {
        let vs = vec![
            GridVertex { x: i, y: j },
            GridVertex { x: i + to, y: j },
            GridVertex { x: i + to, y: j + to },
            GridVertex { x: i, y: j + to },
            GridVertex { x: i, y: j + from },
        ];
        let corners: Vec<u32> = vec![4, 0, 1, 4, 1, 2, 4, 2, 3];
        let ghost c = Cell::ColumnJoin(i as int, j as int, to as int, from as int);
        proof {
            assert(positions(vs@) =~= cell_vertices(c));
            assert(corners@.map_values(|k: u32| k as int) =~= cell_corners(c));
        }
        self.push_cell(&vs, &corners, Ghost(cells), Ghost(c));
    }

    fn add_row_join(&mut self, i: i32, j: i32, to: i32, from: i32, Ghost(cells): Ghost<Seq<Cell>>)
        requires
            old(self).holds(cells),
            0 <= i,
            0 <= j,
            0 < from < to,
            i + to <= MAX_COORD,
            j + to <= MAX_COORD,
            old(self).verts@.len() + 5 <= u32::MAX,
        ensures
            final(self).holds(cells.push(Cell::RowJoin(i as int, j as int, to as int, from as int))),
            final(self).verts@.len() == old(self).verts@.len() + 5,
    {
        let vs = vec![
            GridVertex { x: i, y: j },
            GridVertex { x: i + to, y: j },
            GridVertex { x: i + to, y: j + to },
            GridVertex { x: i, y: j + to },
            GridVertex { x: i + from, y: j },
        ];
        let corners: Vec<u32> = vec![4, 1, 2, 4, 2, 3, 4, 3, 0];
        let ghost c = Cell::RowJoin(i as int, j as int, to as int, from as int);
        proof {
            assert(positions(vs@) =~= cell_vertices(c));
            assert(corners@.map_values(|k: u32| k as int) =~= cell_corners(c));
        }
        self.push_cell(&vs, &corners, Ghost(cells), Ghost(c));
    }
}


/// `k` is how many of `0, s, 2s, ...` lie at most at `hi`.
proof fn lemma_count_upto(hi: int, s: int, k: int)
    requires
        s > 0,
        k >= 0,
        k * s <= hi + s,
        hi < k * s,
    ensures
        count_upto(hi, s) == k,
{
    if hi >= 0 {
        assert(k >= 1) by (nonlinear_arith)
            requires
                hi >= 0,
                hi < k * s,
                s > 0,
                k >= 0,
        ;
        assert((k - 1) * s == k * s - s) by (nonlinear_arith);
        vstd::arithmetic::div_mod::lemma_fundamental_div_mod_converse(hi, s, k - 1, hi - (k - 1) * s);
    } else {
        assert(k == 0) by (nonlinear_arith)
            requires
                k * s <= hi + s,
                hi < 0,
                s > 0,
                k >= 0,
        ;
    }
}

/// `k` is among the values counted by `count_upto(hi, s)`.
proof fn lemma_below_count(hi: int, s: int, k: int)
    requires
        s > 0,
        k >= 0,
        k * s <= hi,
    ensures
        k < count_upto(hi, s),
{
    assert(hi >= 0) by (nonlinear_arith)
        requires
            k >= 0,
            s > 0,
            k * s <= hi,
    ;
    let q = hi / s;
    vstd::arithmetic::div_mod::lemma_fundamental_div_mod(hi, s);
    assert(k <= q) by (nonlinear_arith)
        requires
            k * s <= hi,
            hi == s * q + hi % s,
            0 <= hi % s < s,
            s > 0,
    ;
}

/// Vertices that pass `p` lays around the far corner `(m, m)`.
pub open spec fn pass_vertex_count(p: Pass, m: int) -> int {
    match p {
        Pass::Trans(_, to) => 4 + 10 * (count_upto(m - to, to) as int),
        Pass::Step(s) => 4 * (count_upto(m, s) + count_below(m, s)) as int,
    }
}

impl MeshBuilder {
    /// Lays the cells of the change from squares of side `from` to squares
    /// of side `to` around the far corner `(m, m)`.
    fn add_trans(&mut self, m: i32, from: i32, to: i32, Ghost(cells): Ghost<Seq<Cell>>)
        requires
            old(self).holds(cells),
            0 < from < to,
            0 <= m,
            m + to <= MAX_COORD,
            old(self).verts@.len() + pass_vertex_count(Pass::Trans(from as int, to as int), m as int) <= u32::MAX,
        ensures
            final(self).holds(cells + pass_cells(Pass::Trans(from as int, to as int), m as int)),
            final(self).verts@.len() == old(self).verts@.len() + pass_vertex_count(Pass::Trans(from as int, to as int), m as int),
    {
        let ghost n0 = self.verts@.len();
        let ghost (mi, fi, ti) = (m as int, from as int, to as int);
        let ghost cnt = count_upto(mi - ti, ti);
        let ghost col = |k: int| Cell::ColumnJoin(mi, k * ti, ti, fi);
        let ghost row = |k: int| Cell::RowJoin(k * ti, mi, ti, fi);
        self.add_square(m, m, to, Ghost(cells));
        let ghost c0 = cells.push(Cell::Square(mi, mi, ti));
        let mut j: i32 = 0;
        let ghost mut k: int = 0;
        while j <= m - to
            invariant
                self.holds(c0 + Seq::new(k as nat, col)),
                col == (|q: int| Cell::ColumnJoin(mi, q * ti, ti, fi)),
                mi == m as int,
                fi == from as int,
                ti == to as int,
                cnt == count_upto(mi - ti, ti),
                0 < from < to,
                0 <= m,
                m + to <= MAX_COORD,
                n0 + 4 + 10 * cnt <= u32::MAX,
                0 <= k,
                j == k * to,
                k * to <= m,
                self.verts@.len() == n0 + 4 + 5 * k,
            decreases m - j,
        {
            proof {
                lemma_below_count(mi - ti, ti, k);
            }
            self.add_column_join(m, j, to, from, Ghost(c0 + Seq::new(k as nat, col)));
            proof {
                assert((c0 + Seq::new(k as nat, col)).push(col(k)) =~= c0 + Seq::new((k + 1) as nat, col));
                assert((k + 1) * to == k * to + to) by (nonlinear_arith);
            }
            j = j + to;
            proof {
                k = k + 1;
            }
        }
        proof {
            assert(k * to + to == (k + 1) * to) by (nonlinear_arith);
            lemma_count_upto(m - to, to as int, k);
        }
        let ghost k1 = k;
        let ghost c1 = c0 + Seq::new(k1 as nat, col);
        let mut i: i32 = 0;
        let ghost mut k: int = 0;
        while i <= m - to
            invariant
                self.holds(c1 + Seq::new(k as nat, row)),
                row == (|q: int| Cell::RowJoin(q * ti, mi, ti, fi)),
                mi == m as int,
                fi == from as int,
                ti == to as int,
                cnt == count_upto(mi - ti, ti),
                k1 == cnt,
                0 < from < to,
                0 <= m,
                m + to <= MAX_COORD,
                n0 + 4 + 10 * cnt <= u32::MAX,
                0 <= k,
                i == k * to,
                k * to <= m,
                self.verts@.len() == n0 + 4 + 5 * k1 + 5 * k,
            decreases m - i,
        {
            proof {
                lemma_below_count(mi - ti, ti, k);
            }
            self.add_row_join(i, m, to, from, Ghost(c1 + Seq::new(k as nat, row)));
            proof {
                assert((c1 + Seq::new(k as nat, row)).push(row(k)) =~= c1 + Seq::new((k + 1) as nat, row));
                assert((k + 1) * to == k * to + to) by (nonlinear_arith);
            }
            i = i + to;
            proof {
                k = k + 1;
            }
        }
        proof {
            assert(k * to + to == (k + 1) * to) by (nonlinear_arith);
            lemma_count_upto(m - to, to as int, k);
            assert(k == k1);
            assert(cells + pass_cells(Pass::Trans(fi, ti), mi) =~= c1 + Seq::new(k as nat, row));
        }
    }

    /// Lays a ring of squares of side `s` around the far corner `(m, m)`.
    fn add_step(&mut self, m: i32, s: i32, Ghost(cells): Ghost<Seq<Cell>>)
        requires
            old(self).holds(cells),
            1 <= s,
            0 <= m,
            m + s <= MAX_COORD,
            old(self).verts@.len() + pass_vertex_count(Pass::Step(s as int), m as int) <= u32::MAX,
        ensures
            final(self).holds(cells + pass_cells(Pass::Step(s as int), m as int)),
            final(self).verts@.len() == old(self).verts@.len() + pass_vertex_count(Pass::Step(s as int), m as int),
    {
        let ghost n0 = self.verts@.len();
        let ghost (mi, si) = (m as int, s as int);
        let ghost cu = count_upto(mi, si);
        let ghost cb = count_below(mi, si);
        let ghost along_row = |k: int| Cell::Square(k * si, mi, si);
        let ghost along_col = |k: int| Cell::Square(mi, k * si, si);
        let mut i: i32 = 0;
        let ghost mut k: int = 0;
        while i <= m
            invariant
                self.holds(cells + Seq::new(k as nat, along_row)),
                along_row == (|q: int| Cell::Square(q * si, mi, si)),
                mi == m as int,
                si == s as int,
                cu == count_upto(mi, si),
                cb == count_below(mi, si),
                1 <= s,
                0 <= m,
                m + s <= MAX_COORD,
                n0 + 4 * (cu + cb) <= u32::MAX,
                0 <= k,
                i == k * s,
                k * s <= m + s,
                self.verts@.len() == n0 + 4 * k,
            decreases m + s - i,
        {
            proof {
                lemma_below_count(mi, si, k);
            }
            self.add_square(i, m, s, Ghost(cells + Seq::new(k as nat, along_row)));
            proof {
                assert((cells + Seq::new(k as nat, along_row)).push(along_row(k)) =~= cells + Seq::new((k + 1) as nat, along_row));
                assert((k + 1) * s == k * s + s) by (nonlinear_arith);
            }
            i = i + s;
            proof {
                k = k + 1;
            }
        }
        proof {
            lemma_count_upto(m as int, s as int, k);
        }
        let ghost k1 = k;
        let ghost c1 = cells + Seq::new(k1 as nat, along_row);
        let mut j: i32 = 0;
        let ghost mut k: int = 0;
        while j < m
            invariant
                self.holds(c1 + Seq::new(k as nat, along_col)),
                along_col == (|q: int| Cell::Square(mi, q * si, si)),
                mi == m as int,
                si == s as int,
                cu == count_upto(mi, si),
                cb == count_below(mi, si),
                k1 == cu,
                1 <= s,
                0 <= m,
                m + s <= MAX_COORD,
                n0 + 4 * (cu + cb) <= u32::MAX,
                0 <= k,
                j == k * s,
                k * s < m + s,
                self.verts@.len() == n0 + 4 * k1 + 4 * k,
            decreases m + s - j,
        {
            proof {
                lemma_below_count(mi - 1, si, k);
            }
            self.add_square(m, j, s, Ghost(c1 + Seq::new(k as nat, along_col)));
            proof {
                assert((c1 + Seq::new(k as nat, along_col)).push(along_col(k)) =~= c1 + Seq::new((k + 1) as nat, along_col));
                assert((k + 1) * s == k * s + s) by (nonlinear_arith);
            }
            j = j + s;
            proof {
                k = k + 1;
            }
        }
        proof {
            lemma_count_upto(m - 1, s as int, k);
            assert(count_below(m as int, s as int) == k);
            assert(cells + pass_cells(Pass::Step(si), mi) =~= c1 + Seq::new(k as nat, along_col));
        }
    }
}

/// The unit squares of the `h` x `h` grid, column after column.
pub open spec fn grid_cells(h: int) -> Seq<Cell> {
    Seq::new((h * h) as nat, |k: int| Cell::Square(k / h, k % h, 1))
}

/// The rings laid around the grid: from unit squares to squares of side 2,
/// 31 rings of those, then sides 4, 8, 16 and 32 in the same way, with 31,
/// 31, 127 and 170 rings.
pub open spec fn ring_passes() -> Seq<Pass> {
    seq![Pass::Trans(1, 2)] + Seq::new(31, |k: int| Pass::Step(2)) + seq![Pass::Trans(2, 4)]
        + Seq::new(31, |k: int| Pass::Step(4)) + seq![Pass::Trans(4, 8)] + Seq::new(
        31,
        |k: int| Pass::Step(8),
    ) + seq![Pass::Trans(8, 16)] + Seq::new(127, |k: int| Pass::Step(16)) + seq![Pass::Trans(16, 32)]
        + Seq::new(170, |k: int| Pass::Step(32))
}

/// How far the passes `ps` move the far corner.
pub open spec fn passes_size(ps: Seq<Pass>) -> int
    decreases ps.len(),
{
    if ps.len() == 0 {
        0
    } else {
        passes_size(ps.drop_last()) + pass_size(ps.last())
    }
}

/// The cells of the passes `ps`, the first laid around the far corner
/// `(m, m)`.
pub open spec fn passes_cells(ps: Seq<Pass>, m: int) -> Seq<Cell>
    decreases ps.len(),
{
    if ps.len() == 0 {
        Seq::empty()
    } else {
        passes_cells(ps.drop_last(), m) + pass_cells(ps.last(), m + passes_size(ps.drop_last()))
    }
}

/// The cells of the ring mesh of an `h` x `h` grid: the grid, then the
/// rings.
pub open spec fn ring_cells(h: int) -> Seq<Cell> {
    grid_cells(h) + passes_cells(ring_passes(), h)
}

/// Vertices that the passes `ps` lay, the first around the far corner
/// `(m, m)`.
pub open spec fn passes_vertex_count(ps: Seq<Pass>, m: int) -> int
    decreases ps.len(),
{
    if ps.len() == 0 {
        0
    } else {
        passes_vertex_count(ps.drop_last(), m) + pass_vertex_count(ps.last(), m + passes_size(ps.drop_last()))
    }
}

/// Vertices of the ring mesh of an `h` x `h` grid before merging: four per
/// unit square of the grid, and those of the rings.
pub open spec fn ring_vertex_count(h: int) -> int {
    4 * (h * h) + passes_vertex_count(ring_passes(), h)
}

/// Distinct vertex positions of the ring mesh of an `h` x `h` grid, counted
/// by their keys.
pub open spec fn ring_position_count(h: int) -> nat {
    ring_keys(h).to_set().len()
}

proof fn lemma_passes_push(ps: Seq<Pass>, p: Pass, m: int)
    ensures
        passes_cells(ps.push(p), m) == passes_cells(ps, m) + pass_cells(p, m + passes_size(ps)),
        passes_size(ps.push(p)) == passes_size(ps) + pass_size(p),
        passes_vertex_count(ps.push(p), m) == passes_vertex_count(ps, m) + pass_vertex_count(p, m + passes_size(ps)),
{
    assert(ps.push(p).drop_last() =~= ps);
}

/// The passes that come first lay no more vertices than all of them.
proof fn lemma_passes_vertex_count_prefix(ps: Seq<Pass>, j: int, m: int)
    requires
        0 <= j <= ps.len(),
    ensures
        0 <= passes_vertex_count(ps.take(j), m) <= passes_vertex_count(ps, m),
    decreases ps.len(),
{
    if ps.len() > 0 {
        if j == ps.len() {
            assert(ps.take(j) =~= ps);
            lemma_passes_vertex_count_prefix(ps.drop_last(), j - 1, m);
            assert(ps.drop_last().take(j - 1) =~= ps.drop_last().take(ps.drop_last().len() as int));
            assert(ps.drop_last().take(ps.drop_last().len() as int) =~= ps.drop_last());
        } else {
            assert(ps.take(j) =~= ps.drop_last().take(j));
            lemma_passes_vertex_count_prefix(ps.drop_last(), j, m);
        }
    } else {
        assert(ps.take(j) =~= ps);
    }
}

impl MeshBuilder {
    /// Lays the change from squares of side `from` to squares of side `to`
    /// as the pass after `done`.
    fn add_trans_pass(
        &mut self,
        m: i32,
        from: i32,
        to: i32,
        Ghost(base): Ghost<Seq<Cell>>,
        Ghost(done): Ghost<Seq<Pass>>,
        Ghost(h): Ghost<int>,
    ) -> (m_end: i32)
        requires
            old(self).holds(base + passes_cells(done, h)),
            m == h + passes_size(done),
            0 < from < to,
            0 <= m,
            m + to <= MAX_COORD,
            old(self).verts@.len() + pass_vertex_count(Pass::Trans(from as int, to as int), m as int) <= u32::MAX,
        ensures
            final(self).holds(base + passes_cells(done.push(Pass::Trans(from as int, to as int)), h)),
            m_end == m + to,
            m_end == h + passes_size(done.push(Pass::Trans(from as int, to as int))),
            final(self).verts@.len() == old(self).verts@.len() + pass_vertex_count(Pass::Trans(from as int, to as int), m as int),
    {
        let ghost p = Pass::Trans(from as int, to as int);
        self.add_trans(m, from, to, Ghost(base + passes_cells(done, h)));
        proof {
            lemma_passes_push(done, p, h);
            assert(base + passes_cells(done, h) + pass_cells(p, m as int) =~= base + passes_cells(done.push(p), h));
        }
        m + to
    }

    /// Lays `count` rings of squares of side `s` as the passes after
    /// `done`.
    fn add_step_passes(
        &mut self,
        m: i32,
        s: i32,
        count: i32,
        Ghost(base): Ghost<Seq<Cell>>,
        Ghost(done): Ghost<Seq<Pass>>,
        Ghost(h): Ghost<int>,
    ) -> (m_end: i32)
        requires
            old(self).holds(base + passes_cells(done, h)),
            m == h + passes_size(done),
            1 <= s,
            0 <= count,
            0 <= m,
            m + s * count + s <= MAX_COORD,
            old(self).verts@.len() + passes_vertex_count(done + Seq::new(count as nat, |k: int| Pass::Step(s as int)), h)
                - passes_vertex_count(done, h) <= u32::MAX,
        ensures
            final(self).holds(base + passes_cells(done + Seq::new(count as nat, |k: int| Pass::Step(s as int)), h)),
            m_end == m + s * count,
            m_end == h + passes_size(done + Seq::new(count as nat, |k: int| Pass::Step(s as int))),
            final(self).verts@.len() == old(self).verts@.len() + passes_vertex_count(
                done + Seq::new(count as nat, |k: int| Pass::Step(s as int)),
                h,
            ) - passes_vertex_count(done, h),
    {
        let ghost n0 = self.verts@.len();
        let ghost f = |k: int| Pass::Step(s as int);
        let ghost all = done + Seq::new(count as nat, f);
        let mut mm = m;
        let mut t: i32 = 0;
        proof {
            assert(done + Seq::new(0, f) =~= done);
        }
        while t < count
            invariant
                self.holds(base + passes_cells(done + Seq::new(t as nat, f), h)),
                f == (|k: int| Pass::Step(s as int)),
                all == done + Seq::new(count as nat, f),
                mm == h + passes_size(done + Seq::new(t as nat, f)),
                mm == m + s * t,
                0 <= t <= count,
                1 <= s,
                0 <= m,
                m + s * count + s <= MAX_COORD,
                n0 + passes_vertex_count(all, h) - passes_vertex_count(done, h) <= u32::MAX,
                self.verts@.len() == n0 + passes_vertex_count(done + Seq::new(t as nat, f), h) - passes_vertex_count(done, h),
            decreases count - t,
        {
            let ghost ps = done + Seq::new(t as nat, f);
            let ghost ps1 = ps.push(Pass::Step(s as int));
            proof {
                assert(s * t + s <= s * count) by (nonlinear_arith)
                    requires
                        t < count,
                        s >= 1,
                ;
                lemma_passes_push(ps, Pass::Step(s as int), h);
                assert(ps1 =~= done + Seq::new((t + 1) as nat, f));
                assert(all.take(done.len() + t + 1) =~= ps1);
                lemma_passes_vertex_count_prefix(all, done.len() + t + 1, h);
            }
            self.add_step(mm, s, Ghost(base + passes_cells(ps, h)));
            proof {
                assert(base + passes_cells(ps, h) + pass_cells(Pass::Step(s as int), mm as int) =~= base + passes_cells(ps1, h));
                assert(s * (t + 1) == s * t + s) by (nonlinear_arith);
            }
            mm = mm + s;
            t = t + 1;
        }
        mm
    }

    /// Lays the unit squares of the `h` x `h` grid on an empty builder.
    fn add_grid(&mut self, h: u32)
        requires
            old(self).holds(Seq::empty()),
            old(self).verts@.len() == 0,
            1 <= h,
            4 * (h * h) <= u32::MAX,
        ensures
            final(self).holds(grid_cells(h as int)),
            final(self).verts@.len() == 4 * (h * h),
    {
        let ghost hi = h as int;
        let ghost f = |k: int| Cell::Square(k / hi, k % hi, 1);
        proof {
            assert(hi < 32768) by (nonlinear_arith)
                requires
                    4 * (hi * hi) <= 0xffff_ffff,
                    hi >= 1,
            ;
        }
        let hh = h as i32;
        let mut i: i32 = 0;
        while i < hh
            invariant
                self.holds(Seq::new((i * hi) as nat, f)),
                f == (|k: int| Cell::Square(k / hi, k % hi, 1)),
                hi == h as int,
                hh == h,
                1 <= h < 32768,
                4 * (hi * hi) <= u32::MAX,
                0 <= i <= hh,
                self.verts@.len() == 4 * (i * hi),
            decreases hh - i,
        {
            let mut j: i32 = 0;
            while j < hh
                invariant
                    self.holds(Seq::new((i * hi + j) as nat, f)),
                    f == (|k: int| Cell::Square(k / hi, k % hi, 1)),
                    hi == h as int,
                    hh == h,
                    1 <= h < 32768,
                    4 * (hi * hi) <= u32::MAX,
                    0 <= i < hh,
                    0 <= j <= hh,
                    self.verts@.len() == 4 * (i * hi + j),
                decreases hh - j,
            {
                let ghost k = i * hi + j;
                proof {
                    assert(i * hi + j < hi * hi) by (nonlinear_arith)
                        requires
                            0 <= i < hi,
                            0 <= j < hi,
                    ;
                    vstd::arithmetic::div_mod::lemma_fundamental_div_mod_converse(k, hi, i as int, j as int);
                }
                self.add_square(i, j, 1, Ghost(Seq::new(k as nat, f)));
                proof {
                    assert(Seq::new(k as nat, f).push(f(k)) =~= Seq::new((k + 1) as nat, f));
                }
                j = j + 1;
            }
            proof {
                assert(i * hi + hi == (i + 1) * hi) by (nonlinear_arith);
            }
            i = i + 1;
        }
        proof {
            assert(Seq::new((hh * hi) as nat, f) =~= grid_cells(hi));
        }
    }
}

/// The ring mesh of an `hsize` x `hsize` grid before equal vertices are
/// merged.
fn ring_mesh(hsize: u32) -> (r: (Vec<GridVertex>, Vec<u32>))
    requires
        1 <= hsize,
        ring_vertex_count(hsize as int) <= u32::MAX,
    ensures
        positions(r.0@) == mesh_vertices(ring_cells(hsize as int)),
        r.1@.map_values(|k: u32| k as int) == mesh_indices(ring_cells(hsize as int)),
        r.1@.len() % 3 == 0,
        forall|k: int| 0 <= k < r.1@.len() ==> #[trigger] r.1@[k] < r.0@.len(),
        forall|k: int|
            0 <= k < r.0@.len() ==> 0 <= (#[trigger] r.0@[k]).x <= MAX_COORD && 0 <= r.0@[k].y <= MAX_COORD,
        r.0@.len() == ring_vertex_count(hsize as int),
{
    let ghost h = hsize as int;
    let ghost all = ring_passes();
    proof {
        lemma_passes_vertex_count_prefix(all, 0, h);
        assert(all.take(0) =~= Seq::<Pass>::empty());
        assert(h < 32768) by (nonlinear_arith)
            requires
                4 * (h * h) <= 0xffff_ffff,
                h >= 1,
        ;
    }
    let mut b = MeshBuilder { verts: Vec::new(), idx: Vec::new() };
    proof {
        assert(positions(b.verts@) =~= mesh_vertices(Seq::empty()));
        assert(b.idx@.map_values(|k: u32| k as int) =~= mesh_indices(Seq::empty()));
    }
    b.add_grid(hsize);
    let ghost g = grid_cells(h);
    proof {
        assert(passes_cells(Seq::empty(), h) =~= Seq::<Cell>::empty());
        assert(g + passes_cells(Seq::empty(), h) =~= g);
    }
    let ghost mut done: Seq<Pass> = Seq::empty();
    let mut m = hsize as i32;
    proof {
        assert(all.take(1) =~= done.push(Pass::Trans(1, 2)));
        lemma_passes_vertex_count_prefix(all, 1, h);
        lemma_passes_push(done, Pass::Trans(1, 2), h);
    }
    m = b.add_trans_pass(m, 1, 2, Ghost(g), Ghost(done), Ghost(h));
    proof {
        done = done.push(Pass::Trans(1, 2));
        assert(all.take(32) =~= done + Seq::new(31, |k: int| Pass::Step(2)));
        lemma_passes_vertex_count_prefix(all, 32, h);
    }
    m = b.add_step_passes(m, 2, 31, Ghost(g), Ghost(done), Ghost(h));
    proof {
        done = done + Seq::new(31, |k: int| Pass::Step(2));
        assert(all.take(33) =~= done.push(Pass::Trans(2, 4)));
        lemma_passes_vertex_count_prefix(all, 33, h);
        lemma_passes_push(done, Pass::Trans(2, 4), h);
    }
    m = b.add_trans_pass(m, 2, 4, Ghost(g), Ghost(done), Ghost(h));
    proof {
        done = done.push(Pass::Trans(2, 4));
        assert(all.take(64) =~= done + Seq::new(31, |k: int| Pass::Step(4)));
        lemma_passes_vertex_count_prefix(all, 64, h);
    }
    m = b.add_step_passes(m, 4, 31, Ghost(g), Ghost(done), Ghost(h));
    proof {
        done = done + Seq::new(31, |k: int| Pass::Step(4));
        assert(all.take(65) =~= done.push(Pass::Trans(4, 8)));
        lemma_passes_vertex_count_prefix(all, 65, h);
        lemma_passes_push(done, Pass::Trans(4, 8), h);
    }
    m = b.add_trans_pass(m, 4, 8, Ghost(g), Ghost(done), Ghost(h));
    proof {
        done = done.push(Pass::Trans(4, 8));
        assert(all.take(96) =~= done + Seq::new(31, |k: int| Pass::Step(8)));
        lemma_passes_vertex_count_prefix(all, 96, h);
    }
    m = b.add_step_passes(m, 8, 31, Ghost(g), Ghost(done), Ghost(h));
    proof {
        done = done + Seq::new(31, |k: int| Pass::Step(8));
        assert(all.take(97) =~= done.push(Pass::Trans(8, 16)));
        lemma_passes_vertex_count_prefix(all, 97, h);
        lemma_passes_push(done, Pass::Trans(8, 16), h);
    }
    m = b.add_trans_pass(m, 8, 16, Ghost(g), Ghost(done), Ghost(h));
    proof {
        done = done.push(Pass::Trans(8, 16));
        assert(all.take(224) =~= done + Seq::new(127, |k: int| Pass::Step(16)));
        lemma_passes_vertex_count_prefix(all, 224, h);
    }
    m = b.add_step_passes(m, 16, 127, Ghost(g), Ghost(done), Ghost(h));
    proof {
        done = done + Seq::new(127, |k: int| Pass::Step(16));
        assert(all.take(225) =~= done.push(Pass::Trans(16, 32)));
        lemma_passes_vertex_count_prefix(all, 225, h);
        lemma_passes_push(done, Pass::Trans(16, 32), h);
    }
    m = b.add_trans_pass(m, 16, 32, Ghost(g), Ghost(done), Ghost(h));
    proof {
        done = done.push(Pass::Trans(16, 32));
        assert(all.take(395) =~= done + Seq::new(170, |k: int| Pass::Step(32)));
        assert(all.take(395) =~= all);
    }
    m = b.add_step_passes(m, 32, 170, Ghost(g), Ghost(done), Ghost(h));
    proof {
        done = done + Seq::new(170, |k: int| Pass::Step(32));
        assert(done =~= ring_passes());
    }
    (b.verts, b.idx)
}

/// Key of a vertex position: two positions whose coordinates fit in an
/// `i32` have the same key exactly when they are equal.
pub open spec fn position_key(p: (int, int)) -> int {
    p.0 + p.1 * 0x1_0000_0000
}

/// The vertices of the ring mesh before merging.
pub open spec fn ring_vertices(h: int) -> Seq<(int, int)> {
    mesh_vertices(ring_cells(h))
}

/// The keys of the vertices of the ring mesh before merging.
pub open spec fn ring_keys(h: int) -> Seq<i128> {
    ring_vertices(h).map_values(|p: (int, int)| position_key(p) as i128)
}

/// The triangle corners of the ring mesh before merging.
pub open spec fn ring_index(h: int) -> Seq<u32> {
    mesh_indices(ring_cells(h)).map_values(|k: int| k as u32)
}

/// The positions `vs` reflected across the axis `x = 0`.
pub open spec fn flip_x(vs: Seq<(int, int)>) -> Seq<(int, int)> {
    vs.map_values(|p: (int, int)| (-p.0, p.1))
}

/// The positions `vs` reflected across the axis `y = 0`.
pub open spec fn flip_y(vs: Seq<(int, int)>) -> Seq<(int, int)> {
    vs.map_values(|p: (int, int)| (p.0, -p.1))
}

/// The vertices `v0`, followed by their reflection across `x = 0`, then
/// all of those followed by their reflection across `y = 0`.
pub open spec fn symmetric_vertices(v0: Seq<(int, int)>) -> Seq<(int, int)> {
    let v1 = v0 + flip_x(v0);
    v1 + flip_y(v1)
}

/// The triangles `i0` over `n0` vertices, followed by their mirror image
/// over the reflected vertices, then all of those followed by theirs.
pub open spec fn symmetric_indices(i0: Seq<u32>, n0: nat) -> Seq<u32> {
    let i1 = i0 + mirrored_triangles(i0, n0 as u32);
    i1 + mirrored_triangles(i1, (2 * n0) as u32)
}

/// The keys of the positions of `verts`.
fn keys_of(verts: &Vec<GridVertex>) -> (keys: Vec<i128>)
    ensures
        keys@ == positions(verts@).map_values(|p: (int, int)| position_key(p) as i128),
{
    let mut keys: Vec<i128> = Vec::new();
    let mut k: usize = 0;
    while k < verts.len()
        invariant
            0 <= k <= verts@.len(),
            keys@ == positions(verts@.take(k as int)).map_values(|p: (int, int)| position_key(p) as i128),
        decreases verts@.len() - k,
    {
        let v = verts[k];
        keys.push(v.x as i128 + (v.y as i128) * 0x1_0000_0000i128);
        proof {
            assert(positions(verts@.take(k + 1)).map_values(|p: (int, int)| position_key(p) as i128)
                =~= keys@);
        }
        k = k + 1;
    }
    proof {
        assert(verts@.take(k as int) =~= verts@);
    }
    keys
}

/// The vertices of `verts` at the positions `kept`.
fn gather(verts: &Vec<GridVertex>, kept: &Vec<u32>) -> (v: Vec<GridVertex>)
    requires
        forall|m: int| 0 <= m < kept@.len() ==> #[trigger] kept@[m] < verts@.len(),
    ensures
        v@ == kept@.map_values(|k: u32| verts@[k as int]),
{
    let mut v: Vec<GridVertex> = Vec::new();
    let mut m: usize = 0;
    while m < kept.len()
        invariant
            0 <= m <= kept@.len(),
            forall|q: int| 0 <= q < kept@.len() ==> #[trigger] kept@[q] < verts@.len(),
            v@ == kept@.take(m as int).map_values(|k: u32| verts@[k as int]),
        decreases kept@.len() - m,
    {
        v.push(verts[kept[m] as usize]);
        proof {
            assert(kept@.take(m + 1).map_values(|k: u32| verts@[k as int]) =~= v@);
        }
        m = m + 1;
    }
    proof {
        assert(kept@.take(m as int) =~= kept@);
    }
    v
}

/// `vs` reflected across `x = 0` (when `across_x`) or `y = 0`.
fn reflected(vs: &Vec<GridVertex>, across_x: bool) -> (r: Vec<GridVertex>)
    requires
        forall|k: int|
            0 <= k < vs@.len() ==> -MAX_COORD <= (#[trigger] vs@[k]).x <= MAX_COORD && -MAX_COORD
                <= vs@[k].y <= MAX_COORD,
    ensures
        positions(r@) == if across_x {
            flip_x(positions(vs@))
        } else {
            flip_y(positions(vs@))
        },
        forall|k: int|
            0 <= k < r@.len() ==> -MAX_COORD <= (#[trigger] r@[k]).x <= MAX_COORD && -MAX_COORD
                <= r@[k].y <= MAX_COORD,
{
    let mut r: Vec<GridVertex> = Vec::new();
    let mut k: usize = 0;
    while k < vs.len()
        invariant
            0 <= k <= vs@.len(),
            forall|q: int|
                0 <= q < vs@.len() ==> -MAX_COORD <= (#[trigger] vs@[q]).x <= MAX_COORD && -MAX_COORD
                    <= vs@[q].y <= MAX_COORD,
            positions(r@) == if across_x {
                flip_x(positions(vs@.take(k as int)))
            } else {
                flip_y(positions(vs@.take(k as int)))
            },
            forall|q: int|
                0 <= q < r@.len() ==> -MAX_COORD <= (#[trigger] r@[q]).x <= MAX_COORD && -MAX_COORD
                    <= r@[q].y <= MAX_COORD,
        decreases vs@.len() - k,
    {
        let v = vs[k];
        let ghost before = r@;
        if across_x {
            r.push(GridVertex { x: -v.x, y: v.y });
        } else {
            r.push(GridVertex { x: v.x, y: -v.y });
        }
        proof {
            assert(positions(r@) =~= positions(before).push((r@[k as int].x as int, r@[k as int].y as int)));
            if across_x {
                assert(flip_x(positions(vs@.take(k + 1))) =~= positions(r@));
            } else {
                assert(flip_y(positions(vs@.take(k + 1))) =~= positions(r@));
            }
        }
        k = k + 1;
    }
    proof {
        assert(vs@.take(k as int) =~= vs@);
    }
    r
}

/// The terrain mesh: an `hsize` x `hsize` grid of unit squares, rings of
/// ever larger squares around it, vertices at the same position merged
/// (`optimize_vertex_index`), and the whole reflected across `x = 0`, then
/// across `y = 0`, to cover the four quadrants. The indices are `u32`: the
/// mesh before merging must count at most `u32::MAX` vertices, and the
/// four copies of the merged vertices at most `2^32`.
pub fn create_vertex_index_rings(hsize: u32) -> (r: (Vec<GridVertex>, Vec<u32>))
    requires
        1 <= hsize,
        ring_vertex_count(hsize as int) <= u32::MAX,
        4 * ring_position_count(hsize as int) <= u32::MAX + 1,
    ensures
        exists|kept: Seq<u32>, labels: Seq<u32>|
            #![trigger is_deduplication(ring_keys(hsize as int), ring_index(hsize as int), kept, labels)]
            {
                &&& is_deduplication(ring_keys(hsize as int), ring_index(hsize as int), kept, labels)
                &&& positions(r.0@) == symmetric_vertices(
                    kept.map_values(|v: u32| ring_vertices(hsize as int)[v as int]),
                )
                &&& r.1@ == symmetric_indices(labels, kept.len())
            },
        r.1@.len() % 3 == 0,
        forall|k: int| 0 <= k < r.1@.len() ==> #[trigger] r.1@[k] < r.0@.len(),
{
    let ghost h = hsize as int;
    let (verts, idx) = ring_mesh(hsize);
    let keys = keys_of(&verts);
    proof {
        assert(keys@ =~= ring_keys(h));
        assert(idx@ =~= ring_index(h));
    }
    let (kept, labels) = optimize_vertex_index(&keys, idx);
    let v0 = gather(&verts, &kept);
    let n0 = v0.len();
    proof {
        let ks = kept@.map_values(|v: u32| keys@[v as int]);
        assert forall|a: int, b: int| 0 <= a < ks.len() && 0 <= b < ks.len() && a != b implies ks[a] != ks[b] by {
            if a < b {
                assert(keys@[kept@[a] as int] != keys@[kept@[b] as int]);
            } else {
                assert(keys@[kept@[b] as int] != keys@[kept@[a] as int]);
            }
        }
        ks.unique_seq_to_set();
        assert forall|x: i128| ks.to_set().contains(x) implies keys@.to_set().contains(x) by {
            let i = choose|i: int| 0 <= i < ks.len() && ks[i] == x;
            assert(keys@[kept@[i] as int] == x);
        }
        vstd::seq_lib::seq_to_set_is_finite(keys@);
        vstd::set_lib::lemma_len_subset(ks.to_set(), keys@.to_set());
        assert(n0 <= ring_position_count(h));
        assert(positions(v0@) =~= kept@.map_values(|v: u32| ring_vertices(h)[v as int]));
        assert forall|k: int| 0 <= k < labels@.len() implies #[trigger] labels@[k] < n0 by {
            assert(label_ok(keys@, ring_index(h), kept@, labels@, k));
        }
        assert forall|k: int|
            0 <= k < v0@.len() implies -MAX_COORD <= (#[trigger] v0@[k]).x <= MAX_COORD && -MAX_COORD
                <= v0@[k].y <= MAX_COORD by {
            assert(v0@[k] == verts@[kept@[k] as int]);
        }
    }
    let mut across_x = reflected(&v0, true);
    let ghost ax = across_x@;
    let mut v1 = v0;
    v1.append(&mut across_x);
    proof {
        assert(positions(v1@) =~= positions(v0@) + positions(ax));
    }
    let mut across_y = reflected(&v1, false);
    let ghost ay = across_y@;
    let ghost v1v = v1@;
    let mut v2 = v1;
    v2.append(&mut across_y);
    proof {
        assert(positions(v2@) =~= positions(v1v) + positions(ay));
    }
    let mut m1 = mirror_triangles(&labels, n0 as u32);
    let ghost i0 = labels@;
    let mut i1 = labels;
    i1.append(&mut m1);
    proof {
        assert forall|k: int| 0 <= k < i1@.len() implies #[trigger] i1@[k] < 2 * n0 by {
            if k >= i0.len() {
                let q = k - i0.len();
                let corner = if q % 3 == 0 { q + 1 } else if q % 3 == 1 { q - 1 } else { q };
                assert(0 <= corner < i0.len());
                assert(i0[corner] < n0);
            }
        }
    }
    let mut m2 = mirror_triangles(&i1, (2 * n0) as u32);
    let ghost i1v = i1@;
    let mut i2 = i1;
    i2.append(&mut m2);
    proof {
        assert(positions(v2@) =~= symmetric_vertices(kept@.map_values(|v: u32| ring_vertices(h)[v as int])));
        assert(i2@ =~= symmetric_indices(labels@, kept@.len()));
        assert forall|k: int| 0 <= k < i2@.len() implies #[trigger] i2@[k] < v2@.len() by {
            if k < i1v.len() {
                assert(i2@[k] == i1v[k]);
            } else {
                let q = k - i1v.len();
                let corner = if q % 3 == 0 { q + 1 } else if q % 3 == 1 { q - 1 } else { q };
                assert(0 <= corner < i1v.len());
                assert(i1v[corner] < 2 * n0);
            }
        }
    }
    (v2, i2)
}


/// Positions whose coordinates fit in an `i32` have equal keys only when
/// they are equal.
proof fn lemma_position_key_injective(p: (int, int), q: (int, int))
    requires
        i32::MIN <= p.0 <= i32::MAX,
        i32::MIN <= p.1 <= i32::MAX,
        i32::MIN <= q.0 <= i32::MAX,
        i32::MIN <= q.1 <= i32::MAX,
        position_key(p) == position_key(q),
    ensures
        p == q,
{
    assert(p.1 == q.1) by (nonlinear_arith)
        requires
            p.0 + p.1 * 0x1_0000_0000 == q.0 + q.1 * 0x1_0000_0000,
            -0x8000_0000 <= p.0 < 0x8000_0000,
            -0x8000_0000 <= q.0 < 0x8000_0000,
    ;
}

/// Merging vertices by `position_key` merges exactly the vertices at the
/// same position: the vertices kept stand at pairwise distinct positions,
/// and every triangle corner names a kept vertex at the position of the
/// vertex it named before.
pub proof fn law_merge_by_position(vs: Seq<(int, int)>, index: Seq<u32>, kept: Seq<u32>, labels: Seq<u32>)
    requires
        forall|k: int|
            0 <= k < vs.len() ==> i32::MIN <= (#[trigger] vs[k]).0 <= i32::MAX && i32::MIN <= vs[k].1
                <= i32::MAX,
        forall|k: int| 0 <= k < index.len() ==> #[trigger] index[k] < vs.len(),
        forall|m: int| 0 <= m < kept.len() ==> #[trigger] kept[m] < vs.len(),
        is_deduplication(vs.map_values(|p: (int, int)| position_key(p) as i128), index, kept, labels),
    ensures
        forall|a: int, b: int| 0 <= a < b < kept.len() ==> vs[kept[a] as int] != vs[kept[b] as int],
        forall|k: int|
            0 <= k < index.len() ==> labels[k] < kept.len() && vs[kept[labels[k] as int] as int] == vs[index[k] as int],
{
    let keys = vs.map_values(|p: (int, int)| position_key(p) as i128);
    assert forall|p: (int, int)|
        i32::MIN <= p.0 <= i32::MAX && i32::MIN <= p.1 <= i32::MAX implies #[trigger] position_key(p) as i128
        == position_key(p) by {
        assert(-0x8000_0000 * 0x1_0000_0001 <= position_key(p) <= 0x7fff_ffff * 0x1_0000_0001) by (nonlinear_arith)
            requires
                -0x8000_0000 <= p.0 <= 0x7fff_ffff,
                -0x8000_0000 <= p.1 <= 0x7fff_ffff,
                position_key(p) == p.0 + p.1 * 0x1_0000_0000,
        ;
    }
    assert forall|a: int, b: int| 0 <= a < b < kept.len() implies vs[kept[a] as int] != vs[kept[b] as int] by {
        assert(keys[kept[a] as int] != keys[kept[b] as int]);
        assert(position_key(vs[kept[a] as int]) as i128 == position_key(vs[kept[a] as int]));
        assert(position_key(vs[kept[b] as int]) as i128 == position_key(vs[kept[b] as int]));
    }
    assert forall|k: int|
        0 <= k < index.len() implies labels[k] < kept.len() && vs[kept[labels[k] as int] as int] == vs[index[k] as int] by {
        assert(label_ok(keys, index, kept, labels, k));
        let p = vs[kept[labels[k] as int] as int];
        let q = vs[index[k] as int];
        assert(position_key(p) as i128 == position_key(p));
        assert(position_key(q) as i128 == position_key(q));
        lemma_position_key_injective(p, q);
    }
}


/// `count_upto(hi, s)`.
fn count_upto_of(hi: u128, s: u128) -> (r: u128)
    requires
        s > 0,
        hi < 0x1_0000_0000_0000,
    ensures
        r == count_upto(hi as int, s as int),
        r <= hi + 1,
{
    assert(hi / s <= hi) by (nonlinear_arith)
        requires
            s > 0,
    ;
    hi / s + 1
}

/// `pass_vertex_count(Pass::Trans(from, to), m)`.
fn trans_vertex_count(m: u128, from: u128, to: u128) -> (r: u128)
    requires
        0 < to,
        m < 0x1_0000_0000_0000,
    ensures
        r == pass_vertex_count(Pass::Trans(from as int, to as int), m as int),
        r <= 10 * m + 14,
{
    if m >= to {
        4 + 10 * count_upto_of(m - to, to)
    } else {
        4
    }
}

/// `pass_vertex_count(Pass::Step(s), m)`.
fn step_vertex_count(m: u128, s: u128) -> (r: u128)
    requires
        0 < s,
        m < 0x1_0000_0000_0000,
    ensures
        r == pass_vertex_count(Pass::Step(s as int), m as int),
        r <= 8 * m + 8,
{
    let upto = count_upto_of(m, s);
    let below = if m > 0 {
        count_upto_of(m - 1, s)
    } else {
        0
    };
    4 * (upto + below)
}

/// The vertices of `count` rings of squares of side `s`, laid as the passes
/// after `done`.
fn step_passes_vertex_count(m: u128, s: u128, count: u128, Ghost(done): Ghost<Seq<Pass>>, Ghost(h): Ghost<int>) -> (r: u128)
    requires
        m == h + passes_size(done),
        0 < s <= 32,
        count <= 200,
        m < 0x100_0000_0000,
    ensures
        r == passes_vertex_count(done + Seq::new(count as nat, |k: int| Pass::Step(s as int)), h)
            - passes_vertex_count(done, h),
        m + s * count == h + passes_size(done + Seq::new(count as nat, |k: int| Pass::Step(s as int))),
        r <= count * (8 * (m + 32 * count) + 8),
{
    let ghost f = |k: int| Pass::Step(s as int);
    let mut total: u128 = 0;
    let mut mm = m;
    let mut t: u128 = 0;
    proof {
        assert(done + Seq::new(0, f) =~= done);
    }
    while t < count
        invariant
            f == (|k: int| Pass::Step(s as int)),
            0 <= t <= count,
            count <= 200,
            0 < s <= 32,
            m < 0x100_0000_0000,
            mm == m + s * t,
            mm == h + passes_size(done + Seq::new(t as nat, f)),
            total == passes_vertex_count(done + Seq::new(t as nat, f), h) - passes_vertex_count(done, h),
            total <= t * (8 * (m + 32 * count) + 8),
        decreases count - t,
    {
        let ghost ps = done + Seq::new(t as nat, f);
        proof {
            lemma_passes_push(ps, Pass::Step(s as int), h);
            assert(ps.push(Pass::Step(s as int)) =~= done + Seq::new((t + 1) as nat, f));
            assert(s * t <= 32 * count) by (nonlinear_arith)
                requires
                    s <= 32,
                    t <= count,
            ;
        }
        let c = step_vertex_count(mm, s);
        proof {
            assert(t * (8 * (m + 32 * count) + 8) + (8 * (m + 32 * count) + 8) == (t + 1) * (8 * (m + 32 * count) + 8)) by (nonlinear_arith);
            assert((t + 1) * (8 * (m + 32 * count) + 8) <= 200 * (8 * (0x1_0000_0000_0000 + 6400) + 8)) by (nonlinear_arith)
                requires
                    t + 1 <= 200,
                    m < 0x1_0000_0000_0000,
                    count <= 200,
            ;
            assert(s * (t + 1) == s * t + s) by (nonlinear_arith);
        }
        total = total + c;
        mm = mm + s;
        t = t + 1;
    }
    total
}

/// `ring_vertex_count(hsize)`.
fn ring_vertex_count_of(hsize: u32) -> (r: u128)
    ensures
        r == ring_vertex_count(hsize as int),
{
    let ghost h = hsize as int;
    let ghost all = ring_passes();
    let hh = hsize as u128;
    proof {
        assert(hh * hh <= 0xffff_ffff * 0xffff_ffff) by (nonlinear_arith)
            requires
                hh <= 0xffff_ffff,
        ;
    }
    let mut total: u128 = 4 * (hh * hh);
    let ghost mut done: Seq<Pass> = Seq::empty();
    let mut m: u128 = hh;
    proof {
        assert(passes_vertex_count(done, h) == 0);
    }
    let c = trans_vertex_count(m, 1, 2);
    proof {
        lemma_passes_push(done, Pass::Trans(1, 2), h);
        assert(c == pass_vertex_count(Pass::Trans(1, 2), m as int));
        done = done.push(Pass::Trans(1, 2));
    }
    total = total + c;
    m = m + 2;
    let c = step_passes_vertex_count(m, 2, 31, Ghost(done), Ghost(h));
    proof {
        done = done + Seq::new(31, |k: int| Pass::Step(2));
    }
    total = total + c;
    m = m + 62;
    let c = trans_vertex_count(m, 2, 4);
    proof {
        lemma_passes_push(done, Pass::Trans(2, 4), h);
        assert(c == pass_vertex_count(Pass::Trans(2, 4), m as int));
        done = done.push(Pass::Trans(2, 4));
    }
    total = total + c;
    m = m + 4;
    let c = step_passes_vertex_count(m, 4, 31, Ghost(done), Ghost(h));
    proof {
        done = done + Seq::new(31, |k: int| Pass::Step(4));
    }
    total = total + c;
    m = m + 124;
    let c = trans_vertex_count(m, 4, 8);
    proof {
        lemma_passes_push(done, Pass::Trans(4, 8), h);
        assert(c == pass_vertex_count(Pass::Trans(4, 8), m as int));
        done = done.push(Pass::Trans(4, 8));
    }
    total = total + c;
    m = m + 8;
    let c = step_passes_vertex_count(m, 8, 31, Ghost(done), Ghost(h));
    proof {
        done = done + Seq::new(31, |k: int| Pass::Step(8));
    }
    total = total + c;
    m = m + 248;
    let c = trans_vertex_count(m, 8, 16);
    proof {
        lemma_passes_push(done, Pass::Trans(8, 16), h);
        assert(c == pass_vertex_count(Pass::Trans(8, 16), m as int));
        done = done.push(Pass::Trans(8, 16));
    }
    total = total + c;
    m = m + 16;
    let c = step_passes_vertex_count(m, 16, 127, Ghost(done), Ghost(h));
    proof {
        done = done + Seq::new(127, |k: int| Pass::Step(16));
    }
    total = total + c;
    m = m + 2032;
    let c = trans_vertex_count(m, 16, 32);
    proof {
        lemma_passes_push(done, Pass::Trans(16, 32), h);
        assert(c == pass_vertex_count(Pass::Trans(16, 32), m as int));
        done = done.push(Pass::Trans(16, 32));
    }
    total = total + c;
    m = m + 32;
    let c = step_passes_vertex_count(m, 32, 170, Ghost(done), Ghost(h));
    proof {
        done = done + Seq::new(170, |k: int| Pass::Step(32));
        assert(done =~= ring_passes());
    }
    total = total + c;
    total
}

/// Whether `create_vertex_index_rings(hsize)` can be built: the grid is
/// not empty, the mesh before merging counts at most `u32::MAX` vertices,
/// and the four copies of its distinct positions at most `2^32`.
pub fn ring_mesh_fits(hsize: u32) -> (r: bool)
    ensures
        r == (1 <= hsize && ring_vertex_count(hsize as int) <= u32::MAX && 4 * ring_position_count(
            hsize as int,
        ) <= u32::MAX + 1),
{
    if hsize == 0 {
        return false;
    }
    let raw = ring_vertex_count_of(hsize);
    if raw > 0xffff_ffff {
        return false;
    }
    let ghost h = hsize as int;
    let (verts, _idx) = ring_mesh(hsize);
    let keys = keys_of(&verts);
    let mut set: std::collections::HashSet<i128> = std::collections::HashSet::new();
    let mut k: usize = 0;
    while k < keys.len()
        invariant
            0 <= k <= keys@.len(),
            set@ == keys@.take(k as int).to_set(),
        decreases keys@.len() - k,
    {
        set.insert(keys[k]);
        proof {
            let before = keys@.take(k as int);
            let after = keys@.take(k + 1);
            assert(after =~= before.push(keys@[k as int]));
            assert forall|x: i128| after.contains(x) <==> (before.contains(x) || x == keys@[k as int]) by {
                if after.contains(x) {
                    let i = choose|i: int| 0 <= i < after.len() && after[i] == x;
                    if i < k {
                        assert(before[i] == x);
                    }
                }
                if before.contains(x) {
                    let i = choose|i: int| 0 <= i < before.len() && before[i] == x;
                    assert(after[i] == x);
                }
                if x == keys@[k as int] {
                    assert(after[k as int] == x);
                }
            }
            assert(after.to_set() =~= before.to_set().insert(keys@[k as int]));
        }
        k = k + 1;
    }
    proof {
        assert(keys@.take(k as int) =~= keys@);
        assert(keys@ =~= ring_keys(h));
    }
    let distinct = set.len();
    (distinct as u128) * 4 <= 0x1_0000_0000
}

} // verus!
