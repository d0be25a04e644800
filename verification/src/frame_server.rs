use vstd::prelude::*;

verus! {

/// The frame the next step starts from: the last of the frames that
/// players sent to replace the game, or else the frame just computed.
pub fn frame_to_continue<F>(old_frame: F, replacements: Vec<F>) -> (r: F)
    ensures
        r == if replacements@.len() > 0 {
            replacements@.last()
        } else {
            old_frame
        },
{
    let mut replacements = replacements;
    match replacements.pop() {
        Some(frame) => frame,
        None => old_frame,
    }
}

/// The number of the frame after frame `number`.
pub fn next_frame_number(number: i32) -> (r: i32)
    requires
        number < i32::MAX,
    ensures
        r == number + 1,
{
    number + 1
}


/// Offsets from a cell of a grid `w` cells wide to its eight neighbours,
/// in the order units are filed into them. A cell at the end of a row
/// counts the first cell of the next row as its neighbour, as the grid is
/// read as one row-major list.
pub open spec fn neighbour_offsets(w: int) -> Seq<int> {
    seq![-1 - w, -w, 1 - w, -1, 1, -1 + w, w, 1 + w]
}

/// The cells a unit in cell `gp` is filed into, of a grid `grid_w` cells
/// wide holding `cell_count` cells: its own cell, then each neighbour that
/// lies in the grid.
pub open spec fn filed_cells(gp: int, grid_w: int, cell_count: int) -> Seq<int> {
    seq![gp] + neighbour_offsets(grid_w).map_values(|o: int| gp + o).filter(|c: int| 0 <= c < cell_count)
}

/// The cells a unit in cell `gp` is filed into.
pub fn neighbour_cells(gp: usize, grid_w: usize, cell_count: usize) -> (r: Vec<usize>)
    requires
        gp < cell_count,
        gp + grid_w + 1 <= i32::MAX,
    ensures
        r@.map_values(|c: usize| c as int) == filed_cells(gp as int, grid_w as int, cell_count as int),
{
    let w = grid_w as i64;
    let g = gp as i64;
    let up_left = -1 - w;
    let up = 0 - w;
    let up_right = 1 - w;
    let down_left = w - 1;
    let offsets: Vec<i64> = vec![up_left, up, up_right, -1, 1, down_left, w, 1 + w];
    let ghost all = neighbour_offsets(grid_w as int).map_values(|o: int| gp + o);
    let ghost pred = |c: int| 0 <= c < cell_count;
    proof {
        reveal(Seq::filter);
        assert(offsets@.map_values(|o: i64| o as int) =~= neighbour_offsets(grid_w as int));
        assert(all.take(0) =~= Seq::<int>::empty());
        assert(Seq::<int>::empty().filter(pred) =~= Seq::<int>::empty());
    }
    let mut r: Vec<usize> = vec![gp];
    let mut k: usize = 0;
    while k < offsets.len()
        invariant
            0 <= k <= offsets@.len(),
            offsets@.len() == 8,
            offsets@.map_values(|o: i64| o as int) == neighbour_offsets(grid_w as int),
            all == neighbour_offsets(grid_w as int).map_values(|o: int| gp + o),
            pred == (|c: int| 0 <= c < cell_count),
            g == gp,
            gp + grid_w + 1 <= i32::MAX,
            r@.map_values(|c: usize| c as int) == seq![gp as int] + all.take(k as int).filter(pred),
        decreases offsets@.len() - k,
    {
        let c = g + offsets[k];
        let ghost before = r@;
        proof {
            reveal(Seq::filter);
            assert(all.take(k + 1).drop_last() =~= all.take(k as int));
            assert(all.take(k + 1).last() == c);
            assert(all.take(k + 1).filter(pred) == if pred(c as int) {
                all.take(k as int).filter(pred).push(c as int)
            } else {
                all.take(k as int).filter(pred)
            });
        }
        if c >= 0 && (c as u64) < (cell_count as u64) {
            r.push(c as usize);
            proof {
                assert(r@.map_values(|x: usize| x as int) =~= before.map_values(|x: usize| x as int).push(c as int));
            }
        }
        k = k + 1;
    }
    proof {
        assert(all.take(8) =~= all);
    }
    r
}


/// A unit in cell `gp` is filed first into its own cell, then into exactly
/// those of the eight cells around it in the row-major list (one row up,
/// its own row, one row down; one column left, the same, one right) that
/// lie in the grid; no cell outside the grid is ever listed.
pub proof fn law_filed_cells(gp: int, grid_w: int, cell_count: int, c: int)
    requires
        0 <= gp < cell_count,
    ensures
        filed_cells(gp, grid_w, cell_count)[0] == gp,
        filed_cells(gp, grid_w, cell_count).contains(c) <==> (c == gp || (0 <= c < cell_count && (c == gp
            - grid_w - 1 || c == gp - grid_w || c == gp - grid_w + 1 || c == gp - 1 || c == gp + 1 || c == gp
            + grid_w - 1 || c == gp + grid_w || c == gp + grid_w + 1))),
{
    let pred = |x: int| 0 <= x < cell_count;
    let m = neighbour_offsets(grid_w).map_values(|o: int| gp + o);
    let f = m.filter(pred);
    let all = seq![gp] + f;
    assert(all[0] == gp);
    let near = c == gp - grid_w - 1 || c == gp - grid_w || c == gp - grid_w + 1 || c == gp - 1 || c == gp + 1
        || c == gp + grid_w - 1 || c == gp + grid_w || c == gp + grid_w + 1;
    assert(m.len() == 8);
    assert(m[0] == gp - grid_w - 1 && m[1] == gp - grid_w && m[2] == gp - grid_w + 1 && m[3] == gp - 1);
    assert(m[4] == gp + 1 && m[5] == gp + grid_w - 1 && m[6] == gp + grid_w && m[7] == gp + grid_w + 1);
    if all.contains(c) {
        if c != gp {
            let i = choose|i: int| 0 <= i < all.len() && all[i] == c;
            assert(i >= 1);
            assert(f[i - 1] == c);
            assert(f.contains(c));
            m.lemma_filter_contains_rev(pred, c);
            m.lemma_filter_pred(pred, i - 1);
            let j = choose|j: int| 0 <= j < m.len() && m[j] == c;
            assert(near);
        }
    }
    if c == gp {
        assert(all[0] == c);
    } else if 0 <= c < cell_count && near {
        let j = if c == m[0] { 0 } else if c == m[1] { 1 } else if c == m[2] { 2 } else if c == m[3] {
            3
        } else if c == m[4] { 4 } else if c == m[5] { 5 } else if c == m[6] { 6 } else { 7 };
        assert(m[j] == c);
        m.lemma_filter_contains(pred, j);
        let i = choose|i: int| 0 <= i < f.len() && f[i] == c;
        assert(all[i + 1] == c);
    }
}

} // verus!
