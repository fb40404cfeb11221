use vstd::prelude::*;

verus! {

/// A cell state: an index into a palette or rule table, bounded above
/// (exclusively) by the automaton's configured state count.
pub type Cell = u32;

/// The mathematical contents of a two-dimensional grid: one sequence of
/// cell states per row.
pub open spec fn grid_view(cells: Vec<Vec<Cell>>) -> Seq<Seq<Cell>> {
    cells@.map_values(|r: Vec<Cell>| r@)
}

/// A well-formed two-dimensional grid: `h` rows of identical length `w`.
pub open spec fn grid2_wf(g: Seq<Seq<Cell>>, h: int, w: int) -> bool {
    &&& g.len() == h
    &&& forall|r: int| 0 <= r < h ==> (#[trigger] g[r]).len() == w
}

/// Every cell of a one-dimensional grid lies below `states`.
pub open spec fn cells1_bounded(cells: Seq<Cell>, states: int) -> bool {
    forall|i: int| 0 <= i < cells.len() ==> #[trigger] cells[i] < states
}

/// Every cell of a two-dimensional grid lies below `states`.
pub open spec fn cells2_bounded(g: Seq<Seq<Cell>>, states: int) -> bool {
    forall|r: int, c: int|
        0 <= r < g.len() && 0 <= c < g[r].len() ==> #[trigger] g[r][c] < states
}

/// True when the value `v` occurs in the sequence `s`.
pub open spec fn seq_has(s: Seq<Cell>, v: int) -> bool {
    exists|i: int| 0 <= i < s.len() && s[i] == v
}

} // verus!
