//! Triangulation of a sampled parametric surface: the index buffer over a
//! grid of vertices laid out row by row.
use vstd::prelude::*;

verus! {

/// How to render the parametric surface
#[derive(Clone, Copy, Debug, PartialEq, Eq, Structural)]
pub enum SurfaceRenderMode {
    /// Solid filled mesh
    Solid,
    /// Wireframe grid lines
    Wireframe,
    /// Both solid and wireframe
    SolidWithWireframe,
}

/// The two triangles of the grid quad whose top-left vertex is column `j`
/// of row `i`, in a grid `v` vertices wide: (a, b, c) and (b, d, c), with
/// `a`, `b` on row `i` and `c`, `d` below them; each index is cut to 16
/// bits.
pub open spec fn quad_indices(i: nat, j: nat, v: nat) -> Seq<u16> {
    let a = (i * v + j) as u16;
    let b = (i * v + j + 1) as u16;
    let c = ((i + 1) * v + j) as u16;
    let d = ((i + 1) * v + j + 1) as u16;
    seq![a, b, c, b, d, c]
}

/// The quads of row `i`, from column 0 up to column `n`, left to right.
pub open spec fn row_quad_indices(i: nat, v: nat, n: nat) -> Seq<u16>
    decreases n,
{
    if n == 0 {
        Seq::empty()
    } else {
        row_quad_indices(i, v, (n - 1) as nat) + quad_indices(i, (n - 1) as nat, v)
    }
}

/// The triangles between the first `rows` vertex rows of a grid `v`
/// vertices wide: for each pair of neighbouring rows, its `v - 1` quads,
/// top rows first.
pub open spec fn grid_indices(rows: nat, v: nat) -> Seq<u16>
    decreases rows,
{
    if rows <= 1 {
        Seq::empty()
    } else {
        grid_indices((rows - 1) as nat, v) + row_quad_indices((rows - 2) as nat, v, (v - 1) as nat)
    }
}

/// The index buffer of a surface whose first `rows_to_draw` rows of
/// `v_samples` vertices each are drawn.
pub fn surface_indices(rows_to_draw: usize, v_samples: usize) -> (r: Vec<u16>)
    requires
        v_samples >= 1,
        rows_to_draw * v_samples <= usize::MAX,
    ensures
        r@ == grid_indices(rows_to_draw as nat, v_samples as nat),
{
    let mut indices: Vec<u16> = Vec::new();
    let quad_rows: usize = if rows_to_draw > 0 {
        rows_to_draw - 1
    } else {
        0
    };
    let mut i: usize = 0;
    while i < quad_rows
        invariant
            v_samples >= 1,
            rows_to_draw * v_samples <= usize::MAX,
            quad_rows == (if rows_to_draw > 0 { rows_to_draw - 1 } else { 0 }),
            i <= quad_rows,
            indices@ == grid_indices((i + 1) as nat, v_samples as nat),
        decreases quad_rows - i,
    {
        let ghost row_start = indices@;
        proof {
            assert((i + 2) * v_samples <= rows_to_draw * v_samples) by (nonlinear_arith)
                requires
                    i + 2 <= rows_to_draw,
            ;
        }
        let mut j: usize = 0;
        while j < v_samples - 1
            invariant
                v_samples >= 1,
                (i + 2) * v_samples <= usize::MAX,
                i + 2 <= rows_to_draw,
                j <= v_samples - 1,
                indices@ == row_start + row_quad_indices(i as nat, v_samples as nat, j as nat),
            decreases v_samples - 1 - j,
        {
            proof {
                assert((i + 1) * v_samples + j + 1 <= (i + 2) * v_samples) by (nonlinear_arith)
                    requires
                        j + 1 < v_samples,
                ;
                assert(i * v_samples + v_samples == (i + 1) * v_samples) by (nonlinear_arith);
                assert((i + 1) * v_samples <= (i + 2) * v_samples) by (nonlinear_arith);
            }
            let top = i * v_samples + j;
            let bottom = (i + 1) * v_samples + j;
            let a = #[verifier::truncate] (top as u16);
            let b = #[verifier::truncate] ((top + 1) as u16);
            let c = #[verifier::truncate] (bottom as u16);
            let d = #[verifier::truncate] ((bottom + 1) as u16);
            indices.push(a);
            indices.push(b);
            indices.push(c);
            indices.push(b);
            indices.push(d);
            indices.push(c);
            proof {
                assert(indices@ =~= row_start + row_quad_indices(i as nat, v_samples as nat, (j + 1) as nat));
            }
            j += 1;
        }
        proof {
            assert(grid_indices((i + 2) as nat, v_samples as nat) == grid_indices((i + 1) as nat, v_samples as nat)
                + row_quad_indices(i as nat, v_samples as nat, (v_samples - 1) as nat));
        }
        i += 1;
    }
    proof {
        if rows_to_draw == 0 {
            assert(grid_indices(0, v_samples as nat) == Seq::<u16>::empty());
        }
    }
    indices
}

/// Every index of row `i`'s first `n` quads names a vertex of rows `i` or
/// `i + 1`.
proof fn lemma_row_quads_in_range(i: nat, v: nat, n: nat)
    requires
        n < v,
        (i + 2) * v <= 0x10000,
    ensures
        forall|k: int|
            0 <= k < row_quad_indices(i, v, n).len() ==> (#[trigger] row_quad_indices(i, v, n)[k]) < (i
                + 2) * v,
        row_quad_indices(i, v, n).len() == 6 * n,
    decreases n,
{
    if n > 0 {
        let m = (n - 1) as nat;
        lemma_row_quads_in_range(i, v, m);
        let q = quad_indices(i, m, v);
        assert((i + 1) * v + m + 1 < (i + 2) * v) by (nonlinear_arith)
            requires
                m + 1 < v,
        ;
        assert(i * v + m + 1 <= (i + 1) * v + m + 1) by (nonlinear_arith);
        assert(i * v + v == (i + 1) * v) by (nonlinear_arith);
        assert(q[0] == i * v + m && q[1] == i * v + m + 1 && q[2] == (i + 1) * v + m);
        assert(q[3] == i * v + m + 1 && q[4] == (i + 1) * v + m + 1 && q[5] == (i + 1) * v + m);
        let whole = row_quad_indices(i, v, n);
        let prev = row_quad_indices(i, v, m);
        assert forall|k: int| 0 <= k < whole.len() implies (#[trigger] whole[k]) < (i + 2) * v by {
            if k < prev.len() {
                assert(whole[k] == prev[k]);
            } else {
                assert(whole[k] == q[k - prev.len()]);
            }
        }
    }
}

/// Law: when the drawn rows hold no more vertices than a 16-bit index can
/// name, every index of the buffer names one of them: no index is cut, and
/// none points past the drawn rows. The buffer holds two triangles for each
/// quad between neighbouring drawn rows.
pub proof fn lemma_indices_name_drawn_vertices(rows: nat, v: nat)
    requires
        v >= 1,
        rows * v <= 0x10000,
    ensures
        forall|k: int| 0 <= k < grid_indices(rows, v).len() ==> (#[trigger] grid_indices(rows, v)[k]) < rows * v,
        grid_indices(rows, v).len() == 6 * (if rows > 0 { (rows - 1) as nat } else { 0 }) * (v - 1),
    decreases rows,
{
    if rows > 1 {
        let r1 = (rows - 1) as nat;
        assert(r1 * v <= rows * v) by (nonlinear_arith)
            requires
                r1 <= rows,
        ;
        lemma_indices_name_drawn_vertices(r1, v);
        let i = (rows - 2) as nat;
        assert((i + 2) * v == rows * v);
        lemma_row_quads_in_range(i, v, (v - 1) as nat);
        let whole = grid_indices(rows, v);
        let prev = grid_indices(r1, v);
        let row = row_quad_indices(i, v, (v - 1) as nat);
        assert forall|k: int| 0 <= k < whole.len() implies (#[trigger] whole[k]) < rows * v by {
            if k < prev.len() {
                assert(whole[k] == prev[k]);
            } else {
                assert(whole[k] == row[k - prev.len()]);
            }
        }
        assert(6 * r1 * (v - 1) == 6 * ((r1 - 1) as nat) * (v - 1) + 6 * (v - 1)) by (nonlinear_arith)
            requires
                r1 >= 1,
        ;
        assert(whole.len() == prev.len() + row.len());
    } else {
        assert(grid_indices(rows, v).len() == 0);
        assert(6 * (if rows > 0 { (rows - 1) as nat } else { 0 }) * (v - 1) == 0) by (nonlinear_arith)
            requires
                rows <= 1,
        ;
    }
}

} // verus!
