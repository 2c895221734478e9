//! Anchors of Single-Shot MultiBox Detectors.
//!
//! A detector network predicts, for each anchor, a box relative to the
//! anchor's center. The anchors are laid out on one grid per output layer, in
//! the order in which the network emits its predictions.

use vstd::arithmetic::div_mod::lemma_fundamental_div_mod_converse;
use vstd::prelude::*;

verus! {

/// The grid of one output layer.
#[derive(PartialEq, Eq, Structural, Clone, Copy, Debug)]
pub struct LayerInfo {
    pub anchors_per_cell: u32,
    pub grid_cols: u32,
    pub grid_rows: u32,
}

/// The layers of a detector network, in output order.
pub struct AnchorParams<'a> {
    pub layers: &'a [LayerInfo],
}

/// An anchor: the center of the grid cell `(cell_x, cell_y)` of a grid of
/// `cols` by `rows` cells that spans the detector's input. In coordinates
/// that run from 0 to 1 over the input, the center lies at
/// `((cell_x + 0.5) / cols, (cell_y + 0.5) / rows)`.
#[derive(PartialEq, Eq, Structural, Clone, Copy, Debug)]
pub struct Anchor {
    pub cell_x: u32,
    pub cell_y: u32,
    pub cols: u32,
    pub rows: u32,
}

/// The anchors of a detector network, in output order.
pub struct Anchors {
    anchors: Vec<Anchor>,
}

/// The number of anchors of one layer.
pub open spec fn layer_count(layer: LayerInfo) -> nat {
    (layer.anchors_per_cell * layer.grid_cols * layer.grid_rows) as nat
}

/// The number of anchors of the first `n` layers.
pub open spec fn anchor_total(layers: Seq<LayerInfo>, n: int) -> nat
    decreases n,
{
    if n <= 0 {
        0
    } else {
        anchor_total(layers, n - 1) + layer_count(layers[n - 1])
    }
}

/// The `k`-th anchor of a layer: the cells are walked row by row, and each
/// cell gives `anchors_per_cell` anchors.
pub open spec fn layer_anchor(layer: LayerInfo, k: int) -> Anchor {
    let cell = k / (layer.anchors_per_cell as int);
    Anchor {
        cell_x: (cell % (layer.grid_cols as int)) as u32,
        cell_y: (cell / (layer.grid_cols as int)) as u32,
        cols: layer.grid_cols,
        rows: layer.grid_rows,
    }
}

/// The anchors of the first `n` layers: those of each layer after those of
/// the layers before it.
pub open spec fn anchors_of(layers: Seq<LayerInfo>, n: int) -> Seq<Anchor>
    decreases n,
{
    if n <= 0 {
        Seq::empty()
    } else {
        anchors_of(layers, n - 1) + Seq::new(
            layer_count(layers[n - 1]),
            |k: int| layer_anchor(layers[n - 1], k),
        )
    }
}

/// There are as many anchors as the layers' counts add up to.
pub proof fn lemma_anchor_count(layers: Seq<LayerInfo>, n: int)
    ensures
        anchors_of(layers, n).len() == anchor_total(layers, n),
    decreases n,
{
    if n > 0 {
        lemma_anchor_count(layers, n - 1);
    }
}

/// Within a layer, anchor `(y * cols + x) * per_cell + a` belongs to the
/// cell `(x, y)`.
pub proof fn lemma_layer_anchor(layer: LayerInfo, x: int, y: int, a: int)
    requires
        0 <= x < layer.grid_cols,
        0 <= y < layer.grid_rows,
        0 <= a < layer.anchors_per_cell,
    ensures
        0 <= (y * layer.grid_cols + x) * layer.anchors_per_cell + a < layer_count(layer),
        layer_anchor(layer, (y * layer.grid_cols + x) * layer.anchors_per_cell + a) == (Anchor {
            cell_x: x as u32,
            cell_y: y as u32,
            cols: layer.grid_cols,
            rows: layer.grid_rows,
        }),
{
    let cols = layer.grid_cols as int;
    let rows = layer.grid_rows as int;
    let per = layer.anchors_per_cell as int;
    let cell = y * cols + x;
    assert(0 <= y * cols && y * cols + cols <= rows * cols) by (nonlinear_arith)
        requires
            0 <= y < rows,
            0 <= cols,
    ;
    assert(0 <= cell * per && cell * per + per <= (rows * cols) * per) by (nonlinear_arith)
        requires
            0 <= cell,
            cell + 1 <= rows * cols,
            0 <= per,
    ;
    assert((rows * cols) * per == per * cols * rows) by (nonlinear_arith);
    lemma_fundamental_div_mod_converse(cell * per + a, per, cell, a);
    lemma_fundamental_div_mod_converse(cell, cols, y, x);
}

/// Every anchor of a layer is the center of a cell of that layer's grid, and
/// so lies strictly inside the input.
pub proof fn lemma_layer_anchor_inside(layer: LayerInfo, k: int)
    requires
        0 <= k < layer_count(layer),
    ensures
        layer_anchor(layer, k).cell_x < layer.grid_cols,
        layer_anchor(layer, k).cell_y < layer.grid_rows,
        layer_anchor(layer, k).centered(),
{
    let cols = layer.grid_cols as int;
    let rows = layer.grid_rows as int;
    let per = layer.anchors_per_cell as int;
    assert(per > 0 && cols > 0 && rows > 0) by (nonlinear_arith)
        requires
            0 <= k < per * cols * rows,
            per >= 0,
            cols >= 0,
            rows >= 0,
    ;
    let cell = k / per;
    assert(0 <= cell < cols * rows) by (nonlinear_arith)
        requires
            0 <= k < per * cols * rows,
            per > 0,
            cell == k / per,
    ;
    assert(0 <= cell / cols < rows) by (nonlinear_arith)
        requires
            0 <= cell < cols * rows,
            cols > 0,
    ;
    assert(0 <= cell % cols < cols) by (nonlinear_arith)
        requires
            cols > 0,
    ;
}

/// Every anchor lies strictly inside the input: twice its center, taken in
/// cells, is an odd number between 0 and twice the size of the grid.
pub proof fn lemma_anchors_inside(layers: Seq<LayerInfo>, n: int, k: int)
    requires
        0 <= n <= layers.len(),
        0 <= k < anchors_of(layers, n).len(),
    ensures
        anchors_of(layers, n)[k].centered(),
    decreases n,
{
    lemma_anchor_count(layers, n - 1);
    if k < anchors_of(layers, n - 1).len() {
        lemma_anchors_inside(layers, n - 1, k);
    } else {
        lemma_layer_anchor_inside(layers[n - 1], k - anchors_of(layers, n - 1).len());
    }
}

impl LayerInfo {
    /// A layer with a grid of `grid_cols` by `grid_rows` cells and
    /// `anchors_per_cell` anchors in each.
    pub fn new(anchors_per_cell: u32, grid_cols: u32, grid_rows: u32) -> (layer: LayerInfo)
        ensures
            layer == (LayerInfo { anchors_per_cell, grid_cols, grid_rows }),
    {
        LayerInfo { anchors_per_cell, grid_cols, grid_rows }
    }
}

impl Anchor {
    /// The center lies strictly between 0 and 1 in both directions:
    /// `0 < cell + 0.5 < size`, said in halves.
    pub open spec fn centered(&self) -> bool {
        &&& 0 < 2 * self.cell_x + 1 < 2 * self.cols
        &&& 0 < 2 * self.cell_y + 1 < 2 * self.rows
    }

    /// The column of the anchor's cell.
    pub fn cell_x(&self) -> (x: u32)
        ensures
            x == self.cell_x,
    {
        self.cell_x
    }

    /// The row of the anchor's cell.
    pub fn cell_y(&self) -> (y: u32)
        ensures
            y == self.cell_y,
    {
        self.cell_y
    }

    /// The numerator and the denominator of the center's x coordinate, as a
    /// fraction of the input's width.
    pub fn x_center(&self) -> (fraction: (u64, u64))
        ensures
            fraction.0 == 2 * self.cell_x + 1,
            fraction.1 == 2 * self.cols,
    {
        (2 * (self.cell_x as u64) + 1, 2 * (self.cols as u64))
    }

    /// The numerator and the denominator of the center's y coordinate, as a
    /// fraction of the input's height.
    pub fn y_center(&self) -> (fraction: (u64, u64))
        ensures
            fraction.0 == 2 * self.cell_y + 1,
            fraction.1 == 2 * self.rows,
    {
        (2 * (self.cell_y as u64) + 1, 2 * (self.rows as u64))
    }
}

impl Anchors {
    /// The anchors, in output order.
    pub closed spec fn view(&self) -> Seq<Anchor> {
        self.anchors@
    }

    /// Lays out the anchors of the given layers: for each layer, for each
    /// row of its grid, for each cell of the row, `anchors_per_cell` anchors
    /// at the center of the cell.
    pub fn calculate(params: &AnchorParams) -> (anchors: Anchors)
        requires
            anchor_total(params.layers@, params.layers@.len() as int) <= usize::MAX,
        ensures
            anchors@ == anchors_of(params.layers@, params.layers@.len() as int),
            anchors@.len() == anchor_total(params.layers@, params.layers@.len() as int),
            forall|k: int| 0 <= k < anchors@.len() ==> (#[trigger] anchors@[k]).centered(),
    {
        let layers = params.layers;
        let mut list: Vec<Anchor> = Vec::new();
        let mut n: usize = 0;
        while n < layers.len()
            invariant
                n <= layers@.len(),
                list@ == anchors_of(layers@, n as int),
            decreases layers@.len() - n,
        {
            let layer = layers[n];
            let ghost before = list@;
            assert((0 * layer.grid_cols) * layer.anchors_per_cell == 0) by (nonlinear_arith);
            let mut y: u32 = 0;
            while y < layer.grid_rows
                invariant
                    y <= layer.grid_rows,
                    n < layers@.len(),
                    layer == layers@[n as int],
                    list@.len() == before.len() + (y * layer.grid_cols) * layer.anchors_per_cell,
                    forall|k: int| 0 <= k < before.len() ==> list@[k] == before[k],
                    forall|k: int|
                        0 <= k < list@.len() - before.len() ==> #[trigger] list@[before.len() + k]
                            == layer_anchor(layer, k),
                decreases layer.grid_rows - y,
            {
                let mut x: u32 = 0;
                while x < layer.grid_cols
                    invariant
                        y < layer.grid_rows,
                        x <= layer.grid_cols,
                        n < layers@.len(),
                    layer == layers@[n as int],
                        list@.len() == before.len() + (y * layer.grid_cols + x)
                            * layer.anchors_per_cell,
                        forall|k: int| 0 <= k < before.len() ==> list@[k] == before[k],
                        forall|k: int|
                            0 <= k < list@.len() - before.len() ==> #[trigger] list@[before.len()
                                + k] == layer_anchor(layer, k),
                    decreases layer.grid_cols - x,
                {
                    let mut a: u32 = 0;
                    while a < layer.anchors_per_cell
                        invariant
                            y < layer.grid_rows,
                            x < layer.grid_cols,
                            a <= layer.anchors_per_cell,
                            n < layers@.len(),
                    layer == layers@[n as int],
                            list@.len() == before.len() + (y * layer.grid_cols + x)
                                * layer.anchors_per_cell + a,
                            forall|k: int| 0 <= k < before.len() ==> list@[k] == before[k],
                            forall|k: int|
                                0 <= k < list@.len() - before.len() ==> #[trigger] list@[before.len()
                                    + k] == layer_anchor(layer, k),
                        decreases layer.anchors_per_cell - a,
                    {
                        proof {
                            lemma_layer_anchor(layer, x as int, y as int, a as int);
                        }
                        list.push(
                            Anchor {
                                cell_x: x,
                                cell_y: y,
                                cols: layer.grid_cols,
                                rows: layer.grid_rows,
                            },
                        );
                        a += 1;
                    }
                    assert((y * layer.grid_cols + x) * layer.anchors_per_cell
                        + layer.anchors_per_cell == (y * layer.grid_cols + (x + 1))
                        * layer.anchors_per_cell) by (nonlinear_arith);
                    x += 1;
                }
                assert((y * layer.grid_cols + layer.grid_cols) == (y + 1) * layer.grid_cols)
                    by (nonlinear_arith);
                assert(((y + 1) * layer.grid_cols + 0) * layer.anchors_per_cell == ((y + 1)
                    * layer.grid_cols) * layer.anchors_per_cell);
                y += 1;
            }
            proof {
                assert((layer.grid_rows * layer.grid_cols) * layer.anchors_per_cell
                    == layer.anchors_per_cell * layer.grid_cols * layer.grid_rows)
                    by (nonlinear_arith);
                assert(list@.len() == before.len() + layer_count(layer));
                let added = Seq::new(layer_count(layer), |k: int| layer_anchor(layer, k));
                assert forall|k: int| 0 <= k < list@.len() implies list@[k] == (before + added)[k] by {
                    if k >= before.len() {
                        assert(list@[before.len() + (k - before.len())] == layer_anchor(
                            layer,
                            k - before.len(),
                        ));
                    }
                }
                assert(list@ =~= before + added);
            }
            n += 1;
        }
        proof {
            lemma_anchor_count(layers@, layers@.len() as int);
            assert forall|k: int| 0 <= k < list@.len() implies (#[trigger] list@[k]).centered() by {
                lemma_anchors_inside(layers@, layers@.len() as int, k);
            }
        }
        Anchors { anchors: list }
    }

    /// Returns the number of anchors.
    pub fn anchor_count(&self) -> (count: usize)
        ensures
            count == self@.len(),
    {
        self.anchors.len()
    }

    /// Returns the anchor at `index` in output order.
    pub fn index(&self, index: usize) -> (anchor: &Anchor)
        requires
            index < self@.len(),
        ensures
            *anchor == self@[index as int],
    {
        &self.anchors[index]
    }
}

} // verus!
