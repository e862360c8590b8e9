use vstd::prelude::*;
use crate::diag::{DiagCode, Error, text};
use crate::ids::NodeId;
use crate::model::{Cell, GridCol, Row, TableBlock};
use crate::text::{decimal, spec_decimal};
use crate::xml::{QName, NsId, LocalName, NewElement, NewNode};

verus! {

/// A row laid out on the declared grid.
#[derive(Debug)]
pub struct RowGeometry {
    pub node: NodeId,
    /// `gridBefore` / `gridAfter`.
    pub before: u32,
    pub after: u32,
    /// Each physical cell: (`w:tc`, first column, span).
    pub cells: Vec<(NodeId, u32, u32)>,
}

/// A table laid out on its declared grid.
#[derive(Debug)]
pub struct Geometry {
    pub cols: u32,
    pub rows: Vec<RowGeometry>,
    /// `tblGrid/gridCol` nodes and declared widths.
    pub grid: Vec<(NodeId, i32)>,
}

/// Sum of the spans of the first `k` cells.
pub open spec fn spans(cells: Seq<(NodeId, u32, u32)>, k: int) -> int
    decreases k,
{
    if k <= 0 {
        0
    } else {
        spans(cells, k - 1) + cells[k - 1].2
    }
}

/// Grid columns a row takes: before + cell spans + after.
pub open spec fn row_width(r: RowGeometry) -> int {
    r.before + spans(r.cells@, r.cells@.len() as int) + r.after
}

/// The index of the first cell covering column `col`, from cell `k` on.
pub open spec fn cell_covering(cells: Seq<(NodeId, u32, u32)>, col: int, k: int) -> Option<int>
    decreases cells.len() - k,
{
    if k < 0 || k >= cells.len() {
        None
    } else if cells[k].1 <= col && col < cells[k].1 + cells[k].2 {
        Some(k)
    } else {
        cell_covering(cells, col, k + 1)
    }
}

/// Every row is exactly as wide as the declared grid (and there is one).
pub open spec fn spec_consistent(g: Geometry) -> bool {
    g.cols > 0 && forall|i: int| 0 <= i < g.rows@.len() ==> row_width(#[trigger] g.rows@[i]) == g.cols
}

pub proof fn lemma_spans_mono(cells: Seq<(NodeId, u32, u32)>, a: int, b: int)
    requires
        0 <= a <= b,
    ensures
        spans(cells, a) <= spans(cells, b),
    decreases b - a,
{
    if a < b {
        lemma_spans_mono(cells, a, b - 1);
    }
}

impl RowGeometry {
    /// The grid columns this row takes.
    pub fn width(&self) -> (r: u32)
        requires
            row_width(*self) <= u32::MAX,
        ensures
            r == row_width(*self),
    {
        let mut sum: u32 = self.before;
        for k in 0..self.cells.len()
            invariant
                row_width(*self) <= u32::MAX,
                sum == self.before + spans(self.cells@, k as int),
        {
            proof {
                lemma_spans_mono(self.cells@, k as int + 1, self.cells@.len() as int);
            }
            sum = sum + self.cells[k].2;
        }
        sum + self.after
    }

    /// The index in `cells` of the cell covering column `col`.
    pub fn cell_at(&self, col: u32) -> (r: Option<usize>)
        requires
            forall|k: int| 0 <= k < self.cells@.len() ==> #[trigger] self.cells@[k].1 + self.cells@[k].2 <= u32::MAX,
        ensures
            match cell_covering(self.cells@, col as int, 0) {
                Some(k) => r == Some(k as usize),
                None => r is None,
            },
    {
        for k in 0..self.cells.len()
            invariant
                forall|j: int| 0 <= j < self.cells@.len() ==> #[trigger] self.cells@[j].1 + self.cells@[j].2 <= u32::MAX,
                cell_covering(self.cells@, col as int, 0) == cell_covering(self.cells@, col as int, k as int),
        {
            let (_, start, span) = self.cells[k];
            if col >= start && col < start + span {
                return Some(k);
            }
        }
        None
    }
}

/// `w:gridBefore` / `w:gridAfter` as a column count: absent or negative is 0.
pub open spec fn count_of(v: Option<i32>) -> u32 {
    match v {
        Some(x) => if x > 0 {
            x as u32
        } else {
            0
        },
        None => 0,
    }
}

fn count(v: Option<i32>) -> (r: u32)
    ensures
        r == count_of(v),
{
    match v {
        Some(x) => if x > 0 {
            x as u32
        } else {
            0
        },
        None => 0,
    }
}

/// Sum of the spans of the first `k` cells of a projected row.
pub open spec fn cell_spans(cells: Seq<Cell>, k: int) -> int
    decreases k,
{
    if k <= 0 {
        0
    } else {
        cell_spans(cells, k - 1) + cells[k - 1].span
    }
}

pub proof fn lemma_cell_spans_mono(cells: Seq<Cell>, a: int, b: int)
    requires
        0 <= a <= b,
    ensures
        cell_spans(cells, a) <= cell_spans(cells, b),
    decreases b - a,
{
    if a < b {
        lemma_cell_spans_mono(cells, a, b - 1);
    }
}

/// The rows of a table fit the column type: before + spans + after at most `u32::MAX`, and
/// there are at most `u32::MAX` grid columns.
pub open spec fn table_fits(t: &TableBlock) -> bool {
    &&& t.grid@.len() <= u32::MAX
    &&& forall|i: int| 0 <= i < t.rows@.len() ==> count_of(#[trigger] t.rows@[i].grid_before)
        + cell_spans(t.rows@[i].cells@, t.rows@[i].cells@.len() as int) <= u32::MAX
}

/// The layout of one projected row.
pub open spec fn row_laid_out(r: Row, g: RowGeometry) -> bool {
    &&& g.node == r.node
    &&& g.before == count_of(r.grid_before)
    &&& g.after == count_of(r.grid_after)
    &&& g.cells@.len() == r.cells@.len()
    &&& forall|k: int| 0 <= k < r.cells@.len() ==> #[trigger] g.cells@[k] == (r.cells@[k].node,
        (count_of(r.grid_before) + cell_spans(r.cells@, k)) as u32, r.cells@[k].span)
}

fn row_geometry(r: &Row) -> (g: RowGeometry)
    requires
        count_of(r.grid_before) + cell_spans(r.cells@, r.cells@.len() as int) <= u32::MAX,
    ensures
        row_laid_out(*r, g),
{
    let before = count(r.grid_before);
    let mut col: u32 = before;
    let mut cells: Vec<(NodeId, u32, u32)> = Vec::new();
    for k in 0..r.cells.len()
        invariant
            count_of(r.grid_before) + cell_spans(r.cells@, r.cells@.len() as int) <= u32::MAX,
            before == count_of(r.grid_before),
            col == before + cell_spans(r.cells@, k as int),
            cells@.len() == k,
            forall|j: int| 0 <= j < k ==> #[trigger] cells@[j] == (r.cells@[j].node, (before + cell_spans(r.cells@, j)) as u32, r.cells@[j].span),
    {
        proof {
            lemma_cell_spans_mono(r.cells@, k as int + 1, r.cells@.len() as int);
        }
        let c = r.cells[k];
        cells.push((c.node, col, c.span));
        col = col + c.span;
    }
    RowGeometry { node: r.node, before, after: count(r.grid_after), cells }
}

/// The layout of a table on its declared grid: one column per `gridCol`, each row starting
/// at its `gridBefore` and each cell taking its `gridSpan`.
pub fn geometry(table: &TableBlock) -> (g: Geometry)
    requires
        table_fits(table),
    ensures
        g.cols == table.grid@.len(),
        g.rows@.len() == table.rows@.len(),
        forall|i: int| 0 <= i < table.rows@.len() ==> row_laid_out(#[trigger] table.rows@[i], g.rows@[i]),
        g.grid@.len() == table.grid@.len(),
        forall|j: int| 0 <= j < table.grid@.len() ==> #[trigger] g.grid@[j] == (table.grid@[j].node,
            match table.grid@[j].w {
                Some(w) => w,
                None => 0i32,
            }),
{
    let mut rows: Vec<RowGeometry> = Vec::new();
    for i in 0..table.rows.len()
        invariant
            table_fits(table),
            rows@.len() == i,
            forall|j: int| 0 <= j < i ==> row_laid_out(#[trigger] table.rows@[j], rows@[j]),
    {
        let rg = row_geometry(&table.rows[i]);
        rows.push(rg);
    }
    let mut grid: Vec<(NodeId, i32)> = Vec::new();
    for j in 0..table.grid.len()
        invariant
            grid@.len() == j,
            forall|x: int| 0 <= x < j ==> #[trigger] grid@[x] == (table.grid@[x].node,
                match table.grid@[x].w {
                    Some(w) => w,
                    None => 0i32,
                }),
    {
        let gc = table.grid[j];
        let w = match gc.w {
            Some(w) => w,
            None => 0,
        };
        grid.push((gc.node, w));
    }
    Geometry { cols: table.grid.len() as u32, rows, grid }
}

impl Geometry {
    /// Every row is exactly as wide as the grid (and the grid has a column).
    pub fn consistent(&self) -> (r: bool)
        requires
            forall|i: int| 0 <= i < self.rows@.len() ==> row_width(#[trigger] self.rows@[i]) <= u32::MAX,
        ensures
            r == spec_consistent(*self),
    {
        if self.cols == 0 {
            return false;
        }
        for i in 0..self.rows.len()
            invariant
                forall|j: int| 0 <= j < self.rows@.len() ==> row_width(#[trigger] self.rows@[j]) <= u32::MAX,
                forall|j: int| 0 <= j < i ==> row_width(#[trigger] self.rows@[j]) == self.cols,
        {
            if self.rows[i].width() != self.cols {
                return false;
            }
        }
        true
    }

    /// `Ok` when the geometry is consistent; `EditTableGridInconsistent` otherwise, naming the
    /// grid's column count and each row's width.
    pub fn require_consistent(&self) -> (r: Result<(), Error>)
        requires
            forall|i: int| 0 <= i < self.rows@.len() ==> row_width(#[trigger] self.rows@[i]) <= u32::MAX,
        ensures
            r is Ok <==> spec_consistent(*self),
            r matches Err(e) ==> e.has_code(DiagCode::EditTableGridInconsistent),
    {
        if self.consistent() {
            return Ok(());
        }
        let mut msg = text("表格网格不一致：tblGrid ");
        msg.append(&decimal(self.cols as u64));
        msg.append(" 列，各行 [");
        for i in 0..self.rows.len()
            invariant
                forall|j: int| 0 <= j < self.rows@.len() ==> row_width(#[trigger] self.rows@[j]) <= u32::MAX,
        {
            if i > 0 {
                msg.append(", ");
            }
            msg.append(&decimal(self.rows[i].width() as u64));
        }
        msg.append("]");
        Err(Error::edit(DiagCode::EditTableGridInconsistent, msg))
    }
}


/// The text width of a body column in twentieths of a point (Letter, one-inch margins).
pub const BODY_WIDTH: i32 = 9360;

/// A name in the WordprocessingML namespace.
pub open spec fn wn(l: LocalName) -> QName {
    QName { ns: NsId::W, local: l }
}

/// The attribute list `a` holds exactly the names and values of `b`, in order.
pub open spec fn attrs_are(a: Seq<(QName, String)>, b: Seq<(QName, Seq<char>)>) -> bool {
    &&& a.len() == b.len()
    &&& forall|i: int| 0 <= i < a.len() ==> #[trigger] a[i].0 == b[i].0 && a[i].1@ == b[i].1
}

/// `n` is a childless element named `q` with exactly the attributes `attrs`.
pub open spec fn is_leaf(n: NewNode, q: QName, attrs: Seq<(QName, Seq<char>)>) -> bool {
    n matches NewNode::Element(e) && e.name == q && attrs_are(e.attrs@, attrs) && e.children@.len() == 0
}

/// A width written as a measure: at least 1, in decimal.
pub open spec fn width_text(w: i32) -> Seq<char> {
    spec_decimal((if w < 1 { 1 } else { w }) as nat)
}

/// The column count of a new table: at least one.
pub open spec fn table_cols(cols: u32) -> int {
    if cols == 0 { 1 } else { cols as int }
}

/// The column widths of a new table: the given ones when there is one per column, else the
/// body width shared out evenly.
pub open spec fn table_widths(cols: u32, widths: Option<Seq<i32>>) -> Seq<i32> {
    match widths {
        Some(v) if v.len() == table_cols(cols) => v,
        _ => Seq::new(table_cols(cols) as nat, |j: int| (BODY_WIDTH / (table_cols(cols) as i32)) as i32),
    }
}

/// `n` is the `w:tblPr` of a new table with table style `style`.
pub open spec fn is_new_table_props(n: NewNode, style: Option<Seq<char>>) -> bool {
    let k: int = if style is Some { 1 } else { 0 };
    &&& n matches NewNode::Element(e)
    &&& e.name == wn(LocalName::TblPr)
    &&& e.attrs@.len() == 0
    &&& e.children@.len() == k + 2
    &&& (style matches Some(id) ==> is_leaf(e.children@[0], wn(LocalName::TblStyle), seq![(wn(LocalName::Val), id)]))
    &&& is_leaf(e.children@[k], wn(LocalName::TblW), seq![(wn(LocalName::W), "0"@), (wn(LocalName::Type), "auto"@)])
    &&& is_leaf(e.children@[k + 1], wn(LocalName::TblLook), seq![
        (wn(LocalName::Val), "04A0"@),
        (wn(LocalName::FirstRow), "1"@),
        (wn(LocalName::LastRow), "0"@),
        (wn(LocalName::FirstColumn), "1"@),
        (wn(LocalName::LastColumn), "0"@),
        (wn(LocalName::NoHBand), "0"@),
        (wn(LocalName::NoVBand), "1"@),
    ])
}

/// `n` is the `w:tblGrid` of a new table with column widths `ws`.
pub open spec fn is_new_table_grid(n: NewNode, ws: Seq<i32>) -> bool {
    &&& n matches NewNode::Element(e)
    &&& e.name == wn(LocalName::TblGrid)
    &&& e.attrs@.len() == 0
    &&& e.children@.len() == ws.len()
    &&& forall|j: int| 0 <= j < ws.len() ==> is_leaf(#[trigger] e.children@[j], wn(LocalName::GridCol),
        seq![(wn(LocalName::W), width_text(ws[j]))])
}

/// `n` is a new cell of width `w` holding one empty paragraph.
pub open spec fn is_new_cell(n: NewNode, w: i32) -> bool {
    &&& n matches NewNode::Element(tc)
    &&& tc.name == wn(LocalName::Tc)
    &&& tc.attrs@.len() == 0
    &&& tc.children@.len() == 2
    &&& tc.children@[0] matches NewNode::Element(pr)
    &&& pr.name == wn(LocalName::TcPr)
    &&& pr.attrs@.len() == 0
    &&& pr.children@.len() == 1
    &&& is_leaf(pr.children@[0], wn(LocalName::TcW), seq![(wn(LocalName::W), width_text(w)), (wn(LocalName::Type), "dxa"@)])
    &&& is_leaf(tc.children@[1], wn(LocalName::P), seq![])
}

/// `n` is a new row with one cell per width of `ws`, marked as a repeated header row when
/// `header`.
pub open spec fn is_new_row(n: NewNode, ws: Seq<i32>, header: bool) -> bool {
    let k: int = if header { 1 } else { 0 };
    &&& n matches NewNode::Element(tr)
    &&& tr.name == wn(LocalName::Tr)
    &&& tr.attrs@.len() == 0
    &&& tr.children@.len() == k + ws.len()
    &&& (header ==> (tr.children@[0] matches NewNode::Element(pr) && pr.name == wn(LocalName::TrPr)
        && pr.attrs@.len() == 0 && pr.children@.len() == 1
        && is_leaf(pr.children@[0], wn(LocalName::TblHeader), seq![])))
    &&& forall|j: int| 0 <= j < ws.len() ==> is_new_cell(#[trigger] tr.children@[k + j], ws[j])
}

/// `e` is the new table `new_table(rows, cols, widths, style, header)` describes.
pub open spec fn is_new_table(e: NewElement, rows: u32, cols: u32, widths: Option<Seq<i32>>, style: Option<Seq<char>>,
    header: bool) -> bool {
    let ws = table_widths(cols, widths);
    let nrows: int = if rows == 0 { 1 } else { rows as int };
    &&& e.name == wn(LocalName::Tbl)
    &&& e.attrs@.len() == 0
    &&& e.children@.len() == 2 + nrows
    &&& is_new_table_props(e.children@[0], style)
    &&& is_new_table_grid(e.children@[1], ws)
    &&& forall|r: int| 0 <= r < nrows ==> is_new_row(#[trigger] e.children@[2 + r], ws, header && r == 0)
}

/// The view of an optional list of widths.
pub open spec fn opt_ints(o: Option<Vec<i32>>) -> Option<Seq<i32>> {
    match o {
        Some(v) => Some(v@),
        None => None,
    }
}

/// The decimal text of a width, at least 1.
fn width_string(w: i32) -> (s: String)
    ensures
        s@ == width_text(w),
{
    let v: i32 = if w < 1 { 1 } else { w };
    decimal(v as u64)
}

/// A childless element with the given attributes (names and values in order).
fn leaf(q: QName, attrs: Vec<(QName, String)>) -> (e: NewElement)
    ensures
        e.name == q,
        e.attrs@ == attrs@,
        e.children@.len() == 0,
{
    NewElement { name: q, attrs, children: Vec::new() }
}

fn new_cell(w: i32) -> (n: NewElement)
    ensures
        is_new_cell(NewNode::Element(n), w),
{
    let tc_w = leaf(QName::w(LocalName::TcW), vec![(QName::w(LocalName::W), width_string(w)), (QName::w(LocalName::Type), text("dxa"))]);
    let tc_pr = NewElement::new(QName::w(LocalName::TcPr)).with_child(tc_w);
    let tc = NewElement::new(QName::w(LocalName::Tc)).with_child(tc_pr).with_child(NewElement::new(QName::w(LocalName::P)));
    proof {
        reveal_strlit("dxa");
        assert(tc.children@[0] matches NewNode::Element(pr) && pr.children@[0] == NewNode::Element(tc_w));
        assert(is_leaf(NewNode::Element(tc_w), wn(LocalName::TcW), seq![(wn(LocalName::W), width_text(w)), (wn(LocalName::Type), "dxa"@)]));
    }
    tc
}

fn new_row(ws: &Vec<i32>, header: bool) -> (n: NewElement)
    ensures
        is_new_row(NewNode::Element(n), ws@, header),
{
    let mut tr = NewElement::new(QName::w(LocalName::Tr));
    if header {
        let tr_pr = NewElement::new(QName::w(LocalName::TrPr)).with_child(NewElement::new(QName::w(LocalName::TblHeader)));
        tr.push_child(tr_pr);
    }
    let ghost k: int = if header { 1 } else { 0 };
    for j in 0..ws.len()
        invariant
            k == (if header { 1int } else { 0int }),
            tr.name == wn(LocalName::Tr),
            tr.attrs@.len() == 0,
            tr.children@.len() == k + j,
            header ==> (tr.children@[0] matches NewNode::Element(pr) && pr.name == wn(LocalName::TrPr)
                && pr.attrs@.len() == 0 && pr.children@.len() == 1
                && is_leaf(pr.children@[0], wn(LocalName::TblHeader), seq![])),
            forall|i: int| 0 <= i < j ==> is_new_cell(#[trigger] tr.children@[k + i], ws@[i]),
    {
        let c = new_cell(ws[j]);
        tr.push_child(c);
        proof {
            assert(tr.children@[k + j] == NewNode::Element(c));
        }
    }
    tr
}

/// A new `rows` × `cols` table (at least one of each): `w:tblPr` with the optional style, an
/// automatic table width and the usual table look; a grid of the given widths (when there is
/// one per column) or of the body width shared out evenly; and rows of cells, each with its
/// width and one empty paragraph. With `header`, the first row repeats as a header row.
pub fn new_table(rows: u32, cols: u32, widths: Option<Vec<i32>>, style: Option<String>, header: bool) -> (e: NewElement)
    requires
        cols <= i32::MAX,
    ensures
        is_new_table(e, rows, cols, opt_ints(widths), crate::track::opt_view(style), header),
{
    let ncols: u32 = if cols == 0 { 1 } else { cols };
    let nrows: u32 = if rows == 0 { 1 } else { rows };
    let ghost wv = opt_ints(widths);
    let ghost sv = crate::track::opt_view(style);
    let ws: Vec<i32> = match widths {
        Some(v) if v.len() == ncols as usize => v,
        _ => {
            let each: i32 = BODY_WIDTH / (ncols as i32);
            let mut v: Vec<i32> = Vec::new();
            for j in 0..ncols
                invariant
                    v@.len() == j,
                    forall|i: int| 0 <= i < j ==> v@[i] == each,
            {
                v.push(each);
            }
            proof {
                assert(v@ =~= Seq::new(ncols as nat, |j: int| each));
            }
            v
        },
    };
    assert(ws@ == table_widths(cols, wv));
    let mut tbl_pr = NewElement::new(QName::w(LocalName::TblPr));
    if let Some(id) = style {
        tbl_pr.push_child(leaf(QName::w(LocalName::TblStyle), vec![(QName::w(LocalName::Val), id)]));
    }
    let tbl_w = leaf(QName::w(LocalName::TblW), vec![(QName::w(LocalName::W), text("0")), (QName::w(LocalName::Type), text("auto"))]);
    tbl_pr.push_child(tbl_w);
    let look = leaf(QName::w(LocalName::TblLook), vec![
        (QName::w(LocalName::Val), text("04A0")),
        (QName::w(LocalName::FirstRow), text("1")),
        (QName::w(LocalName::LastRow), text("0")),
        (QName::w(LocalName::FirstColumn), text("1")),
        (QName::w(LocalName::LastColumn), text("0")),
        (QName::w(LocalName::NoHBand), text("0")),
        (QName::w(LocalName::NoVBand), text("1")),
    ]);
    tbl_pr.push_child(look);
    proof {
        let k: int = if sv is Some { 1 } else { 0 };
        assert(tbl_pr.children@[k] == NewNode::Element(tbl_w));
        assert(tbl_pr.children@[k + 1] == NewNode::Element(look));
        assert(is_leaf(NewNode::Element(tbl_w), wn(LocalName::TblW), seq![(wn(LocalName::W), "0"@), (wn(LocalName::Type), "auto"@)]));
        assert(is_leaf(NewNode::Element(look), wn(LocalName::TblLook), seq![
            (wn(LocalName::Val), "04A0"@),
            (wn(LocalName::FirstRow), "1"@),
            (wn(LocalName::LastRow), "0"@),
            (wn(LocalName::FirstColumn), "1"@),
            (wn(LocalName::LastColumn), "0"@),
            (wn(LocalName::NoHBand), "0"@),
            (wn(LocalName::NoVBand), "1"@),
        ]));
        assert(is_new_table_props(NewNode::Element(tbl_pr), sv));
    }
    let mut grid = NewElement::new(QName::w(LocalName::TblGrid));
    for j in 0..ws.len()
        invariant
            grid.name == wn(LocalName::TblGrid),
            grid.attrs@.len() == 0,
            grid.children@.len() == j,
            forall|i: int| 0 <= i < j ==> is_leaf(#[trigger] grid.children@[i], wn(LocalName::GridCol),
                seq![(wn(LocalName::W), width_text(ws@[i]))]),
    {
        let col = leaf(QName::w(LocalName::GridCol), vec![(QName::w(LocalName::W), width_string(ws[j]))]);
        grid.push_child(col);
        proof {
            assert(grid.children@[j as int] == NewNode::Element(col));
        }
    }
    let mut tbl = NewElement::new(QName::w(LocalName::Tbl));
    tbl.push_child(tbl_pr);
    tbl.push_child(grid);
    assert(tbl.children@[0] == NewNode::Element(tbl_pr));
    assert(tbl.children@[1] == NewNode::Element(grid));
    for r in 0..nrows
        invariant
            tbl.name == wn(LocalName::Tbl),
            tbl.attrs@.len() == 0,
            tbl.children@.len() == 2 + r,
            is_new_table_props(tbl.children@[0], sv),
            is_new_table_grid(tbl.children@[1], ws@),
            forall|i: int| 0 <= i < r ==> is_new_row(#[trigger] tbl.children@[2 + i], ws@, header && i == 0),
    {
        let row = new_row(&ws, header && r == 0);
        tbl.push_child(row);
        proof {
            assert(tbl.children@[2 + r] == NewNode::Element(row));
        }
    }
    tbl
}

} // verus!
