//! Tables as the commands describe them (cell texts, colors, boldness, right
//! aligned columns) and their drawing by comfy-table.
use vstd::prelude::*;
use comfy_table::{Cell, Table};

verus! {

#[verifier::external_type_specification]
#[verifier::external_body]
pub struct ExTable(comfy_table::Table);

#[verifier::external_type_specification]
#[verifier::external_body]
pub struct ExCell(comfy_table::Cell);

/// The colors the tables use.
#[derive(Debug, Clone, Copy, PartialEq, Eq, Structural)]
pub enum CellColor {
    Green,
    DarkGrey,
    Cyan,
    Red,
    Magenta,
    Yellow,
    Blue,
    White,
    Rgb { r: u8, g: u8, b: u8 },
}

/// One cell: its text, its foreground color if any, and whether it is bold.
#[derive(Debug)]
pub struct CellSpec {
    pub text: String,
    pub color: Option<CellColor>,
    pub bold: bool,
}

pub struct CellView {
    pub text: Seq<char>,
    pub color: Option<CellColor>,
    pub bold: bool,
}

impl View for CellSpec {
    type V = CellView;

    open spec fn view(&self) -> CellView {
        CellView { text: self.text@, color: self.color, bold: self.bold }
    }
}

/// A whole table: header, rows, the columns aligned right, and the width it
/// is laid out in.
#[derive(Debug)]
pub struct TableSpec {
    pub header: Vec<CellSpec>,
    pub rows: Vec<Vec<CellSpec>>,
    pub right_aligned: Vec<usize>,
    pub width: u16,
}

pub struct TableView {
    pub header: Seq<CellView>,
    pub rows: Seq<Seq<CellView>>,
    pub right_aligned: Seq<usize>,
    pub width: u16,
}

pub open spec fn cells_view(cs: Seq<CellSpec>) -> Seq<CellView> {
    cs.map_values(|c: CellSpec| c@)
}

impl View for TableSpec {
    type V = TableView;

    open spec fn view(&self) -> TableView {
        TableView {
            header: cells_view(self.header@),
            rows: self.rows@.map_values(|r: Vec<CellSpec>| cells_view(r@)),
            right_aligned: self.right_aligned@,
            width: self.width,
        }
    }
}

pub open spec fn cell(text: Seq<char>, color: Option<CellColor>, bold: bool) -> CellView {
    CellView { text, color, bold }
}

/// A header cell: bold, in the default color.
pub open spec fn header_cell(text: Seq<char>) -> CellView {
    cell(text, None, true)
}

/// Builds a header cell from a literal.
pub fn header_cell_of(text: &str) -> (r: CellSpec)
    ensures
        r@ == header_cell(text@),
{
    CellSpec { text: crate::text::string_from_chars(crate::text::chars_of(text).as_slice()), color: None, bold: true }
}

// ----- comfy-table -----

/// How a table is drawn: plain text (standard output is not a terminal), or
/// with colors and attributes, the colors left out when `colors` is false
/// (the `NO_COLOR` convention).
#[derive(Debug, Clone, Copy, PartialEq, Eq, Structural)]
pub enum TextStyle {
    Plain,
    Styled { colors: bool },
}

/// What a comfy-table `Table` holds, as far as its drawing depends on it: the
/// preset loaded (`UTF8_FULL`, else the default ASCII one), whether the
/// `UTF8_SOLID_INNER_BORDERS` modifier was applied after it, whether the
/// arrangement is dynamic, the width set, the header and rows, the number of
/// columns made so far, and the columns aligned right.
pub struct TableContents {
    pub utf8_full: bool,
    pub solid_inner: bool,
    pub dynamic: bool,
    pub width: Option<u16>,
    pub header: Option<Seq<CellView>>,
    pub rows: Seq<Seq<CellView>>,
    pub columns: nat,
    pub right_aligned: Set<usize>,
}

/// What a comfy-table `Cell` holds: its text, its foreground color, and
/// whether it carries the bold attribute.
pub uninterp spec fn cell_contents(c: Cell) -> CellView;

/// What a comfy-table `Table` holds (see `TableContents`).
pub uninterp spec fn table_contents(t: Table) -> TableContents;

/// The text comfy-table draws for a table holding `c` when it is told that
/// there is no terminal (`force_no_tty`).
pub uninterp spec fn comfy_plain_text(c: TableContents) -> Seq<char>;

/// The text comfy-table draws for a table holding `c` when it is told that
/// there is no terminal but to style all the same (`force_no_tty`,
/// `enforce_styling`), with crossterm's colors switched off when
/// `colors_disabled`.
pub uninterp spec fn comfy_styled_text(c: TableContents, colors_disabled: bool) -> Seq<char>;

pub open spec fn cells_contents(v: Seq<Cell>) -> Seq<CellView> {
    v.map_values(|c: Cell| cell_contents(c))
}

pub open spec fn max_nat(a: nat, b: nat) -> nat {
    if a < b { b } else { a }
}

/// The number of columns after a header of `h` cells and then `rows`.
pub open spec fn columns_after(h: nat, rows: Seq<Seq<CellView>>) -> nat
    decreases rows.len(),
{
    if rows.len() == 0 {
        h
    } else {
        max_nat(columns_after(h, rows.drop_last()), rows.last().len())
    }
}

/// The columns aligned right after asking for each of `ra` in turn; a column
/// that does not exist is not aligned.
pub open spec fn aligned_after(columns: nat, ra: Seq<usize>) -> Set<usize>
    decreases ra.len(),
{
    if ra.len() == 0 {
        Set::empty()
    } else {
        let s = aligned_after(columns, ra.drop_last());
        if ra.last() < columns {
            s.insert(ra.last())
        } else {
            s
        }
    }
}

/// What the table drawn for `v` holds: full UTF-8 borders with solid inner
/// borders, a dynamic arrangement in `v.width`, `v`'s header and rows, and its
/// right-aligned columns.
pub open spec fn contents_of(v: TableView) -> TableContents {
    let columns = columns_after(v.header.len(), v.rows);
    TableContents {
        utf8_full: true,
        solid_inner: true,
        dynamic: true,
        width: Some(v.width),
        header: Some(v.header),
        rows: v.rows,
        columns,
        right_aligned: aligned_after(columns, v.right_aligned),
    }
}

/// The text drawn for the table `v` in `style`.
pub open spec fn drawn_text(v: TableView, style: TextStyle) -> Seq<char> {
    match style {
        TextStyle::Plain => comfy_plain_text(contents_of(v)),
        TextStyle::Styled { colors } => comfy_styled_text(contents_of(v), !colors),
    }
}

/// comfy-table's `Table::new`: no header, rows or columns, the default ASCII
/// preset, arrangement disabled, no width.
#[verifier::external_body]
fn table_new() -> (r: Table)
    ensures
        table_contents(r) == (TableContents {
            utf8_full: false,
            solid_inner: false,
            dynamic: false,
            width: None,
            header: None,
            rows: Seq::empty(),
            columns: 0,
            right_aligned: Set::empty(),
        }),
{
    Table::new()
}

/// comfy-table's `Table::load_preset` with `UTF8_FULL`: the style is replaced.
#[verifier::external_body]
fn table_load_utf8_full(t: &mut Table)
    ensures
        table_contents(*final(t)) == (TableContents { utf8_full: true, solid_inner: false, ..table_contents(*old(t)) }),
{
    t.load_preset(comfy_table::presets::UTF8_FULL);
}

/// comfy-table's `Table::apply_modifier` with `UTF8_SOLID_INNER_BORDERS`.
#[verifier::external_body]
fn table_apply_solid_inner_borders(t: &mut Table)
    ensures
        table_contents(*final(t)) == (TableContents { solid_inner: true, ..table_contents(*old(t)) }),
{
    t.apply_modifier(comfy_table::modifiers::UTF8_SOLID_INNER_BORDERS);
}

/// comfy-table's `Table::set_content_arrangement` with `Dynamic`.
#[verifier::external_body]
fn table_set_dynamic(t: &mut Table)
    ensures
        table_contents(*final(t)) == (TableContents { dynamic: true, ..table_contents(*old(t)) }),
{
    t.set_content_arrangement(comfy_table::ContentArrangement::Dynamic);
}

/// comfy-table's `Table::set_width`.
#[verifier::external_body]
fn table_set_width(t: &mut Table, width: u16)
    ensures
        table_contents(*final(t)) == (TableContents { width: Some(width), ..table_contents(*old(t)) }),
{
    t.set_width(width);
}

/// comfy-table's `Table::set_header`: the header is replaced, and columns are
/// added up to its number of cells.
#[verifier::external_body]
fn table_set_header(t: &mut Table, cells: Vec<Cell>)
    ensures
        table_contents(*final(t)) == (TableContents {
            header: Some(cells_contents(cells@)),
            columns: max_nat(table_contents(*old(t)).columns, cells@.len()),
            ..table_contents(*old(t))
        }),
{
    t.set_header(cells);
}

/// comfy-table's `Table::add_row`: the row is appended, and columns are added
/// up to its number of cells.
#[verifier::external_body]
fn table_add_row(t: &mut Table, cells: Vec<Cell>)
    ensures
        table_contents(*final(t)) == (TableContents {
            rows: table_contents(*old(t)).rows.push(cells_contents(cells@)),
            columns: max_nat(table_contents(*old(t)).columns, cells@.len()),
            ..table_contents(*old(t))
        }),
{
    t.add_row(cells);
}

/// comfy-table's `Table::column_mut` followed by `Column::set_cell_alignment`
/// with `Right`, when the column exists (`column_mut` gives none past the
/// last column).
#[verifier::external_body]
fn table_align_right(t: &mut Table, column: usize)
    ensures
        table_contents(*final(t)) == (if column < table_contents(*old(t)).columns {
            TableContents {
                right_aligned: table_contents(*old(t)).right_aligned.insert(column),
                ..table_contents(*old(t))
            }
        } else {
            table_contents(*old(t))
        }),
{
    if let Some(c) = t.column_mut(column) {
        c.set_cell_alignment(comfy_table::CellAlignment::Right);
    }
}

/// comfy-table's `Table::force_no_tty` and then its `Display`: plain text,
/// laid out without asking the terminal.
#[verifier::external_body]
fn table_text_plain(t: Table) -> (r: String)
    ensures
        r@ == comfy_plain_text(table_contents(t)),
{
    let mut t = t;
    t.force_no_tty();
    t.to_string()
}

/// comfy-table's `force_no_tty` and `enforce_styling`, crossterm's
/// `Colored::set_ansi_color_disabled`, and then the table's `Display`: styled
/// text, laid out without asking the terminal.
#[verifier::external_body]
fn table_text_styled(t: Table, colors_disabled: bool) -> (r: String)
    ensures
        r@ == comfy_styled_text(table_contents(t), colors_disabled),
{
    let mut t = t;
    t.force_no_tty().enforce_styling();
    crossterm::style::Colored::set_ansi_color_disabled(colors_disabled);
    t.to_string()
}

/// comfy-table's `Cell::new`: the text, no color, no attribute.
#[verifier::external_body]
fn cell_new(text: &str) -> (r: Cell)
    ensures
        cell_contents(r) == cell(text@, None, false),
{
    Cell::new(text)
}

/// comfy-table's `Cell::fg`, with the color converted one for one.
#[verifier::external_body]
fn cell_fg(c: Cell, color: CellColor) -> (r: Cell)
    ensures
        cell_contents(r) == (CellView { color: Some(color), ..cell_contents(c) }),
{
    c.fg(match color {
        CellColor::Green => comfy_table::Color::Green,
        CellColor::DarkGrey => comfy_table::Color::DarkGrey,
        CellColor::Cyan => comfy_table::Color::Cyan,
        CellColor::Red => comfy_table::Color::Red,
        CellColor::Magenta => comfy_table::Color::Magenta,
        CellColor::Yellow => comfy_table::Color::Yellow,
        CellColor::Blue => comfy_table::Color::Blue,
        CellColor::White => comfy_table::Color::White,
        CellColor::Rgb { r, g, b } => comfy_table::Color::Rgb { r, g, b },
    })
}

/// comfy-table's `Cell::add_attribute` with `Bold`, on a cell without it.
#[verifier::external_body]
fn cell_bold(c: Cell) -> (r: Cell)
    requires
        !cell_contents(c).bold,
    ensures
        cell_contents(r) == (CellView { bold: true, ..cell_contents(c) }),
{
    c.add_attribute(comfy_table::Attribute::Bold)
}

/// A comfy-table cell with the described text, color and boldness.
fn to_cell(spec: &CellSpec) -> (r: Cell)
    ensures
        cell_contents(r) == spec@,
{
    let mut c = cell_new(spec.text.as_str());
    match spec.color {
        Some(color) => {
            c = cell_fg(c, color);
        },
        None => {},
    }
    if spec.bold {
        c = cell_bold(c);
    }
    c
}

/// One comfy-table cell for each cell description, in order.
fn to_cells(specs: &Vec<CellSpec>) -> (r: Vec<Cell>)
    ensures
        r@.len() == specs@.len(),
        cells_contents(r@) == cells_view(specs@),
{
    let mut out: Vec<Cell> = Vec::new();
    let mut i: usize = 0;
    while i < specs.len()
        invariant
            0 <= i <= specs.len(),
            out@.len() == i,
            cells_contents(out@) == cells_view(specs@.subrange(0, i as int)),
        decreases specs.len() - i,
    {
        let c = to_cell(&specs[i]);
        let ghost before = out@;
        out.push(c);
        proof {
            let want = cells_view(specs@.subrange(0, i + 1));
            assert forall|k: int| 0 <= k < i + 1 implies #[trigger] cells_contents(out@)[k] == want[k] by {
                if k < i {
                    assert(cells_contents(before)[k] == cells_view(specs@.subrange(0, i as int))[k]);
                }
            }
            assert(cells_contents(out@) =~= want);
        }
        i = i + 1;
    }
    assert(specs@.subrange(0, i as int) =~= specs@);
    out
}

/// Draws a table with comfy-table in `style`: full UTF-8 borders with solid
/// inner borders, laid out dynamically in the given width.
pub(crate) fn render_table(spec: &TableSpec, style: TextStyle) -> (r: String)
    ensures
        r@ == drawn_text(spec@, style),
{
    let mut t = table_new();
    table_load_utf8_full(&mut t);
    table_apply_solid_inner_borders(&mut t);
    table_set_dynamic(&mut t);
    table_set_width(&mut t, spec.width);
    let header = to_cells(&spec.header);
    table_set_header(&mut t, header);
    let ghost v = spec@;
    let ghost h = v.header.len();
    proof {
        assert(v.rows.subrange(0, 0) =~= Seq::<Seq<CellView>>::empty());
        assert(max_nat(0, h) == h);
    }
    let mut i: usize = 0;
    while i < spec.rows.len()
        invariant
            0 <= i <= spec.rows.len(),
            v == spec@,
            h == v.header.len(),
            table_contents(t) == (TableContents {
                utf8_full: true,
                solid_inner: true,
                dynamic: true,
                width: Some(v.width),
                header: Some(v.header),
                rows: v.rows.subrange(0, i as int),
                columns: columns_after(h, v.rows.subrange(0, i as int)),
                right_aligned: Set::empty(),
            }),
        decreases spec.rows.len() - i,
    {
        let cells = to_cells(&spec.rows[i]);
        table_add_row(&mut t, cells);
        proof {
            assert(v.rows[i as int] == cells_view(spec.rows@[i as int]@));
            assert(v.rows.subrange(0, i + 1).drop_last() =~= v.rows.subrange(0, i as int));
            assert(v.rows.subrange(0, i as int).push(v.rows[i as int]) =~= v.rows.subrange(0, i + 1));
        }
        i = i + 1;
    }
    proof {
        assert(v.rows.subrange(0, i as int) =~= v.rows);
    }
    let ghost cols = columns_after(h, v.rows);
    let mut j: usize = 0;
    while j < spec.right_aligned.len()
        invariant
            0 <= j <= spec.right_aligned.len(),
            v == spec@,
            cols == columns_after(v.header.len(), v.rows),
            table_contents(t) == (TableContents {
                right_aligned: aligned_after(cols, v.right_aligned.subrange(0, j as int)),
                ..contents_of(v)
            }),
        decreases spec.right_aligned.len() - j,
    {
        table_align_right(&mut t, spec.right_aligned[j]);
        proof {
            assert(v.right_aligned.subrange(0, j + 1).drop_last() =~= v.right_aligned.subrange(0, j as int));
        }
        j = j + 1;
    }
    proof {
        assert(v.right_aligned.subrange(0, j as int) =~= v.right_aligned);
    }
    match style {
        TextStyle::Plain => table_text_plain(t),
        TextStyle::Styled { colors } => table_text_styled(t, !colors),
    }
}

} // verus!
