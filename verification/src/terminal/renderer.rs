//! Drawing a whole framebuffer as VT escape sequences.

use vstd::prelude::*;

use crate::terminal::cell::{Cell, CellModel};
use crate::terminal::framebuffer::{cells_view, framebuffer_wf, Framebuffer, FramebufferModel};
use crate::terminal::rendition::{Color, Intensity, Rendition};
use crate::text::{decimal, push_decimal, push_str};

verus! {

/// The SGR parameters of a rendition: reset, then bold, underline, inverse, and the indexed
/// foreground and background colours where set.
pub open spec fn rendition_codes(r: Rendition) -> Seq<nat> {
    seq![0nat] + (if r.intensity == Intensity::Bold { seq![1nat] } else { seq![] }) + (if r.underline {
        seq![4nat]
    } else {
        seq![]
    }) + (if r.inverse { seq![7nat] } else { seq![] }) + (match r.foreground {
        Color::Indexed(v) => seq![38nat, 5nat, v as nat],
        Color::Default => seq![],
    }) + (match r.background {
        Color::Indexed(v) => seq![48nat, 5nat, v as nat],
        Color::Default => seq![],
    })
}

/// Numbers in decimal, separated by `;`.
pub open spec fn joined_decimals(codes: Seq<nat>) -> Seq<char>
    decreases codes.len(),
{
    if codes.len() == 0 {
        seq![]
    } else if codes.len() == 1 {
        decimal(codes[0])
    } else {
        joined_decimals(codes.drop_last()) + ";"@ + decimal(codes.last())
    }
}

/// The SGR escape sequence that selects a rendition.
pub open spec fn spec_rendition_sequence(r: Rendition) -> Seq<char> {
    "\x1b["@ + joined_decimals(rendition_codes(r)) + "m"@
}

/// A row of cells: each cell's rendition sequence, then its text.
pub open spec fn render_cells(cells: Seq<CellModel>) -> Seq<char>
    decreases cells.len(),
{
    if cells.len() == 0 {
        seq![]
    } else {
        render_cells(cells.drop_last()) + spec_rendition_sequence(cells.last().rendition) + cells.last().text
    }
}

/// The first `n` rows, separated by CR LF.
pub open spec fn render_rows(rows: Seq<Seq<CellModel>>, n: nat) -> Seq<char>
    decreases n,
{
    if n == 0 {
        seq![]
    } else if n == 1 {
        render_cells(rows[0])
    } else {
        render_rows(rows, (n - 1) as nat) + "\r\n"@ + render_cells(rows[n - 1])
    }
}

/// A whole framebuffer: home and clear, the rows, the cursor position (1-based), then the
/// cursor shown or hidden.
pub open spec fn spec_render(m: FramebufferModel) -> Seq<char> {
    "\x1b[H\x1b[2J"@ + render_rows(m.cells, m.size.rows as nat) + "\x1b["@ + decimal((m.cursor.row + 1) as nat) + ";"@
        + decimal((m.cursor.column + 1) as nat) + "H"@ + if m.cursor.visible { "\x1b[?25h"@ } else { "\x1b[?25l"@ }
}

pub open spec fn code_values(codes: Seq<u64>) -> Seq<nat> {
    codes.map_values(|c: u64| c as nat)
}

fn rendition_code_list(rendition: Rendition) -> (v: Vec<u64>)
    ensures
        code_values(v@) == rendition_codes(rendition),
{
    let mut v: Vec<u64> = Vec::new();
    v.push(0);
    if rendition.intensity == Intensity::Bold {
        v.push(1);
    }
    if rendition.underline {
        v.push(4);
    }
    if rendition.inverse {
        v.push(7);
    }
    if let Color::Indexed(value) = rendition.foreground {
        v.push(38);
        v.push(5);
        v.push(value as u64);
    }
    if let Color::Indexed(value) = rendition.background {
        v.push(48);
        v.push(5);
        v.push(value as u64);
    }
    assert(code_values(v@) =~= rendition_codes(rendition));
    v
}

fn push_joined(output: &mut String, codes: &[u64])
    ensures
        final(output)@ == old(output)@ + joined_decimals(code_values(codes@)),
{
    let ghost start = output@;
    let mut i: usize = 0;
    assert(code_values(codes@).take(0) =~= Seq::<nat>::empty());
    while i < codes.len()
        invariant
            i <= codes@.len(),
            output@ == start + joined_decimals(code_values(codes@).take(i as int)),
        decreases codes@.len() - i,
    {
        if i > 0 {
            push_str(output, ";");
        }
        push_decimal(output, codes[i]);
        let ghost prefix = code_values(codes@).take(i + 1);
        assert(prefix.drop_last() =~= code_values(codes@).take(i as int));
        i = i + 1;
        assert(output@ =~= start + joined_decimals(code_values(codes@).take(i as int)));
    }
    assert(code_values(codes@).take(codes@.len() as int) =~= code_values(codes@));
}

pub fn rendition_sequence(rendition: Rendition) -> (s: String)
    ensures
        s@ == spec_rendition_sequence(rendition),
{
    let mut output = String::new();
    push_str(&mut output, "\x1b[");
    let codes = rendition_code_list(rendition);
    push_joined(&mut output, codes.as_slice());
    push_str(&mut output, "m");
    assert(output@ =~= spec_rendition_sequence(rendition));
    output
}

fn push_cells(output: &mut String, cells: &[Cell])
    ensures
        final(output)@ == old(output)@ + render_cells(cells_view(cells@)),
{
    let ghost start = output@;
    let mut i: usize = 0;
    assert(cells_view(cells@).take(0) =~= Seq::<CellModel>::empty());
    while i < cells.len()
        invariant
            i <= cells@.len(),
            output@ == start + render_cells(cells_view(cells@).take(i as int)),
        decreases cells@.len() - i,
    {
        let sequence = rendition_sequence(cells[i].rendition);
        push_str(output, sequence.as_str());
        push_str(output, cells[i].text.as_str());
        let ghost prefix = cells_view(cells@).take(i + 1);
        assert(prefix.drop_last() =~= cells_view(cells@).take(i as int));
        i = i + 1;
        assert(output@ =~= start + render_cells(cells_view(cells@).take(i as int)));
    }
    assert(cells_view(cells@).take(cells@.len() as int) =~= cells_view(cells@));
}

pub fn render_framebuffer(framebuffer: &Framebuffer) -> (s: String)
    requires
        framebuffer_wf(framebuffer@),
    ensures
        s@ == spec_render(framebuffer@),
{
    let ghost m = framebuffer@;
    let mut output = String::new();
    push_str(&mut output, "\x1b[H\x1b[2J");
    let ghost start = output@;
    let size = framebuffer.size();
    let mut row: u16 = 0;
    while row < size.rows
        invariant
            row <= size.rows,
            size == m.size,
            m == framebuffer@,
            framebuffer_wf(m),
            output@ == start + render_rows(m.cells, row as nat),
        decreases size.rows - row,
    {
        if row > 0 {
            push_str(&mut output, "\r\n");
        }
        match framebuffer.row(row) {
            Some(cells) => push_cells(&mut output, cells),
            None => {},
        }
        row = row + 1;
        assert(output@ =~= start + render_rows(m.cells, row as nat));
    }
    let cursor = framebuffer.cursor();
    push_str(&mut output, "\x1b[");
    push_decimal(&mut output, cursor.row as u64 + 1);
    push_str(&mut output, ";");
    push_decimal(&mut output, cursor.column as u64 + 1);
    push_str(&mut output, "H");
    if cursor.visible {
        push_str(&mut output, "\x1b[?25h");
    } else {
        push_str(&mut output, "\x1b[?25l");
    }
    assert(output@ =~= spec_render(m));
    output
}

} // verus!
