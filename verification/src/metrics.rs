//! Synthetic terminal output used by the quick benchmarks.
use vstd::prelude::*;

verus! {

/// `chunk` repeated and cut to `n` bytes.
pub open spec fn repeated(chunk: Seq<u8>, n: nat) -> Seq<u8> {
    Seq::new(n, |i: int| chunk[i % chunk.len() as int])
}

/// `chunk` repeated until `target_size` bytes are filled, the last copy cut.
pub fn fill_repeating(chunk: &[u8], target_size: usize) -> (buf: Vec<u8>)
    requires
        chunk@.len() > 0,
    ensures
        buf@ == repeated(chunk@, target_size as nat),
{
    let mut buf: Vec<u8> = Vec::new();
    let mut i: usize = 0;
    let mut j: usize = 0;
    while i < target_size
        invariant
            i <= target_size,
            j < chunk@.len(),
            j == (i as int) % (chunk@.len() as int),
            buf@ == repeated(chunk@, i as nat),
        decreases target_size - i,
    {
        buf.push(chunk[j]);
        assert(buf@ =~= repeated(chunk@, (i + 1) as nat)) by {
            assert(buf@[i as int] == chunk@[(i as int) % (chunk@.len() as int)]);
        }
        let ghost q = (i as int) / (chunk@.len() as int);
        let ghost oldj = j as int;
        proof {
            vstd::arithmetic::div_mod::lemma_fundamental_div_mod(i as int, chunk@.len() as int);
        }
        j = if j + 1 == chunk.len() {
            0
        } else {
            j + 1
        };
        proof {
            let n = chunk@.len() as int;
            if j == 0 {
                assert(i + 1 == (q + 1) * n + 0) by (nonlinear_arith)
                    requires
                        i == n * q + oldj,
                        oldj + 1 == n,
                ;
                vstd::arithmetic::div_mod::lemma_fundamental_div_mod_converse(i + 1, n, q + 1, 0);
            } else {
                assert(i + 1 == q * n + j) by (nonlinear_arith)
                    requires
                        i == n * q + oldj,
                        j == oldj + 1,
                ;
                vstd::arithmetic::div_mod::lemma_fundamental_div_mod_converse(
                    i + 1,
                    n,
                    q,
                    j as int,
                );
            }
        }
        i = i + 1;
    }
    buf
}

/// Text with colour and bold SGR sequences.
pub open spec fn sgr_chunk() -> Seq<u8> {
    seq![
        0x1bu8, 0x5b, 0x31, 0x3b, 0x33, 0x31, 0x6d, 0x52, 0x1b, 0x5b, 0x33, 0x32, 0x6d, 0x47,
        0x1b, 0x5b, 0x33, 0x34, 0x6d, 0x42, 0x1b, 0x5b, 0x30, 0x6d, 0x20,
    ]
}

/// `target_size` bytes of text with colour and bold SGR sequences.
pub fn build_sgr_payload(target_size: usize) -> (buf: Vec<u8>)
    ensures
        buf@ == repeated(sgr_chunk(), target_size as nat),
{
    let chunk: [u8; 25] = [
        0x1b, 0x5b, 0x31, 0x3b, 0x33, 0x31, 0x6d, 0x52, 0x1b, 0x5b, 0x33, 0x32, 0x6d, 0x47,
        0x1b, 0x5b, 0x33, 0x34, 0x6d, 0x42, 0x1b, 0x5b, 0x30, 0x6d, 0x20,
    ];
    assert(chunk@ =~= sgr_chunk());
    fill_repeating(&chunk, target_size)
}

/// Text with 24-bit foreground and background colours.
pub open spec fn sgr_color_chunk() -> Seq<u8> {
    seq![
        0x1bu8, 0x5b, 0x33, 0x38, 0x3b, 0x32, 0x3b, 0x32, 0x35, 0x35, 0x3b, 0x31, 0x30, 0x30,
        0x3b, 0x35, 0x30, 0x6d, 0x48, 0x1b, 0x5b, 0x34, 0x38, 0x3b, 0x32, 0x3b, 0x30, 0x3b,
        0x34, 0x30, 0x3b, 0x38, 0x30, 0x6d, 0x65, 0x1b, 0x5b, 0x30, 0x6d, 0x6c,
    ]
}

/// `target_size` bytes of text with 24-bit colours.
pub fn build_sgr_color_payload(target_size: usize) -> (buf: Vec<u8>)
    ensures
        buf@ == repeated(sgr_color_chunk(), target_size as nat),
{
    let chunk: [u8; 40] = [
        0x1b, 0x5b, 0x33, 0x38, 0x3b, 0x32, 0x3b, 0x32, 0x35, 0x35, 0x3b, 0x31, 0x30, 0x30,
        0x3b, 0x35, 0x30, 0x6d, 0x48, 0x1b, 0x5b, 0x34, 0x38, 0x3b, 0x32, 0x3b, 0x30, 0x3b,
        0x34, 0x30, 0x3b, 0x38, 0x30, 0x6d, 0x65, 0x1b, 0x5b, 0x30, 0x6d, 0x6c,
    ];
    assert(chunk@ =~= sgr_color_chunk());
    fill_repeating(&chunk, target_size)
}

/// `héllo wörld 你好 ` in UTF-8.
pub open spec fn utf8_chunk() -> Seq<u8> {
    seq![
        0x68u8, 0xc3, 0xa9, 0x6c, 0x6c, 0x6f, 0x20, 0x77, 0xc3, 0xb6, 0x72, 0x6c, 0x64, 0x20,
        0xe4, 0xbd, 0xa0, 0xe5, 0xa5, 0xbd, 0x20,
    ]
}

/// `target_size` bytes of accented and CJK text.
pub fn build_utf8_payload(target_size: usize) -> (buf: Vec<u8>)
    ensures
        buf@ == repeated(utf8_chunk(), target_size as nat),
{
    let chunk: [u8; 21] = [
        0x68, 0xc3, 0xa9, 0x6c, 0x6c, 0x6f, 0x20, 0x77, 0xc3, 0xb6, 0x72, 0x6c, 0x64, 0x20,
        0xe4, 0xbd, 0xa0, 0xe5, 0xa5, 0xbd, 0x20,
    ];
    assert(chunk@ =~= utf8_chunk());
    fill_repeating(&chunk, target_size)
}

/// Text with colours, cursor hiding, cursor moves and line erases.
pub open spec fn mixed_chunk() -> Seq<u8> {
    seq![
        0x1bu8, 0x5b, 0x31, 0x3b, 0x33, 0x38, 0x3b, 0x32, 0x3b, 0x32, 0x30, 0x30, 0x3b, 0x31,
        0x30, 0x30, 0x3b, 0x35, 0x30, 0x6d, 0x48, 0x65, 0x6c, 0x6c, 0x6f, 0x1b, 0x5b, 0x30,
        0x6d, 0x20, 0x77, 0x6f, 0x72, 0x6c, 0x64, 0x20, 0x1b, 0x5b, 0x3f, 0x32, 0x35, 0x6c,
        0x1b, 0x5b, 0x31, 0x30, 0x3b, 0x32, 0x30, 0x48, 0x1b, 0x5b, 0x4b, 0x1b, 0x5b, 0x3f,
        0x32, 0x35, 0x68,
    ]
}

/// `target_size` bytes of text mixed with cursor and erase sequences.
pub fn build_mixed_payload(target_size: usize) -> (buf: Vec<u8>)
    ensures
        buf@ == repeated(mixed_chunk(), target_size as nat),
{
    let chunk: [u8; 59] = [
        0x1b, 0x5b, 0x31, 0x3b, 0x33, 0x38, 0x3b, 0x32, 0x3b, 0x32, 0x30, 0x30, 0x3b, 0x31,
        0x30, 0x30, 0x3b, 0x35, 0x30, 0x6d, 0x48, 0x65, 0x6c, 0x6c, 0x6f, 0x1b, 0x5b, 0x30,
        0x6d, 0x20, 0x77, 0x6f, 0x72, 0x6c, 0x64, 0x20, 0x1b, 0x5b, 0x3f, 0x32, 0x35, 0x6c,
        0x1b, 0x5b, 0x31, 0x30, 0x3b, 0x32, 0x30, 0x48, 0x1b, 0x5b, 0x4b, 0x1b, 0x5b, 0x3f,
        0x32, 0x35, 0x68,
    ];
    assert(chunk@ =~= mixed_chunk());
    fill_repeating(&chunk, target_size)
}

/// The bytes of one cell of the dense screen: `界` on every eleventh
/// diagonal, otherwise a letter cycling through `a`..`z` by column.
pub open spec fn dense_cell(row: int, col: int) -> Seq<u8> {
    if (row + col) % 11 == 0 {
        seq![0xe7u8, 0x95, 0x8c]
    } else {
        seq![(0x61 + col % 26) as u8]
    }
}

/// The first `cols` cells of a row of the dense screen.
pub open spec fn dense_row(row: int, cols: nat) -> Seq<u8>
    decreases cols,
{
    if cols == 0 {
        seq![]
    } else {
        dense_row(row, (cols - 1) as nat) + dense_cell(row, cols - 1)
    }
}

/// The first `rows` rows of the dense screen, each but the last of a screen
/// of `total` rows followed by CR LF.
pub open spec fn dense_rows(cols: nat, rows: nat, total: nat) -> Seq<u8>
    decreases rows,
{
    if rows == 0 {
        seq![]
    } else {
        let r = rows - 1;
        dense_rows(cols, (rows - 1) as nat, total) + dense_row(r, cols) + if r + 1 < total {
            seq![0x0du8, 0x0a]
        } else {
            seq![]
        }
    }
}

/// A full screen of `cols` by `rows` cells of mixed narrow and wide text.
pub fn build_dense_terminal_payload(cols: u16, rows: u16) -> (buf: Vec<u8>)
    requires
        rows + cols <= u16::MAX + 1,
    ensures
        buf@ == dense_rows(cols as nat, rows as nat, rows as nat),
{
    let mut buf: Vec<u8> = Vec::new();
    let mut row: u16 = 0;
    while row < rows
        invariant
            row <= rows,
            rows + cols <= u16::MAX + 1,
            buf@ == dense_rows(cols as nat, row as nat, rows as nat),
        decreases rows - row,
    {
        let ghost start = buf@;
        let mut col: u16 = 0;
        while col < cols
            invariant
                row < rows,
                col <= cols,
                rows + cols <= u16::MAX + 1,
                buf@ == start + dense_row(row as int, col as nat),
            decreases cols - col,
        {
            if (row + col) % 11 == 0 {
                buf.push(0xe7);
                buf.push(0x95);
                buf.push(0x8c);
            } else {
                let ch = 0x61 + (col % 26) as u8;
                buf.push(ch);
            }
            assert(buf@ =~= start + dense_row(row as int, (col + 1) as nat));
            col = col + 1;
        }
        if row + 1 < rows {
            buf.push(0x0d);
            buf.push(0x0a);
        }
        assert(buf@ =~= dense_rows(cols as nat, (row + 1) as nat, rows as nat));
        row = row + 1;
    }
    buf
}

} // verus!
