//! The transfers the display's quad-SPI bus makes: register writes in
//! single-line mode behind the write opcode, and pixel data in quad mode
//! behind the memory-write opcode, cut into DMA-sized pieces.

use vstd::prelude::*;

verus! {

/// Bytes one DMA transfer carries.
pub const DMA_CHUNK: usize = 8000;
/// Pixels one DMA transfer carries.
pub const CHUNK_PIXELS: usize = 4000;
/// Opcode of a register write.
pub const OP_WRITE_REG: u8 = 0x02;
/// Opcode of a pixel-memory write in quad mode.
pub const OP_WRITE_PIXELS: u8 = 0x32;
/// Address field of a pixel-memory write (the memory-write command).
pub const PIXEL_ADDRESS: u32 = 0x003C00;

/// How many data lines a transfer uses.
#[derive(Clone, Copy, PartialEq, Eq, Structural)]
pub enum LineMode {
    Single,
    Quad,
}

/// One half-duplex write: its data mode, the optional 8-bit command and
/// 24-bit address sent before the data, and the data bytes.
pub struct Transfer {
    pub mode: LineMode,
    pub command: Option<u8>,
    pub address: Option<u32>,
    pub data: Vec<u8>,
}

/// The address field of register `reg`: the register number in the middle
/// byte.
pub open spec fn reg_address(reg: u8) -> u32 {
    (reg as u32 * 256) as u32
}

/// A register write: `reg` behind the write opcode, then `data`.
pub open spec fn reg_write(t: Transfer, reg: u8, data: Seq<u8>) -> bool {
    &&& t.mode == LineMode::Single
    &&& t.command == Some(OP_WRITE_REG)
    &&& t.address == Some(reg_address(reg))
    &&& t.data@ == data
}

fn reg_transfer(reg: u8, data: Vec<u8>) -> (t: Transfer)
    ensures
        reg_write(t, reg, data@),
{
    let address = (reg as u32) << 8u32;
    assert((reg as u32) << 8u32 == reg as u32 * 256) by (bit_vector);
    Transfer { mode: LineMode::Single, command: Some(OP_WRITE_REG), address: Some(address), data }
}

/// The transfer that writes register `reg` with no data.
pub fn write_command(reg: u8) -> (t: Transfer)
    ensures
        reg_write(t, reg, seq![]),
{
    let data: Vec<u8> = Vec::new();
    reg_transfer(reg, data)
}

/// The transfer that writes one byte to register `reg`.
pub fn write_c8d8(reg: u8, data: u8) -> (t: Transfer)
    ensures
        reg_write(t, reg, seq![data]),
{
    let mut v: Vec<u8> = Vec::new();
    v.push(data);
    assert(v@ =~= seq![data]);
    reg_transfer(reg, v)
}

/// The high and low byte of a 16-bit value.
pub open spec fn be16(v: u16) -> Seq<u8> {
    seq![(v / 256) as u8, (v % 256) as u8]
}

/// The transfer that writes two 16-bit values, high byte first, to
/// register `reg` (a column or row range).
pub fn write_c8d16d16(reg: u8, d1: u16, d2: u16) -> (t: Transfer)
    ensures
        reg_write(t, reg, be16(d1) + be16(d2)),
{
    let mut v: Vec<u8> = Vec::new();
    v.push((d1 >> 8u16) as u8);
    v.push((d1 & 0xFF) as u8);
    v.push((d2 >> 8u16) as u8);
    v.push((d2 & 0xFF) as u8);
    assert(d1 >> 8u16 == d1 / 256 && d1 & 0xFF == d1 % 256) by (bit_vector);
    assert(d2 >> 8u16 == d2 / 256 && d2 & 0xFF == d2 % 256) by (bit_vector);
    assert(v@ =~= be16(d1) + be16(d2));
    reg_transfer(reg, v)
}

/// A quad-mode transfer; the first of a pixel write carries the
/// memory-write opcode and address.
pub open spec fn pixel_transfer(t: Transfer, first: bool, data: Seq<u8>) -> bool {
    &&& t.mode == LineMode::Quad
    &&& t.command == (if first { Some(OP_WRITE_PIXELS) } else { None })
    &&& t.address == (if first { Some(PIXEL_ADDRESS) } else { None })
    &&& t.data@ == data
}

/// The transfer that opens a pixel stream, with no data.
pub fn begin_pixels() -> (t: Transfer)
    ensures
        pixel_transfer(t, true, seq![]),
{
    Transfer { mode: LineMode::Quad, command: Some(OP_WRITE_PIXELS), address: Some(PIXEL_ADDRESS), data: Vec::new() }
}

/// Pixels as bytes, each high byte first.
pub open spec fn pixel_bytes(px: Seq<u16>) -> Seq<u8> {
    Seq::new(2 * px.len(), |i: int| if i % 2 == 0 { (px[i / 2] / 256) as u8 } else { (px[i / 2] % 256) as u8 })
}

/// Piece `k` of `px` cut into pieces of `CHUNK_PIXELS`.
pub open spec fn piece(px: Seq<u16>, k: int) -> Seq<u16> {
    let end = if CHUNK_PIXELS * (k + 1) < px.len() { CHUNK_PIXELS * (k + 1) } else { px.len() as int };
    px.subrange(CHUNK_PIXELS * k, end)
}

/// How many pieces `n` items make.
pub open spec fn pieces(n: int) -> int {
    (n + CHUNK_PIXELS - 1) / (CHUNK_PIXELS as int)
}

/// The transfers that send `px`: one per piece, high byte first; the first
/// carries the memory-write opcode when `open` (a whole write), none does
/// when the stream was opened before.
pub open spec fn pixel_plan(ts: Seq<Transfer>, px: Seq<u16>, open: bool) -> bool {
    &&& ts.len() == pieces(px.len() as int)
    &&& forall|k: int| 0 <= k < ts.len() ==> pixel_transfer(#[trigger] ts[k], open && k == 0, pixel_bytes(piece(px, k)))
}

fn encode_pixels(px: &[u16], a: usize, b: usize) -> (r: Vec<u8>)
    requires
        a <= b <= px@.len(),
    ensures
        r@ == pixel_bytes(px@.subrange(a as int, b as int)),
{
    let mut out: Vec<u8> = Vec::new();
    let mut i = a;
    while i < b
        invariant
            a <= i <= b <= px@.len(),
            out@ == pixel_bytes(px@.subrange(a as int, i as int)),
        decreases b - i,
    {
        let p = px[i];
        out.push((p >> 8u16) as u8);
        out.push((p & 0xFF) as u8);
        assert(p >> 8u16 == p / 256 && p & 0xFF == p % 256) by (bit_vector);
        assert(out@ =~= pixel_bytes(px@.subrange(a as int, i + 1)));
        i = i + 1;
    }
    out
}

proof fn lemma_pieces_step(n: int, k: int)
    requires
        0 <= k,
        CHUNK_PIXELS * k < n,
    ensures
        pieces(n) >= k + 1,
        CHUNK_PIXELS * (k + 1) >= n ==> pieces(n) == k + 1,
{
    let c = CHUNK_PIXELS as int;
    if c * (k + 1) >= n {
        assert(n + c - 1 == (k + 1) * c + (n - c * k - 1)) by (nonlinear_arith);
        vstd::arithmetic::div_mod::lemma_fundamental_div_mod_converse(n + c - 1, c, k + 1, n - c * k - 1);
    } else {
        assert(n + c - 1 >= (k + 1) * c) by (nonlinear_arith)
            requires
                c * (k + 1) < n,
                c == 4000,
        ;
        vstd::arithmetic::div_mod::lemma_div_is_ordered((k + 1) * c, n + c - 1, c);
        vstd::arithmetic::div_mod::lemma_div_multiples_vanish(k + 1, c);
    }
}

proof fn lemma_no_pieces()
    ensures
        pieces(0) == 0,
{
    vstd::arithmetic::div_mod::lemma_fundamental_div_mod_converse(CHUNK_PIXELS - 1, CHUNK_PIXELS as int, 0, CHUNK_PIXELS - 1);
}

fn plan_pixels(px: &[u16], open: bool) -> (r: Vec<Transfer>)
    ensures
        pixel_plan(r@, px@, open),
{
    let n = px.len();
    let mut out: Vec<Transfer> = Vec::new();
    if n == 0 {
        proof {
            lemma_no_pieces();
        }
        return out;
    }
    let mut start: usize = 0;
    let mut k: usize = 0;
    loop
        invariant_except_break
            out@.len() == k,
            forall|j: int| 0 <= j < k ==> pixel_transfer(#[trigger] out@[j], open && j == 0, pixel_bytes(piece(px@, j))),
        invariant
            n == px@.len(),
            n > 0,
            start == CHUNK_PIXELS * k,
            start < n,
        ensures
            pixel_plan(out@, px@, open),
        decreases n - start,
    {
        let end = if n - start > CHUNK_PIXELS {
            start + CHUNK_PIXELS
        } else {
            n
        };
        let data = encode_pixels(px, start, end);
        let first = open && k == 0;
        let t = Transfer {
            mode: LineMode::Quad,
            command: if first { Some(OP_WRITE_PIXELS) } else { None },
            address: if first { Some(PIXEL_ADDRESS) } else { None },
            data,
        };
        let ghost before = out@;
        out.push(t);
        proof {
            lemma_pieces_step(n as int, k as int);
            assert(piece(px@, k as int) == px@.subrange(start as int, end as int));
            assert forall|j: int| 0 <= j < k + 1 implies pixel_transfer(#[trigger] out@[j], open && j == 0, pixel_bytes(piece(px@, j))) by {
                if j < k {
                    assert(out@[j] == before[j]);
                }
            }
        }
        if end == n {
            break;
        }
        start = end;
        k = k + 1;
    }
    out
}

/// The transfers of a whole pixel write: nothing for no pixels, else the
/// pixels in pieces, the first behind the memory-write opcode.
pub fn write_pixels(pixels: &[u16]) -> (r: Vec<Transfer>)
    ensures
        pixel_plan(r@, pixels@, true),
{
    plan_pixels(pixels, true)
}

/// The transfers that continue a stream opened by `begin_pixels`.
pub fn stream_pixels(pixels: &[u16]) -> (r: Vec<Transfer>)
    ensures
        pixel_plan(r@, pixels@, false),
{
    plan_pixels(pixels, false)
}

/// `n` copies of `color`.
pub open spec fn copies(color: u16, n: int) -> Seq<u16> {
    Seq::new(n as nat, |i: int| color)
}

/// The size of piece `k` of `count` items.
pub open spec fn piece_len(count: int, k: int) -> int {
    if count - CHUNK_PIXELS * k < CHUNK_PIXELS {
        count - CHUNK_PIXELS * k
    } else {
        CHUNK_PIXELS as int
    }
}

fn repeated_bytes(color: u16, n: usize) -> (r: Vec<u8>)
    ensures
        r@ == pixel_bytes(copies(color, n as int)),
{
    let hi = (color >> 8u16) as u8;
    let lo = (color & 0xFF) as u8;
    assert(color >> 8u16 == color / 256 && color & 0xFF == color % 256) by (bit_vector);
    let mut out: Vec<u8> = Vec::new();
    let mut i: usize = 0;
    while i < n
        invariant
            i <= n,
            hi == color / 256,
            lo == color % 256,
            out@ == pixel_bytes(copies(color, i as int)),
        decreases n - i,
    {
        out.push(hi);
        out.push(lo);
        i = i + 1;
        assert(out@ =~= pixel_bytes(copies(color, i as int)));
    }
    out
}

/// The transfers that fill `count` pixels with `color`: nothing for none,
/// else pieces of at most `CHUNK_PIXELS` copies, high byte first, the
/// first behind the memory-write opcode.
pub fn write_repeat(color: u16, count: u32) -> (r: Vec<Transfer>)
    ensures
        r@.len() == pieces(count as int),
        forall|k: int|
            0 <= k < r@.len() ==> pixel_transfer(
                #[trigger] r@[k],
                k == 0,
                pixel_bytes(copies(color, piece_len(count as int, k))),
            ),
{
    let mut out: Vec<Transfer> = Vec::new();
    if count == 0 {
        proof {
            lemma_no_pieces();
        }
        return out;
    }
    let mut remaining: u32 = count;
    let mut k: usize = 0;
    loop
        invariant_except_break
            out@.len() == k,
            forall|j: int|
                0 <= j < k ==> pixel_transfer(
                    #[trigger] out@[j],
                    j == 0,
                    pixel_bytes(copies(color, piece_len(count as int, j))),
                ),
        invariant
            remaining > 0,
            remaining == count - CHUNK_PIXELS * k,
        ensures
            out@.len() == pieces(count as int),
            forall|j: int|
                0 <= j < out@.len() ==> pixel_transfer(
                    #[trigger] out@[j],
                    j == 0,
                    pixel_bytes(copies(color, piece_len(count as int, j))),
                ),
        decreases remaining,
    {
        let n: u32 = if remaining < CHUNK_PIXELS as u32 {
            remaining
        } else {
            CHUNK_PIXELS as u32
        };
        let data = repeated_bytes(color, n as usize);
        let first = k == 0;
        let t = Transfer {
            mode: LineMode::Quad,
            command: if first { Some(OP_WRITE_PIXELS) } else { None },
            address: if first { Some(PIXEL_ADDRESS) } else { None },
            data,
        };
        let ghost before = out@;
        out.push(t);
        proof {
            lemma_pieces_step(count as int, k as int);
            assert forall|j: int| 0 <= j < k + 1 implies pixel_transfer(
                #[trigger] out@[j],
                j == 0,
                pixel_bytes(copies(color, piece_len(count as int, j))),
            ) by {
                if j < k {
                    assert(out@[j] == before[j]);
                }
            }
        }
        if n == remaining {
            break;
        }
        remaining = remaining - n;
        k = k + 1;
    }
    out
}

} // verus!
