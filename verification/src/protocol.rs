//! The register and page protocol: how a page selection, a single register
//! write and a bounded block write are laid out as bus transactions, and how
//! a long buffer is cut into blocks.
//!
//! Nothing here touches a bus. Each function returns the transactions that
//! are to be sent, in order; whoever owns the bus sends them.

use vstd::prelude::*;
use crate::bytes::{filled, uniform};
use crate::registers::{CONFIGURE_CMD_PAGE, MAX_BLOCK};

verus! {

/// What can go wrong while talking to the chips.
#[derive(Debug, Clone, Copy, PartialEq, Eq, Structural)]
pub enum Error {
    /// The bus did not accept a transaction.
    TransportFailure,
    /// A block write was asked to carry more than `MAX_BLOCK` data bytes.
    BlockTooLarge,
}

/// One write on the bus: the 7-bit address of the chip and the bytes sent.
#[derive(Debug, Clone, PartialEq, Eq)]
pub struct Transaction {
    pub addr: u8,
    pub payload: Vec<u8>,
}

/// Mathematical model of a `Transaction`.
pub ghost struct Frame {
    pub addr: u8,
    pub payload: Seq<u8>,
}

impl View for Transaction {
    type V = Frame;

    open spec fn view(&self) -> Frame {
        Frame { addr: self.addr, payload: self.payload@ }
    }
}

/// The models of a sequence of transactions, in the same order.
pub open spec fn frames(ts: Seq<Transaction>) -> Seq<Frame> {
    ts.map_values(|t: Transaction| t@)
}

/// The frame that writes `value` to the register `reg`.
pub open spec fn register_frame(addr: u8, reg: u8, value: u8) -> Frame {
    Frame { addr, payload: seq![reg, value] }
}

/// The frame that makes `page` the current page.
pub open spec fn page_frame(addr: u8, page: u8) -> Frame {
    register_frame(addr, CONFIGURE_CMD_PAGE, page)
}

/// The frame of one block write: the start register, then the data.
pub open spec fn block_frame(addr: u8, start_reg: u8, data: Seq<u8>) -> Frame {
    Frame { addr, payload: seq![start_reg] + data }
}

/// Number of blocks that `len` bytes are cut into.
pub open spec fn chunk_count(len: int) -> int {
    (len + 63) / 64
}

/// The `k`-th block of `data`: bytes `64 * k` up to the next multiple of 64
/// or the end of the data, whichever comes first.
pub open spec fn chunk_data(data: Seq<u8>, k: int) -> Seq<u8> {
    data.subrange(64 * k, if 64 * k + 64 <= data.len() { 64 * k + 64 } else { data.len() as int })
}

/// The frames that write `data` to consecutive registers from `start_reg`
/// on: block `k` starts at register `start_reg + 64 * k`.
pub open spec fn chunk_frames(addr: u8, start_reg: u8, data: Seq<u8>) -> Seq<Frame> {
    Seq::new(
        chunk_count(data.len() as int) as nat,
        |k: int| block_frame(addr, (start_reg + 64 * k) as u8, chunk_data(data, k)),
    )
}

/// Chunking is correct: there are as many blocks as the data needs and no
/// more; every block is addressed to the chip, starts at the register of
/// its first byte, and carries at least one and at most `MAX_BLOCK` data
/// bytes; and the byte `i` of the data travels in block `i / 64`, right
/// after the start register and the `i % 64` bytes before it.
pub proof fn lemma_chunking(addr: u8, start_reg: u8, data: Seq<u8>, i: int)
    requires
        0 <= i < data.len(),
        start_reg + data.len() <= 256,
    ensures
        chunk_frames(addr, start_reg, data).len() == chunk_count(data.len() as int),
        64 * (chunk_count(data.len() as int) - 1) < data.len() <= 64 * chunk_count(
            data.len() as int,
        ),
        0 <= i / 64 < chunk_count(data.len() as int),
        chunk_frames(addr, start_reg, data)[i / 64].addr == addr,
        chunk_frames(addr, start_reg, data)[i / 64].payload[0] == start_reg + 64 * (i / 64),
        2 <= chunk_frames(addr, start_reg, data)[i / 64].payload.len() <= 1 + MAX_BLOCK,
        chunk_frames(addr, start_reg, data)[i / 64].payload[1 + i % 64] == data[i],
{
}

/// A buffer of 192 bytes written from register 0 on takes exactly three
/// blocks of 64 bytes, which start at the registers 0, 64 and 128.
pub proof fn lemma_three_blocks(addr: u8, data: Seq<u8>)
    requires
        data.len() == 192,
    ensures
        chunk_frames(addr, 0, data) == seq![
            block_frame(addr, 0, data.subrange(0, 64)),
            block_frame(addr, 64, data.subrange(64, 128)),
            block_frame(addr, 128, data.subrange(128, 192)),
        ],
{
    let want = seq![
        block_frame(addr, 0, data.subrange(0, 64)),
        block_frame(addr, 64, data.subrange(64, 128)),
        block_frame(addr, 128, data.subrange(128, 192)),
    ];
    assert(chunk_frames(addr, 0, data) =~= want);
}

/// Data of at most `MAX_BLOCK` bytes, and at least one, takes exactly one
/// block, which carries all of it.
pub proof fn lemma_one_block(addr: u8, start_reg: u8, data: Seq<u8>)
    requires
        0 < data.len() <= MAX_BLOCK,
    ensures
        chunk_frames(addr, start_reg, data) == seq![block_frame(addr, start_reg, data)],
{
    assert(data.subrange(0, data.len() as int) =~= data);
    assert(chunk_frames(addr, start_reg, data) =~= seq![block_frame(addr, start_reg, data)]);
}

/// A single register write: the two bytes `[reg, value]`.
pub fn write_register(device_addr: u8, reg: u8, value: u8) -> (t: Transaction)
    ensures
        t@ == register_frame(device_addr, reg, value),
{
    let mut payload: Vec<u8> = Vec::new();
    payload.push(reg);
    payload.push(value);
    assert(payload@ =~= seq![reg, value]);
    Transaction { addr: device_addr, payload }
}

/// Selects a page: writes `page_id` to the page-select command register.
pub fn select_page(device_addr: u8, page_id: u8) -> (t: Transaction)
    ensures
        t@ == page_frame(device_addr, page_id),
{
    write_register(device_addr, CONFIGURE_CMD_PAGE, page_id)
}

/// The block write of `data[from..to]` starting at `start_reg`.
fn block(device_addr: u8, start_reg: u8, data: &[u8], from: usize, to: usize) -> (t: Transaction)
    requires
        from <= to <= data@.len(),
    ensures
        t@ == block_frame(device_addr, start_reg, data@.subrange(from as int, to as int)),
{
    let mut payload: Vec<u8> = Vec::new();
    payload.push(start_reg);
    let mut i: usize = from;
    while i < to
        invariant
            from <= i <= to <= data@.len(),
            payload@ == seq![start_reg] + data@.subrange(from as int, i as int),
        decreases to - i,
    {
        payload.push(data[i]);
        i += 1;
        assert(payload@ =~= seq![start_reg] + data@.subrange(from as int, i as int));
    }
    Transaction { addr: device_addr, payload }
}

/// One block write of `data` starting at `start_reg`, as a single
/// transaction `[start_reg, data...]`. Refused with `BlockTooLarge` exactly
/// when `data` is longer than `MAX_BLOCK`.
pub fn write_block(device_addr: u8, start_reg: u8, data: &[u8]) -> (r: Result<Transaction, Error>)
    ensures
        r is Err <==> data@.len() > MAX_BLOCK,
        r is Err ==> r == Err::<Transaction, Error>(Error::BlockTooLarge),
        r is Ok ==> r->Ok_0@ == block_frame(device_addr, start_reg, data@),
{
    if data.len() > MAX_BLOCK {
        return Err(Error::BlockTooLarge);
    }
    assert(data@.subrange(0, data@.len() as int) =~= data@);
    Ok(block(device_addr, start_reg, data, 0, data.len()))
}

/// Writes `data` to consecutive registers from `start_reg` on, cut into
/// blocks of at most `MAX_BLOCK` bytes. The registers written must exist:
/// register numbers are eight bits wide.
pub fn write_buffer(device_addr: u8, start_reg: u8, data: &[u8]) -> (out: Vec<Transaction>)
    requires
        start_reg + data@.len() <= 256,
    ensures
        frames(out@) == chunk_frames(device_addr, start_reg, data@),
{
    let mut out: Vec<Transaction> = Vec::new();
    let mut off: usize = 0;
    let ghost want = chunk_frames(device_addr, start_reg, data@);
    while off < data.len()
        invariant
            start_reg + data@.len() <= 256,
            off <= data@.len(),
            off % 64 == 0 || off == data@.len(),
            out@.len() == chunk_count(off as int),
            want == chunk_frames(device_addr, start_reg, data@),
            forall|k: int| 0 <= k < out@.len() ==> (#[trigger] out@[k])@ == want[k],
        decreases data@.len() - off,
    {
        let end: usize = if data.len() - off > MAX_BLOCK { off + MAX_BLOCK } else { data.len() };
        let ghost k: int = off as int / 64;
        assert(data@.subrange(off as int, end as int) == chunk_data(data@, k));
        let reg: u8 = (start_reg as usize + off) as u8;
        let t = block(device_addr, reg, data, off, end);
        assert(t@ == want[k]);
        out.push(t);
        off = end;
    }
    assert(frames(out@) =~= want);
    out
}

/// Fills `length` consecutive registers from `start_reg` on with `value`,
/// cut into blocks like `write_buffer`.
pub fn write_repeat(device_addr: u8, start_reg: u8, value: u8, length: usize) -> (out: Vec<
    Transaction,
>)
    requires
        start_reg + length <= 256,
    ensures
        frames(out@) == chunk_frames(device_addr, start_reg, uniform(length as nat, value)),
{
    let fill = filled(value, length);
    write_buffer(device_addr, start_reg, fill.as_slice())
}

} // verus!
