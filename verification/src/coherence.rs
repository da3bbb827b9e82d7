//! The buffers of the controller are a write-back cache of the chips'
//! registers: a buffer that is not dirty holds what the chip holds. The
//! laws here show, on the chip model, that flushing keeps it so, however
//! many transactions the bus accepted.

use vstd::prelude::*;
use crate::chip::{lemma_after_append, lemma_after_push, Chip};
use crate::device::DeviceView;
use crate::driver::ControllerView;
use crate::plan::{concat_upto, lemma_concat_grows};
use crate::protocol::{chunk_count, chunk_frames, page_frame, Frame};
use crate::registers::{CONFIGURE_CMD_PAGE, LED_CONTROL_PAGE, LED_PWM_PAGE};
use crate::sequence::{
    control_flush_frames,
    device_flush_frames,
    device_flushed,
    lemma_device_lengths,
    page_write_frames,
    pwm_flush_frames,
};

verus! {

impl Chip {
    /// The first registers of `page` hold the bytes of `data`, in order.
    pub open spec fn holds(self, page: u8, data: Seq<u8>) -> bool {
        forall|i: int| 0 <= i < data.len() ==> #[trigger] self.reg(page, i as u8) == data[i]
    }

    /// The first `upto` bytes of `data` are in the first registers of
    /// `page`.
    pub open spec fn holds_upto(self, page: u8, data: Seq<u8>, upto: int) -> bool {
        forall|i: int|
            0 <= i < data.len() && i < upto ==> #[trigger] self.reg(page, i as u8) == data[i]
    }

    /// Every register outside `page` holds what it holds in `other`.
    pub open spec fn same_outside(self, other: Chip, page: u8) -> bool {
        forall|q: u8, r: u8| q != page ==> #[trigger] self.reg(q, r) == other.reg(q, r)
    }
}

/// The chip holds every buffer of `dev` that is not dirty.
pub open spec fn coherent(chip: Chip, dev: DeviceView) -> bool {
    &&& !dev.pwm_dirty ==> chip.holds(LED_PWM_PAGE, dev.pwm)
    &&& !dev.control_dirty ==> chip.holds(LED_CONTROL_PAGE, dev.control)
}

/// The first `m` transactions of a plan.
pub open spec fn prefix(plan: Seq<Frame>, m: int) -> Seq<Frame> {
    plan.subrange(0, m)
}

/// Transactions for other chips pass a chip by.
pub proof fn lemma_passes_by(chip: Chip, addr: u8, plan: Seq<Frame>)
    requires
        forall|i: int| 0 <= i < plan.len() ==> (#[trigger] plan[i]).addr != addr,
    ensures
        chip.after(addr, plan) == chip,
    decreases plan.len(),
{
    if plan.len() > 0 {
        lemma_passes_by(chip, addr, plan.drop_last());
    }
}

/// The first `m` blocks of `data`, written from register 0 on, put the
/// bytes they carry into the current page and leave every other register
/// and the page selection alone.
pub proof fn lemma_blocks_written(chip: Chip, addr: u8, data: Seq<u8>, m: int)
    requires
        data.len() <= 256,
        0 <= m <= chunk_count(data.len() as int),
    ensures
        chip.after(addr, prefix(chunk_frames(addr, 0, data), m)).page == chip.page,
        chip.after(addr, prefix(chunk_frames(addr, 0, data), m)).same_outside(chip, chip.page),
        chip.after(addr, prefix(chunk_frames(addr, 0, data), m)).holds_upto(
            chip.page,
            data,
            64 * m,
        ),
    decreases m,
{
    let all = chunk_frames(addr, 0, data);
    if m == 0 {
        assert(prefix(all, 0) =~= Seq::<Frame>::empty());
    } else {
        lemma_blocks_written(chip, addr, data, m - 1);
        let before = chip.after(addr, prefix(all, m - 1));
        let f = all[m - 1];
        assert(prefix(all, m) =~= prefix(all, m - 1).push(f));
        lemma_after_push(chip, addr, prefix(all, m - 1), f);
        let now = chip.after(addr, prefix(all, m));
        let start: int = 64 * (m - 1);
        let carried = f.payload.subrange(1, f.payload.len() as int);
        assert(f.payload[0] == start);
        assert(f.payload[0] != CONFIGURE_CMD_PAGE);
        assert(now == before.written(f.payload[0], carried));
        assert forall|q: u8, r: u8| q != chip.page implies #[trigger] now.reg(q, r) == chip.reg(
            q,
            r,
        ) by {
            assert(now.reg(q, r) == before.reg(q, r));
        }
        assert forall|i: int| 0 <= i < data.len() && i < 64 * m implies #[trigger] now.reg(
            chip.page,
            i as u8,
        ) == data[i] by {
            if i >= start {
                assert(carried[i - start] == data[i]);
            } else {
                assert(before.reg(chip.page, i as u8) == data[i]);
            }
        }
    }
}

/// The first `m` transactions of selecting a page and writing `data` to it
/// leave every register outside that page alone; all of them together put
/// `data` into the page.
pub proof fn lemma_page_written(chip: Chip, addr: u8, page: u8, data: Seq<u8>, m: int)
    requires
        data.len() <= 256,
        0 <= m <= page_write_frames(addr, page, data).len(),
    ensures
        chip.after(addr, prefix(page_write_frames(addr, page, data), m)).same_outside(chip, page),
        m == page_write_frames(addr, page, data).len() ==> chip.after(
            addr,
            prefix(page_write_frames(addr, page, data), m),
        ).holds(page, data),
        m == 0 ==> chip.after(addr, prefix(page_write_frames(addr, page, data), m)) == chip,
        m <= 1 ==> chip.after(addr, prefix(page_write_frames(addr, page, data), m)).regs
            == chip.regs,
{
    let all = page_write_frames(addr, page, data);
    let blocks = chunk_frames(addr, 0, data);
    if m == 0 {
        assert(prefix(all, 0) =~= Seq::<Frame>::empty());
    } else {
        let select = seq![page_frame(addr, page)];
        assert(prefix(all, m) =~= select + prefix(blocks, m - 1));
        lemma_after_append(chip, addr, select, prefix(blocks, m - 1));
        assert(select =~= Seq::<Frame>::empty().push(page_frame(addr, page)));
        lemma_after_push(chip, addr, Seq::<Frame>::empty(), page_frame(addr, page));
        let selected = chip.after(addr, select);
        assert(selected == Chip { page, ..chip });
        lemma_blocks_written(selected, addr, data, m - 1);
        let now = chip.after(addr, prefix(all, m));
        if m == 1 {
            assert(prefix(blocks, 0) =~= Seq::<Frame>::empty());
        }
        assert forall|q: u8, r: u8| q != page implies #[trigger] now.reg(q, r) == chip.reg(
            q,
            r,
        ) by {
            assert(now.reg(q, r) == selected.reg(q, r));
        }
    }
}

/// What a page holds is not lost when only another page is written.
pub proof fn lemma_holds_carried(before: Chip, now: Chip, page: u8, touched: u8, data: Seq<u8>)
    requires
        before.holds(page, data),
        now.same_outside(before, touched),
        touched != page,
    ensures
        now.holds(page, data),
{
    assert forall|i: int| 0 <= i < data.len() implies #[trigger] now.reg(page, i as u8)
        == data[i] by {
        assert(before.reg(page, i as u8) == data[i]);
    }
}

/// A cut through two plans sent one after the other is a cut through the
/// first, followed by a cut through the second.
pub proof fn lemma_after_prefix_append(
    chip: Chip,
    addr: u8,
    first: Seq<Frame>,
    second: Seq<Frame>,
    k: int,
)
    requires
        0 <= k <= first.len() + second.len(),
    ensures
        chip.after(addr, prefix(first + second, k)) == chip.after(
            addr,
            prefix(first, clamp(k, first.len() as int)),
        ).after(addr, prefix(second, clamp(k - first.len(), second.len() as int))),
{
    if k <= first.len() {
        assert(prefix(first + second, k) =~= prefix(first, k));
        assert(prefix(second, 0) =~= Seq::<Frame>::empty());
    } else {
        assert(prefix(first + second, k) =~= first + prefix(second, k - first.len()));
        assert(prefix(first, first.len() as int) =~= first);
        lemma_after_append(chip, addr, first, prefix(second, k - first.len()));
    }
}

/// Flushing one chip keeps it coherent with its buffers, wherever the
/// flush stopped: a buffer is marked clean only when the chip has received
/// all of it, and the registers of a buffer that was not sent are not
/// touched.
pub proof fn lemma_device_flush_coherent(chip: Chip, addr: u8, dev: DeviceView, k: int)
    requires
        dev.wf(),
        0 <= k <= device_flush_frames(addr, dev).len(),
        coherent(chip, dev),
    ensures
        coherent(
            chip.after(addr, prefix(device_flush_frames(addr, dev), k)),
            device_flushed(dev, k),
        ),
{
    lemma_device_lengths(0, dev);
    lemma_device_lengths(addr, dev);
    let first = control_flush_frames(addr, dev);
    let second = pwm_flush_frames(addr, dev);
    let all = device_flush_frames(addr, dev);
    let now = chip.after(addr, prefix(all, k));
    if k <= first.len() {
        assert(prefix(all, k) =~= prefix(first, k));
        if dev.control_dirty {
            lemma_page_written(chip, addr, LED_CONTROL_PAGE, dev.control, k);
        } else {
            assert(prefix(first, k) =~= Seq::<Frame>::empty());
        }
        assert(now.holds(LED_PWM_PAGE, dev.pwm) || dev.pwm_dirty) by {
            if !dev.pwm_dirty {
                assert forall|i: int| 0 <= i < dev.pwm.len() implies #[trigger] now.reg(
                    LED_PWM_PAGE,
                    i as u8,
                ) == dev.pwm[i] by {
                    assert(chip.reg(LED_PWM_PAGE, i as u8) == dev.pwm[i]);
                }
            }
        }
    } else {
        let rest = k - first.len();
        assert(prefix(all, k) =~= first + prefix(second, rest));
        lemma_after_append(chip, addr, first, prefix(second, rest));
        let mid = chip.after(addr, first);
        assert(prefix(first, first.len() as int) =~= first);
        if dev.control_dirty {
            lemma_page_written(chip, addr, LED_CONTROL_PAGE, dev.control, first.len() as int);
        }
        assert(mid.holds(LED_CONTROL_PAGE, dev.control));
        lemma_page_written(mid, addr, LED_PWM_PAGE, dev.pwm, rest);
        assert forall|i: int| 0 <= i < dev.control.len() implies #[trigger] now.reg(
            LED_CONTROL_PAGE,
            i as u8,
        ) == dev.control[i] by {
            assert(mid.reg(LED_CONTROL_PAGE, i as u8) == dev.control[i]);
        }
    }
}

/// No two chips have the same address.
pub open spec fn distinct(addrs: Seq<u8>) -> bool {
    forall|i: int, j: int| 0 <= i < j < addrs.len() ==> addrs[i] != addrs[j]
}

/// `k` brought into the range from 0 to `len`.
pub open spec fn clamp(k: int, len: int) -> int {
    if k < 0 {
        0
    } else if k > len {
        len
    } else {
        k
    }
}

/// On a bus where every chip has its own address, a chip sees of a plan
/// that was cut short exactly the transactions of its own part that came
/// before the cut.
pub proof fn lemma_concat_prefix(
    chip: Chip,
    addrs: Seq<u8>,
    parts: spec_fn(int) -> Seq<Frame>,
    n: nat,
    d: int,
    sent: int,
)
    requires
        n <= addrs.len(),
        distinct(addrs),
        0 <= d < addrs.len(),
        0 <= sent <= concat_upto(parts, n).len(),
        forall|j: int, i: int|
            0 <= j < n && 0 <= i < parts(j).len() ==> (#[trigger] parts(j)[i]).addr == addrs[j],
    ensures
        chip.after(addrs[d], prefix(concat_upto(parts, n), sent)) == if d < n {
            chip.after(
                addrs[d],
                prefix(
                    parts(d),
                    clamp(sent - concat_upto(parts, d as nat).len(), parts(d).len() as int),
                ),
            )
        } else {
            chip
        },
    decreases n,
{
    let addr = addrs[d];
    if n == 0 {
        assert(prefix(concat_upto(parts, 0), sent) =~= Seq::<Frame>::empty());
    } else {
        let m = (n - 1) as nat;
        let head = concat_upto(parts, m);
        let tail = parts(m as int);
        if d < m {
            lemma_concat_grows(parts, (d + 1) as nat, m);
        }
        if sent <= head.len() {
            assert(prefix(head + tail, sent) =~= prefix(head, sent));
            lemma_concat_prefix(chip, addrs, parts, m, d, sent);
            if d == m {
                assert(prefix(tail, 0) =~= Seq::<Frame>::empty());
            }
        } else {
            let rest = sent - head.len();
            assert(prefix(head + tail, sent) =~= head + prefix(tail, rest));
            assert(prefix(head, head.len() as int) =~= head);
            lemma_after_append(chip, addr, head, prefix(tail, rest));
            lemma_concat_prefix(chip, addrs, parts, m, d, head.len() as int);
            if d != m {
                let mid = chip.after(addr, head);
                assert forall|i: int| 0 <= i < prefix(tail, rest).len() implies (
                #[trigger] prefix(tail, rest)[i]).addr != addr by {
                    assert(prefix(tail, rest)[i] == parts(m as int)[i]);
                }
                lemma_passes_by(mid, addr, prefix(tail, rest));
            }
        }
    }
}

/// The cache law of the flush. On a bus where every chip has its own
/// address, take a chip that holds every clean buffer the controller has
/// for it. Send the first `sent` transactions of a flush and record that
/// count: the chip still holds every buffer that is now clean. After a
/// flush that was accepted in full it holds both.
pub proof fn lemma_flush_keeps_coherence(v: ControllerView, chip: Chip, d: int, sent: int)
    requires
        v.wf(),
        distinct(v.addrs),
        0 <= d < v.addrs.len(),
        0 <= sent <= v.flush_frames().len(),
        coherent(chip, v.devices[d]),
    ensures
        coherent(
            chip.after(v.addrs[d], prefix(v.flush_frames(), sent)),
            v.flushed(sent).devices[d],
        ),
        sent == v.flush_frames().len() ==> chip.after(v.addrs[d], v.flush_frames()).holds(
            LED_PWM_PAGE,
            v.devices[d].pwm,
        ) && chip.after(v.addrs[d], v.flush_frames()).holds(LED_CONTROL_PAGE, v.devices[d].control),
{
    let n = v.addrs.len();
    let parts = v.flush_parts();
    let dev = v.devices[d];
    assert(dev.wf());
    assert forall|j: int, i: int| 0 <= j < n && 0 <= i < parts(j).len() implies (
    #[trigger] parts(j)[i]).addr == v.addrs[j] by {
        crate::laws::lemma_device_flush_addr(v.addrs[j], v.devices[j], i);
    }
    lemma_concat_prefix(chip, v.addrs, parts, n, d, sent);
    let k = sent - v.flush_offset(d);
    let len = parts(d).len() as int;
    lemma_device_lengths(0, dev);
    lemma_device_lengths(v.addrs[d], dev);
    lemma_device_flush_coherent(chip, v.addrs[d], dev, clamp(k, len));
    assert(device_flushed(dev, clamp(k, len)) == device_flushed(dev, k));
    if sent == v.flush_frames().len() {
        assert(prefix(v.flush_frames(), sent) =~= v.flush_frames());
        lemma_concat_grows(parts, (d + 1) as nat, n);
        assert(v.flush_offset(d + 1) == v.flush_offset(d) + len);
    }
}

/// Giving LEDs a colour sends nothing, and it keeps every chip coherent
/// with its buffers: the buffer that changes is marked dirty.
pub proof fn lemma_set_color_keeps_coherence(
    v: ControllerView,
    chip: Chip,
    d: int,
    idx: int,
    r: u8,
    g: u8,
    b: u8,
    percent: u8,
)
    requires
        0 <= d < v.devices.len(),
        coherent(chip, v.devices[d]),
    ensures
        v.set_color(idx, r, g, b, percent).devices.len() == v.devices.len(),
        coherent(chip, v.set_color(idx, r, g, b, percent).devices[d]),
{
}

/// Setting a byte of a bitmap sends nothing, and it keeps every chip
/// coherent with its buffers: the bitmap that changes is marked dirty.
pub proof fn lemma_set_control_keeps_coherence(
    v: ControllerView,
    chip: Chip,
    d: int,
    device: int,
    offset: int,
    value: u8,
)
    requires
        0 <= d < v.devices.len(),
        coherent(chip, v.devices[d]),
    ensures
        v.set_control(device, offset, value).devices.len() == v.devices.len(),
        coherent(chip, v.set_control(device, offset, value).devices[d]),
{
}

/// Giving every LED a colour keeps every chip coherent with its buffers.
pub proof fn lemma_set_color_all_keeps_coherence(
    v: ControllerView,
    chip: Chip,
    d: int,
    n: nat,
    r: u8,
    g: u8,
    b: u8,
    percent: u8,
)
    requires
        0 <= d < v.devices.len(),
        coherent(chip, v.devices[d]),
    ensures
        v.colored_upto(n, r, g, b, percent).devices.len() == v.devices.len(),
        coherent(chip, v.colored_upto(n, r, g, b, percent).devices[d]),
    decreases n,
{
    if n > 0 {
        lemma_set_color_all_keeps_coherence(v, chip, d, (n - 1) as nat, r, g, b, percent);
        lemma_set_color_keeps_coherence(
            v.colored_upto((n - 1) as nat, r, g, b, percent),
            chip,
            d,
            n - 1,
            r,
            g,
            b,
            percent,
        );
    }
}

} // verus!
