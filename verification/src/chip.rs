//! A model of the chip on the other side of the bus: a current page and
//! one byte for each register of each page. It says what a sequence of
//! transactions does to a chip, so that the plans of the controller can be
//! judged by their effect.

use vstd::prelude::*;
use crate::driver::ControllerView;
use crate::plan::concat_upto;
use crate::protocol::{page_frame, register_frame, Frame};
use crate::registers::{
    CONFIGURATION_REG,
    CONFIGURE_CMD_PAGE,
    FUNCTION_PAGE,
    MSKSLEEP_DISABLE,
    MSKSLEEP_ENABLE,
    MSKSW_NORMAL_MODE,
    MSKSW_SHUT_DOWN_MODE,
    SOFTWARE_SLEEP_REG,
};

verus! {

/// The registers of one chip.
pub ghost struct Chip {
    /// The page that register numbers currently refer to.
    pub page: u8,
    /// The byte in each register, by page and register number.
    pub regs: Map<(u8, u8), u8>,
}

impl Chip {
    /// The byte in the register `reg` of `page`.
    pub open spec fn reg(self, page: u8, reg: u8) -> u8 {
        self.regs[(page, reg)]
    }

    /// The chip after `data` was written to consecutive registers of the
    /// current page, from `start` on.
    pub open spec fn written(self, start: u8, data: Seq<u8>) -> Chip {
        Chip {
            page: self.page,
            regs: Map::new(
                |key: (u8, u8)| true,
                |key: (u8, u8)|
                    if key.0 == self.page && start <= key.1 < start + data.len() {
                        data[key.1 - start]
                    } else {
                        self.regs[key]
                    },
            ),
        }
    }

    /// The chip after it received one transaction. A write to the command
    /// register selects a page; any other write stores the bytes after the
    /// first in consecutive registers of the current page, starting at the
    /// register that the first byte names.
    pub open spec fn received(self, payload: Seq<u8>) -> Chip {
        if payload.len() < 2 {
            self
        } else if payload[0] == CONFIGURE_CMD_PAGE {
            Chip { page: payload[1], ..self }
        } else {
            self.written(payload[0], payload.subrange(1, payload.len() as int))
        }
    }

    /// The chip at `addr` after the transactions of `plan` were sent, in
    /// order. Transactions for other addresses pass it by.
    pub open spec fn after(self, addr: u8, plan: Seq<Frame>) -> Chip
        decreases plan.len(),
    {
        if plan.len() == 0 {
            self
        } else {
            let before = self.after(addr, plan.drop_last());
            if plan.last().addr == addr {
                before.received(plan.last().payload)
            } else {
                before
            }
        }
    }

    /// The chip after the function page was selected and the mode and the
    /// software sleep were set.
    pub open spec fn powered(self, mode: u8, sleep: u8) -> Chip {
        Chip {
            page: FUNCTION_PAGE,
            regs: Map::new(
                |key: (u8, u8)| true,
                |key: (u8, u8)|
                    if key == (FUNCTION_PAGE, CONFIGURATION_REG) {
                        mode
                    } else if key == (FUNCTION_PAGE, SOFTWARE_SLEEP_REG) {
                        sleep
                    } else {
                        self.regs[key]
                    },
            ),
        }
    }
}

/// The three transactions that select the function page and set the mode
/// and the software sleep of the chip at `addr`. Going to sleep writes the
/// mode first and the software sleep second; waking up is the inverse and
/// writes the software sleep first.
pub open spec fn power_frames(addr: u8, mode: u8, sleep: u8, mode_first: bool) -> Seq<Frame> {
    if mode_first {
        seq![
            page_frame(addr, FUNCTION_PAGE),
            register_frame(addr, CONFIGURATION_REG, mode),
            register_frame(addr, SOFTWARE_SLEEP_REG, sleep),
        ]
    } else {
        seq![
            page_frame(addr, FUNCTION_PAGE),
            register_frame(addr, SOFTWARE_SLEEP_REG, sleep),
            register_frame(addr, CONFIGURATION_REG, mode),
        ]
    }
}

/// Sending one more transaction: the chip receives it if it is addressed
/// to the chip.
pub proof fn lemma_after_push(chip: Chip, addr: u8, plan: Seq<Frame>, f: Frame)
    ensures
        chip.after(addr, plan.push(f)) == if f.addr == addr {
            chip.after(addr, plan).received(f.payload)
        } else {
            chip.after(addr, plan)
        },
{
    assert(plan.push(f).drop_last() =~= plan);
}

/// Sending two plans one after the other is sending their concatenation.
pub proof fn lemma_after_append(chip: Chip, addr: u8, first: Seq<Frame>, second: Seq<Frame>)
    ensures
        chip.after(addr, first + second) == chip.after(addr, first).after(addr, second),
    decreases second.len(),
{
    if second.len() == 0 {
        assert(first + second =~= first);
    } else {
        lemma_after_append(chip, addr, first, second.drop_last());
        assert((first + second).drop_last() =~= first + second.drop_last());
    }
}

/// What the three power transactions do to the chip they are addressed
/// to, in either order of the two registers, and that they pass every
/// other chip by.
pub proof fn lemma_power_frames(
    chip: Chip,
    addr: u8,
    to: u8,
    mode: u8,
    sleep: u8,
    mode_first: bool,
)
    ensures
        chip.after(addr, power_frames(to, mode, sleep, mode_first)) == if to == addr {
            chip.powered(mode, sleep)
        } else {
            chip
        },
{
    let select = page_frame(to, FUNCTION_PAGE);
    let set_mode = register_frame(to, CONFIGURATION_REG, mode);
    let set_sleep = register_frame(to, SOFTWARE_SLEEP_REG, sleep);
    let f1 = if mode_first { set_mode } else { set_sleep };
    let f2 = if mode_first { set_sleep } else { set_mode };
    let none = Seq::<Frame>::empty();
    assert(power_frames(to, mode, sleep, mode_first) =~= none.push(select).push(f1).push(f2));
    lemma_after_push(chip, addr, none, select);
    lemma_after_push(chip, addr, none.push(select), f1);
    lemma_after_push(chip, addr, none.push(select).push(f1), f2);
    if to == addr {
        let c0 = chip.received(select.payload);
        assert(c0 == Chip { page: FUNCTION_PAGE, ..chip });
        let c1 = c0.received(f1.payload);
        assert(set_mode.payload.subrange(1, 2) =~= seq![mode]);
        assert(set_sleep.payload.subrange(1, 2) =~= seq![sleep]);
        let c2 = c1.received(f2.payload);
        assert(c2.regs =~= chip.powered(mode, sleep).regs);
    }
}

/// Whether one of the first `n` addresses is `addr`.
pub open spec fn addressed(addrs: Seq<u8>, n: int, addr: u8) -> bool {
    exists|d: int| 0 <= d < n && #[trigger] addrs[d] == addr
}

/// A plan that sends the same power transactions to each of `n` chips,
/// in either order of the two registers, sets the mode and the software sleep of every chip whose address is
/// among them and changes nothing else.
pub proof fn lemma_power_plan(
    chip: Chip,
    addr: u8,
    addrs: Seq<u8>,
    parts: spec_fn(int) -> Seq<Frame>,
    n: nat,
    mode: u8,
    sleep: u8,
    mode_first: bool,
)
    requires
        n <= addrs.len(),
        forall|d: int|
            0 <= d < n ==> #[trigger] parts(d) == power_frames(addrs[d], mode, sleep, mode_first),
    ensures
        chip.after(addr, concat_upto(parts, n)) == if addressed(addrs, n as int, addr) {
            chip.powered(mode, sleep)
        } else {
            chip
        },
    decreases n,
{
    if n > 0 {
        let m = (n - 1) as nat;
        lemma_power_plan(chip, addr, addrs, parts, m, mode, sleep, mode_first);
        let before = chip.after(addr, concat_upto(parts, m));
        lemma_after_append(chip, addr, concat_upto(parts, m), parts(m as int));
        lemma_power_frames(before, addr, addrs[m as int], mode, sleep, mode_first);
        assert(chip.powered(mode, sleep).powered(mode, sleep).regs =~= chip.powered(
            mode,
            sleep,
        ).regs);
        if addressed(addrs, m as int, addr) {
            let d = choose|d: int| 0 <= d < m && #[trigger] addrs[d] == addr;
            assert(0 <= d < n && addrs[d] == addr);
        } else if addrs[m as int] == addr {
            assert(addressed(addrs, n as int, addr));
        } else {
            if addressed(addrs, n as int, addr) {
                let d = choose|d: int| 0 <= d < n && #[trigger] addrs[d] == addr;
                assert(d < m);
                assert(false);
            }
        }
    }
}

/// Sleep and wake: putting the chips to sleep leaves each in shutdown mode
/// with software sleep on; waking them afterwards leaves each in normal
/// mode with software sleep off, on the function page, and with every
/// other register, those of the bitmap and of the PWM page among them, as
/// it was before the chips were put to sleep.
pub proof fn lemma_sleep_and_wake(v: ControllerView, chip: Chip, d: int)
    requires
        0 <= d < v.addrs.len(),
    ensures
        chip.after(v.addrs[d], v.shutdown_frames()) == chip.powered(
            MSKSW_SHUT_DOWN_MODE,
            MSKSLEEP_ENABLE,
        ),
        chip.after(v.addrs[d], v.shutdown_frames() + v.return_normal_frames()) == chip.powered(
            MSKSW_NORMAL_MODE,
            MSKSLEEP_DISABLE,
        ),
        chip.powered(MSKSW_NORMAL_MODE, MSKSLEEP_DISABLE).reg(FUNCTION_PAGE, CONFIGURATION_REG)
            == MSKSW_NORMAL_MODE,
        chip.powered(MSKSW_NORMAL_MODE, MSKSLEEP_DISABLE).reg(FUNCTION_PAGE, SOFTWARE_SLEEP_REG)
            == MSKSLEEP_DISABLE,
        forall|page: u8, reg: u8|
            page != FUNCTION_PAGE ==> #[trigger] chip.powered(
                MSKSW_NORMAL_MODE,
                MSKSLEEP_DISABLE,
            ).reg(page, reg) == chip.reg(page, reg),
{
    let addr = v.addrs[d];
    let n = v.addrs.len();
    assert(addressed(v.addrs, n as int, addr));
    lemma_power_plan(
        chip,
        addr,
        v.addrs,
        v.shutdown_parts(),
        n,
        MSKSW_SHUT_DOWN_MODE,
        MSKSLEEP_ENABLE,
        true,
    );
    let slept = chip.after(addr, v.shutdown_frames());
    lemma_after_append(chip, addr, v.shutdown_frames(), v.return_normal_frames());
    lemma_power_plan(
        slept,
        addr,
        v.addrs,
        v.return_normal_parts(),
        n,
        MSKSW_NORMAL_MODE,
        MSKSLEEP_DISABLE,
        false,
    );
    assert(slept.powered(MSKSW_NORMAL_MODE, MSKSLEEP_DISABLE).regs =~= chip.powered(
        MSKSW_NORMAL_MODE,
        MSKSLEEP_DISABLE,
    ).regs);
}

} // verus!
