//! The start-up seen from the chip: what its stages do to the registers,
//! that it keeps chip and buffers coherent wherever it stopped, and the
//! state of a chip whose start-up was accepted in full.

use vstd::prelude::*;
use crate::bytes::uniform;
use crate::chip::{lemma_after_append, lemma_after_push, Chip};
use crate::coherence::{
    clamp,
    coherent,
    distinct,
    lemma_after_prefix_append,
    lemma_concat_prefix,
    lemma_holds_carried,
    lemma_page_written,
    prefix,
};
use crate::device::DeviceView;
use crate::driver::ControllerView;
use crate::protocol::{page_frame, register_frame, Frame};
use crate::registers::{
    CONFIGURATION_REG,
    CONFIGURE_CMD_PAGE,
    CURRENT_TUNE_PAGE,
    DEFAULT_CURRENT_TUNE,
    FUNCTION_PAGE,
    LED_CONTROL_ON_OFF_LENGTH,
    LED_CONTROL_PAGE,
    LED_CURRENT_TUNE_LENGTH,
    LED_PWM_LENGTH,
    LED_PWM_PAGE,
    MSKDRIVING_SINKING_CHHANNEL_SLEWRATE_ENABLE,
    MSKPHASE_12CHANNEL,
    MSKPWM_DELAY_PHASE_ENABLE,
    MSKSET_CA_CB_CHANNEL,
    MSKSLEEP_DISABLE,
    MSKSW_NORMAL_MODE,
    MSKSW_SHUT_DOWN_MODE,
    PDU_REG,
    SCAN_PHASE_REG,
    SLEW_RATE_CONTROL_MODE1_REG,
    SLEW_RATE_CONTROL_MODE2_REG,
    SOFTWARE_SLEEP_REG,
};
use crate::sequence::{
    device_init_frames,
    device_inited,
    init_normal_frames,
    init_setup_frames,
    lemma_device_lengths,
    page_write_frames,
    INIT_LENGTH,
};

verus! {

/// The fixed configuration that the start-up programs into the function
/// page, but for the mode.
pub open spec fn configured(chip: Chip) -> bool {
    &&& chip.reg(FUNCTION_PAGE, PDU_REG) == MSKSET_CA_CB_CHANNEL
    &&& chip.reg(FUNCTION_PAGE, SCAN_PHASE_REG) == MSKPHASE_12CHANNEL
    &&& chip.reg(FUNCTION_PAGE, SLEW_RATE_CONTROL_MODE1_REG) == MSKPWM_DELAY_PHASE_ENABLE
    &&& chip.reg(FUNCTION_PAGE, SLEW_RATE_CONTROL_MODE2_REG)
        == MSKDRIVING_SINKING_CHHANNEL_SLEWRATE_ENABLE
    &&& chip.reg(FUNCTION_PAGE, SOFTWARE_SLEEP_REG) == MSKSLEEP_DISABLE
}

/// The state of a chip after a complete start-up: configured, in normal
/// mode and awake, every channel enabled, every intensity zero, and the
/// current tune at its default.
pub open spec fn started(chip: Chip) -> bool {
    &&& configured(chip)
    &&& chip.reg(FUNCTION_PAGE, CONFIGURATION_REG) == MSKSW_NORMAL_MODE
    &&& chip.holds(LED_CONTROL_PAGE, uniform(LED_CONTROL_ON_OFF_LENGTH as nat, 0xFF))
    &&& chip.holds(LED_PWM_PAGE, uniform(LED_PWM_LENGTH as nat, 0x00))
    &&& chip.holds(CURRENT_TUNE_PAGE, uniform(LED_CURRENT_TUNE_LENGTH as nat, DEFAULT_CURRENT_TUNE))
}

/// Writes to registers other than the page selection leave the selection
/// and every other page alone.
pub proof fn lemma_writes_stay_on_page(chip: Chip, addr: u8, plan: Seq<Frame>)
    requires
        forall|i: int|
            0 <= i < plan.len() ==> (#[trigger] plan[i]).payload.len() >= 1
                && plan[i].payload[0] != CONFIGURE_CMD_PAGE,
    ensures
        chip.after(addr, plan).page == chip.page,
        chip.after(addr, plan).same_outside(chip, chip.page),
    decreases plan.len(),
{
    if plan.len() > 0 {
        let rest = plan.drop_last();
        lemma_writes_stay_on_page(chip, addr, rest);
        let before = chip.after(addr, rest);
        let now = chip.after(addr, plan);
        assert(plan.last() == plan[plan.len() - 1]);
        assert forall|q: u8, r: u8| q != chip.page implies #[trigger] now.reg(q, r) == chip.reg(
            q,
            r,
        ) by {
            assert(before.reg(q, r) == chip.reg(q, r));
        }
    }
}

/// The first stage of the start-up touches nothing but the function page;
/// all of it leaves the chip configured.
pub proof fn lemma_setup(chip: Chip, addr: u8, k: int)
    requires
        0 <= k <= init_setup_frames(addr).len(),
    ensures
        chip.after(addr, prefix(init_setup_frames(addr), k)).same_outside(chip, FUNCTION_PAGE),
        k == init_setup_frames(addr).len() ==> configured(
            chip.after(addr, prefix(init_setup_frames(addr), k)),
        ),
{
    let all = init_setup_frames(addr);
    let f0 = page_frame(addr, FUNCTION_PAGE);
    let f1 = register_frame(addr, CONFIGURATION_REG, MSKSW_SHUT_DOWN_MODE);
    let f2 = register_frame(addr, PDU_REG, MSKSET_CA_CB_CHANNEL);
    let f3 = register_frame(addr, SCAN_PHASE_REG, MSKPHASE_12CHANNEL);
    let f4 = register_frame(addr, SLEW_RATE_CONTROL_MODE1_REG, MSKPWM_DELAY_PHASE_ENABLE);
    let f5 = register_frame(
        addr,
        SLEW_RATE_CONTROL_MODE2_REG,
        MSKDRIVING_SINKING_CHHANNEL_SLEWRATE_ENABLE,
    );
    let f6 = register_frame(addr, SOFTWARE_SLEEP_REG, MSKSLEEP_DISABLE);
    let none = Seq::<Frame>::empty();
    let select = none.push(f0);
    let writes = seq![f1, f2, f3, f4, f5, f6];
    if k == 0 {
        assert(prefix(all, 0) =~= none);
    } else {
        assert(prefix(all, k) =~= select + prefix(writes, k - 1));
        lemma_after_append(chip, addr, select, prefix(writes, k - 1));
        lemma_after_push(chip, addr, none, f0);
        let selected = chip.after(addr, select);
        assert(selected == Chip { page: FUNCTION_PAGE, ..chip });
        lemma_writes_stay_on_page(selected, addr, prefix(writes, k - 1));
        let now = chip.after(addr, prefix(all, k));
        assert forall|q: u8, r: u8| q != FUNCTION_PAGE implies #[trigger] now.reg(q, r)
            == chip.reg(q, r) by {
            assert(now.reg(q, r) == selected.reg(q, r));
        }
        if k == all.len() {
            assert(prefix(writes, k - 1) =~= none.push(f1).push(f2).push(f3).push(f4).push(f5).push(
                f6,
            ));
            let w1 = none.push(f1);
            let w2 = w1.push(f2);
            let w3 = w2.push(f3);
            let w4 = w3.push(f4);
            let w5 = w4.push(f5);
            lemma_after_push(selected, addr, none, f1);
            lemma_after_push(selected, addr, w1, f2);
            lemma_after_push(selected, addr, w2, f3);
            lemma_after_push(selected, addr, w3, f4);
            lemma_after_push(selected, addr, w4, f5);
            lemma_after_push(selected, addr, w5, f6);
            assert(f1.payload.subrange(1, 2) =~= seq![MSKSW_SHUT_DOWN_MODE]);
            assert(f2.payload.subrange(1, 2) =~= seq![MSKSET_CA_CB_CHANNEL]);
            assert(f3.payload.subrange(1, 2) =~= seq![MSKPHASE_12CHANNEL]);
            assert(f4.payload.subrange(1, 2) =~= seq![MSKPWM_DELAY_PHASE_ENABLE]);
            assert(f5.payload.subrange(1, 2) =~= seq![MSKDRIVING_SINKING_CHHANNEL_SLEWRATE_ENABLE]);
            assert(f6.payload.subrange(1, 2) =~= seq![MSKSLEEP_DISABLE]);
            let c1 = selected.after(addr, w1);
            let c2 = selected.after(addr, w2);
            let c3 = selected.after(addr, w3);
            let c4 = selected.after(addr, w4);
            let c5 = selected.after(addr, w5);
            assert(c1.page == FUNCTION_PAGE);
            assert(c2.page == FUNCTION_PAGE && c2.reg(FUNCTION_PAGE, PDU_REG)
                == MSKSET_CA_CB_CHANNEL);
            assert(c3.page == FUNCTION_PAGE && c3.reg(FUNCTION_PAGE, PDU_REG)
                == MSKSET_CA_CB_CHANNEL && c3.reg(FUNCTION_PAGE, SCAN_PHASE_REG)
                == MSKPHASE_12CHANNEL);
            assert(c4.page == FUNCTION_PAGE && c4.reg(FUNCTION_PAGE, PDU_REG)
                == MSKSET_CA_CB_CHANNEL && c4.reg(FUNCTION_PAGE, SCAN_PHASE_REG)
                == MSKPHASE_12CHANNEL && c4.reg(FUNCTION_PAGE, SLEW_RATE_CONTROL_MODE1_REG)
                == MSKPWM_DELAY_PHASE_ENABLE);
            assert(c5.page == FUNCTION_PAGE && c5.reg(FUNCTION_PAGE, PDU_REG)
                == MSKSET_CA_CB_CHANNEL && c5.reg(FUNCTION_PAGE, SCAN_PHASE_REG)
                == MSKPHASE_12CHANNEL && c5.reg(FUNCTION_PAGE, SLEW_RATE_CONTROL_MODE1_REG)
                == MSKPWM_DELAY_PHASE_ENABLE && c5.reg(FUNCTION_PAGE, SLEW_RATE_CONTROL_MODE2_REG)
                == MSKDRIVING_SINKING_CHHANNEL_SLEWRATE_ENABLE);
        }
    }
}

/// The last stage of the start-up touches nothing but the function page;
/// all of it sets the mode to normal and changes no other register.
pub proof fn lemma_normal(chip: Chip, addr: u8, k: int)
    requires
        0 <= k <= init_normal_frames(addr).len(),
    ensures
        chip.after(addr, prefix(init_normal_frames(addr), k)).same_outside(chip, FUNCTION_PAGE),
        k == 0 ==> chip.after(addr, prefix(init_normal_frames(addr), k)) == chip,
        k == init_normal_frames(addr).len() ==> chip.after(
            addr,
            prefix(init_normal_frames(addr), k),
        ).reg(FUNCTION_PAGE, CONFIGURATION_REG) == MSKSW_NORMAL_MODE,
        forall|r: u8|
            r != CONFIGURATION_REG ==> #[trigger] chip.after(
                addr,
                prefix(init_normal_frames(addr), k),
            ).reg(FUNCTION_PAGE, r) == chip.reg(FUNCTION_PAGE, r),
{
    let all = init_normal_frames(addr);
    let f0 = page_frame(addr, FUNCTION_PAGE);
    let f1 = register_frame(addr, CONFIGURATION_REG, MSKSW_NORMAL_MODE);
    let none = Seq::<Frame>::empty();
    lemma_after_push(chip, addr, none, f0);
    lemma_after_push(chip, addr, none.push(f0), f1);
    assert(f1.payload.subrange(1, 2) =~= seq![MSKSW_NORMAL_MODE]);
    if k == 0 {
        assert(prefix(all, 0) =~= none);
    } else if k == 1 {
        assert(prefix(all, 1) =~= none.push(f0));
    } else {
        assert(prefix(all, 2) =~= none.push(f0).push(f1));
    }
}

/// Every transaction of a chip's start-up is addressed to that chip.
pub proof fn lemma_device_init_addr(addr: u8, i: int)
    requires
        0 <= i < device_init_frames(addr).len(),
    ensures
        device_init_frames(addr)[i].addr == addr,
{
}

/// The start-up of one chip keeps it coherent with its buffers, wherever
/// it stopped, and a start-up that was accepted in full leaves the chip
/// started.
pub proof fn lemma_device_init_coherent(chip: Chip, addr: u8, dev: DeviceView, k: int)
    requires
        dev.wf(),
        0 <= k <= INIT_LENGTH,
        coherent(chip, dev),
    ensures
        coherent(chip.after(addr, prefix(device_init_frames(addr), k)), device_inited(dev, k)),
        k == INIT_LENGTH ==> started(chip.after(addr, prefix(device_init_frames(addr), k))),
{
    lemma_device_lengths(addr, dev);
    let clear = uniform(LED_CONTROL_ON_OFF_LENGTH as nat, 0x00);
    let dark = uniform(LED_PWM_LENGTH as nat, 0x00);
    let tune = uniform(LED_CURRENT_TUNE_LENGTH as nat, DEFAULT_CURRENT_TUNE);
    let lit = uniform(LED_CONTROL_ON_OFF_LENGTH as nat, 0xFF);
    let s0 = init_setup_frames(addr);
    let s1 = page_write_frames(addr, LED_CONTROL_PAGE, clear);
    let s2 = page_write_frames(addr, LED_PWM_PAGE, dark);
    let s3 = page_write_frames(addr, CURRENT_TUNE_PAGE, tune);
    let s4 = page_write_frames(addr, LED_CONTROL_PAGE, lit);
    let s5 = init_normal_frames(addr);
    let x2 = s0 + s1;
    let x3 = x2 + s2;
    let x4 = x3 + s3;
    let x5 = x4 + s4;
    assert(device_init_frames(addr) == x5 + s5);
    lemma_after_prefix_append(chip, addr, x5, s5, k);
    lemma_after_prefix_append(chip, addr, x4, s4, clamp(k, 17));
    lemma_after_prefix_append(chip, addr, x3, s3, clamp(k, 15));
    lemma_after_prefix_append(chip, addr, x2, s2, clamp(k, 13));
    lemma_after_prefix_append(chip, addr, s0, s1, clamp(k, 9));
    let c1 = chip.after(addr, prefix(s0, clamp(k, 7)));
    let c2 = c1.after(addr, prefix(s1, clamp(k - 7, 2)));
    let c3 = c2.after(addr, prefix(s2, clamp(k - 9, 4)));
    let c4 = c3.after(addr, prefix(s3, clamp(k - 13, 2)));
    let c5 = c4.after(addr, prefix(s4, clamp(k - 15, 2)));
    let c6 = c5.after(addr, prefix(s5, clamp(k - 17, 2)));
    assert(chip.after(addr, prefix(device_init_frames(addr), k)) == c6);
    lemma_setup(chip, addr, clamp(k, 7));
    lemma_page_written(c1, addr, LED_CONTROL_PAGE, clear, clamp(k - 7, 2));
    lemma_page_written(c2, addr, LED_PWM_PAGE, dark, clamp(k - 9, 4));
    lemma_page_written(c3, addr, CURRENT_TUNE_PAGE, tune, clamp(k - 13, 2));
    lemma_page_written(c4, addr, LED_CONTROL_PAGE, lit, clamp(k - 15, 2));
    lemma_normal(c5, addr, clamp(k - 17, 2));
    let after = device_inited(dev, k);
    if k < 9 {
        assert(c6 == c2);
        assert(c2.regs == c1.regs);
        if !dev.pwm_dirty {
            lemma_holds_carried(chip, c1, LED_PWM_PAGE, FUNCTION_PAGE, dev.pwm);
            assert(c2.holds(LED_PWM_PAGE, dev.pwm)) by {
                assert forall|i: int| 0 <= i < dev.pwm.len() implies #[trigger] c2.reg(
                    LED_PWM_PAGE,
                    i as u8,
                ) == dev.pwm[i] by {
                    assert(c1.reg(LED_PWM_PAGE, i as u8) == dev.pwm[i]);
                }
            }
        }
        if !dev.control_dirty {
            lemma_holds_carried(chip, c1, LED_CONTROL_PAGE, FUNCTION_PAGE, dev.control);
            assert(c2.holds(LED_CONTROL_PAGE, dev.control)) by {
                assert forall|i: int| 0 <= i < dev.control.len() implies #[trigger] c2.reg(
                    LED_CONTROL_PAGE,
                    i as u8,
                ) == dev.control[i] by {
                    assert(c1.reg(LED_CONTROL_PAGE, i as u8) == dev.control[i]);
                }
            }
        }
    } else {
        assert(c2.holds(LED_CONTROL_PAGE, clear));
        lemma_holds_carried(c2, c3, LED_CONTROL_PAGE, LED_PWM_PAGE, clear);
        lemma_holds_carried(c3, c4, LED_CONTROL_PAGE, CURRENT_TUNE_PAGE, clear);
        if k < 13 {
            assert(c6 == c3);
        } else {
            assert(c3.holds(LED_PWM_PAGE, dark));
            lemma_holds_carried(c3, c4, LED_PWM_PAGE, CURRENT_TUNE_PAGE, dark);
            lemma_holds_carried(c4, c5, LED_PWM_PAGE, LED_CONTROL_PAGE, dark);
            lemma_holds_carried(c5, c6, LED_PWM_PAGE, FUNCTION_PAGE, dark);
            if k < 17 {
                assert(c6 == c5);
                assert(c5.regs == c4.regs);
                assert(c5.holds(LED_CONTROL_PAGE, clear)) by {
                    assert forall|i: int| 0 <= i < clear.len() implies #[trigger] c5.reg(
                        LED_CONTROL_PAGE,
                        i as u8,
                    ) == clear[i] by {
                        assert(c4.reg(LED_CONTROL_PAGE, i as u8) == clear[i]);
                    }
                }
            } else {
                assert(c5.holds(LED_CONTROL_PAGE, lit));
                lemma_holds_carried(c5, c6, LED_CONTROL_PAGE, FUNCTION_PAGE, lit);
            }
        }
    }
    if k == INIT_LENGTH {
        assert(c4.holds(CURRENT_TUNE_PAGE, tune));
        lemma_holds_carried(c4, c5, CURRENT_TUNE_PAGE, LED_CONTROL_PAGE, tune);
        lemma_holds_carried(c5, c6, CURRENT_TUNE_PAGE, FUNCTION_PAGE, tune);
        assert(configured(c1));
        assert(configured(c5)) by {
            lemma_function_page_kept(c1, c2, c3, c4, c5, PDU_REG);
            lemma_function_page_kept(c1, c2, c3, c4, c5, SCAN_PHASE_REG);
            lemma_function_page_kept(c1, c2, c3, c4, c5, SLEW_RATE_CONTROL_MODE1_REG);
            lemma_function_page_kept(c1, c2, c3, c4, c5, SLEW_RATE_CONTROL_MODE2_REG);
            lemma_function_page_kept(c1, c2, c3, c4, c5, SOFTWARE_SLEEP_REG);
        }
    }
}

/// A register of the function page survives the four page writes of the
/// start-up, none of which is to the function page.
proof fn lemma_function_page_kept(c1: Chip, c2: Chip, c3: Chip, c4: Chip, c5: Chip, r: u8)
    requires
        c2.same_outside(c1, LED_CONTROL_PAGE),
        c3.same_outside(c2, LED_PWM_PAGE),
        c4.same_outside(c3, CURRENT_TUNE_PAGE),
        c5.same_outside(c4, LED_CONTROL_PAGE),
    ensures
        c5.reg(FUNCTION_PAGE, r) == c1.reg(FUNCTION_PAGE, r),
{
    assert(c2.reg(FUNCTION_PAGE, r) == c1.reg(FUNCTION_PAGE, r));
    assert(c3.reg(FUNCTION_PAGE, r) == c2.reg(FUNCTION_PAGE, r));
    assert(c4.reg(FUNCTION_PAGE, r) == c3.reg(FUNCTION_PAGE, r));
    assert(c5.reg(FUNCTION_PAGE, r) == c4.reg(FUNCTION_PAGE, r));
}

/// The cache law of the start-up. On a bus where every chip has its own
/// address, take a chip that holds every clean buffer the controller has
/// for it. Send the first `sent` transactions of the start-up and record
/// that count: the chip still holds every buffer that is now clean. After
/// a start-up that was accepted in full, every chip is started.
pub proof fn lemma_init_keeps_coherence(v: ControllerView, chip: Chip, d: int, sent: int)
    requires
        v.wf(),
        distinct(v.addrs),
        0 <= d < v.addrs.len(),
        0 <= sent <= v.init_frames().len(),
        coherent(chip, v.devices[d]),
    ensures
        coherent(chip.after(v.addrs[d], prefix(v.init_frames(), sent)), v.inited(sent).devices[d]),
        sent == v.init_frames().len() ==> started(chip.after(v.addrs[d], v.init_frames())),
{
    let n = v.addrs.len();
    let parts = v.init_parts();
    let dev = v.devices[d];
    assert(dev.wf());
    assert forall|j: int, i: int| 0 <= j < n && 0 <= i < parts(j).len() implies (
    #[trigger] parts(j)[i]).addr == v.addrs[j] by {
        lemma_device_init_addr(v.addrs[j], i);
    }
    lemma_concat_prefix(chip, v.addrs, parts, n, d, sent);
    v.lemma_plan_lengths();
    assert forall|j: int| 0 <= j < d implies (#[trigger] parts(j)).len() == INIT_LENGTH as nat by {
        lemma_device_lengths(v.addrs[j], dev);
    }
    crate::plan::lemma_concat_len(parts, d as nat, INIT_LENGTH as nat);
    lemma_device_lengths(v.addrs[d], dev);
    let k = sent - INIT_LENGTH * d;
    lemma_device_init_coherent(chip, v.addrs[d], dev, clamp(k, INIT_LENGTH as int));
    assert(device_inited(dev, clamp(k, INIT_LENGTH as int)) == device_inited(dev, k));
    if sent == v.init_frames().len() {
        assert(prefix(v.init_frames(), sent) =~= v.init_frames());
        assert(INIT_LENGTH * n - INIT_LENGTH * d >= INIT_LENGTH) by (nonlinear_arith)
            requires
                0 <= d < n,
        ;
    }
}

} // verus!
