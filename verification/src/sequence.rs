//! What is sent to one chip for each operation, and what a chip's buffers
//! look like when the bus accepted only the first part of it.

use vstd::prelude::*;
use crate::bytes::{filled, uniform};
use crate::device::{DeviceState, DeviceView};
use crate::plan::{append_frames, push_frame};
use crate::protocol::{
    chunk_frames,
    frames,
    page_frame,
    register_frame,
    select_page,
    write_buffer,
    write_register,
    write_repeat,
    Frame,
    Transaction,
};
use crate::registers::{
    CONFIGURATION_REG,
    CURRENT_TUNE_PAGE,
    DEFAULT_CURRENT_TUNE,
    FUNCTION_PAGE,
    LED_CONTROL_ON_OFF_LENGTH,
    LED_CONTROL_PAGE,
    LED_CURRENT_TUNE_LENGTH,
    LED_PWM_LENGTH,
    LED_PWM_PAGE,
    MSKDRIVING_SINKING_CHHANNEL_SLEWRATE_ENABLE,
    MSKPHASE_12CHANNEL,
    MSKPWM_DELAY_PHASE_ENABLE,
    MSKSET_CA_CB_CHANNEL,
    MSKSLEEP_DISABLE,
    MSKSLEEP_ENABLE,
    MSKSW_NORMAL_MODE,
    MSKSW_SHUT_DOWN_MODE,
    PDU_REG,
    SCAN_PHASE_REG,
    SLEW_RATE_CONTROL_MODE1_REG,
    SLEW_RATE_CONTROL_MODE2_REG,
    SOFTWARE_SLEEP_REG,
};

verus! {

/// Transactions of one chip's start-up after which its bitmap has been
/// cleared on the chip.
pub const INIT_CLEARED: usize = 9;

/// Transactions of one chip's start-up after which its PWM registers have
/// been zeroed on the chip.
pub const INIT_PWM_WRITTEN: usize = 13;

/// Transactions of one chip's start-up after which all its channels have
/// been enabled on the chip.
pub const INIT_ENABLED: usize = 17;

/// Transactions of one chip's whole start-up.
pub const INIT_LENGTH: usize = 19;

/// Transactions that put one chip to sleep, and as many wake it.
pub const POWER_LENGTH: usize = 3;

/// Selecting `page` and writing `data` to its registers from 0 on.
pub open spec fn page_write_frames(addr: u8, page: u8, data: Seq<u8>) -> Seq<Frame> {
    seq![page_frame(addr, page)] + chunk_frames(addr, 0, data)
}

/// First stage of the start-up: on the function page, shutdown mode, then
/// the drive mode, the scan phase, both slew rates, and no software sleep.
pub open spec fn init_setup_frames(addr: u8) -> Seq<Frame> {
    seq![
        page_frame(addr, FUNCTION_PAGE),
        register_frame(addr, CONFIGURATION_REG, MSKSW_SHUT_DOWN_MODE),
        register_frame(addr, PDU_REG, MSKSET_CA_CB_CHANNEL),
        register_frame(addr, SCAN_PHASE_REG, MSKPHASE_12CHANNEL),
        register_frame(addr, SLEW_RATE_CONTROL_MODE1_REG, MSKPWM_DELAY_PHASE_ENABLE),
        register_frame(
            addr,
            SLEW_RATE_CONTROL_MODE2_REG,
            MSKDRIVING_SINKING_CHHANNEL_SLEWRATE_ENABLE,
        ),
        register_frame(addr, SOFTWARE_SLEEP_REG, MSKSLEEP_DISABLE),
    ]
}

/// Last stage of the start-up: on the function page, normal mode.
pub open spec fn init_normal_frames(addr: u8) -> Seq<Frame> {
    seq![
        page_frame(addr, FUNCTION_PAGE),
        register_frame(addr, CONFIGURATION_REG, MSKSW_NORMAL_MODE),
    ]
}

/// The start-up of one chip: set-up in shutdown mode, the bitmap cleared,
/// the PWM registers zeroed, the current tune set to its default, every
/// channel enabled, and back to normal mode.
pub open spec fn device_init_frames(addr: u8) -> Seq<Frame> {
    init_setup_frames(addr) + page_write_frames(
        addr,
        LED_CONTROL_PAGE,
        uniform(LED_CONTROL_ON_OFF_LENGTH as nat, 0x00),
    ) + page_write_frames(addr, LED_PWM_PAGE, uniform(LED_PWM_LENGTH as nat, 0x00))
        + page_write_frames(
        addr,
        CURRENT_TUNE_PAGE,
        uniform(LED_CURRENT_TUNE_LENGTH as nat, DEFAULT_CURRENT_TUNE),
    ) + page_write_frames(addr, LED_CONTROL_PAGE, uniform(LED_CONTROL_ON_OFF_LENGTH as nat, 0xFF))
        + init_normal_frames(addr)
}

/// The buffers of a chip when the bus accepted the first `k` transactions
/// of its start-up. Once the bitmap has been cleared on the chip, the
/// bitmap in memory is clear and the PWM buffer is zeroed and dirty; the PWM
/// buffer is clean once it has been written; once every channel has been
/// enabled on the chip, the bitmap in memory is all ones and clean.
pub open spec fn device_inited(dev: DeviceView, k: int) -> DeviceView {
    if k < INIT_CLEARED {
        dev
    } else {
        DeviceView {
            pwm: uniform(dev.pwm.len(), 0x00),
            pwm_dirty: k < INIT_PWM_WRITTEN,
            control: uniform(dev.control.len(), if k < INIT_ENABLED { 0x00u8 } else { 0xFFu8 }),
            control_dirty: k < INIT_ENABLED && dev.control_dirty,
        }
    }
}

/// What brings the bitmap on the chip up to date, if it is dirty.
pub open spec fn control_flush_frames(addr: u8, dev: DeviceView) -> Seq<Frame> {
    if dev.control_dirty {
        page_write_frames(addr, LED_CONTROL_PAGE, dev.control)
    } else {
        Seq::empty()
    }
}

/// What brings the PWM registers on the chip up to date, if they are dirty.
pub open spec fn pwm_flush_frames(addr: u8, dev: DeviceView) -> Seq<Frame> {
    if dev.pwm_dirty {
        page_write_frames(addr, LED_PWM_PAGE, dev.pwm)
    } else {
        Seq::empty()
    }
}

/// What brings one chip up to date: its bitmap first, then its PWM
/// registers, each only if dirty and each in full.
pub open spec fn device_flush_frames(addr: u8, dev: DeviceView) -> Seq<Frame> {
    control_flush_frames(addr, dev) + pwm_flush_frames(addr, dev)
}

/// The buffers of a chip when the bus accepted the first `k` transactions
/// of its flush: a buffer is clean once all of its transactions have been
/// accepted, and stays dirty otherwise. The bytes do not change.
pub open spec fn device_flushed(dev: DeviceView, k: int) -> DeviceView {
    let c = control_flush_frames(0, dev).len();
    let p = pwm_flush_frames(0, dev).len();
    DeviceView {
        control_dirty: dev.control_dirty && k < c,
        pwm_dirty: dev.pwm_dirty && k < c + p,
        ..dev
    }
}

/// What puts one chip to sleep: on the function page, shutdown mode and
/// software sleep.
pub open spec fn device_shutdown_frames(addr: u8) -> Seq<Frame> {
    seq![
        page_frame(addr, FUNCTION_PAGE),
        register_frame(addr, CONFIGURATION_REG, MSKSW_SHUT_DOWN_MODE),
        register_frame(addr, SOFTWARE_SLEEP_REG, MSKSLEEP_ENABLE),
    ]
}

/// What wakes one chip, the inverse of putting it to sleep: on the
/// function page, first no software sleep, then normal mode.
pub open spec fn device_return_normal_frames(addr: u8) -> Seq<Frame> {
    seq![
        page_frame(addr, FUNCTION_PAGE),
        register_frame(addr, SOFTWARE_SLEEP_REG, MSKSLEEP_DISABLE),
        register_frame(addr, CONFIGURATION_REG, MSKSW_NORMAL_MODE),
    ]
}

/// The lengths of the sequences of one chip, and where the stages of the
/// start-up end.
pub proof fn lemma_device_lengths(addr: u8, dev: DeviceView)
    requires
        dev.wf(),
    ensures
        device_init_frames(addr).len() == INIT_LENGTH,
        init_setup_frames(addr).len() + page_write_frames(
            addr,
            LED_CONTROL_PAGE,
            uniform(LED_CONTROL_ON_OFF_LENGTH as nat, 0x00),
        ).len() == INIT_CLEARED,
        INIT_CLEARED + page_write_frames(
            addr,
            LED_PWM_PAGE,
            uniform(LED_PWM_LENGTH as nat, 0x00),
        ).len() == INIT_PWM_WRITTEN,
        INIT_PWM_WRITTEN + page_write_frames(
            addr,
            CURRENT_TUNE_PAGE,
            uniform(LED_CURRENT_TUNE_LENGTH as nat, DEFAULT_CURRENT_TUNE),
        ).len() + page_write_frames(
            addr,
            LED_CONTROL_PAGE,
            uniform(LED_CONTROL_ON_OFF_LENGTH as nat, 0xFF),
        ).len() == INIT_ENABLED,
        control_flush_frames(addr, dev).len() == if dev.control_dirty { 2int } else { 0int },
        pwm_flush_frames(addr, dev).len() == if dev.pwm_dirty { 4int } else { 0int },
        device_shutdown_frames(addr).len() == POWER_LENGTH,
        device_return_normal_frames(addr).len() == POWER_LENGTH,
{
}

/// Selects `page` and writes `data` to its registers from 0 on, in blocks.
pub fn page_write(addr: u8, page: u8, data: &[u8]) -> (out: Vec<Transaction>)
    requires
        data@.len() <= 256,
    ensures
        frames(out@) == page_write_frames(addr, page, data@),
{
    let mut out: Vec<Transaction> = Vec::new();
    assert(frames(out@) =~= Seq::empty());
    push_frame(&mut out, select_page(addr, page));
    append_frames(&mut out, write_buffer(addr, 0, data));
    assert(frames(out@) =~= page_write_frames(addr, page, data@));
    out
}

/// Selects `page` and fills its first `length` registers with `value`.
pub fn page_fill(addr: u8, page: u8, value: u8, length: usize) -> (out: Vec<Transaction>)
    requires
        length <= 256,
    ensures
        frames(out@) == page_write_frames(addr, page, uniform(length as nat, value)),
{
    let mut out: Vec<Transaction> = Vec::new();
    assert(frames(out@) =~= Seq::empty());
    push_frame(&mut out, select_page(addr, page));
    append_frames(&mut out, write_repeat(addr, 0, value, length));
    assert(frames(out@) =~= page_write_frames(addr, page, uniform(length as nat, value)));
    out
}

/// Selects the PWM page and writes all PWM intensities, in blocks.
pub fn write_pwm_page_from_buf(addr: u8, pwm: &[u8]) -> (out: Vec<Transaction>)
    requires
        pwm@.len() == LED_PWM_LENGTH,
    ensures
        frames(out@) == page_write_frames(addr, LED_PWM_PAGE, pwm@),
{
    page_write(addr, LED_PWM_PAGE, pwm)
}

/// The start-up of the chip at `addr`.
pub fn device_init(addr: u8) -> (out: Vec<Transaction>)
    ensures
        frames(out@) == device_init_frames(addr),
{
    let mut out: Vec<Transaction> = Vec::new();
    assert(frames(out@) =~= Seq::empty());
    push_frame(&mut out, select_page(addr, FUNCTION_PAGE));
    push_frame(&mut out, write_register(addr, CONFIGURATION_REG, MSKSW_SHUT_DOWN_MODE));
    push_frame(&mut out, write_register(addr, PDU_REG, MSKSET_CA_CB_CHANNEL));
    push_frame(&mut out, write_register(addr, SCAN_PHASE_REG, MSKPHASE_12CHANNEL));
    push_frame(
        &mut out,
        write_register(addr, SLEW_RATE_CONTROL_MODE1_REG, MSKPWM_DELAY_PHASE_ENABLE),
    );
    push_frame(
        &mut out,
        write_register(
            addr,
            SLEW_RATE_CONTROL_MODE2_REG,
            MSKDRIVING_SINKING_CHHANNEL_SLEWRATE_ENABLE,
        ),
    );
    push_frame(&mut out, write_register(addr, SOFTWARE_SLEEP_REG, MSKSLEEP_DISABLE));
    assert(frames(out@) =~= init_setup_frames(addr));
    append_frames(&mut out, page_fill(addr, LED_CONTROL_PAGE, 0x00, LED_CONTROL_ON_OFF_LENGTH));
    let zeroed = filled(0x00, LED_PWM_LENGTH);
    append_frames(&mut out, write_pwm_page_from_buf(addr, zeroed.as_slice()));
    append_frames(
        &mut out,
        page_fill(addr, CURRENT_TUNE_PAGE, DEFAULT_CURRENT_TUNE, LED_CURRENT_TUNE_LENGTH),
    );
    append_frames(&mut out, page_fill(addr, LED_CONTROL_PAGE, 0xFF, LED_CONTROL_ON_OFF_LENGTH));
    push_frame(&mut out, select_page(addr, FUNCTION_PAGE));
    push_frame(&mut out, write_register(addr, CONFIGURATION_REG, MSKSW_NORMAL_MODE));
    assert(frames(out@) =~= device_init_frames(addr));
    out
}

/// Brings the buffers of a chip in line with a start-up of which the bus
/// accepted the first `k` transactions.
pub fn apply_init(dev: &mut DeviceState, k: usize)
    requires
        old(dev)@.wf(),
    ensures
        final(dev)@ == device_inited(old(dev)@, k as int),
        final(dev)@.wf(),
{
    if k < INIT_CLEARED {
        return ;
    }
    let was_dirty = dev.control_dirty();
    dev.fill_control(0x00);
    if !was_dirty {
        dev.clear_control_dirty();
    }
    dev.fill_pwm(0x00);
    if k >= INIT_PWM_WRITTEN {
        dev.clear_pwm_dirty();
    }
    if k >= INIT_ENABLED {
        dev.fill_control(0xFF);
        dev.clear_control_dirty();
    }
}

/// What brings the chip at `addr` up to date.
pub fn device_flush(addr: u8, dev: &DeviceState) -> (out: Vec<Transaction>)
    requires
        dev@.wf(),
    ensures
        frames(out@) == device_flush_frames(addr, dev@),
{
    let mut out: Vec<Transaction> = Vec::new();
    assert(frames(out@) =~= Seq::empty());
    if dev.control_dirty() {
        append_frames(&mut out, page_write(addr, LED_CONTROL_PAGE, dev.control()));
    }
    if dev.pwm_dirty() {
        append_frames(&mut out, write_pwm_page_from_buf(addr, dev.pwm()));
    }
    assert(frames(out@) =~= device_flush_frames(addr, dev@));
    out
}

/// Brings the dirty flags of a chip in line with a flush of which the bus
/// accepted the first `k` transactions, and returns how many transactions
/// the chip's whole flush has.
pub fn apply_flush(dev: &mut DeviceState, k: usize) -> (need: usize)
    requires
        old(dev)@.wf(),
    ensures
        final(dev)@ == device_flushed(old(dev)@, k as int),
        final(dev)@.wf(),
        need == device_flush_frames(0, old(dev)@).len(),
        need <= 6,
{
    proof {
        lemma_device_lengths(0, dev@);
    }
    let mut need: usize = 0;
    if dev.control_dirty() {
        need = need + 2;
        if k >= need {
            dev.clear_control_dirty();
        }
    }
    if dev.pwm_dirty() {
        need = need + 4;
        if k >= need {
            dev.clear_pwm_dirty();
        }
    }
    need
}

/// What puts the chip at `addr` to sleep.
pub fn device_shutdown(addr: u8) -> (out: Vec<Transaction>)
    ensures
        frames(out@) == device_shutdown_frames(addr),
{
    let mut out: Vec<Transaction> = Vec::new();
    assert(frames(out@) =~= Seq::empty());
    push_frame(&mut out, select_page(addr, FUNCTION_PAGE));
    push_frame(&mut out, write_register(addr, CONFIGURATION_REG, MSKSW_SHUT_DOWN_MODE));
    push_frame(&mut out, write_register(addr, SOFTWARE_SLEEP_REG, MSKSLEEP_ENABLE));
    assert(frames(out@) =~= device_shutdown_frames(addr));
    out
}

/// What wakes the chip at `addr`.
pub fn device_return_normal(addr: u8) -> (out: Vec<Transaction>)
    ensures
        frames(out@) == device_return_normal_frames(addr),
{
    let mut out: Vec<Transaction> = Vec::new();
    assert(frames(out@) =~= Seq::empty());
    push_frame(&mut out, select_page(addr, FUNCTION_PAGE));
    push_frame(&mut out, write_register(addr, SOFTWARE_SLEEP_REG, MSKSLEEP_DISABLE));
    push_frame(&mut out, write_register(addr, CONFIGURATION_REG, MSKSW_NORMAL_MODE));
    assert(frames(out@) =~= device_return_normal_frames(addr));
    out
}

} // verus!
