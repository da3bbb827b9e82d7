//! In-memory copy of one chip's registers: the PWM intensities and the
//! on/off bitmap, each with a flag that is set while the copy differs from
//! what was last written to the chip.

use vstd::prelude::*;
use crate::bytes::{filled, uniform};
use crate::registers::{LED_CONTROL_ON_OFF_LENGTH, LED_PWM_LENGTH};

verus! {

/// The buffers of one chip.
#[derive(Debug, Clone)]
pub struct DeviceState {
    pwm: Vec<u8>,
    control: Vec<u8>,
    pwm_dirty: bool,
    control_dirty: bool,
}

/// Mathematical model of a `DeviceState`.
pub ghost struct DeviceView {
    pub pwm: Seq<u8>,
    pub control: Seq<u8>,
    pub pwm_dirty: bool,
    pub control_dirty: bool,
}

impl DeviceView {
    /// Both buffers have the length that the chip has registers for.
    pub open spec fn wf(self) -> bool {
        &&& self.pwm.len() == LED_PWM_LENGTH
        &&& self.control.len() == LED_CONTROL_ON_OFF_LENGTH
    }

    /// Neither buffer is waiting to be written.
    pub open spec fn clean(self) -> bool {
        !self.pwm_dirty && !self.control_dirty
    }

    /// The state after the PWM byte at `offset` was set to `value`.
    pub open spec fn with_pwm(self, offset: int, value: u8) -> DeviceView {
        DeviceView { pwm: self.pwm.update(offset, value), pwm_dirty: true, ..self }
    }

    /// The state after the bitmap byte at `offset` was set to `value`.
    pub open spec fn with_control(self, offset: int, value: u8) -> DeviceView {
        DeviceView { control: self.control.update(offset, value), control_dirty: true, ..self }
    }

    /// The state after every PWM byte was set to `value`.
    pub open spec fn with_pwm_filled(self, value: u8) -> DeviceView {
        DeviceView { pwm: uniform(self.pwm.len(), value), pwm_dirty: true, ..self }
    }

    /// The state after every bitmap byte was set to `value`.
    pub open spec fn with_control_filled(self, value: u8) -> DeviceView {
        DeviceView { control: uniform(self.control.len(), value), control_dirty: true, ..self }
    }
}

impl View for DeviceState {
    type V = DeviceView;

    closed spec fn view(&self) -> DeviceView {
        DeviceView {
            pwm: self.pwm@,
            control: self.control@,
            pwm_dirty: self.pwm_dirty,
            control_dirty: self.control_dirty,
        }
    }
}

impl DeviceState {
    /// The state of a chip's buffers at construction: all bytes zero,
    /// nothing waiting to be written.
    pub open spec fn new_view() -> DeviceView {
        DeviceView {
            pwm: uniform(LED_PWM_LENGTH as nat, 0),
            control: uniform(LED_CONTROL_ON_OFF_LENGTH as nat, 0),
            pwm_dirty: false,
            control_dirty: false,
        }
    }

    /// Both buffers zeroed, nothing waiting to be written.
    pub fn new() -> (dev: DeviceState)
        ensures
            dev@ == DeviceState::new_view(),
    {
        DeviceState {
            pwm: filled(0, LED_PWM_LENGTH),
            control: filled(0, LED_CONTROL_ON_OFF_LENGTH),
            pwm_dirty: false,
            control_dirty: false,
        }
    }

    /// The PWM intensities, one byte per channel.
    pub fn pwm(&self) -> (buf: &[u8])
        ensures
            buf@ == self@.pwm,
    {
        self.pwm.as_slice()
    }

    /// The on/off bitmap.
    pub fn control(&self) -> (buf: &[u8])
        ensures
            buf@ == self@.control,
    {
        self.control.as_slice()
    }

    /// Whether the PWM buffer differs from what was last written to the chip.
    pub fn pwm_dirty(&self) -> (dirty: bool)
        ensures
            dirty == self@.pwm_dirty,
    {
        self.pwm_dirty
    }

    /// Whether the bitmap differs from what was last written to the chip.
    pub fn control_dirty(&self) -> (dirty: bool)
        ensures
            dirty == self@.control_dirty,
    {
        self.control_dirty
    }

    /// Sets one PWM byte and marks the PWM buffer dirty.
    pub fn set_pwm(&mut self, offset: usize, value: u8)
        requires
            offset < old(self)@.pwm.len(),
        ensures
            final(self)@ == old(self)@.with_pwm(offset as int, value),
    {
        self.pwm[offset] = value;
        self.pwm_dirty = true;
    }

    /// Sets one bitmap byte and marks the bitmap dirty.
    pub fn set_control(&mut self, offset: usize, value: u8)
        requires
            offset < old(self)@.control.len(),
        ensures
            final(self)@ == old(self)@.with_control(offset as int, value),
    {
        self.control[offset] = value;
        self.control_dirty = true;
    }

    /// Sets every PWM byte to `value` and marks the PWM buffer dirty.
    pub fn fill_pwm(&mut self, value: u8)
        ensures
            final(self)@ == old(self)@.with_pwm_filled(value),
    {
        self.pwm = filled(value, self.pwm.len());
        self.pwm_dirty = true;
    }

    /// Sets every bitmap byte to `value` and marks the bitmap dirty.
    pub fn fill_control(&mut self, value: u8)
        ensures
            final(self)@ == old(self)@.with_control_filled(value),
    {
        self.control = filled(value, self.control.len());
        self.control_dirty = true;
    }

    /// Records that the whole PWM buffer has been written to the chip.
    pub fn clear_pwm_dirty(&mut self)
        ensures
            final(self)@ == (DeviceView { pwm_dirty: false, ..old(self)@ }),
    {
        self.pwm_dirty = false;
    }

    /// Records that the whole bitmap has been written to the chip.
    pub fn clear_control_dirty(&mut self)
        ensures
            final(self)@ == (DeviceView { control_dirty: false, ..old(self)@ }),
    {
        self.control_dirty = false;
    }
}

} // verus!
