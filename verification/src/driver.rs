//! The LED controller: the buffers of every chip on the bus, the table that
//! maps a logical LED to a chip and three PWM channels, and the operations
//! that change colours and bring the chips up to date.
//!
//! The controller does not own the bus. An operation that talks to the
//! chips comes in two parts: a function that returns the transactions to
//! send, in order, and a function that is told how many of them the bus
//! accepted and updates the controller accordingly.

use vstd::prelude::*;
use crate::color::{corrected, corrected_spec, percent_to_brightness, percent_to_brightness_spec};
use crate::device::{DeviceState, DeviceView};
use crate::plan::{append_frames, concat_upto, outcome};
use crate::protocol::{frames, Error, Frame, Transaction};
use crate::registers::LED_PWM_LENGTH;
use crate::sequence::{
    apply_flush,
    apply_init,
    device_flush,
    device_flush_frames,
    device_flushed,
    device_init,
    device_init_frames,
    device_inited,
    device_return_normal,
    device_return_normal_frames,
    device_shutdown,
    device_shutdown_frames,
    lemma_device_lengths,
    INIT_LENGTH,
    POWER_LENGTH,
};

verus! {

/// One logical LED: the chip that drives it and the PWM channels of its
/// red, green and blue parts.
#[derive(Debug, Clone, Copy, PartialEq, Eq, Structural)]
pub struct CkLed {
    pub driver: u8,
    pub r: u8,
    pub g: u8,
    pub b: u8,
}

impl CkLed {
    /// All three channels exist on a chip.
    pub open spec fn in_range(self) -> bool {
        &&& self.r < LED_PWM_LENGTH
        &&& self.g < LED_PWM_LENGTH
        &&& self.b < LED_PWM_LENGTH
    }

    /// Whether all three channels exist on a chip.
    pub fn is_in_range(&self) -> (ok: bool)
        ensures
            ok == self.in_range(),
    {
        (self.r as usize) < LED_PWM_LENGTH && (self.g as usize) < LED_PWM_LENGTH && (
        self.b as usize) < LED_PWM_LENGTH
    }
}

/// Every LED of the table has its channels on a chip.
pub open spec fn all_in_range(leds: Seq<CkLed>) -> bool {
    forall|i: int| 0 <= i < leds.len() ==> (#[trigger] leds[i]).in_range()
}

/// Whether every LED of the table has its channels on a chip.
pub fn leds_in_range(leds: &[CkLed]) -> (ok: bool)
    ensures
        ok == all_in_range(leds@),
{
    let mut i: usize = 0;
    while i < leds.len()
        invariant
            i <= leds@.len(),
            forall|j: int| 0 <= j < i ==> (#[trigger] leds@[j]).in_range(),
        decreases leds@.len() - i,
    {
        if !leds[i].is_in_range() {
            return false;
        }
        i += 1;
    }
    true
}

/// The controller of all chips on one bus.
#[derive(Debug, Clone)]
pub struct Ckled2001 {
    addrs: Vec<u8>,
    leds: Vec<CkLed>,
    devices: Vec<DeviceState>,
    global_brightness: u8,
}

/// Mathematical model of the controller.
pub ghost struct ControllerView {
    /// Bus address of each chip.
    pub addrs: Seq<u8>,
    /// The LED table.
    pub leds: Seq<CkLed>,
    /// Buffers of each chip, in the order of `addrs`.
    pub devices: Seq<DeviceView>,
    /// Brightness, 0..=255, that the next colour is computed with.
    pub brightness: u8,
}

impl ControllerView {
    /// One buffer pair per address, each of the right size, and every LED's
    /// channels on a chip.
    pub open spec fn wf(self) -> bool {
        &&& self.devices.len() == self.addrs.len()
        &&& forall|d: int| 0 <= d < self.devices.len() ==> (#[trigger] self.devices[d]).wf()
        &&& all_in_range(self.leds)
    }

    /// No buffer of any chip is waiting to be written.
    pub open spec fn all_clean(self) -> bool {
        forall|d: int| 0 <= d < self.devices.len() ==> (#[trigger] self.devices[d]).clean()
    }

    /// The state after the brightness was set to `percent` of full.
    pub open spec fn with_brightness(self, percent: u8) -> ControllerView {
        ControllerView { brightness: percent_to_brightness_spec(percent) as u8, ..self }
    }

    /// The state after the bytes `r`, `g`, `b` were stored for the LED
    /// `idx`, red first and blue last. An LED whose chip does not exist
    /// changes nothing.
    pub open spec fn painted(self, idx: int, r: u8, g: u8, b: u8) -> ControllerView {
        let led = self.leds[idx];
        let d = led.driver as int;
        if d >= self.devices.len() {
            self
        } else {
            ControllerView {
                devices: self.devices.update(
                    d,
                    self.devices[d].with_pwm(led.r as int, r).with_pwm(led.g as int, g).with_pwm(
                        led.b as int,
                        b,
                    ),
                ),
                ..self
            }
        }
    }

    /// The state after one LED was given a colour: nothing changes for an
    /// index outside the table; otherwise the brightness is set, and the
    /// three channel values, dimmed and gamma corrected, are stored.
    pub open spec fn set_color(self, idx: int, r: u8, g: u8, b: u8, percent: u8) -> ControllerView {
        if idx < 0 || idx >= self.leds.len() {
            self
        } else {
            let v = self.with_brightness(percent);
            v.painted(
                idx,
                corrected_spec(r, v.brightness) as u8,
                corrected_spec(g, v.brightness) as u8,
                corrected_spec(b, v.brightness) as u8,
            )
        }
    }

    /// The state after one byte of a chip's on/off bitmap was set. A chip
    /// or a byte that does not exist changes nothing.
    pub open spec fn set_control(self, device: int, offset: int, value: u8) -> ControllerView {
        if 0 <= device < self.devices.len() && 0 <= offset < self.devices[device].control.len() {
            ControllerView {
                devices: self.devices.update(
                    device,
                    self.devices[device].with_control(offset, value),
                ),
                ..self
            }
        } else {
            self
        }
    }

    /// The state after the brightness was set and the first `n` LEDs of the
    /// table were given the colour, one after the other.
    pub open spec fn colored_upto(self, n: nat, r: u8, g: u8, b: u8, percent: u8) -> ControllerView
        decreases n,
    {
        if n == 0 {
            self.with_brightness(percent)
        } else {
            self.colored_upto((n - 1) as nat, r, g, b, percent).set_color(n - 1, r, g, b, percent)
        }
    }

    /// The state after every LED of the table was given the colour.
    pub open spec fn set_color_all(self, r: u8, g: u8, b: u8, percent: u8) -> ControllerView {
        self.colored_upto(self.leds.len(), r, g, b, percent)
    }

    /// The start-up of each chip.
    pub open spec fn init_parts(self) -> spec_fn(int) -> Seq<Frame> {
        |d: int| device_init_frames(self.addrs[d])
    }

    /// The start-up of all chips, one chip after the other.
    pub open spec fn init_frames(self) -> Seq<Frame> {
        concat_upto(self.init_parts(), self.addrs.len())
    }

    /// The state when the bus accepted the first `sent` transactions of
    /// the start-up.
    pub open spec fn inited(self, sent: int) -> ControllerView {
        ControllerView {
            devices: Seq::new(
                self.devices.len(),
                |d: int| device_inited(self.devices[d], sent - INIT_LENGTH * d),
            ),
            ..self
        }
    }

    /// What brings each chip up to date.
    pub open spec fn flush_parts(self) -> spec_fn(int) -> Seq<Frame> {
        |d: int| device_flush_frames(self.addrs[d], self.devices[d])
    }

    /// What brings all chips up to date, one chip after the other. A chip
    /// with no dirty buffer contributes nothing.
    pub open spec fn flush_frames(self) -> Seq<Frame> {
        concat_upto(self.flush_parts(), self.addrs.len())
    }

    /// Number of transactions of a flush that go to the chips before `d`.
    pub open spec fn flush_offset(self, d: int) -> int {
        concat_upto(self.flush_parts(), d as nat).len() as int
    }

    /// The state when the bus accepted the first `sent` transactions of a
    /// flush.
    pub open spec fn flushed(self, sent: int) -> ControllerView {
        ControllerView {
            devices: Seq::new(
                self.devices.len(),
                |d: int| device_flushed(self.devices[d], sent - self.flush_offset(d)),
            ),
            ..self
        }
    }

    /// What puts each chip to sleep.
    pub open spec fn shutdown_parts(self) -> spec_fn(int) -> Seq<Frame> {
        |d: int| device_shutdown_frames(self.addrs[d])
    }

    /// What puts all chips to sleep, one chip after the other.
    pub open spec fn shutdown_frames(self) -> Seq<Frame> {
        concat_upto(self.shutdown_parts(), self.addrs.len())
    }

    /// What wakes each chip.
    pub open spec fn return_normal_parts(self) -> spec_fn(int) -> Seq<Frame> {
        |d: int| device_return_normal_frames(self.addrs[d])
    }

    /// What wakes all chips, one chip after the other.
    pub open spec fn return_normal_frames(self) -> Seq<Frame> {
        concat_upto(self.return_normal_parts(), self.addrs.len())
    }
}

/// The models of the buffers of all chips, in order.
pub open spec fn device_views(devices: Seq<DeviceState>) -> Seq<DeviceView> {
    devices.map_values(|d: DeviceState| d@)
}

impl View for Ckled2001 {
    type V = ControllerView;

    closed spec fn view(&self) -> ControllerView {
        ControllerView {
            addrs: self.addrs@,
            leds: self.leds@,
            devices: device_views(self.devices@),
            brightness: self.global_brightness,
        }
    }
}

impl Ckled2001 {
    /// A controller for the chips at `addrs` and the LED table `leds`: all
    /// buffers zeroed, nothing waiting to be written, full brightness.
    pub fn new(addrs: Vec<u8>, leds: Vec<CkLed>) -> (c: Ckled2001)
        requires
            all_in_range(leds@),
        ensures
            c@.wf(),
            c@.all_clean(),
            c@.addrs == addrs@,
            c@.leds == leds@,
            c@.brightness == 255,
            forall|d: int|
                0 <= d < c@.devices.len() ==> (#[trigger] c@.devices[d]) == DeviceState::new_view(),
    {
        let mut devices: Vec<DeviceState> = Vec::new();
        while devices.len() < addrs.len()
            invariant
                devices@.len() <= addrs@.len(),
                forall|d: int|
                    0 <= d < devices@.len() ==> (#[trigger] devices@[d])@ == DeviceState::new_view(),
            decreases addrs@.len() - devices@.len(),
        {
            devices.push(DeviceState::new());
        }
        Ckled2001 { addrs, leds, devices, global_brightness: 255 }
    }

    /// Number of chips.
    pub fn device_count(&self) -> (n: usize)
        ensures
            n == self@.addrs.len(),
            self@.wf() ==> n == self@.devices.len(),
    {
        self.addrs.len()
    }

    /// Number of LEDs in the table.
    pub fn led_count(&self) -> (n: usize)
        ensures
            n == self@.leds.len(),
    {
        self.leds.len()
    }

    /// The brightness, 0..=255, that the next colour is computed with.
    pub fn global_brightness(&self) -> (b: u8)
        ensures
            b == self@.brightness,
    {
        self.global_brightness
    }

    /// The buffers of chip `index`, if there is such a chip.
    pub fn device(&self, index: usize) -> (dev: Option<&DeviceState>)
        ensures
            dev is Some <==> index < self@.devices.len(),
            dev is Some ==> dev->Some_0@ == self@.devices[index as int],
    {
        if index < self.devices.len() {
            Some(&self.devices[index])
        } else {
            None
        }
    }

    /// Sets the brightness to `percent` of full; more than one hundred
    /// counts as one hundred. Colours already stored keep their bytes.
    pub fn set_global_brightness_percent(&mut self, percent: u8)
        ensures
            final(self)@ == old(self)@.with_brightness(percent),
    {
        self.global_brightness = percent_to_brightness(percent);
    }

    /// Stores the bytes `r`, `g`, `b` at the channels of the LED `idx`.
    fn paint(&mut self, idx: usize, r: u8, g: u8, b: u8)
        requires
            old(self)@.wf(),
            idx < old(self)@.leds.len(),
        ensures
            final(self)@ == old(self)@.painted(idx as int, r, g, b),
            final(self)@.wf(),
    {
        let led = self.leds[idx];
        let d: usize = led.driver as usize;
        if d >= self.devices.len() {
            return ;
        }
        assert(led.in_range());
        assert(self@.devices[d as int].wf());
        let ghost before = self.devices@;
        let dev = &mut self.devices[d];
        dev.set_pwm(led.r as usize, r);
        dev.set_pwm(led.g as usize, g);
        dev.set_pwm(led.b as usize, b);
        assert(device_views(self.devices@) =~= device_views(before).update(
            d as int,
            before[d as int]@.with_pwm(led.r as int, r).with_pwm(led.g as int, g).with_pwm(
                led.b as int,
                b,
            ),
        ));
    }

    /// Gives one LED a colour. The brightness is set to `brightness`
    /// percent; the three channel values are dimmed by it, gamma corrected
    /// and stored in the PWM buffer of the LED's chip, which becomes dirty.
    /// An index outside the table changes nothing at all, and an LED whose
    /// chip does not exist changes no buffer. Neither is an error.
    pub fn set_color(&mut self, led_index: usize, r: u8, g: u8, b: u8, brightness: u8) -> (res:
        Result<(), Error>)
        requires
            old(self)@.wf(),
        ensures
            res is Ok,
            final(self)@ == old(self)@.set_color(led_index as int, r, g, b, brightness),
            final(self)@.wf(),
    {
        if led_index >= self.leds.len() {
            return Ok(());
        }
        self.set_global_brightness_percent(brightness);
        let level: u8 = self.global_brightness;
        self.paint(led_index, corrected(r, level), corrected(g, level), corrected(b, level));
        Ok(())
    }

    /// Sets one byte of the on/off bitmap of the chip `device`, eight
    /// channels at a time, and marks that bitmap dirty. Nothing is sent. A
    /// chip or a byte that does not exist changes nothing and is no error.
    pub fn set_control(&mut self, device: usize, offset: usize, value: u8)
        requires
            old(self)@.wf(),
        ensures
            final(self)@ == old(self)@.set_control(device as int, offset as int, value),
            final(self)@.wf(),
    {
        if device >= self.devices.len() {
            return ;
        }
        assert(self@.devices[device as int].wf());
        if offset >= self.devices[device].control().len() {
            return ;
        }
        let ghost before = self.devices@;
        self.devices[device].set_control(offset, value);
        assert(device_views(self.devices@) =~= device_views(before).update(
            device as int,
            before[device as int]@.with_control(offset as int, value),
        ));
    }

    /// The transactions of the start-up, in the order in which they are to
    /// be sent: the whole start-up of the first chip, then that of the
    /// second, and so on.
    pub fn init_plan(&self) -> (out: Vec<Transaction>)
        ensures
            frames(out@) == self@.init_frames(),
    {
        let mut out: Vec<Transaction> = Vec::new();
        assert(frames(out@) =~= Seq::empty());
        let mut d: usize = 0;
        while d < self.addrs.len()
            invariant
                d <= self.addrs@.len(),
                frames(out@) == concat_upto(self@.init_parts(), d as nat),
            decreases self.addrs@.len() - d,
        {
            append_frames(&mut out, device_init(self.addrs[d]));
            d += 1;
        }
        out
    }

    /// Records a start-up of which the bus accepted the first `sent`
    /// transactions of `init_plan`. The buffers of each chip follow what
    /// reached it; a chip whose start-up was accepted in full has all
    /// channels enabled, all intensities zero and nothing dirty. The
    /// start-up succeeded if the whole plan was accepted, and failed on the
    /// bus otherwise.
    pub fn init(&mut self, sent: usize) -> (res: Result<(), Error>)
        requires
            old(self)@.wf(),
        ensures
            final(self)@ == old(self)@.inited(sent as int),
            final(self)@.wf(),
            res == outcome(old(self)@.init_frames().len() as int, sent as int),
    {
        let n: usize = self.devices.len();
        let mut remaining: usize = sent;
        let mut complete: bool = true;
        let mut d: usize = 0;
        while d < n
            invariant
                d <= n,
                n == old(self)@.devices.len(),
                self@.wf(),
                self@.addrs == old(self)@.addrs,
                self@.leds == old(self)@.leds,
                self@.brightness == old(self)@.brightness,
                self@.devices.len() == n,
                forall|j: int|
                    0 <= j < d ==> (#[trigger] self@.devices[j]) == device_inited(
                        old(self)@.devices[j],
                        sent - INIT_LENGTH * j,
                    ),
                forall|j: int| d <= j < n ==> (#[trigger] self@.devices[j]) == old(self)@.devices[j],
                complete == (sent >= INIT_LENGTH * d),
                remaining == if sent >= INIT_LENGTH * d {
                    sent - INIT_LENGTH * d
                } else {
                    0
                },
            decreases n - d,
        {
            let k: usize = if remaining > INIT_LENGTH { INIT_LENGTH } else { remaining };
            let ghost before = self.devices@;
            assert(self@.devices[d as int].wf());
            apply_init(&mut self.devices[d], k);
            assert(device_views(self.devices@) =~= device_views(before).update(
                d as int,
                self.devices@[d as int]@,
            ));
            if remaining >= INIT_LENGTH {
                remaining = remaining - INIT_LENGTH;
            } else {
                remaining = 0;
                complete = false;
            }
            d += 1;
        }
        proof {
            assert(self@.devices =~= old(self)@.inited(sent as int).devices);
            old(self)@.lemma_plan_lengths();
        }
        if complete {
            Ok(())
        } else {
            Err(Error::TransportFailure)
        }
    }

    /// The transactions that bring the chips up to date, in the order in
    /// which they are to be sent. For each chip in turn: if its bitmap is
    /// dirty, the bitmap page is selected and the whole bitmap written; if
    /// its PWM buffer is dirty, the PWM page is selected and the whole
    /// buffer written, in blocks. A chip with nothing dirty gets nothing.
    pub fn flush_plan(&self) -> (out: Vec<Transaction>)
        requires
            self@.wf(),
        ensures
            frames(out@) == self@.flush_frames(),
    {
        let mut out: Vec<Transaction> = Vec::new();
        assert(frames(out@) =~= Seq::empty());
        let mut d: usize = 0;
        while d < self.addrs.len()
            invariant
                self@.wf(),
                d <= self.addrs@.len(),
                frames(out@) == concat_upto(self@.flush_parts(), d as nat),
            decreases self.addrs@.len() - d,
        {
            assert(self@.devices[d as int].wf());
            append_frames(&mut out, device_flush(self.addrs[d], &self.devices[d]));
            d += 1;
        }
        out
    }

    /// Records a flush of which the bus accepted the first `sent`
    /// transactions of `flush_plan`. A buffer becomes clean when all of its
    /// transactions were accepted and stays dirty otherwise, so that the
    /// next flush sends it again in full. No byte of any buffer changes.
    /// The flush succeeded if the whole plan was accepted, and failed on the
    /// bus otherwise.
    pub fn flush(&mut self, sent: usize) -> (res: Result<(), Error>)
        requires
            old(self)@.wf(),
        ensures
            final(self)@ == old(self)@.flushed(sent as int),
            final(self)@.wf(),
            res == outcome(old(self)@.flush_frames().len() as int, sent as int),
    {
        let n: usize = self.devices.len();
        let mut remaining: usize = sent;
        let mut complete: bool = true;
        let mut d: usize = 0;
        while d < n
            invariant
                d <= n,
                n == old(self)@.devices.len(),
                self@.wf(),
                self@.addrs == old(self)@.addrs,
                self@.leds == old(self)@.leds,
                self@.brightness == old(self)@.brightness,
                self@.devices.len() == n,
                forall|j: int|
                    0 <= j < d ==> (#[trigger] self@.devices[j]) == device_flushed(
                        old(self)@.devices[j],
                        sent - old(self)@.flush_offset(j),
                    ),
                forall|j: int| d <= j < n ==> (#[trigger] self@.devices[j]) == old(self)@.devices[j],
                complete == (sent >= old(self)@.flush_offset(d as int)),
                remaining == if sent >= old(self)@.flush_offset(d as int) {
                    sent - old(self)@.flush_offset(d as int)
                } else {
                    0
                },
            decreases n - d,
        {
            let ghost before = self.devices@;
            let ghost dev = self@.devices[d as int];
            assert(dev.wf());
            proof {
                lemma_device_lengths(0, dev);
                lemma_device_lengths(old(self)@.addrs[d as int], dev);
                assert(old(self)@.flush_offset(d + 1) == old(self)@.flush_offset(d as int) + (
                old(self)@.flush_parts())(d as int).len());
            }
            let need: usize = apply_flush(&mut self.devices[d], remaining);
            assert(device_views(self.devices@) =~= device_views(before).update(
                d as int,
                self.devices@[d as int]@,
            ));
            if remaining >= need {
                remaining = remaining - need;
            } else {
                remaining = 0;
                complete = false;
            }
            d += 1;
        }
        assert(self@.devices =~= old(self)@.flushed(sent as int).devices);
        if complete {
            Ok(())
        } else {
            Err(Error::TransportFailure)
        }
    }

    /// Gives every LED of the table the colour, each as `set_color` does,
    /// and returns the transactions of the flush that is due then. They
    /// are to be sent, and the count of those accepted handed to `flush`.
    pub fn set_color_all(&mut self, r: u8, g: u8, b: u8, brightness: u8) -> (out: Vec<Transaction>)
        requires
            old(self)@.wf(),
        ensures
            final(self)@ == old(self)@.set_color_all(r, g, b, brightness),
            final(self)@.wf(),
            frames(out@) == final(self)@.flush_frames(),
    {
        self.set_global_brightness_percent(brightness);
        let level: u8 = self.global_brightness;
        let red: u8 = corrected(r, level);
        let green: u8 = corrected(g, level);
        let blue: u8 = corrected(b, level);
        let mut i: usize = 0;
        while i < self.leds.len()
            invariant
                i <= self@.leds.len(),
                self@.wf(),
                self@.leds == old(self)@.leds,
                self@.brightness == level,
                level as int == percent_to_brightness_spec(brightness),
                red as int == corrected_spec(r, level),
                green as int == corrected_spec(g, level),
                blue as int == corrected_spec(b, level),
                self@ == old(self)@.colored_upto(i as nat, r, g, b, brightness),
            decreases self@.leds.len() - i,
        {
            assert(self@.with_brightness(brightness) == self@);
            self.paint(i, red, green, blue);
            i += 1;
        }
        self.flush_plan()
    }

    /// The transactions that put the chips to sleep, in the order in which
    /// they are to be sent: for each chip the function page, shutdown mode,
    /// software sleep.
    pub fn shutdown_plan(&self) -> (out: Vec<Transaction>)
        ensures
            frames(out@) == self@.shutdown_frames(),
    {
        let mut out: Vec<Transaction> = Vec::new();
        assert(frames(out@) =~= Seq::empty());
        let mut d: usize = 0;
        while d < self.addrs.len()
            invariant
                d <= self.addrs@.len(),
                frames(out@) == concat_upto(self@.shutdown_parts(), d as nat),
            decreases self.addrs@.len() - d,
        {
            append_frames(&mut out, device_shutdown(self.addrs[d]));
            d += 1;
        }
        out
    }

    /// The outcome of putting the chips to sleep when the bus accepted the
    /// first `sent` transactions of `shutdown_plan`. The buffers and their
    /// dirty flags are as they were.
    pub fn shutdown(&self, sent: usize) -> (res: Result<(), Error>)
        ensures
            res == outcome(self@.shutdown_frames().len() as int, sent as int),
    {
        proof {
            self@.lemma_plan_lengths();
        }
        completion_of(POWER_LENGTH, self.addrs.len(), sent)
    }

    /// The transactions that wake the chips, in the order in which they
    /// are to be sent: for each chip the function page, no software sleep,
    /// normal mode.
    pub fn return_normal_plan(&self) -> (out: Vec<Transaction>)
        ensures
            frames(out@) == self@.return_normal_frames(),
    {
        let mut out: Vec<Transaction> = Vec::new();
        assert(frames(out@) =~= Seq::empty());
        let mut d: usize = 0;
        while d < self.addrs.len()
            invariant
                d <= self.addrs@.len(),
                frames(out@) == concat_upto(self@.return_normal_parts(), d as nat),
            decreases self.addrs@.len() - d,
        {
            append_frames(&mut out, device_return_normal(self.addrs[d]));
            d += 1;
        }
        out
    }

    /// The outcome of waking the chips when the bus accepted the first
    /// `sent` transactions of `return_normal_plan`. Nothing is flushed:
    /// buffers that became dirty while the chips slept stay dirty.
    pub fn return_normal(&self, sent: usize) -> (res: Result<(), Error>)
        ensures
            res == outcome(self@.return_normal_frames().len() as int, sent as int),
    {
        proof {
            self@.lemma_plan_lengths();
        }
        completion_of(POWER_LENGTH, self.addrs.len(), sent)
    }
}

/// Whether the bus accepted a whole plan of `per_chip` transactions for
/// each of `chips` chips.
fn completion_of(per_chip: usize, chips: usize, sent: usize) -> (res: Result<(), Error>)
    requires
        0 < per_chip,
    ensures
        res == outcome(per_chip * chips, sent as int),
{
    assert(sent / per_chip >= chips <==> sent >= per_chip * chips) by (nonlinear_arith)
        requires
            0 < per_chip,
            0 <= sent,
            0 <= chips,
    ;
    if sent / per_chip >= chips {
        Ok(())
    } else {
        Err(Error::TransportFailure)
    }
}

impl ControllerView {
    /// The start-up has nineteen transactions for each chip, and putting
    /// the chips to sleep or waking them has three.
    pub proof fn lemma_plan_lengths(self)
        ensures
            self.init_frames().len() == INIT_LENGTH * self.addrs.len(),
            self.shutdown_frames().len() == POWER_LENGTH * self.addrs.len(),
            self.return_normal_frames().len() == POWER_LENGTH * self.addrs.len(),
    {
        let n = self.addrs.len();
        assert forall|d: int| 0 <= d < n implies (#[trigger] (self.init_parts())(d)).len()
            == INIT_LENGTH as nat by {
            lemma_device_lengths(self.addrs[d], DeviceState::new_view());
        }
        crate::plan::lemma_concat_len(self.init_parts(), n, INIT_LENGTH as nat);
        assert forall|d: int| 0 <= d < n implies (#[trigger] (self.shutdown_parts())(d)).len()
            == POWER_LENGTH as nat by {
            lemma_device_lengths(self.addrs[d], DeviceState::new_view());
        }
        crate::plan::lemma_concat_len(self.shutdown_parts(), n, POWER_LENGTH as nat);
        assert forall|d: int| 0 <= d < n implies (#[trigger] (self.return_normal_parts())(d)).len()
            == POWER_LENGTH as nat by {
            lemma_device_lengths(self.addrs[d], DeviceState::new_view());
        }
        crate::plan::lemma_concat_len(self.return_normal_parts(), n, POWER_LENGTH as nat);
    }
}

} // verus!
