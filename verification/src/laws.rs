//! Laws of the controller that relate several of its operations.

use vstd::prelude::*;
use crate::color::{corrected_spec, lemma_corrected_bounds, percent_to_brightness_spec};
use crate::driver::ControllerView;
use crate::plan::{concat_upto, lemma_concat_empty, lemma_concat_grows, lemma_concat_member};
use crate::protocol::Frame;
use crate::sequence::{device_flush_frames, lemma_device_lengths};

verus! {

/// Every transaction of what brings a chip up to date is addressed to that
/// chip.
pub proof fn lemma_device_flush_addr(addr: u8, dev: crate::device::DeviceView, i: int)
    requires
        0 <= i < device_flush_frames(addr, dev).len(),
    ensures
        device_flush_frames(addr, dev)[i].addr == addr,
{
}

/// A controller with no dirty buffer has nothing to flush.
pub proof fn lemma_clean_flush_is_empty(v: ControllerView)
    requires
        v.wf(),
        v.all_clean(),
    ensures
        v.flush_frames() == Seq::<Frame>::empty(),
{
    assert forall|d: int| 0 <= d < v.addrs.len() implies (#[trigger] (v.flush_parts())(d)).len()
        == 0 by {
        assert(v.devices[d].clean());
    }
    lemma_concat_empty(v.flush_parts(), v.addrs.len());
    assert(v.flush_frames() =~= Seq::<Frame>::empty());
}

/// Flushing is idempotent: after a flush that the bus accepted in full, no
/// buffer is dirty, so that a second flush sends nothing and changes
/// nothing.
pub proof fn lemma_flush_idempotent(v: ControllerView, sent: int)
    requires
        v.wf(),
        sent >= v.flush_frames().len(),
    ensures
        v.flushed(sent).wf(),
        v.flushed(sent).all_clean(),
        v.flushed(sent).flush_frames() == Seq::<Frame>::empty(),
        forall|again: int| v.flushed(sent).flushed(again) == v.flushed(sent),
{
    let w = v.flushed(sent);
    let n = v.addrs.len();
    assert forall|d: int| 0 <= d < w.devices.len() implies (#[trigger] w.devices[d]).clean()
        && w.devices[d].wf() by {
        assert(v.devices[d].wf());
        lemma_device_lengths(0, v.devices[d]);
        lemma_device_lengths(v.addrs[d], v.devices[d]);
        lemma_concat_grows(v.flush_parts(), (d + 1) as nat, n);
        assert(v.flush_offset(d + 1) == v.flush_offset(d) + (v.flush_parts())(d).len());
    }
    lemma_clean_flush_is_empty(w);
    assert forall|again: int| w.flushed(again) == w by {
        assert(w.flushed(again).devices =~= w.devices) by {
            assert forall|d: int| 0 <= d < w.devices.len() implies w.flushed(again).devices[d]
                == w.devices[d] by {
                assert(w.devices[d].clean());
            }
        }
    }
}

/// Every transaction of a flush is addressed to a chip that has a dirty
/// buffer.
pub proof fn lemma_flush_addresses(v: ControllerView, j: int) -> (d: int)
    requires
        v.wf(),
        0 <= j < v.flush_frames().len(),
    ensures
        0 <= d < v.devices.len(),
        !v.devices[d].clean(),
        v.flush_frames()[j].addr == v.addrs[d],
{
    let d = lemma_concat_member(v.flush_parts(), v.addrs.len(), j);
    let i = j - concat_upto(v.flush_parts(), d as nat).len();
    assert(0 <= i < (v.flush_parts())(d).len());
    lemma_device_flush_addr(v.addrs[d], v.devices[d], i);
    d
}

/// Giving an LED a colour touches nothing but the PWM buffer of the LED's
/// chip, and of that only the LED's three channels.
pub proof fn lemma_set_color_touches(v: ControllerView, idx: int, r: u8, g: u8, b: u8, percent: u8)
    requires
        v.wf(),
        0 <= idx < v.leds.len(),
        v.leds[idx].driver < v.devices.len(),
    ensures
        v.set_color(idx, r, g, b, percent).wf(),
        v.set_color(idx, r, g, b, percent).addrs == v.addrs,
        v.set_color(idx, r, g, b, percent).leds == v.leds,
        v.set_color(idx, r, g, b, percent).devices.len() == v.devices.len(),
        forall|d: int|
            0 <= d < v.devices.len() && d != v.leds[idx].driver ==> v.set_color(
                idx,
                r,
                g,
                b,
                percent,
            ).devices[d] == v.devices[d],
        v.set_color(idx, r, g, b, percent).devices[v.leds[idx].driver as int].pwm_dirty,
        v.set_color(idx, r, g, b, percent).devices[v.leds[idx].driver as int].control
            == v.devices[v.leds[idx].driver as int].control,
        v.set_color(idx, r, g, b, percent).devices[v.leds[idx].driver as int].control_dirty
            == v.devices[v.leds[idx].driver as int].control_dirty,
        forall|o: int|
            0 <= o < v.devices[v.leds[idx].driver as int].pwm.len() && o != v.leds[idx].r && o
                != v.leds[idx].g && o != v.leds[idx].b ==> v.set_color(
                idx,
                r,
                g,
                b,
                percent,
            ).devices[v.leds[idx].driver as int].pwm[o] == v.devices[v.leds[idx].driver as int].pwm[o],
{
    let led = v.leds[idx];
    assert(led.in_range());
    assert(v.devices[led.driver as int].wf());
    let w = v.set_color(idx, r, g, b, percent);
    assert forall|d: int| 0 <= d < w.devices.len() implies (#[trigger] w.devices[d]).wf() by {
        assert(v.devices[d].wf());
    }
}

/// What an LED's channels hold after it was given a colour: the blue
/// channel holds the corrected blue value; the green channel holds the
/// corrected green value unless it is the blue channel too; the red channel
/// holds the corrected red value unless it is one of the other two. Where
/// channels coincide the later part of the colour wins.
pub proof fn lemma_set_color_stores(v: ControllerView, idx: int, r: u8, g: u8, b: u8, percent: u8)
    requires
        v.wf(),
        0 <= idx < v.leds.len(),
        v.leds[idx].driver < v.devices.len(),
    ensures
        ({
            let led = v.leds[idx];
            let level = percent_to_brightness_spec(percent) as u8;
            let pwm = v.set_color(idx, r, g, b, percent).devices[led.driver as int].pwm;
            &&& pwm[led.b as int] == corrected_spec(b, level)
            &&& led.g != led.b ==> pwm[led.g as int] == corrected_spec(g, level)
            &&& led.r != led.g && led.r != led.b ==> pwm[led.r as int] == corrected_spec(r, level)
        }),
{
    let led = v.leds[idx];
    assert(led.in_range());
    assert(v.devices[led.driver as int].wf());
    let level = percent_to_brightness_spec(percent) as u8;
    lemma_corrected_bounds(r, level);
    lemma_corrected_bounds(g, level);
    lemma_corrected_bounds(b, level);
}

/// Dirty isolation: when a controller with no dirty buffer gives one LED a
/// colour, every transaction of the next flush is addressed to that LED's
/// chip.
pub proof fn lemma_dirty_isolation(
    v: ControllerView,
    idx: int,
    r: u8,
    g: u8,
    b: u8,
    percent: u8,
    j: int,
)
    requires
        v.wf(),
        v.all_clean(),
        0 <= j < v.set_color(idx, r, g, b, percent).flush_frames().len(),
    ensures
        0 <= idx < v.leds.len(),
        v.leds[idx].driver < v.devices.len(),
        v.set_color(idx, r, g, b, percent).flush_frames()[j].addr == v.addrs[v.leds[idx].driver as int],
{
    let w = v.set_color(idx, r, g, b, percent);
    if idx < 0 || idx >= v.leds.len() || v.leds[idx].driver >= v.devices.len() {
        assert(w.devices == v.devices);
        assert(w.wf());
        assert(w.all_clean());
        lemma_clean_flush_is_empty(w);
        assert(false);
    }
    lemma_set_color_touches(v, idx, r, g, b, percent);
    let d = lemma_flush_addresses(w, j);
    if d != v.leds[idx].driver {
        assert(v.devices[d].clean());
        assert(false);
    }
}

/// Bounds safety: a colour for an index outside the table changes nothing
/// at all, and a colour for an LED whose chip does not exist changes the
/// brightness and no buffer or dirty flag.
pub proof fn lemma_set_color_out_of_range(
    v: ControllerView,
    idx: int,
    r: u8,
    g: u8,
    b: u8,
    percent: u8,
)
    ensures
        idx < 0 || idx >= v.leds.len() ==> v.set_color(idx, r, g, b, percent) == v,
        0 <= idx < v.leds.len() && v.leds[idx].driver >= v.devices.len() ==> v.set_color(
            idx,
            r,
            g,
            b,
            percent,
        ) == v.with_brightness(percent),
        v.with_brightness(percent).devices == v.devices,
{
}

} // verus!
