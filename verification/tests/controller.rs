use ckled2001::device::DeviceState;
use ckled2001::driver::{leds_in_range, CkLed, Ckled2001};
use ckled2001::protocol::{Error, Transaction};

fn led(driver: u8, r: u8, g: u8, b: u8) -> CkLed {
    CkLed { driver, r, g, b }
}

fn two_chips() -> Ckled2001 {
    Ckled2001::new(vec![0x74, 0x77], vec![led(0, 0, 1, 2), led(1, 10, 11, 12), led(0, 3, 4, 5)])
}

fn started(mut c: Ckled2001) -> Ckled2001 {
    let plan = c.init_plan();
    assert_eq!(c.init(plan.len()), Ok(()));
    c
}

fn page_select(addr: u8, page: u8) -> Transaction {
    Transaction { addr, payload: vec![0xFD, page] }
}

fn reg(addr: u8, reg: u8, value: u8) -> Transaction {
    Transaction { addr, payload: vec![reg, value] }
}

fn block(addr: u8, start: u8, data: &[u8]) -> Transaction {
    let mut payload = vec![start];
    payload.extend_from_slice(data);
    Transaction { addr, payload }
}

#[test]
fn new_controller_is_zeroed_and_clean() {
    let c = two_chips();
    assert_eq!(c.device_count(), 2);
    assert_eq!(c.led_count(), 3);
    assert_eq!(c.global_brightness(), 255);
    for d in 0..2 {
        let dev = c.device(d).unwrap();
        assert_eq!(dev.pwm(), &[0u8; 192][..]);
        assert_eq!(dev.control(), &[0u8; 24][..]);
        assert!(!dev.pwm_dirty());
        assert!(!dev.control_dirty());
    }
    assert!(c.device(2).is_none());
    assert!(c.flush_plan().is_empty());
}

#[test]
fn init_plan_is_the_power_up_sequence() {
    let c = Ckled2001::new(vec![0x74], vec![]);
    let plan = c.init_plan();
    let a = 0x74;
    let want = vec![
        page_select(a, 0x03),
        reg(a, 0x00, 0x00),
        reg(a, 0x13, 0xAA),
        reg(a, 0x14, 0x00),
        reg(a, 0x15, 0x04),
        reg(a, 0x16, 0xC0),
        reg(a, 0x1A, 0x00),
        page_select(a, 0x00),
        block(a, 0, &[0x00; 24]),
        page_select(a, 0x01),
        block(a, 0, &[0x00; 64]),
        block(a, 64, &[0x00; 64]),
        block(a, 128, &[0x00; 64]),
        page_select(a, 0x04),
        block(a, 0, &[0xFF; 12]),
        page_select(a, 0x00),
        block(a, 0, &[0xFF; 24]),
        page_select(a, 0x03),
        reg(a, 0x00, 0x01),
    ];
    assert_eq!(plan, want);
}

#[test]
fn init_plan_handles_chips_in_order() {
    let c = two_chips();
    let plan = c.init_plan();
    assert_eq!(plan.len(), 38);
    assert!(plan[..19].iter().all(|t| t.addr == 0x74));
    assert!(plan[19..].iter().all(|t| t.addr == 0x77));
    let single = Ckled2001::new(vec![0x77], vec![]).init_plan();
    assert_eq!(&plan[19..], &single[..]);
}

#[test]
fn init_enables_all_channels_and_leaves_nothing_dirty() {
    let c = started(two_chips());
    for d in 0..2 {
        let dev = c.device(d).unwrap();
        assert_eq!(dev.control(), &[0xFFu8; 24][..]);
        assert_eq!(dev.pwm(), &[0u8; 192][..]);
        assert!(!dev.pwm_dirty());
        assert!(!dev.control_dirty());
    }
    assert!(c.flush_plan().is_empty());
}

#[test]
fn init_is_idempotent() {
    let mut c = started(two_chips());
    assert_eq!(c.set_color(0, 200, 100, 50, 100), Ok(()));
    let plan = c.init_plan();
    assert_eq!(plan, two_chips().init_plan());
    assert_eq!(c.init(plan.len()), Ok(()));
    let dev = c.device(0).unwrap();
    assert_eq!(dev.pwm(), &[0u8; 192][..]);
    assert_eq!(dev.control(), &[0xFFu8; 24][..]);
    assert!(!dev.pwm_dirty());
    assert!(c.flush_plan().is_empty());
}

#[test]
fn init_failure_is_reported_and_earlier_chips_stay_initialized() {
    let mut c = two_chips();
    assert_eq!(c.init(19 + 5), Err(Error::TransportFailure));
    let first = c.device(0).unwrap();
    assert_eq!(first.control(), &[0xFFu8; 24][..]);
    assert!(!first.pwm_dirty() && !first.control_dirty());
    let second = c.device(1).unwrap();
    assert_eq!(second.control(), &[0u8; 24][..]);
    assert!(!second.pwm_dirty() && !second.control_dirty());
}

#[test]
fn init_failure_at_first_transaction_changes_nothing() {
    let mut c = two_chips();
    assert_eq!(c.init(0), Err(Error::TransportFailure));
    for d in 0..2 {
        let dev = c.device(d).unwrap();
        assert_eq!(dev.control(), &[0u8; 24][..]);
        assert!(!dev.pwm_dirty() && !dev.control_dirty());
    }
}

#[test]
fn init_failure_while_writing_pwm_leaves_pwm_dirty() {
    let mut c = started(two_chips());
    assert_eq!(c.set_color(0, 255, 255, 255, 100), Ok(()));
    assert_eq!(c.flush(c.flush_plan().len()), Ok(()));
    assert_eq!(c.init(11), Err(Error::TransportFailure));
    let dev = c.device(0).unwrap();
    assert_eq!(dev.pwm(), &[0u8; 192][..]);
    assert!(dev.pwm_dirty());
    assert_eq!(dev.control(), &[0u8; 24][..]);
    let untouched = c.device(1).unwrap();
    assert_eq!(untouched.control(), &[0xFFu8; 24][..]);
    assert!(!untouched.pwm_dirty());
}

#[test]
fn init_one_short_of_complete_fails() {
    let mut c = two_chips();
    assert_eq!(c.init(37), Err(Error::TransportFailure));
    let dev = c.device(1).unwrap();
    assert_eq!(dev.control(), &[0xFFu8; 24][..]);
    assert!(!dev.pwm_dirty() && !dev.control_dirty());
    assert_eq!(c.init(38), Ok(()));
}

#[test]
fn brightness_percent_is_clamped_and_converted() {
    let mut c = two_chips();
    c.set_global_brightness_percent(50);
    assert_eq!(c.global_brightness(), 127);
    c.set_global_brightness_percent(0);
    assert_eq!(c.global_brightness(), 0);
    c.set_global_brightness_percent(100);
    assert_eq!(c.global_brightness(), 255);
    c.set_global_brightness_percent(250);
    assert_eq!(c.global_brightness(), 255);
    assert!(c.flush_plan().is_empty());
}

#[test]
fn brightness_change_does_not_touch_stored_bytes() {
    let mut c = started(two_chips());
    assert_eq!(c.set_color(0, 255, 128, 0, 100), Ok(()));
    let before = c.device(0).unwrap().pwm().to_vec();
    c.set_global_brightness_percent(10);
    assert_eq!(c.device(0).unwrap().pwm(), &before[..]);
}

#[test]
fn set_color_stores_corrected_bytes_at_mapped_offsets() {
    let mut c = started(two_chips());
    assert_eq!(c.set_color(1, 255, 128, 200, 50), Ok(()));
    assert_eq!(c.global_brightness(), 127);
    let dev = c.device(1).unwrap();
    assert_eq!(dev.pwm()[10], 63);
    assert_eq!(dev.pwm()[11], 16);
    assert_eq!(dev.pwm()[12], 39);
    assert!(dev.pwm_dirty());
    assert!(!dev.control_dirty());
    for (i, &x) in dev.pwm().iter().enumerate() {
        if !(10..=12).contains(&i) {
            assert_eq!(x, 0);
        }
    }
    let other = c.device(0).unwrap();
    assert_eq!(other.pwm(), &[0u8; 192][..]);
    assert!(!other.pwm_dirty());
}

#[test]
fn set_color_issues_no_transactions_by_itself() {
    let mut c = started(two_chips());
    assert_eq!(c.set_color(0, 1, 2, 3, 100), Ok(()));
    assert_eq!(c.flush_plan().len(), 4);
    assert_eq!(c.set_color(0, 4, 5, 6, 100), Ok(()));
    assert_eq!(c.flush_plan().len(), 4);
}

#[test]
fn set_color_with_index_at_table_length_is_a_no_op() {
    let mut c = started(two_chips());
    c.set_global_brightness_percent(40);
    let level = c.global_brightness();
    assert_eq!(c.set_color(3, 255, 255, 255, 100), Ok(()));
    assert_eq!(c.set_color(usize::MAX, 255, 255, 255, 100), Ok(()));
    assert_eq!(c.global_brightness(), level);
    for d in 0..2 {
        let dev = c.device(d).unwrap();
        assert_eq!(dev.pwm(), &[0u8; 192][..]);
        assert!(!dev.pwm_dirty());
    }
    assert!(c.flush_plan().is_empty());
}

#[test]
fn set_color_for_missing_chip_touches_no_buffer() {
    let mut c = started(Ckled2001::new(vec![0x74], vec![led(1, 0, 1, 2), led(200, 3, 4, 5)]));
    assert_eq!(c.set_color(0, 255, 255, 255, 100), Ok(()));
    assert_eq!(c.set_color(1, 255, 255, 255, 100), Ok(()));
    let dev = c.device(0).unwrap();
    assert_eq!(dev.pwm(), &[0u8; 192][..]);
    assert!(!dev.pwm_dirty());
    assert!(c.flush_plan().is_empty());
}

#[test]
fn shared_channel_takes_the_later_colour_part() {
    let mut c = started(Ckled2001::new(vec![0x74], vec![led(0, 7, 7, 7)]));
    assert_eq!(c.set_color(0, 255, 128, 0, 100), Ok(()));
    assert_eq!(c.device(0).unwrap().pwm()[7], 0);
    assert_eq!(c.set_color(0, 0, 128, 255, 100), Ok(()));
    assert_eq!(c.device(0).unwrap().pwm()[7], 255);
}

#[test]
fn flush_sends_only_dirty_buffers() {
    let mut c = started(two_chips());
    assert_eq!(c.set_color(1, 255, 0, 0, 100), Ok(()));
    let plan = c.flush_plan();
    let mut pwm = [0u8; 192];
    pwm[10] = 255;
    let want = vec![
        page_select(0x77, 0x01),
        block(0x77, 0, &pwm[0..64]),
        block(0x77, 64, &pwm[64..128]),
        block(0x77, 128, &pwm[128..192]),
    ];
    assert_eq!(plan, want);
}

#[test]
fn second_flush_sends_nothing() {
    let mut c = started(two_chips());
    assert_eq!(c.set_color(0, 9, 9, 9, 100), Ok(()));
    assert_eq!(c.set_color(1, 9, 9, 9, 100), Ok(()));
    let plan = c.flush_plan();
    assert_eq!(plan.len(), 8);
    assert_eq!(c.flush(plan.len()), Ok(()));
    assert!(c.flush_plan().is_empty());
    assert_eq!(c.flush(0), Ok(()));
    assert!(c.flush_plan().is_empty());
}

#[test]
fn flush_after_change_on_chip_zero_addresses_only_chip_zero() {
    let mut c = started(two_chips());
    assert_eq!(c.set_color(0, 10, 20, 30, 100), Ok(()));
    assert_eq!(c.set_color(2, 40, 50, 60, 80), Ok(()));
    let plan = c.flush_plan();
    assert_eq!(plan.len(), 4);
    assert!(plan.iter().all(|t| t.addr == 0x74));
}

#[test]
fn failed_flush_keeps_the_buffer_dirty_and_resends_it_in_full() {
    let mut c = started(two_chips());
    assert_eq!(c.set_color(0, 255, 255, 255, 100), Ok(()));
    assert_eq!(c.set_color(1, 255, 255, 255, 100), Ok(()));
    let plan = c.flush_plan();
    assert_eq!(c.flush(6), Err(Error::TransportFailure));
    assert!(!c.device(0).unwrap().pwm_dirty());
    assert!(c.device(1).unwrap().pwm_dirty());
    let retry = c.flush_plan();
    assert_eq!(&retry[..], &plan[4..]);
    assert_eq!(c.flush(3), Err(Error::TransportFailure));
    assert_eq!(c.flush_plan(), retry);
    assert_eq!(c.flush(4), Ok(()));
    assert!(c.flush_plan().is_empty());
}

#[test]
fn flush_does_not_change_buffer_bytes() {
    let mut c = started(two_chips());
    assert_eq!(c.set_color(0, 255, 128, 64, 100), Ok(()));
    let before = c.device(0).unwrap().pwm().to_vec();
    assert_eq!(c.flush(2), Err(Error::TransportFailure));
    assert_eq!(c.device(0).unwrap().pwm(), &before[..]);
    assert_eq!(c.flush(4), Ok(()));
    assert_eq!(c.device(0).unwrap().pwm(), &before[..]);
}

#[test]
fn end_to_end_single_led() {
    let mut c = Ckled2001::new(vec![0x74], vec![led(0, 0, 1, 2)]);
    let plan = c.init_plan();
    assert_eq!(c.init(plan.len()), Ok(()));
    assert_eq!(c.set_color(0, 255, 0, 0, 100), Ok(()));
    let plan = c.flush_plan();
    assert_eq!(c.flush(plan.len()), Ok(()));

    let dev = c.device(0).unwrap();
    assert_eq!(dev.pwm()[0], 255);
    assert_eq!(dev.pwm()[1], 0);
    assert_eq!(dev.pwm()[2], 0);
    assert_eq!(dev.control(), &[0xFFu8; 24][..]);
    assert!(!dev.control_dirty());

    let page_selects: Vec<&Transaction> =
        plan.iter().filter(|t| t.payload[0] == 0xFD).collect();
    assert_eq!(page_selects.len(), 1);
    assert_eq!(page_selects[0].payload, vec![0xFD, 0x01]);
    let written: Vec<u8> =
        plan.iter().skip(1).flat_map(|t| t.payload[1..].iter().copied()).collect();
    assert_eq!(written, dev.pwm().to_vec());
    let starts: Vec<u8> = plan.iter().skip(1).map(|t| t.payload[0]).collect();
    assert_eq!(starts, vec![0, 64, 128]);
    assert_eq!(plan.len(), 4);
}

#[test]
fn set_color_all_paints_every_led_and_plans_the_flush() {
    let mut c = started(two_chips());
    let plan = c.set_color_all(255, 128, 0, 100);
    assert_eq!(c.global_brightness(), 255);
    let first = c.device(0).unwrap();
    assert_eq!(&first.pwm()[0..6], &[255, 64, 0, 255, 64, 0]);
    assert!(first.pwm_dirty());
    let second = c.device(1).unwrap();
    assert_eq!(&second.pwm()[10..13], &[255, 64, 0]);
    assert!(second.pwm_dirty());
    assert_eq!(plan.len(), 8);
    assert_eq!(plan, c.flush_plan());
    assert!(plan[..4].iter().all(|t| t.addr == 0x74));
    assert!(plan[4..].iter().all(|t| t.addr == 0x77));
    assert_eq!(c.flush(plan.len()), Ok(()));
    assert!(c.flush_plan().is_empty());
}

#[test]
fn set_color_all_matches_set_color_on_each_led() {
    let mut all = started(two_chips());
    all.set_color_all(17, 130, 250, 60);
    let mut each = started(two_chips());
    for i in 0..each.led_count() {
        assert_eq!(each.set_color(i, 17, 130, 250, 60), Ok(()));
    }
    for d in 0..2 {
        assert_eq!(all.device(d).unwrap().pwm(), each.device(d).unwrap().pwm());
        assert_eq!(all.device(d).unwrap().pwm_dirty(), each.device(d).unwrap().pwm_dirty());
    }
    assert_eq!(all.global_brightness(), each.global_brightness());
}

#[test]
fn set_color_all_reports_the_first_bus_error() {
    let mut c = started(two_chips());
    let plan = c.set_color_all(1, 2, 3, 100);
    assert_eq!(c.flush(plan.len() - 1), Err(Error::TransportFailure));
    assert!(c.device(1).unwrap().pwm_dirty());
}

#[test]
fn set_color_all_with_empty_table_sets_brightness_only() {
    let mut c = started(Ckled2001::new(vec![0x74], vec![]));
    let plan = c.set_color_all(255, 255, 255, 20);
    assert!(plan.is_empty());
    assert_eq!(c.global_brightness(), 51);
}

#[test]
fn shutdown_plan_sleeps_every_chip() {
    let c = two_chips();
    let want = vec![
        page_select(0x74, 0x03),
        reg(0x74, 0x00, 0x00),
        reg(0x74, 0x1A, 0x02),
        page_select(0x77, 0x03),
        reg(0x77, 0x00, 0x00),
        reg(0x77, 0x1A, 0x02),
    ];
    assert_eq!(c.shutdown_plan(), want);
    assert_eq!(c.shutdown(6), Ok(()));
    assert_eq!(c.shutdown(5), Err(Error::TransportFailure));
    assert_eq!(c.shutdown(0), Err(Error::TransportFailure));
}

#[test]
fn return_normal_plan_wakes_every_chip() {
    let c = two_chips();
    let want = vec![
        page_select(0x74, 0x03),
        reg(0x74, 0x1A, 0x00),
        reg(0x74, 0x00, 0x01),
        page_select(0x77, 0x03),
        reg(0x77, 0x1A, 0x00),
        reg(0x77, 0x00, 0x01),
    ];
    assert_eq!(c.return_normal_plan(), want);
    assert_eq!(c.return_normal(6), Ok(()));
    assert_eq!(c.return_normal(2), Err(Error::TransportFailure));
}

#[test]
fn shutdown_then_return_normal_touches_only_function_page() {
    let mut c = started(two_chips());
    assert_eq!(c.set_color(0, 255, 255, 255, 100), Ok(()));
    let before = c.device(0).unwrap().pwm().to_vec();
    let down = c.shutdown_plan();
    assert_eq!(c.shutdown(down.len()), Ok(()));
    let up = c.return_normal_plan();
    assert_eq!(c.return_normal(up.len()), Ok(()));

    let mut page = [0xEEu8; 2];
    let mut config = [0xEEu8; 2];
    let mut sleep = [0xEEu8; 2];
    for t in down.iter().chain(up.iter()) {
        let chip = if t.addr == 0x74 { 0 } else { 1 };
        assert_eq!(t.payload.len(), 2);
        if t.payload[0] == 0xFD {
            page[chip] = t.payload[1];
        } else {
            assert_eq!(page[chip], 0x03);
            match t.payload[0] {
                0x00 => config[chip] = t.payload[1],
                0x1A => sleep[chip] = t.payload[1],
                other => panic!("unexpected register {other:#x}"),
            }
        }
    }
    assert_eq!(config, [0x01, 0x01]);
    assert_eq!(sleep, [0x00, 0x00]);
    assert_eq!(c.device(0).unwrap().pwm(), &before[..]);
    assert!(c.device(0).unwrap().pwm_dirty());
    assert_eq!(c.flush_plan().len(), 4);
}

#[test]
fn controller_without_chips_has_empty_plans() {
    let mut c = Ckled2001::new(vec![], vec![led(0, 0, 1, 2)]);
    assert!(c.init_plan().is_empty());
    assert_eq!(c.init(0), Ok(()));
    assert_eq!(c.set_color(0, 1, 2, 3, 100), Ok(()));
    assert!(c.flush_plan().is_empty());
    assert_eq!(c.flush(0), Ok(()));
    assert!(c.shutdown_plan().is_empty());
    assert_eq!(c.shutdown(0), Ok(()));
    assert_eq!(c.return_normal(0), Ok(()));
}

#[test]
fn led_table_range_check() {
    assert!(leds_in_range(&[]));
    assert!(leds_in_range(&[led(0, 0, 1, 191), led(9, 191, 191, 191)]));
    assert!(!leds_in_range(&[led(0, 0, 1, 192)]));
    assert!(!leds_in_range(&[led(0, 0, 1, 2), led(0, 255, 1, 2)]));
    assert!(led(0, 1, 2, 3).is_in_range());
    assert!(!led(0, 1, 192, 3).is_in_range());
}

#[test]
fn device_buffers_track_dirty_state() {
    let mut dev = DeviceState::new();
    assert!(!dev.pwm_dirty() && !dev.control_dirty());
    dev.set_pwm(191, 7);
    assert_eq!(dev.pwm()[191], 7);
    assert!(dev.pwm_dirty() && !dev.control_dirty());
    dev.clear_pwm_dirty();
    assert!(!dev.pwm_dirty());
    assert_eq!(dev.pwm()[191], 7);
    dev.set_control(23, 0x80);
    assert_eq!(dev.control()[23], 0x80);
    assert!(dev.control_dirty() && !dev.pwm_dirty());
    dev.clear_control_dirty();
    dev.fill_control(0xFF);
    assert_eq!(dev.control(), &[0xFFu8; 24][..]);
    assert!(dev.control_dirty());
    dev.fill_pwm(3);
    assert_eq!(dev.pwm(), &[3u8; 192][..]);
    assert!(dev.pwm_dirty());
}

#[test]
fn set_control_marks_only_that_bitmap_dirty() {
    let mut c = started(two_chips());
    c.set_control(1, 3, 0x0F);
    let dev = c.device(1).unwrap();
    assert_eq!(dev.control()[3], 0x0F);
    assert_eq!(dev.control()[2], 0xFF);
    assert!(dev.control_dirty());
    assert!(!dev.pwm_dirty());
    assert!(!c.device(0).unwrap().control_dirty());
}

#[test]
fn set_control_outside_the_chips_or_the_bitmap_is_a_no_op() {
    let mut c = started(two_chips());
    c.set_control(2, 0, 0x00);
    c.set_control(0, 24, 0x00);
    c.set_control(usize::MAX, usize::MAX, 0x00);
    for d in 0..2 {
        assert_eq!(c.device(d).unwrap().control(), &[0xFFu8; 24][..]);
        assert!(!c.device(d).unwrap().control_dirty());
    }
    assert!(c.flush_plan().is_empty());
}

#[test]
fn flush_writes_a_dirty_bitmap_as_one_block() {
    let mut c = started(two_chips());
    c.set_control(0, 23, 0x7F);
    let mut bitmap = [0xFFu8; 24];
    bitmap[23] = 0x7F;
    let want = vec![page_select(0x74, 0x00), block(0x74, 0, &bitmap)];
    assert_eq!(c.flush_plan(), want);
    assert_eq!(c.flush(1), Err(Error::TransportFailure));
    assert!(c.device(0).unwrap().control_dirty());
    assert_eq!(c.flush_plan(), want);
    assert_eq!(c.flush(2), Ok(()));
    assert!(!c.device(0).unwrap().control_dirty());
    assert!(c.flush_plan().is_empty());
}

#[test]
fn flush_sends_the_bitmap_before_the_intensities() {
    let mut c = started(two_chips());
    assert_eq!(c.set_color(0, 255, 255, 255, 100), Ok(()));
    c.set_control(0, 0, 0x01);
    let plan = c.flush_plan();
    assert_eq!(plan.len(), 6);
    assert_eq!(plan[0], page_select(0x74, 0x00));
    assert_eq!(plan[1].payload.len(), 25);
    assert_eq!(plan[2], page_select(0x74, 0x01));
    assert_eq!(c.flush(2), Err(Error::TransportFailure));
    let dev = c.device(0).unwrap();
    assert!(!dev.control_dirty());
    assert!(dev.pwm_dirty());
    assert_eq!(c.flush_plan(), plan[2..].to_vec());
    assert_eq!(c.flush(4), Ok(()));
    assert!(c.flush_plan().is_empty());
}

#[test]
fn init_failure_before_the_enable_keeps_a_dirty_bitmap_dirty() {
    let mut c = started(two_chips());
    c.set_control(0, 0, 0x00);
    assert_eq!(c.init(16), Err(Error::TransportFailure));
    let dev = c.device(0).unwrap();
    assert_eq!(dev.control(), &[0u8; 24][..]);
    assert!(dev.control_dirty());
    assert!(!dev.pwm_dirty());
    assert_eq!(c.init(17), Err(Error::TransportFailure));
    let dev = c.device(0).unwrap();
    assert_eq!(dev.control(), &[0xFFu8; 24][..]);
    assert!(!dev.control_dirty());
}

#[test]
fn return_normal_disables_sleep_before_it_sets_normal_mode() {
    let c = Ckled2001::new(vec![0x50], vec![]);
    let plan = c.return_normal_plan();
    let log: Vec<(u8, Vec<u8>)> = plan.iter().map(|t| (t.addr, t.payload.clone())).collect();
    assert_eq!(
        log,
        vec![(0x50, vec![0xFD, 0x03]), (0x50, vec![0x1A, 0x00]), (0x50, vec![0x00, 0x01])]
    );
    assert_eq!(c.return_normal(plan.len()), Ok(()));
}

#[test]
fn shutdown_sets_shutdown_mode_before_it_enables_sleep() {
    let c = Ckled2001::new(vec![0x50], vec![]);
    let plan = c.shutdown_plan();
    let log: Vec<(u8, Vec<u8>)> = plan.iter().map(|t| (t.addr, t.payload.clone())).collect();
    assert_eq!(
        log,
        vec![(0x50, vec![0xFD, 0x03]), (0x50, vec![0x00, 0x00]), (0x50, vec![0x1A, 0x02])]
    );
    assert_eq!(c.shutdown(plan.len()), Ok(()));
}

#[test]
fn return_normal_mirrors_shutdown() {
    let c = two_chips();
    let down = c.shutdown_plan();
    let up = c.return_normal_plan();
    assert_eq!(down.len(), up.len());
    for chip in 0..2 {
        let d = &down[3 * chip..3 * chip + 3];
        let u = &up[3 * chip..3 * chip + 3];
        assert_eq!(d[0], u[0]);
        assert_eq!(d[1].payload[0], u[2].payload[0]);
        assert_eq!(d[2].payload[0], u[1].payload[0]);
    }
}
