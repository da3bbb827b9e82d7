use ckled2001::protocol::{
    select_page, write_block, write_buffer, write_register, write_repeat, Error, Transaction,
};

#[test]
fn select_page_writes_command_register() {
    let t = select_page(0x77, 0x03);
    assert_eq!(t.addr, 0x77);
    assert_eq!(t.payload, vec![0xFD, 0x03]);
}

#[test]
fn write_register_is_two_bytes() {
    let t = write_register(0x74, 0x1A, 0x02);
    assert_eq!(t, Transaction { addr: 0x74, payload: vec![0x1A, 0x02] });
}

#[test]
fn write_block_puts_start_register_first() {
    let t = write_block(0x74, 0x10, &[1, 2, 3]).unwrap();
    assert_eq!(t.addr, 0x74);
    assert_eq!(t.payload, vec![0x10, 1, 2, 3]);
}

#[test]
fn write_block_accepts_exactly_the_maximum() {
    let data = [0xABu8; 64];
    let t = write_block(0x74, 0, &data).unwrap();
    assert_eq!(t.payload.len(), 65);
    assert_eq!(t.payload[0], 0);
    assert!(t.payload[1..].iter().all(|&x| x == 0xAB));
}

#[test]
fn write_block_accepts_no_data() {
    let t = write_block(0x74, 5, &[]).unwrap();
    assert_eq!(t.payload, vec![5]);
}

#[test]
fn write_block_refuses_more_than_the_maximum() {
    let data = [0u8; 65];
    assert_eq!(write_block(0x74, 0, &data), Err(Error::BlockTooLarge));
    let data = [0u8; 200];
    assert_eq!(write_block(0x74, 0, &data), Err(Error::BlockTooLarge));
}

#[test]
fn pwm_buffer_takes_three_blocks() {
    let data: Vec<u8> = (0..192u32).map(|i| i as u8).collect();
    let plan = write_buffer(0x74, 0, &data);
    assert_eq!(plan.len(), 3);
    let starts: Vec<u8> = plan.iter().map(|t| t.payload[0]).collect();
    assert_eq!(starts, vec![0, 64, 128]);
    for (k, t) in plan.iter().enumerate() {
        assert_eq!(t.addr, 0x74);
        assert_eq!(t.payload.len(), 65);
        assert_eq!(&t.payload[1..], &data[64 * k..64 * k + 64]);
    }
}

#[test]
fn last_block_carries_the_remainder() {
    let data: Vec<u8> = (0..65u32).map(|i| i as u8).collect();
    let plan = write_buffer(0x10, 3, &data);
    assert_eq!(plan.len(), 2);
    assert_eq!(plan[0].payload.len(), 65);
    assert_eq!(plan[0].payload[0], 3);
    assert_eq!(plan[1].payload, vec![67, 64]);
}

#[test]
fn empty_buffer_takes_no_block() {
    assert!(write_buffer(0x10, 0, &[]).is_empty());
    assert!(write_repeat(0x10, 0, 0xFF, 0).is_empty());
}

#[test]
fn control_bitmap_repeat_takes_one_block() {
    let plan = write_repeat(0x74, 0, 0xFF, 24);
    assert_eq!(plan.len(), 1);
    assert_eq!(plan[0].addr, 0x74);
    let mut want = vec![0u8];
    want.extend([0xFFu8; 24]);
    assert_eq!(plan[0].payload, want);
}

#[test]
fn repeat_advances_start_register_by_chunk() {
    let plan = write_repeat(0x74, 16, 0x5A, 150);
    assert_eq!(plan.len(), 3);
    assert_eq!(plan[0].payload[0], 16);
    assert_eq!(plan[1].payload[0], 80);
    assert_eq!(plan[2].payload[0], 144);
    assert_eq!(plan[0].payload.len(), 65);
    assert_eq!(plan[1].payload.len(), 65);
    assert_eq!(plan[2].payload.len(), 23);
    for t in &plan {
        assert!(t.payload[1..].iter().all(|&x| x == 0x5A));
    }
}

#[test]
fn whole_register_space_takes_four_blocks() {
    let data = vec![7u8; 256];
    let plan = write_buffer(0x74, 0, &data);
    assert_eq!(plan.len(), 4);
    assert_eq!(plan[3].payload[0], 192);
    assert_eq!(plan[3].payload.len(), 65);
}
