use rtcore::i2c::{copy_bytes, decode_be16, encode_write_frame, BusError, MockBus};

const ADDR: u8 = 0x34 >> 1;
const VOL_REG: u16 = 0x1C;
const ID_REG: u16 = 0x0000;

#[test]
fn write_then_read_round_trips() {
    let mut bus = MockBus::new();
    let bytes = vec![0x00, 0x11];
    assert_eq!(bus.write(ADDR, VOL_REG, &bytes), Ok(()));
    assert_eq!(bus.read(ADDR, VOL_REG), Ok(vec![0x00, 0x11]));
}

#[test]
fn forced_nack_fails_the_write_and_preserves_last_good_state() {
    let mut bus = MockBus::new();
    assert_eq!(bus.write(ADDR, VOL_REG, &vec![0x12, 0x34]), Ok(()));
    bus.force_nack();
    let r = bus.write(ADDR, VOL_REG, &vec![0x56, 0x78]);
    assert_eq!(r, Err(BusError::Nack));
    // the failed transaction altered nothing and left the bus idle
    assert_eq!(bus.read(ADDR, VOL_REG), Ok(vec![0x12, 0x34]));
}

#[test]
fn forced_nack_fails_the_read_and_leaves_the_bus_idle() {
    let mut bus = MockBus::new();
    assert_eq!(bus.write(ADDR, ID_REG, &vec![0xAB, 0xCD]), Ok(()));
    bus.force_nack();
    assert_eq!(bus.read(ADDR, ID_REG), Err(BusError::Nack));
    // the next transaction proceeds normally
    assert_eq!(bus.read(ADDR, ID_REG), Ok(vec![0xAB, 0xCD]));
}

#[test]
fn unknown_register_is_not_acknowledged() {
    let mut bus = MockBus::new();
    assert_eq!(bus.read(ADDR, 0x99), Err(BusError::Nack));
}

#[test]
fn registers_of_different_devices_do_not_collide() {
    let mut bus = MockBus::new();
    assert_eq!(bus.write(0x1A, 0x1C, &vec![1]), Ok(()));
    assert_eq!(bus.write(0x1B, 0x1C, &vec![2]), Ok(()));
    assert_eq!(bus.write(0x1A, 0x1D, &vec![3]), Ok(()));
    assert_eq!(bus.read(0x1A, 0x1C), Ok(vec![1]));
    assert_eq!(bus.read(0x1B, 0x1C), Ok(vec![2]));
    assert_eq!(bus.read(0x1A, 0x1D), Ok(vec![3]));
}

#[test]
fn write_frame_is_register_address_big_endian_then_payload() {
    // the volume-register update frame: 0x001C, then the value 0x0011
    let frame = encode_write_frame(VOL_REG, &vec![0x00, 0x11]);
    assert_eq!(frame, vec![0x00, 0x1C, 0x00, 0x11]);
    let frame2 = encode_write_frame(0xABCD, &Vec::new());
    assert_eq!(frame2, vec![0xAB, 0xCD]);
}

#[test]
fn be16_decode_reassembles_the_register_address() {
    assert_eq!(decode_be16(0x00, 0x1C), 0x001C);
    assert_eq!(decode_be16(0xAB, 0xCD), 0xABCD);
    assert_eq!(decode_be16(0xFF, 0xFF), 0xFFFF);
}

#[test]
fn copy_bytes_copies_exactly() {
    assert_eq!(copy_bytes(&vec![9, 8, 7]), vec![9, 8, 7]);
    assert_eq!(copy_bytes(&Vec::new()), Vec::<u8>::new());
}
