use hyperbug::serial::{
    Serial, COM1_BASE, IER_RDI, IER_THRI, IIR_RDI, LSR_DR, REG_IER, REG_IIR, REG_LSR, REG_RBR, REG_SCR,
};

#[test]
fn enabling_thri_asserts_immediately_because_thr_is_always_empty() {
    // Load-bearing: the driver only
    // ever pushes bytes to THR from inside its own ISR, so if enabling
    // THRI doesn't assert on an already-empty THR, transmission never
    // starts and every userspace write() fails with -EIO.
    let mut serial = Serial::new();
    assert!(serial.handle_out(COM1_BASE + REG_IER, &[IER_THRI]));
}

#[test]
fn enabling_rdi_asserts_only_when_a_byte_is_already_queued() {
    let mut serial = Serial::new();
    assert!(!serial.handle_out(COM1_BASE + REG_IER, &[IER_RDI]));

    // Nothing to deliver yet, so pushing while RDI is enabled asserts.
    assert!(serial.push_rx_byte(b'x'));
    assert!(serial.handle_out(COM1_BASE + REG_IER, &[IER_RDI]));
}

#[test]
fn rx_shows_up_in_lsr_and_iir_and_drains_through_rbr() {
    let mut serial = Serial::new();
    serial.handle_out(COM1_BASE + REG_IER, &[IER_RDI | IER_THRI]);
    serial.push_rx_byte(b'A');

    let mut data = [0u8; 1];
    serial.handle_in(COM1_BASE + REG_LSR, &mut data);
    assert_eq!(data[0] & LSR_DR, LSR_DR, "data-ready must be set with a byte queued");

    serial.handle_in(COM1_BASE + REG_IIR, &mut data);
    assert_eq!(data[0], IIR_RDI, "RX data-ready outranks THR-empty");

    serial.handle_in(COM1_BASE + REG_RBR, &mut data);
    assert_eq!(data[0], b'A');

    serial.handle_in(COM1_BASE + REG_LSR, &mut data);
    assert_eq!(data[0] & LSR_DR, 0, "data-ready must clear once drained");
}

#[test]
fn the_scratch_register_round_trips_which_is_what_autoconfig_probes() {
    let mut serial = Serial::new();
    serial.handle_out(COM1_BASE + REG_SCR, &[0x5a]);
    let mut data = [0u8; 1];
    serial.handle_in(COM1_BASE + REG_SCR, &mut data);
    assert_eq!(data[0], 0x5a);
}

#[test]
fn a_zero_length_access_is_a_no_op_rather_than_a_panic() {
    let mut serial = Serial::new();
    assert!(!serial.handle_out(COM1_BASE + REG_IER, &[]));
    serial.handle_in(COM1_BASE + REG_LSR, &mut []);
}

#[test]
fn snapshot_round_trip_preserves_ier_scratch_and_queued_rx_bytes() {
    let mut serial = Serial::new();
    serial.handle_out(COM1_BASE + REG_IER, &[IER_RDI | IER_THRI]);
    serial.handle_out(COM1_BASE + REG_SCR, &[0x5a]);
    serial.push_rx_byte(b'A');
    serial.push_rx_byte(b'B');

    let blob = serial.save_state();
    let mut restored = Serial::new();
    restored.restore_state(&blob).unwrap();

    let mut data = [0u8; 1];
    restored.handle_in(COM1_BASE + REG_IER, &mut data);
    assert_eq!(data[0], IER_RDI | IER_THRI);
    restored.handle_in(COM1_BASE + REG_SCR, &mut data);
    assert_eq!(data[0], 0x5a);
    restored.handle_in(COM1_BASE + REG_RBR, &mut data);
    assert_eq!(data[0], b'A', "queued RX bytes must survive in order");
    restored.handle_in(COM1_BASE + REG_RBR, &mut data);
    assert_eq!(data[0], b'B');
}

#[test]
fn output_is_queued_in_order_for_the_host() {
    let mut serial = Serial::new();
    assert!(!serial.handle_out(COM1_BASE + REG_RBR, b"he"));
    serial.handle_out(COM1_BASE + REG_IER, &[IER_THRI]);
    assert!(serial.handle_out(COM1_BASE + REG_RBR, b"llo"));
    assert_eq!(serial.take_tx(), b"hello");
    assert!(serial.take_tx().is_empty());
}

#[test]
fn a_wide_read_gives_the_register_and_zeroes() {
    let mut serial = Serial::new();
    let mut data = [9u8; 4];
    serial.handle_in(COM1_BASE + REG_LSR, &mut data);
    assert_eq!(data, [0x60, 0, 0, 0]);
}

#[test]
fn saved_state_that_ends_early_is_refused() {
    let mut serial = Serial::new();
    assert!(serial.restore_state(&[]).is_err());
    assert!(serial.restore_state(&[1, 2, 3, 0, 0, 0, b'a']).is_err());
    assert!(serial.restore_state(&[1, 2, 1, 0, 0, 0, b'a']).is_ok());
}
