use silicon_bridge::bridge::{BAUD_RATE, READ_TIMEOUT_MS, REQUEST_LEN, RESPONSE_LEN, SYNC_BYTE};
use silicon_bridge::{
    decode_response_frame, encode_q88_signed, encode_request_frame, fpga_port_candidates,
    is_fpga_port_name, BridgeError, FpgaBridge,
};

fn bits(values: &[f32]) -> Vec<u32> {
    values.iter().map(|v| v.to_bits()).collect()
}

#[test]
fn request_frame_is_sync_byte_and_sixteen_big_endian_words() {
    let frame = encode_request_frame(&bits(&[1.0, -1.0, -0.5, 127.99]));
    assert_eq!(frame.len(), REQUEST_LEN);
    assert_eq!(frame[0], SYNC_BYTE);
    assert_eq!(&frame[1..9], &[0x01, 0x00, 0xFF, 0x00, 0xFF, 0x80, 0x7F, 0xFD]);
    assert!(frame[9..].iter().all(|&b| b == 0));
}

#[test]
fn request_frame_sends_only_the_first_sixteen_stimuli() {
    let stimuli: Vec<f32> = (0..20).map(|i| i as f32).collect();
    let frame = encode_request_frame(&bits(&stimuli));
    assert_eq!(frame.len(), 33);
    for ch in 0..16 {
        let word = encode_q88_signed((ch as f32).to_bits()).to_be_bytes();
        assert_eq!(&frame[1 + 2 * ch..3 + 2 * ch], &word);
    }
}

#[test]
fn request_frame_for_no_stimuli_is_all_zero_words() {
    let frame = encode_request_frame(&[]);
    assert_eq!(frame, {
        let mut f = vec![0xAAu8];
        f.extend_from_slice(&[0u8; 32]);
        f
    });
}

#[test]
fn response_frame_decodes_potentials_and_spike_flags() {
    let mut rx = vec![0u8; RESPONSE_LEN];
    let words: [i16; 16] = [
        256, -256, -128, i16::MIN, i16::MAX, 0, 1, -1, 32765, -32765, 512, 64, 3, 5, 7, 9,
    ];
    for (i, w) in words.iter().enumerate() {
        rx[2 * i..2 * i + 2].copy_from_slice(&w.to_be_bytes());
    }
    let spike_word: u16 = 0b1000_0000_0000_0101;
    rx[32..34].copy_from_slice(&spike_word.to_be_bytes());
    rx[34] = 0xDE;
    rx[35] = 0xAD;

    let (potentials, spikes) = decode_response_frame(&rx);
    assert_eq!(potentials.len(), 16);
    for (p, w) in potentials.iter().zip(words) {
        assert_eq!(f32::from_bits(*p), w as f32 / 256.0);
    }
    let expected: Vec<bool> = (0..16).map(|i| (spike_word & (1 << i)) != 0).collect();
    assert_eq!(spikes, expected);
    assert_eq!(spikes[0], true);
    assert_eq!(spikes[1], false);
    assert_eq!(spikes[2], true);
    assert_eq!(spikes[15], true);
}

#[test]
fn a_request_word_echoed_back_decodes_to_its_stimulus() {
    let stimuli = [-12.25_f32, 64.75, -0.00390625, 0.5];
    let frame = encode_request_frame(&bits(&stimuli));
    let mut rx = vec![0u8; RESPONSE_LEN];
    rx[..32].copy_from_slice(&frame[1..]);
    let (potentials, _) = decode_response_frame(&rx);
    for (p, s) in potentials.iter().zip(stimuli) {
        assert_eq!(f32::from_bits(*p), s);
    }
}

#[test]
fn inactive_bridge_refuses_exchanges() {
    let mut bridge = FpgaBridge::connected(Vec::<u8>::new());
    assert!(bridge.is_active());
    let frame = bridge.process_stimuli_request(&bits(&[0.1; 16])).expect("active bridge");
    assert_eq!(frame.len(), 33);

    assert!(bridge.record_ping(true));
    assert!(bridge.is_active());
    assert!(!bridge.record_ping(false));
    assert!(!bridge.is_active());
    assert_eq!(
        bridge.process_stimuli_request(&bits(&[0.1; 16])),
        Err(BridgeError::NotActive)
    );
    assert!(bridge.record_ping(true));
    assert!(!bridge.is_active());
    assert_eq!(BridgeError::NotActive.message(), "FPGA bridge not active");
}

#[test]
fn port_is_reachable_for_io() {
    let mut bridge = FpgaBridge::connected(Vec::<u8>::new());
    bridge.port_mut().extend_from_slice(&[1, 2, 3]);
    assert_eq!(bridge.port_mut().len(), 3);
    assert!(bridge.is_active());
}

#[test]
fn fpga_ports_are_usb_serial_adapters() {
    assert!(is_fpga_port_name("/dev/ttyUSB0"));
    assert!(is_fpga_port_name("ttyUSB"));
    assert!(!is_fpga_port_name("/dev/ttyS0"));
    assert!(!is_fpga_port_name("/dev/ttyACM0"));
    assert!(!is_fpga_port_name("ttyUS"));
    assert!(!is_fpga_port_name(""));
    assert!(is_fpga_port_name("/dev/ttyUttyUSB3"));
}

#[test]
fn connection_settings() {
    assert_eq!(fpga_port_candidates(), vec!["/dev/ttyUSB0", "/dev/ttyUSB1", "/dev/ttyUSB2"]);
    assert_eq!(BAUD_RATE, 115_200);
    assert_eq!(READ_TIMEOUT_MS, 100);
}

#[test]
fn bridge_stays_active_until_a_ping_fails() {
    let mut bridge = FpgaBridge::connected(());
    for ok in [true, true, true] {
        assert_eq!(bridge.record_ping(ok), ok);
        assert!(bridge.is_active());
        assert!(bridge.process_stimuli_request(&[]).is_ok());
    }
    assert!(!bridge.record_ping(false));
    for ok in [true, false, true] {
        bridge.record_ping(ok);
        let _ = bridge.port_mut();
        assert!(!bridge.is_active());
        assert_eq!(bridge.process_stimuli_request(&[]), Err(BridgeError::NotActive));
    }
}
