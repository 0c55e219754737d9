//! Host side of the SiliconBridge v3.0 UART protocol (16 neurons).
//!
//! Request (host to FPGA): the sync byte `0xAA`, then 16 signed Q8.8 stimuli,
//! each as a big-endian `i16`. Response (FPGA to host): 16 signed Q8.8
//! membrane potentials (big-endian `i16`), a big-endian 16-bit spike word
//! (bit `i` set when neuron `i` spiked) and a 16-bit switch word.
//!
//! The serial port itself is held, not driven: a caller writes the request
//! frame that `process_stimuli_request` returns and hands the response bytes
//! to `decode_response_frame`.
use crate::q88::{encode_q88_signed, f32_scaled_equals, f32_sign_set, q88_signed_of, q88_signed_to_f32};
use vstd::prelude::*;
use vstd::string::*;

verus! {

/// First byte of every request frame.
pub const SYNC_BYTE: u8 = 0xaa;

/// Neurons (stimulus channels) served by one exchange.
pub const NUM_NEURONS: usize = 16;

/// Bytes in a request frame: the sync byte and 16 words.
pub const REQUEST_LEN: usize = 33;

/// Bytes in a response frame: 16 words, the spike word and the switch word.
pub const RESPONSE_LEN: usize = 36;

/// Serial line speed of the FPGA UART.
pub const BAUD_RATE: u32 = 115_200;

/// Read timeout of the serial port, in milliseconds.
pub const READ_TIMEOUT_MS: u64 = 100;

// ---------------------------------------------------------------------------
// Frames
// ---------------------------------------------------------------------------
/// Signed Q8.8 word sent on channel `ch`: channels without a stimulus are 0.
pub open spec fn stimulus_word(stimuli: Seq<u32>, ch: int) -> i16 {
    if ch < stimuli.len() {
        q88_signed_of(stimuli[ch])
    } else {
        0
    }
}

/// Most significant byte of a word (`to_be_bytes()[0]`).
pub open spec fn be_high_byte(word: i16) -> u8 {
    ((word as u16) >> 8u16) as u8
}

/// Least significant byte of a word (`to_be_bytes()[1]`).
pub open spec fn be_low_byte(word: i16) -> u8 {
    ((word as u16) & 0xffu16) as u8
}

/// `u16::from_be_bytes([high, low])`.
pub open spec fn be_u16(high: u8, low: u8) -> u16 {
    ((high as u16) << 8u16) | (low as u16)
}

/// `i16::from_be_bytes([high, low])`.
pub open spec fn be_i16(high: u8, low: u8) -> i16 {
    be_u16(high, low) as i16
}

/// The request frame for `stimuli`: the sync byte, then the first 16
/// stimuli as signed Q8.8 big-endian words, zero-padded.
pub open spec fn request_frame(stimuli: Seq<u32>) -> Seq<u8> {
    Seq::new(
        33,
        |j: int|
            if j == 0 {
                0xaau8
            } else if (j - 1) % 2 == 0 {
                be_high_byte(stimulus_word(stimuli, (j - 1) / 2))
            } else {
                be_low_byte(stimulus_word(stimuli, (j - 1) / 2))
            },
    )
}

/// Signed Q8.8 membrane potential `i` of a response frame.
pub open spec fn response_potential(rx: Seq<u8>, i: int) -> i16 {
    be_i16(rx[2 * i], rx[2 * i + 1])
}

/// Spike word of a response frame (bytes 32 and 33).
pub open spec fn response_spike_word(rx: Seq<u8>) -> u16 {
    be_u16(rx[32], rx[33])
}

/// Bit `i` of a spike word.
pub open spec fn spike_flag(word: u16, i: int) -> bool {
    (word >> (i as u16)) & 1u16 == 1u16
}

/// Build the request frame: `0xAA`, then 16 stimuli encoded as signed Q8.8
/// big-endian words. Fewer than 16 stimuli are zero-padded; beyond 16 only
/// the first 16 are sent.
pub fn encode_request_frame(stimuli: &[u32]) -> (frame: Vec<u8>)
    ensures
        frame@ == request_frame(stimuli@),
{
    let mut frame: Vec<u8> = Vec::new();
    frame.push(SYNC_BYTE);
    for ch in 0..16usize
        invariant
            frame@ == request_frame(stimuli@).take(1 + 2 * ch),
    {
        let word: i16 = if ch < stimuli.len() {
            encode_q88_signed(stimuli[ch])
        } else {
            0
        };
        let bits: u16 = word as u16;
        frame.push((bits >> 8u16) as u8);
        frame.push((bits & 0xffu16) as u8);
        proof {
            let spec = request_frame(stimuli@);
            assert(stimulus_word(stimuli@, ch as int) == word);
            assert((1 + 2 * ch - 1) / 2 == ch);
            assert((2 + 2 * ch - 1) / 2 == ch);
            assert(frame@ =~= spec.take(1 + 2 * (ch + 1)));
        }
    }
    assert(frame@ =~= request_frame(stimuli@));
    frame
}

/// Split a response frame into the 16 membrane potentials (f32 bits, each
/// `raw / 256` of its signed Q8.8 word) and the 16 spike flags. The switch
/// word (bytes 34 and 35) is not read.
pub fn decode_response_frame(rx: &[u8]) -> (decoded: (Vec<u32>, Vec<bool>))
    requires
        rx@.len() == RESPONSE_LEN,
    ensures
        decoded.0@.len() == 16,
        decoded.1@.len() == 16,
        forall|i: int|
            0 <= i < 16 ==> {
                &&& f32_sign_set(#[trigger] decoded.0@[i]) == (response_potential(rx@, i) < 0)
                &&& f32_scaled_equals(decoded.0@[i], 8, response_potential(rx@, i) as int)
            },
        forall|i: int| 0 <= i < 16 ==> #[trigger] decoded.1@[i] == spike_flag(response_spike_word(rx@), i),
{
    let mut potentials: Vec<u32> = Vec::new();
    for i in 0..16usize
        invariant
            rx@.len() == 36,
            potentials@.len() == i,
            forall|k: int|
                0 <= k < i ==> {
                    &&& f32_sign_set(#[trigger] potentials@[k]) == (response_potential(rx@, k) < 0)
                    &&& f32_scaled_equals(potentials@[k], 8, response_potential(rx@, k) as int)
                },
    {
        let raw: i16 = ((((rx[2 * i] as u16) << 8u16) | (rx[2 * i + 1] as u16))) as i16;
        assert(raw == response_potential(rx@, i as int));
        potentials.push(q88_signed_to_f32(raw));
    }
    let spike_word: u16 = ((rx[32] as u16) << 8u16) | (rx[33] as u16);
    let mut spikes: Vec<bool> = Vec::new();
    for i in 0..16u16
        invariant
            spike_word == response_spike_word(rx@),
            spikes@.len() == i,
            forall|k: int| 0 <= k < i ==> #[trigger] spikes@[k] == spike_flag(spike_word, k),
    {
        spikes.push((spike_word >> i) & 1u16 == 1u16);
    }
    (potentials, spikes)
}

/// A word sent big-endian in a request frame reads back as the same word
/// when decoded as a big-endian response word.
pub proof fn law_wire_word_round_trip(word: i16)
    ensures
        be_i16(be_high_byte(word), be_low_byte(word)) == word,
{
    assert(((((((word as u16) >> 8u16) as u8) as u16) << 8u16) | ((((word as u16) & 0xffu16) as u8)
        as u16)) as i16 == word) by (bit_vector);
}

/// A response frame is read field by field: spike flag `i` is bit `i` of the
/// 16-bit word formed by bytes 32 (high) and 33 (low), so flags 0-7 come from
/// byte 33 and flags 8-15 from byte 32, whatever the potential bytes hold;
/// potential `i` is the two's-complement value of bytes `2i` (high) and
/// `2i + 1` (low).
pub proof fn law_response_fields(rx: Seq<u8>, i: int)
    requires
        rx.len() == RESPONSE_LEN,
        0 <= i < 16,
    ensures
        spike_flag(response_spike_word(rx), i) == if i < 8 {
            ((rx[33] as u16) >> (i as u16)) & 1u16 == 1u16
        } else {
            ((rx[32] as u16) >> ((i - 8) as u16)) & 1u16 == 1u16
        },
        response_potential(rx, i) as int == if rx[2 * i] < 128 {
            rx[2 * i] as int * 256 + rx[2 * i + 1] as int
        } else {
            rx[2 * i] as int * 256 + rx[2 * i + 1] as int - 65536
        },
{
    let hi = rx[32];
    let lo = rx[33];
    let k = i as u16;
    assert(k < 8u16 ==> ((((((((hi as u16) << 8u16) | (lo as u16)) >> k) & 1u16) == 1u16)) == (
    (((lo as u16) >> k) & 1u16) == 1u16))) by (bit_vector);
    assert((8u16 <= k && k < 16u16) ==> ((((((((hi as u16) << 8u16) | (lo as u16)) >> k) & 1u16)
        == 1u16)) == ((((hi as u16) >> ((k - 8u16) as u16)) & 1u16) == 1u16))) by (bit_vector);
    let ph = rx[2 * i];
    let pl = rx[2 * i + 1];
    assert((((((ph as u16) << 8u16) | (pl as u16)) as i16) as i32) == if ph < 128u8 {
        (ph as i32) * 256i32 + (pl as i32)
    } else {
        (ph as i32) * 256i32 + (pl as i32) - 65536i32
    }) by (bit_vector);
}

/// A request frame is 33 bytes: the sync byte `0xAA`, then for each channel
/// `ch` the two bytes `1 + 2ch` (high) and `2 + 2ch` (low) of the 16-bit
/// two's-complement form of that channel's signed Q8.8 stimulus, or of 0 for
/// a channel without a stimulus.
pub proof fn law_request_frame_layout(stimuli: Seq<u32>, ch: int)
    requires
        0 <= ch < 16,
    ensures
        request_frame(stimuli).len() == REQUEST_LEN,
        request_frame(stimuli)[0] == SYNC_BYTE,
        request_frame(stimuli)[1 + 2 * ch] as int * 256 + request_frame(stimuli)[2 + 2 * ch] as int
            == ({
            let word: int = if ch < stimuli.len() {
                q88_signed_of(stimuli[ch]) as int
            } else {
                0
            };
            if word < 0 {
                word + 65536
            } else {
                word
            }
        }),
{
    let frame = request_frame(stimuli);
    assert((1 + 2 * ch - 1) / 2 == ch);
    assert((2 + 2 * ch - 1) / 2 == ch);
    assert((1 + 2 * ch - 1) % 2 == 0);
    assert((2 + 2 * ch - 1) % 2 == 1);
    let w = stimulus_word(stimuli, ch);
    assert((((((w as u16) >> 8u16) as u8) as i32) * 256i32 + ((((w as u16) & 0xffu16) as u8)
        as i32)) == if w < 0i16 {
        (w as i32) + 65536i32
    } else {
        (w as i32) + 0i32
    }) by (bit_vector);
}

// ---------------------------------------------------------------------------
// Connection state
// ---------------------------------------------------------------------------
/// Why an exchange was refused.
#[derive(Debug, Clone, Copy, PartialEq, Eq)]
pub enum BridgeError {
    /// The bridge was marked inactive after a failed ping.
    NotActive,
}

impl BridgeError {
    /// Human-readable description.
    pub fn message(&self) -> (text: &'static str)
        ensures
            text@ == seq!['F', 'P', 'G', 'A', ' ', 'b', 'r', 'i', 'd', 'g', 'e', ' ', 'n', 'o', 't', ' ', 'a', 'c', 't', 'i', 'v', 'e'],
    {
        let text = "FPGA bridge not active";
        proof {
            reveal_strlit("FPGA bridge not active");
        }
        text
    }
}

/// A connection to the FPGA over a serial port `P`, and whether it is still
/// considered responsive.
pub struct FpgaBridge<P> {
    port: P,
    active: bool,
}

impl<P> FpgaBridge<P> {
    /// Whether exchanges are still attempted.
    pub closed spec fn active(&self) -> bool {
        self.active
    }

    /// The serial port.
    pub closed spec fn port(&self) -> P {
        self.port
    }

    /// A bridge over a freshly opened port; it starts active.
    pub fn connected(port: P) -> (bridge: Self)
        ensures
            bridge.active(),
            bridge.port() == port,
    {
        FpgaBridge { port, active: true }
    }

    /// Get connection status.
    pub fn is_active(&self) -> (active: bool)
        ensures
            active == self.active(),
    {
        self.active
    }

    /// The serial port, for writing a request and reading a response.
    pub fn port_mut(&mut self) -> (port: &mut P)
        ensures
            *port == old(self).port(),
            final(self).port() == *final(port),
            final(self).active() == old(self).active(),
    {
        &mut self.port
    }

    /// First step of an exchange: the request frame to write for `stimuli`,
    /// or `NotActive` when the bridge has been marked inactive.
    pub fn process_stimuli_request(&self, stimuli: &[u32]) -> (request: Result<Vec<u8>, BridgeError>)
        ensures
            request matches Ok(frame) ==> self.active() && frame@ == request_frame(stimuli@),
            request matches Err(e) ==> !self.active() && e == BridgeError::NotActive,
    {
        if !self.active {
            return Err(BridgeError::NotActive);
        }
        Ok(encode_request_frame(stimuli))
    }

    /// Record the outcome of a ping exchange: a failed exchange marks the
    /// bridge inactive; the result says whether the FPGA responded.
    pub fn record_ping(&mut self, exchange_ok: bool) -> (responsive: bool)
        ensures
            responsive == exchange_ok,
            final(self).active() == (old(self).active() && exchange_ok),
            final(self).active() == active_after_pings(old(self).active(), seq![exchange_ok]),
            final(self).port() == old(self).port(),
    {
        proof {
            assert(seq![exchange_ok].drop_first() =~= Seq::<bool>::empty());
            reveal_with_fuel(active_after_pings, 2);
        }
        if !exchange_ok {
            self.active = false;
        }
        exchange_ok
    }
}

/// The active flag after a run of pings with the given outcomes, starting
/// from `start`. Requests (`process_stimuli_request`, `is_active`) and port
/// access (`port_mut`) leave the flag unchanged, so only pings appear here.
pub open spec fn active_after_pings(start: bool, outcomes: Seq<bool>) -> bool
    decreases outcomes.len(),
{
    if outcomes.len() == 0 {
        start
    } else {
        active_after_pings(start && outcomes[0], outcomes.drop_first())
    }
}

/// Runs of pings compose: the flag after `first + then` is the flag after
/// `then`, started from the flag after `first`.
pub proof fn law_ping_runs_compose(start: bool, first: Seq<bool>, then: Seq<bool>)
    ensures
        active_after_pings(start, first + then) == active_after_pings(
            active_after_pings(start, first),
            then,
        ),
    decreases first.len(),
{
    if first.len() > 0 {
        assert((first + then).drop_first() =~= first.drop_first() + then);
        law_ping_runs_compose(start && first[0], first.drop_first(), then);
    } else {
        assert(first + then =~= then);
    }
}

/// A bridge that starts active stays active exactly as long as every ping
/// succeeds; once a ping has failed, no later call makes it active again.
pub proof fn law_bridge_active_until_a_ping_fails(outcomes: Seq<bool>)
    ensures
        active_after_pings(true, outcomes) == (forall|i: int|
            0 <= i < outcomes.len() ==> #[trigger] outcomes[i]),
        !active_after_pings(false, outcomes),
    decreases outcomes.len(),
{
    if outcomes.len() > 0 {
        let rest = outcomes.drop_first();
        law_bridge_active_until_a_ping_fails(rest);
        if outcomes[0] {
            assert((forall|i: int| 0 <= i < outcomes.len() ==> #[trigger] outcomes[i]) == (forall|
                i: int,
            | 0 <= i < rest.len() ==> #[trigger] rest[i])) by {
                if forall|i: int| 0 <= i < rest.len() ==> #[trigger] rest[i] {
                    assert forall|i: int| 0 <= i < outcomes.len() implies #[trigger] outcomes[i] by {
                        if i > 0 {
                            assert(outcomes[i] == rest[i - 1]);
                        }
                    }
                }
                if forall|i: int| 0 <= i < outcomes.len() ==> #[trigger] outcomes[i] {
                    assert forall|i: int| 0 <= i < rest.len() implies #[trigger] rest[i] by {
                        assert(rest[i] == outcomes[i + 1]);
                    }
                }
            }
        }
    }
}

// ---------------------------------------------------------------------------
// Port discovery
// ---------------------------------------------------------------------------
/// Marker of USB serial adapters in device names.
pub open spec fn usb_serial_marker() -> Seq<char> {
    seq!['t', 't', 'y', 'U', 'S', 'B']
}

/// `text` contains `pattern` as a contiguous run.
pub open spec fn contains_run(text: Seq<char>, pattern: Seq<char>) -> bool {
    exists|i: int| 0 <= i <= text.len() - pattern.len() && #[trigger] text.subrange(i, i + pattern.len()) == pattern
}

/// Whether a serial device name looks like the FPGA's USB UART
/// (it contains `ttyUSB`).
pub fn is_fpga_port_name(name: &str) -> (matches: bool)
    ensures
        matches == contains_run(name@, usb_serial_marker()),
{
    let marker = "ttyUSB";
    proof {
        reveal_strlit("ttyUSB");
    }
    assert(marker@ =~= usb_serial_marker());
    let n = name.unicode_len();
    if n < 6 {
        return false;
    }
    let mut i: usize = 0;
    while i <= n - 6
        invariant
            n == name@.len(),
            n >= 6,
            marker@ == usb_serial_marker(),
            forall|k: int| 0 <= k < i ==> #[trigger] name@.subrange(k, k + 6) != usb_serial_marker(),
        decreases n - i,
    {
        let mut j: usize = 0;
        while j < 6 && name.get_char(i + j) == marker.get_char(j)
            invariant
                n == name@.len(),
                i <= n - 6,
                j <= 6,
                marker@ == usb_serial_marker(),
                forall|m: int| 0 <= m < j ==> name@[i + m] == marker@[m],
            decreases 6 - j,
        {
            j = j + 1;
        }
        if j == 6 {
            assert(name@.subrange(i as int, i + 6) =~= usb_serial_marker());
            return true;
        }
        assert(name@.subrange(i as int, i + 6)[j as int] != usb_serial_marker()[j as int]);
        i = i + 1;
    }
    false
}

/// Device names tried, in order, when opening the FPGA connection.
pub fn fpga_port_candidates() -> (names: Vec<&'static str>)
    ensures
        names@.len() == 3,
        names@[0]@ == seq!['/', 'd', 'e', 'v', '/', 't', 't', 'y', 'U', 'S', 'B', '0'],
        names@[1]@ == seq!['/', 'd', 'e', 'v', '/', 't', 't', 'y', 'U', 'S', 'B', '1'],
        names@[2]@ == seq!['/', 'd', 'e', 'v', '/', 't', 't', 'y', 'U', 'S', 'B', '2'],
{
    proof {
        reveal_strlit("/dev/ttyUSB0");
        reveal_strlit("/dev/ttyUSB1");
        reveal_strlit("/dev/ttyUSB2");
    }
    let mut names: Vec<&'static str> = Vec::new();
    names.push("/dev/ttyUSB0");
    names.push("/dev/ttyUSB1");
    names.push("/dev/ttyUSB2");
    names
}

} // verus!
