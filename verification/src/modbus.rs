use vstd::prelude::*;

use vstd::string::StringSliceAdditionalSpecFns;

use crate::text::{trim_chars, trim_end_chars, trim_start_chars, trim_str};

verus! {

/// Sum of the bytes of `data`, as a natural number.
pub open spec fn byte_sum(data: Seq<u8>) -> nat
    decreases data.len(),
{
    if data.len() == 0 {
        0
    } else {
        byte_sum(data.drop_last()) + data.last() as nat
    }
}

/// MODBUS ASCII longitudinal redundancy check: the two's complement of the
/// byte sum, modulo 256.
pub open spec fn spec_lrc(data: Seq<u8>) -> u8 {
    ((256 - byte_sum(data) % 256) % 256) as u8
}

/// Computes the LRC of `data`.
pub fn lrc_checksum(data: &[u8]) -> (r: u8)
    ensures
        r == spec_lrc(data@),
{
    let mut sum: u8 = 0;
    let mut i: usize = 0;
    while i < data.len()
        invariant
            i <= data.len(),
            sum as nat == byte_sum(data@.take(i as int)) % 256,
        decreases data.len() - i,
    {
        proof {
            assert(data@.take(i + 1).drop_last() =~= data@.take(i as int));
        }
        sum = sum.wrapping_add(data[i]);
        i += 1;
    }
    proof {
        assert(data@.take(data.len() as int) =~= data@);
    }
    assert(!sum == 255u8 - sum) by (bit_vector);
    (!sum).wrapping_add(1)
}


/// Errors reported while building or reading MODBUS ASCII frames.
#[derive(Debug, Clone, Copy, PartialEq, Eq, Structural)]
pub enum ModbusError {
    /// The register number of a request was zero (registers are 1-based).
    RegisterNumberZero,
    /// The register count of a request was zero.
    CountZero,
    /// No ':' start character in the received text.
    MissingStart,
    /// The hexadecimal payload after ':' has an odd number of digits.
    OddHexLength { len: usize },
    /// The decoded frame has fewer than 3 bytes.
    FrameTooShort { len: usize },
    /// The LRC byte does not match the frame contents.
    LrcMismatch { expected: u8, got: u8 },
    /// The received text, once trimmed, is shorter than 5 bytes.
    MessageTooShort { len: usize },
    /// A register response frame has fewer than 5 bytes.
    ResponseTooShort { len: usize },
    /// The device answered with an exception (function code with bit 7 set).
    ExceptionResponse { function: u8, code: u8 },
    /// The response carries a function code other than 0x03.
    UnexpectedFunction { function: u8 },
    /// The declared byte count differs from the data received, which is odd.
    ByteCountMismatch { declared: u8, actual: usize },
    /// The register payload has an odd number of bytes.
    OddPayload { len: usize },
    /// Fewer registers than needed to decode a value.
    NotEnoughRegisters { needed: usize, found: usize },
}

pub const COLON: u8 = 0x3A;
pub const CR: u8 = 0x0D;
pub const LF: u8 = 0x0A;

/// `b` is an ASCII hexadecimal digit (either case).
pub open spec fn is_hex_digit(b: u8) -> bool {
    (0x30 <= b <= 0x39) || (0x41 <= b <= 0x46) || (0x61 <= b <= 0x66)
}

/// Value of a hexadecimal digit.
pub open spec fn hex_value(b: u8) -> u8 {
    if b <= 0x39 {
        (b - 0x30) as u8
    } else if b <= 0x46 {
        (b - 0x41 + 10) as u8
    } else {
        (b - 0x61 + 10) as u8
    }
}

/// Upper-case hexadecimal digit for a nibble.
pub open spec fn hex_upper_digit(n: u8) -> u8 {
    if n < 10 {
        (0x30 + n) as u8
    } else {
        (0x41 + n - 10) as u8
    }
}

/// Upper-case hexadecimal text of `data`, two digits per byte, high nibble first.
pub open spec fn hex_upper(data: Seq<u8>) -> Seq<u8> {
    Seq::new(
        2 * data.len(),
        |i: int|
            if i % 2 == 0 {
                hex_upper_digit(data[i / 2] / 16)
            } else {
                hex_upper_digit(data[i / 2] % 16)
            },
    )
}

/// Bytes denoted by a run of hexadecimal digits, two digits per byte.
pub open spec fn hex_decode(hex: Seq<u8>) -> Seq<u8> {
    Seq::new(hex.len() / 2, |i: int| (hex_value(hex[2 * i]) * 16 + hex_value(hex[2 * i + 1])) as u8)
}

/// The MODBUS ASCII frame carrying `payload`: ':' + hex(payload, LRC) + CR LF.
pub open spec fn spec_frame(payload: Seq<u8>) -> Seq<u8> {
    seq![COLON] + hex_upper(payload.push(spec_lrc(payload))) + seq![CR, LF]
}

fn hex_digit_upper(n: u8) -> (d: u8)
    requires
        n < 16,
    ensures
        d == hex_upper_digit(n),
{
    if n < 10 {
        0x30 + n
    } else {
        0x41 + n - 10
    }
}

proof fn lemma_hex_upper_push(data: Seq<u8>, b: u8)
    ensures
        hex_upper(data.push(b)) =~= hex_upper(data) + seq![hex_upper_digit(b / 16), hex_upper_digit(b % 16)],
{
    let l = hex_upper(data.push(b));
    let r = hex_upper(data) + seq![hex_upper_digit(b / 16), hex_upper_digit(b % 16)];
    assert forall|i: int| 0 <= i < l.len() implies l[i] == r[i] by {
        if i < 2 * data.len() {
            assert(data.push(b)[i / 2] == data[i / 2]);
        } else {
            assert(i / 2 == data.len());
        }
    }
}

/// Appends the upper-case hex digits of `b` to `out`.
fn push_hex_byte(out: &mut Vec<u8>, b: u8)
    ensures
        final(out)@ == old(out)@ + seq![hex_upper_digit(b / 16), hex_upper_digit(b % 16)],
{
    out.push(hex_digit_upper(b / 16));
    out.push(hex_digit_upper(b % 16));
}

/// Builds a MODBUS ASCII frame: `:AAFFDDDD...LL\r\n`, where `LL` is the LRC of
/// the address, function and data bytes.
pub fn build_frame(addr: u8, func: u8, data: &[u8]) -> (frame: Vec<u8>)
    ensures
        frame@ == spec_frame(seq![addr, func] + data@),
{
    let mut payload: Vec<u8> = Vec::new();
    payload.push(addr);
    payload.push(func);
    let mut k: usize = 0;
    while k < data.len()
        invariant
            k <= data.len(),
            payload@ == seq![addr, func] + data@.take(k as int),
        decreases data.len() - k,
    {
        payload.push(data[k]);
        k += 1;
        proof {
            assert(seq![addr, func] + data@.take(k as int) =~= (seq![addr, func] + data@.take(
                k - 1,
            )).push(data@[k - 1]));
        }
    }
    proof {
        assert(data@.take(data.len() as int) =~= data@);
    }
    let lrc = lrc_checksum(payload.as_slice());
    let mut frame: Vec<u8> = Vec::new();
    frame.push(COLON);
    let mut i: usize = 0;
    while i < payload.len()
        invariant
            i <= payload.len(),
            frame@ == seq![COLON] + hex_upper(payload@.take(i as int)),
        decreases payload.len() - i,
    {
        proof {
            lemma_hex_upper_push(payload@.take(i as int), payload@[i as int]);
            assert(payload@.take(i as int).push(payload@[i as int]) =~= payload@.take(i + 1));
        }
        push_hex_byte(&mut frame, payload[i]);
        i += 1;
    }
    proof {
        assert(payload@.take(payload.len() as int) =~= payload@);
        lemma_hex_upper_push(payload@, lrc);
    }
    push_hex_byte(&mut frame, lrc);
    frame.push(CR);
    frame.push(LF);
    frame
}


/// `i` is the position of the first ':' in `s`.
pub open spec fn is_first_colon(s: Seq<u8>, i: int) -> bool {
    &&& 0 <= i < s.len()
    &&& s[i] == COLON
    &&& forall|j: int| 0 <= j < i ==> s[j] != COLON
}

/// Position of the first ':' in `s`, if any.
pub open spec fn first_colon(s: Seq<u8>) -> Option<int> {
    if exists|i: int| is_first_colon(s, i) {
        Some(choose|i: int| is_first_colon(s, i))
    } else {
        None
    }
}

/// `i` is the length of the longest prefix of `s` made of hexadecimal digits.
pub open spec fn is_hex_run_end(s: Seq<u8>, i: int) -> bool {
    &&& 0 <= i <= s.len()
    &&& (i == s.len() || !is_hex_digit(s[i]))
    &&& forall|j: int| 0 <= j < i ==> is_hex_digit(s[j])
}

/// Length of the longest prefix of `s` made of hexadecimal digits.
pub open spec fn hex_run_len(s: Seq<u8>) -> int {
    choose|i: int| is_hex_run_end(s, i)
}

proof fn lemma_first_colon_is(s: Seq<u8>, i: int)
    requires
        is_first_colon(s, i),
    ensures
        first_colon(s) == Some(i),
{
    let k = choose|k: int| is_first_colon(s, k);
    assert(is_first_colon(s, k));
    if k < i {
        assert(s[k] != COLON);
    }
    if i < k {
        assert(s[i] != COLON);
    }
}

proof fn lemma_hex_run_len_is(s: Seq<u8>, i: int)
    requires
        is_hex_run_end(s, i),
    ensures
        hex_run_len(s) == i,
{
    let k = choose|k: int| is_hex_run_end(s, k);
    assert(is_hex_run_end(s, k));
    if k < i {
        assert(is_hex_digit(s[k]));
    }
    if i < k {
        assert(is_hex_digit(s[i]));
    }
}

/// The payload (address, function, data) carried by the first MODBUS ASCII
/// frame found in `raw`: the digits after the first ':' up to the first
/// non-hex character, decoded and checked against their trailing LRC byte.
pub open spec fn spec_frame_payload(raw: Seq<u8>) -> Result<Seq<u8>, ModbusError> {
    match first_colon(raw) {
        None => Err(ModbusError::MissingStart),
        Some(c) => {
            let rest = raw.subrange(c + 1, raw.len() as int);
            let hex = rest.take(hex_run_len(rest));
            if hex.len() % 2 != 0 {
                Err(ModbusError::OddHexLength { len: hex.len() as usize })
            } else {
                let frame = hex_decode(hex);
                if frame.len() < 3 {
                    Err(ModbusError::FrameTooShort { len: frame.len() as usize })
                } else if spec_lrc(frame.drop_last()) != frame.last() {
                    Err(
                        ModbusError::LrcMismatch {
                            expected: spec_lrc(frame.drop_last()),
                            got: frame.last(),
                        },
                    )
                } else {
                    Ok(frame.drop_last())
                }
            }
        },
    }
}

/// UTF-8 bytes of `s` once trimmed, as `parse_ascii_frame` reads them.
pub open spec fn trimmed_bytes(s: Seq<char>) -> Seq<u8> {
    vstd::utf8::encode_utf8(trim_chars(s))
}

fn is_hex_digit_exec(b: u8) -> (r: bool)
    ensures
        r == is_hex_digit(b),
{
    (0x30 <= b && b <= 0x39) || (0x41 <= b && b <= 0x46) || (0x61 <= b && b <= 0x66)
}

fn hex_value_exec(b: u8) -> (r: u8)
    requires
        is_hex_digit(b),
    ensures
        r == hex_value(b),
        r < 16,
{
    if b <= 0x39 {
        b - 0x30
    } else if b <= 0x46 {
        b - 0x41 + 10
    } else {
        b - 0x61 + 10
    }
}

/// Extracts the payload of the first MODBUS ASCII frame in `s` (leading and
/// trailing whitespace ignored), checking its LRC; the LRC byte is dropped.
pub fn parse_ascii_frame(s: &str) -> (r: Result<Vec<u8>, ModbusError>)
    ensures
        match spec_frame_payload(trimmed_bytes(s@)) {
            Ok(p) => r matches Ok(v) && v@ == p,
            Err(e) => r == Err::<Vec<u8>, ModbusError>(e),
        },
{
    let raw_str = trim_str(s);
    let raw = raw_str.as_bytes();
    let ghost rb = raw@;
    assert(rb == trimmed_bytes(s@));
    // Find the first ':'.
    let mut c: usize = 0;
    while c < raw.len() && raw[c] != COLON
        invariant
            c <= raw.len(),
            raw@ == rb,
            forall|j: int| 0 <= j < c ==> rb[j] != COLON,
        decreases raw.len() - c,
    {
        c += 1;
    }
    if c == raw.len() {
        assert(!exists|i: int| is_first_colon(rb, i));
        return Err(ModbusError::MissingStart);
    }
    proof {
        lemma_first_colon_is(rb, c as int);
    }
    let ghost rest = rb.subrange(c + 1, rb.len() as int);
    // Find the end of the hexadecimal run after ':'.
    let start = c + 1;
    let mut end = start;
    while end < raw.len() && is_hex_digit_exec(raw[end])
        invariant
            start <= end <= raw.len(),
            raw@ == rb,
            rest == rb.subrange(start as int, rb.len() as int),
            forall|j: int| start <= j < end ==> is_hex_digit(rb[j]),
        decreases raw.len() - end,
    {
        end += 1;
    }
    proof {
        assert(is_hex_run_end(rest, end - start));
        lemma_hex_run_len_is(rest, end - start);
    }
    let ghost hex = rest.take(end - start);
    let hex_len = end - start;
    if hex_len % 2 != 0 {
        return Err(ModbusError::OddHexLength { len: hex_len });
    }
    let mut frame: Vec<u8> = Vec::new();
    let mut i: usize = 0;
    while i < hex_len / 2
        invariant
            hex_len == end - start,
            hex_len % 2 == 0,
            start <= end <= raw.len(),
            raw@ == rb,
            hex == rb.subrange(start as int, end as int),
            hex.len() == hex_len,
            forall|j: int| 0 <= j < hex_len ==> is_hex_digit(hex[j]),
            i <= hex_len / 2,
            frame@ =~= hex_decode(hex).take(i as int),
        decreases hex_len / 2 - i,
    {
        assert(hex[2 * i as int] == rb[start + 2 * i]);
        assert(hex[2 * i + 1] == rb[start + 2 * i + 1]);
        let hi = hex_value_exec(raw[start + 2 * i]);
        let lo = hex_value_exec(raw[start + 2 * i + 1]);
        frame.push(hi * 16 + lo);
        i += 1;
    }
    assert(frame@ =~= hex_decode(hex));
    if frame.len() < 3 {
        return Err(ModbusError::FrameTooShort { len: frame.len() });
    }
    let data_len = frame.len() - 1;
    let body = frame_prefix(&frame, data_len);
    let expected = lrc_checksum(body.as_slice());
    let got = frame[data_len];
    if expected != got {
        return Err(ModbusError::LrcMismatch { expected, got });
    }
    Ok(body)
}

/// The first `n` bytes of `v`.
fn frame_prefix(v: &Vec<u8>, n: usize) -> (r: Vec<u8>)
    requires
        n <= v.len(),
    ensures
        r@ == v@.take(n as int),
{
    let mut r: Vec<u8> = Vec::new();
    let mut i: usize = 0;
    while i < n
        invariant
            n <= v.len(),
            i <= n,
            r@ =~= v@.take(i as int),
        decreases n - i,
    {
        r.push(v[i]);
        i += 1;
    }
    r
}


proof fn lemma_hex_digit_roundtrip(n: u8)
    requires
        n < 16,
    ensures
        is_hex_digit(hex_upper_digit(n)),
        hex_value(hex_upper_digit(n)) == n,
{
}

proof fn lemma_hex_decode_upper(data: Seq<u8>)
    ensures
        hex_decode(hex_upper(data)) =~= data,
        forall|j: int| 0 <= j < hex_upper(data).len() ==> is_hex_digit(#[trigger] hex_upper(data)[j]),
{
    let h = hex_upper(data);
    assert forall|j: int| 0 <= j < h.len() implies is_hex_digit(#[trigger] h[j]) by {
        lemma_hex_digit_roundtrip(data[j / 2] / 16);
        lemma_hex_digit_roundtrip(data[j / 2] % 16);
    }
    assert forall|i: int| 0 <= i < data.len() implies hex_decode(h)[i] == data[i] by {
        lemma_hex_digit_roundtrip(data[i] / 16);
        lemma_hex_digit_roundtrip(data[i] % 16);
        assert((2 * i) / 2 == i);
        assert((2 * i + 1) / 2 == i);
        assert((2 * i) % 2 == 0);
        assert((2 * i + 1) % 2 == 1);
    }
}

proof fn lemma_frame_payload_of(payload: Seq<u8>, tail: Seq<u8>)
    requires
        payload.len() >= 2,
        tail.len() == 0 || !is_hex_digit(tail[0]),
    ensures
        spec_frame_payload(seq![COLON] + hex_upper(payload.push(spec_lrc(payload))) + tail) == Ok::<
            Seq<u8>,
            ModbusError,
        >(payload),
{
    let q = payload.push(spec_lrc(payload));
    let h = hex_upper(q);
    let raw = seq![COLON] + h + tail;
    assert(raw[0] == COLON);
    lemma_first_colon_is(raw, 0);
    let rest = raw.subrange(1, raw.len() as int);
    assert(rest =~= h + tail);
    lemma_hex_decode_upper(q);
    assert(is_hex_run_end(rest, h.len() as int));
    lemma_hex_run_len_is(rest, h.len() as int);
    assert(rest.take(h.len() as int) =~= h);
    assert(hex_decode(h).drop_last() =~= payload);
}

/// Reading back a frame built for `payload` gives `payload`: the frame holds
/// a ':' start, the hex digits of the payload and of its LRC, then CR LF, and
/// the reader finds exactly that payload with a matching checksum.
pub proof fn lemma_frame_roundtrip(payload: Seq<u8>)
    requires
        payload.len() >= 2,
    ensures
        spec_frame_payload(spec_frame(payload)) == Ok::<Seq<u8>, ModbusError>(payload),
{
    lemma_frame_payload_of(payload, seq![CR, LF]);
}

/// Bytes `b` read as text, one character per byte.
pub open spec fn ascii_text(b: Seq<u8>) -> Seq<char> {
    b.map_values(|x: u8| x as char)
}

/// The text of a frame built for `payload` is ASCII, its UTF-8 bytes are the
/// frame itself, and `parse_ascii_frame` reads it back as `payload`: trimming
/// only drops the CR LF terminator.
pub proof fn lemma_frame_text_roundtrip(payload: Seq<u8>)
    requires
        payload.len() >= 2,
    ensures
        vstd::utf8::encode_utf8(ascii_text(spec_frame(payload))) == spec_frame(payload),
        spec_frame_payload(trimmed_bytes(ascii_text(spec_frame(payload)))) == Ok::<
            Seq<u8>,
            ModbusError,
        >(payload),
{
    let q = payload.push(spec_lrc(payload));
    let h = hex_upper(q);
    let f = spec_frame(payload);
    let body = seq![COLON] + h;
    lemma_hex_decode_upper(q);
    assert(f =~= body + seq![CR, LF]);
    assert forall|i: int| 0 <= i < f.len() implies f[i] < 0x80 by {
        if 1 <= i < 1 + h.len() {
            assert(f[i] == h[i - 1]);
            assert(is_hex_digit(h[i - 1]));
        }
    }
    let t = ascii_text(f);
    let tb = ascii_text(body);
    assert(vstd::utf8::is_ascii_chars(t));
    assert(vstd::utf8::is_ascii_chars(tb));
    vstd::utf8::is_ascii_chars_encode_utf8(t);
    vstd::utf8::is_ascii_chars_encode_utf8(tb);
    assert(vstd::utf8::encode_utf8(t) =~= f);
    assert(vstd::utf8::encode_utf8(tb) =~= body);
    // ':' is no whitespace, so nothing is trimmed at the start.
    assert(trim_start_chars(t) == t);
    // CR and LF are whitespace, the last hex digit is not.
    assert(h.len() >= 2);
    assert(is_hex_digit(h[h.len() - 1]));
    assert(t.drop_last().drop_last() =~= tb);
    assert(trim_end_chars(tb) == tb);
    assert(trim_end_chars(t.drop_last()) == trim_end_chars(tb));
    assert(trim_end_chars(t) == tb);
    assert(trim_chars(t) == tb);
    lemma_frame_payload_of(payload, seq![]);
    assert(body + seq![] =~= body);
}

/// A function 0x03 response built for slave `addr` with data `data` (an even
/// number of bytes, at least one register) reads back, through its text, as
/// the big-endian registers of `data`, whatever byte count it declares.
pub proof fn lemma_holding_registers_text_roundtrip(addr: u8, byte_count: u8, data: Seq<u8>)
    requires
        data.len() >= 2,
        data.len() % 2 == 0,
    ensures
        spec_parse_holding_registers(ascii_text(spec_frame(seq![addr, 0x03u8, byte_count] + data)))
            == Ok::<Seq<u16>, ModbusError>(spec_registers(data)),
{
    let p = seq![addr, 0x03u8, byte_count] + data;
    lemma_frame_text_roundtrip(p);
    assert(0x03u8 & 0x80u8 == 0) by (bit_vector);
    assert(p.skip(3) =~= data);
}

/// Outcome of the format check on a received MODBUS ASCII text.
pub open spec fn spec_check_ascii_response(s: Seq<char>) -> Result<(), ModbusError> {
    let t = trim_chars(s);
    // Byte length of the trimmed text (a `str` length always fits in `usize`).
    let n = vstd::utf8::encode_utf8(t).len() as usize;
    if t.len() == 0 || t[0] != ':' {
        Err(ModbusError::MissingStart)
    } else if n < 5 {
        Err(ModbusError::MessageTooShort { len: n })
    } else {
        Ok(())
    }
}

/// Checks that a received text, once trimmed, starts with ':' and is at least
/// 5 bytes long. A missing CR/LF terminator is accepted.
pub fn parse_modbus_ascii_response(s: &str) -> (r: Result<(), ModbusError>)
    ensures
        r == spec_check_ascii_response(s@),
{
    let t = trim_str(s);
    if t.is_empty() || t.get_char(0) != ':' {
        return Err(ModbusError::MissingStart);
    }
    let n = t.len();
    assert(t.spec_bytes() == vstd::utf8::encode_utf8(t@));
    if n < 5 {
        return Err(ModbusError::MessageTooShort { len: n });
    }
    Ok(())
}

/// Big-endian 16-bit word from two bytes.
pub open spec fn be_u16(hi: u8, lo: u8) -> u16 {
    (hi as int * 256 + lo as int) as u16
}

/// Registers carried by `data`, two bytes per register, big-endian.
pub open spec fn spec_registers(data: Seq<u8>) -> Seq<u16> {
    Seq::new(data.len() / 2, |i: int| be_u16(data[2 * i], data[2 * i + 1]))
}

/// Registers read from the payload (address, function, byte count, data) of a
/// function 0x03 response. A declared byte count that differs from the data
/// received is tolerated when the data has an even length.
pub open spec fn spec_holding_registers(frame: Seq<u8>) -> Result<Seq<u16>, ModbusError> {
    if frame.len() < 5 {
        Err(ModbusError::ResponseTooShort { len: frame.len() as usize })
    } else if frame[1] & 0x80u8 != 0 {
        Err(ModbusError::ExceptionResponse { function: frame[1], code: frame[2] })
    } else if frame[1] != 0x03 {
        Err(ModbusError::UnexpectedFunction { function: frame[1] })
    } else {
        let data = frame.skip(3);
        if data.len() != frame[2] as int && data.len() % 2 != 0 {
            Err(ModbusError::ByteCountMismatch { declared: frame[2], actual: data.len() as usize })
        } else if data.len() % 2 != 0 {
            Err(ModbusError::OddPayload { len: data.len() as usize })
        } else {
            Ok(spec_registers(data))
        }
    }
}

/// Registers read from a received function 0x03 response text.
pub open spec fn spec_parse_holding_registers(s: Seq<char>) -> Result<Seq<u16>, ModbusError> {
    match spec_frame_payload(trimmed_bytes(s)) {
        Err(e) => Err(e),
        Ok(frame) => spec_holding_registers(frame),
    }
}

/// Parses a MODBUS ASCII response to function 0x03 (Read Holding Registers)
/// and returns the register words.
pub fn parse_read_holding_registers_response(s: &str) -> (r: Result<Vec<u16>, ModbusError>)
    ensures
        match spec_parse_holding_registers(s@) {
            Ok(regs) => r matches Ok(v) && v@ == regs,
            Err(e) => r == Err::<Vec<u16>, ModbusError>(e),
        },
{
    let bytes = match parse_ascii_frame(s) {
        Ok(b) => b,
        Err(e) => return Err(e),
    };
    if bytes.len() < 5 {
        return Err(ModbusError::ResponseTooShort { len: bytes.len() });
    }
    let func = bytes[1];
    if (func & 0x80) != 0 {
        return Err(ModbusError::ExceptionResponse { function: func, code: bytes[2] });
    }
    if func != 0x03 {
        return Err(ModbusError::UnexpectedFunction { function: func });
    }
    let byte_count = bytes[2] as usize;
    let data_start: usize = 3;
    let data_len = bytes.len() - data_start;
    if data_len != byte_count && data_len % 2 == 0 {
        // The device declared a wrong byte count; the data received is used.
    } else if byte_count != data_len {
        return Err(ModbusError::ByteCountMismatch { declared: bytes[2], actual: data_len });
    }
    if data_len % 2 != 0 {
        return Err(ModbusError::OddPayload { len: data_len });
    }
    let ghost data = bytes@.skip(3);
    let mut out: Vec<u16> = Vec::new();
    let mut i: usize = 0;
    while i < data_len / 2
        invariant
            data_len == bytes.len() - 3,
            bytes.len() >= 5,
            data == bytes@.skip(3),
            i <= data_len / 2,
            out@ =~= spec_registers(data).take(i as int),
        decreases data_len / 2 - i,
    {
        let hi = bytes[3 + 2 * i];
        let lo = bytes[3 + 2 * i + 1];
        out.push((hi as u16) * 256 + lo as u16);
        i += 1;
    }
    assert(out@ =~= spec_registers(data));
    Ok(out)
}

/// Big-endian 32-bit value from two 16-bit registers.
pub open spec fn be_u32(hi: u16, lo: u16) -> u32 {
    (hi as int * 65536 + lo as int) as u32
}

/// Decodes the first two registers of `words` as a big-endian `u32`.
pub fn decode_u32_be(words: &[u16]) -> (r: Result<u32, ModbusError>)
    ensures
        words@.len() < 2 ==> r == Err::<u32, ModbusError>(
            ModbusError::NotEnoughRegisters { needed: 2, found: words@.len() as usize },
        ),
        words@.len() >= 2 ==> r == Ok::<u32, ModbusError>(be_u32(words@[0], words@[1])),
{
    if words.len() < 2 {
        return Err(ModbusError::NotEnoughRegisters { needed: 2, found: words.len() });
    }
    Ok((words[0] as u32) * 65536 + words[1] as u32)
}

/// Data bytes of a Read Holding Registers request: zero-based start address
/// (`register_number - 1`) and register count, both big-endian.
pub open spec fn spec_read_request_data(register_number: u16, count: u16) -> Seq<u8> {
    let start = (register_number - 1) as u16;
    seq![(start / 256) as u8, (start % 256) as u8, (count / 256) as u8, (count % 256) as u8]
}

/// Builds a MODBUS ASCII frame for function 0x03 (Read Holding Registers).
///
/// `register_number` is the 1-based register number from device documentation
/// (e.g. 0001 means first register); it is converted to the zero-based address.
pub fn build_read_holding_registers_frame(addr: u8, register_number: u16, count: u16) -> (r: Result<
    Vec<u8>,
    ModbusError,
>)
    ensures
        register_number == 0 ==> r == Err::<Vec<u8>, ModbusError>(
            ModbusError::RegisterNumberZero,
        ),
        register_number != 0 && count == 0 ==> r == Err::<Vec<u8>, ModbusError>(
            ModbusError::CountZero,
        ),
        register_number != 0 && count != 0 ==> (r matches Ok(f) && f@ == spec_frame(
            seq![addr, 0x03u8] + spec_read_request_data(register_number, count),
        )),
{
    if register_number == 0 {
        return Err(ModbusError::RegisterNumberZero);
    }
    if count == 0 {
        return Err(ModbusError::CountZero);
    }
    let start = register_number - 1;
    let d0 = (start >> 8) as u8;
    let d1 = (start & 0xFF) as u8;
    let d2 = (count >> 8) as u8;
    let d3 = (count & 0xFF) as u8;
    assert(d0 == (start / 256) as u8 && d1 == (start % 256) as u8) by (bit_vector)
        requires
            d0 == (start >> 8) as u8,
            d1 == (start & 0xFF) as u8,
    ;
    assert(d2 == (count / 256) as u8 && d3 == (count % 256) as u8) by (bit_vector)
        requires
            d2 == (count >> 8) as u8,
            d3 == (count & 0xFF) as u8,
    ;
    let data = [d0, d1, d2, d3];
    assert(data@ =~= spec_read_request_data(register_number, count));
    Ok(build_frame(addr, 0x03, &data))
}


/// Big-endian bytes of `regs`, two per register.
pub open spec fn spec_register_bytes(regs: Seq<u16>) -> Seq<u8> {
    Seq::new(
        2 * regs.len(),
        |i: int|
            if i % 2 == 0 {
                (regs[i / 2] / 256) as u8
            } else {
                (regs[i / 2] % 256) as u8
            },
    )
}

/// Payload of a well-formed function 0x03 response from slave `addr`.
pub open spec fn spec_register_response(addr: u8, regs: Seq<u16>) -> Seq<u8> {
    seq![addr, 0x03u8, (2 * regs.len()) as u8] + spec_register_bytes(regs)
}

/// A Read Holding Registers response framed for 1 to 127 registers reads back
/// as exactly those registers.
pub proof fn lemma_register_response_roundtrip(addr: u8, regs: Seq<u16>)
    requires
        1 <= regs.len() <= 127,
    ensures
        spec_frame_payload(spec_frame(spec_register_response(addr, regs))) == Ok::<
            Seq<u8>,
            ModbusError,
        >(spec_register_response(addr, regs)),
        spec_holding_registers(spec_register_response(addr, regs)) == Ok::<
            Seq<u16>,
            ModbusError,
        >(regs),
{
    let p = spec_register_response(addr, regs);
    lemma_frame_roundtrip(p);
    assert(0x03u8 & 0x80u8 == 0) by (bit_vector);
    let data = p.skip(3);
    assert(data =~= spec_register_bytes(regs));
    assert forall|i: int| 0 <= i < regs.len() implies spec_registers(data)[i] == regs[i] by {
        assert((2 * i) / 2 == i);
        assert((2 * i + 1) / 2 == i);
        assert((2 * i) % 2 == 0);
        assert((2 * i + 1) % 2 == 1);
    }
    assert(spec_registers(data) =~= regs);
}

/// The LRC makes the byte sum of a frame's payload and checksum a multiple of 256.
pub proof fn lemma_lrc_cancels_sum(payload: Seq<u8>)
    ensures
        byte_sum(payload.push(spec_lrc(payload))) % 256 == 0,
{
    assert(payload.push(spec_lrc(payload)).drop_last() =~= payload);
}

/// How far the reception of a response has come after the last chunk.
#[derive(Debug, Clone, Copy, PartialEq, Eq, Structural)]
pub enum RxProgress {
    /// More bytes are expected.
    Incomplete,
    /// The buffer ends with CR or LF: the frame is complete.
    FrameEnd,
    /// The buffer holds 512 bytes or more: reception stops.
    BufferFull,
}

/// Maximum number of bytes gathered for one response.
pub const RX_BUFFER_LIMIT: usize = 512;

/// Reception state after receiving `acc` so far.
pub open spec fn spec_rx_progress(acc: Seq<u8>) -> RxProgress {
    if acc.len() > 0 && (acc.last() == CR || acc.last() == LF) {
        RxProgress::FrameEnd
    } else if acc.len() >= RX_BUFFER_LIMIT {
        RxProgress::BufferFull
    } else {
        RxProgress::Incomplete
    }
}

/// Decides whether reception of a MODBUS ASCII response is finished: a frame
/// ends with CR, LF or both; a buffer of 512 bytes also ends reception.
pub fn rx_progress(acc: &[u8]) -> (p: RxProgress)
    ensures
        p == spec_rx_progress(acc@),
{
    let n = acc.len();
    if n > 0 && (acc[n - 1] == CR || acc[n - 1] == LF) {
        RxProgress::FrameEnd
    } else if n >= RX_BUFFER_LIMIT {
        RxProgress::BufferFull
    } else {
        RxProgress::Incomplete
    }
}

/// Silence after the last received byte that ends a partial response, in ns.
pub const RX_IDLE_LIMIT_NS: u64 = 200_000_000;

/// When a read times out: reception stops once something was received and no
/// byte came for more than 200 ms.
pub fn rx_idle_expired(idle_ns: u64, received: usize) -> (stop: bool)
    ensures
        stop == (idle_ns > RX_IDLE_LIMIT_NS && received > 0),
{
    idle_ns > RX_IDLE_LIMIT_NS && received > 0
}

/// Time in ms the RS485 driver stays enabled after writing a frame: the time
/// to send 11 bits per byte at `baud`, at least 1 ms, plus 2 ms.
pub open spec fn spec_tx_hold_ms(frame_len: nat, baud: nat) -> nat {
    let t = frame_len * 11 * 1000 / baud;
    (if t < 1 { 1 } else { t }) + 2
}

/// Computes how long the transmit driver stays enabled after a frame.
pub fn tx_hold_ms(frame_len: usize, baud: u32) -> (ms: u64)
    requires
        baud > 0,
        frame_len as int * 11000 + 2 <= u64::MAX,
    ensures
        ms == spec_tx_hold_ms(frame_len as nat, baud as nat),
{
    let tx_bits = (frame_len as u64) * 11;
    let t = (tx_bits * 1000) / (baud as u64);
    proof {
        let m = tx_bits as int * 1000;
        assert(m / (baud as int) <= m) by (nonlinear_arith)
            requires
                m >= 0,
                baud > 0,
        ;
    }
    let tx_ms = if t < 1 { 1 } else { t };
    tx_ms + 2
}

} // verus!
