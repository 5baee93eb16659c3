use vstd::prelude::*;
use vstd::arithmetic::power2::{lemma2_to64, lemma_pow2_strictly_increases, lemma_pow2_unfold, pow2};

use crate::gpio::InputPin;

verus! {

/// Decoded Wiegand event sent to the station manager.
#[derive(Debug, Clone, Copy, PartialEq, Eq, Structural)]
pub struct WiegandEvent {
    pub station_id: u32,
    pub bits: u32,
    pub code: u32,
}

/// State accumulating Wiegand bits from the two data lines. Times are
/// monotonic clock readings in nanoseconds.
#[derive(Debug, Clone, Copy, PartialEq, Eq, Structural)]
pub struct WiegandState {
    pub in_code: bool,
    pub bits: u32,
    pub num: u32,
    pub last_bit_ns: u64,
}

/// State after receiving bit `value` at `now_ns`.
pub open spec fn spec_receive_bit(s: WiegandState, value: u32, now_ns: u64) -> WiegandState {
    if !s.in_code {
        WiegandState { in_code: true, bits: 1, num: value, last_bit_ns: now_ns }
    } else {
        WiegandState {
            in_code: true,
            bits: (s.bits + 1) as u32,
            num: (s.num << 1u32) | value,
            last_bit_ns: now_ns,
        }
    }
}

/// Time elapsed from `since` to `now`, zero if `now` is earlier.
pub open spec fn elapsed_ns(since: u64, now: u64) -> int {
    if now >= since {
        now - since
    } else {
        0
    }
}

/// A code is complete once no bit came for longer than `timeout_ns`.
pub open spec fn code_complete(s: WiegandState, now_ns: u64, timeout_ns: u64) -> bool {
    s.in_code && elapsed_ns(s.last_bit_ns, now_ns) > timeout_ns
}

impl WiegandState {
    /// An idle state (no code in progress).
    pub fn new(now_ns: u64) -> (s: WiegandState)
        ensures
            s == (WiegandState { in_code: false, bits: 0, num: 0, last_bit_ns: now_ns }),
    {
        WiegandState { in_code: false, bits: 0, num: 0, last_bit_ns: now_ns }
    }

    /// Records a single bit (0 or 1) from a data line interrupt.
    pub fn receive_bit(&mut self, value: u32, now_ns: u64)
        requires
            old(self).in_code ==> old(self).bits < u32::MAX,
        ensures
            *final(self) == spec_receive_bit(*old(self), value, now_ns),
    {
        if !self.in_code {
            self.bits = 1;
            self.num = value;
            self.in_code = true;
        } else {
            self.bits = self.bits + 1;
            self.num = (self.num << 1) | value;
        }
        self.last_bit_ns = now_ns;
    }

    /// If more than `timeout_ns` elapsed since the last bit of a code in
    /// progress, returns its (bit count, value) and resets; otherwise `None`.
    pub fn try_complete(&mut self, now_ns: u64, timeout_ns: u64) -> (r: Option<(u32, u32)>)
        ensures
            code_complete(*old(self), now_ns, timeout_ns) ==> r == Some((old(self).bits, old(self).num))
                && *final(self) == (WiegandState {
                in_code: false,
                bits: 0,
                num: 0,
                last_bit_ns: old(self).last_bit_ns,
            }),
            !code_complete(*old(self), now_ns, timeout_ns) ==> r.is_none() && *final(self) == *old(
                self,
            ),
    {
        if self.in_code && now_ns.saturating_sub(self.last_bit_ns) > timeout_ns {
            let result = (self.bits, self.num);
            self.in_code = false;
            self.bits = 0;
            self.num = 0;
            Some(result)
        } else {
            None
        }
    }
}

/// Value of the bit string `bs` (most significant bit first).
pub open spec fn binary_value(bs: Seq<u32>) -> nat
    decreases bs.len(),
{
    if bs.len() == 0 {
        0
    } else {
        2 * binary_value(bs.drop_last()) + bs.last() as nat
    }
}

/// State after receiving the bits `bs` from `s`, the i-th at `times[i]`.
pub open spec fn spec_receive_bits(s: WiegandState, bs: Seq<u32>, times: Seq<u64>) -> WiegandState
    decreases bs.len(),
{
    if bs.len() == 0 {
        s
    } else {
        spec_receive_bit(
            spec_receive_bits(s, bs.drop_last(), times),
            bs.last(),
            times[bs.len() - 1],
        )
    }
}

proof fn lemma_shift_or_bit(x: u32, b: u32)
    requires
        b <= 1,
    ensures
        (x << 1u32) | b == ((2 * x + b) % 0x1_0000_0000) as u32,
{
    assert((x << 1u32) | b == ((2 * x + b) % 0x1_0000_0000) as u32) by (bit_vector)
        requires
            b <= 1,
    ;
}

/// Receiving a code of `bs.len()` bits (each 0 or 1) from an idle reader and
/// then waiting past the bit timeout yields the bit count and the value of
/// the bits, modulo 2^32; for codes of at most 32 bits, the value itself.
pub proof fn lemma_code_roundtrip(
    s: WiegandState,
    bs: Seq<u32>,
    times: Seq<u64>,
    now_ns: u64,
    timeout_ns: u64,
)
    requires
        !s.in_code,
        1 <= bs.len() < u32::MAX,
        times.len() == bs.len(),
        forall|i: int| 0 <= i < bs.len() ==> bs[i] <= 1,
        elapsed_ns(times[bs.len() - 1], now_ns) > timeout_ns,
    ensures
        spec_receive_bits(s, bs, times).in_code,
        spec_receive_bits(s, bs, times).bits == bs.len(),
        spec_receive_bits(s, bs, times).num == binary_value(bs) % 0x1_0000_0000,
        bs.len() <= 32 ==> spec_receive_bits(s, bs, times).num == binary_value(bs),
        code_complete(spec_receive_bits(s, bs, times), now_ns, timeout_ns),
{
    lemma_receive_bits(s, bs, times);
}

proof fn lemma_binary_value_bound(bs: Seq<u32>)
    requires
        forall|i: int| 0 <= i < bs.len() ==> bs[i] <= 1,
    ensures
        binary_value(bs) < pow2(bs.len()),
    decreases bs.len(),
{
    if bs.len() == 0 {
        lemma2_to64();
    } else {
        let p = bs.drop_last();
        assert forall|i: int| 0 <= i < p.len() implies p[i] <= 1 by {
            assert(p[i] == bs[i]);
        }
        lemma_binary_value_bound(p);
        lemma_pow2_unfold(bs.len());
    }
}

/// Receiving the bits `bs` (each 0 or 1) one after the other from an idle
/// state packs them most significant bit first: the state is in a code of
/// `bs.len()` bits whose value is that of `bs` modulo 2^32, exactly that
/// value for at most 32 bits, and the last bit's time is kept.
pub proof fn lemma_receive_bits(s: WiegandState, bs: Seq<u32>, times: Seq<u64>)
    requires
        !s.in_code,
        1 <= bs.len() < u32::MAX,
        times.len() >= bs.len(),
        forall|i: int| 0 <= i < bs.len() ==> bs[i] <= 1,
    ensures
        spec_receive_bits(s, bs, times).in_code,
        spec_receive_bits(s, bs, times).bits == bs.len(),
        spec_receive_bits(s, bs, times).num == binary_value(bs) % 0x1_0000_0000,
        bs.len() <= 32 ==> spec_receive_bits(s, bs, times).num == binary_value(bs),
        spec_receive_bits(s, bs, times).last_bit_ns == times[bs.len() - 1],
{
    lemma_receive_bits_value(s, bs, times);
    if bs.len() <= 32 {
        lemma_binary_value_bound(bs);
        lemma2_to64();
        if bs.len() < 32 {
            lemma_pow2_strictly_increases(bs.len(), 32);
        }
        vstd::arithmetic::div_mod::lemma_small_mod(binary_value(bs), 0x1_0000_0000);
    }
}

proof fn lemma_receive_bits_value(s: WiegandState, bs: Seq<u32>, times: Seq<u64>)
    requires
        !s.in_code,
        1 <= bs.len() < u32::MAX,
        times.len() >= bs.len(),
        forall|i: int| 0 <= i < bs.len() ==> bs[i] <= 1,
    ensures
        spec_receive_bits(s, bs, times).in_code,
        spec_receive_bits(s, bs, times).bits == bs.len(),
        spec_receive_bits(s, bs, times).num == binary_value(bs) % 0x1_0000_0000,
        spec_receive_bits(s, bs, times).last_bit_ns == times[bs.len() - 1],
    decreases bs.len(),
{
    let p = bs.drop_last();
    let b = bs.last();
    if bs.len() == 1 {
        assert(p.len() == 0);
        assert(spec_receive_bits(s, p, times) == s);
        assert(binary_value(p) == 0);
        assert(binary_value(bs) == b);
    } else {
        assert forall|i: int| 0 <= i < p.len() implies p[i] <= 1 by {
            assert(p[i] == bs[i]);
        }
        lemma_receive_bits_value(s, p, times);
        let prev = spec_receive_bits(s, p, times);
        lemma_shift_or_bit(prev.num, b);
        let v = binary_value(p);
        assert(binary_value(bs) == 2 * v + b);
        lemma_double_plus_mod(v, b as nat);
    }
}

proof fn lemma_double_plus_mod(v: nat, b: nat)
    ensures
        (2 * (v % 0x1_0000_0000) + b) % 0x1_0000_0000 == (2 * v + b) % 0x1_0000_0000,
{
    let m: int = 0x1_0000_0000;
    let q = v as int / m;
    let r = v as int % m;
    assert(v == q * m + r) by (nonlinear_arith)
        requires
            q == v as int / m,
            r == v as int % m,
            m > 0,
    ;
    assert(2 * v + b == (2 * r + b) + (2 * q) * m) by (nonlinear_arith)
        requires
            v == q * m + r,
    ;
    vstd::arithmetic::div_mod::lemma_mod_multiples_vanish(2 * q, 2 * r + b, m);
}

/// One Wiegand reader: the two data lines D0 (falling edge = logical 0) and
/// D1 (falling edge = logical 1).
#[derive(Debug, Clone, Copy, PartialEq, Eq, Structural)]
pub struct WiegandReader {
    pub pin0: InputPin,
    pub pin1: InputPin,
}

impl WiegandReader {
    /// A reader on data lines `gpio_d0` and `gpio_d1`.
    pub fn new(gpio_d0: u8, gpio_d1: u8) -> (r: WiegandReader)
        ensures
            r.pin0.pin == gpio_d0,
            r.pin1.pin == gpio_d1,
    {
        WiegandReader { pin0: InputPin::new(gpio_d0), pin1: InputPin::new(gpio_d1) }
    }
}

} // verus!
