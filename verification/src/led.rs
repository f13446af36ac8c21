//! Colours for a WS2812B LED and the pulses by which a colour is sent to it.

use vstd::prelude::*;

verus! {

/// The clock of the transmitter, in MHz.
pub const CLOCK_MHZ: u32 = 80;

/// How long the line is high for a zero bit, in nanoseconds.
pub const T0H: u32 = 350;

/// How long the line is low for a zero bit, in nanoseconds.
pub const T0L: u32 = 800;

/// How long the line is high for a one bit, in nanoseconds.
pub const T1H: u32 = 700;

/// How long the line is low for a one bit, in nanoseconds.
pub const T1L: u32 = 600;

/// How many pulses a colour takes, the end marker included.
pub const PULSES: usize = 25;

/// One bit on the wire: the line is high for `high` ticks of the clock and
/// then low for `low` ticks.
#[derive(Clone, Copy, PartialEq, Eq, Debug)]
pub struct Pulse {
    pub high: u16,
    pub low: u16,
}

/// The number of clock ticks in `nanos` nanoseconds, rounded down.
pub open spec fn ticks(nanos: int) -> int {
    nanos * CLOCK_MHZ as int / 1000
}

/// The pulse that stands for a bit.
pub open spec fn pulse_of(bit: bool) -> Pulse {
    if bit {
        Pulse { high: ticks(T1H as int) as u16, low: ticks(T1L as int) as u16 }
    } else {
        Pulse { high: ticks(T0H as int) as u16, low: ticks(T0L as int) as u16 }
    }
}

/// Whether the bit of `value` at position `pos` is set, the lowest bit
/// being at position zero.
pub open spec fn bit(value: u8, pos: int) -> bool {
    value & (1u8 << (pos as u8)) != 0
}

/// The pulse that stands for a bit.
pub fn pulse(bit: bool) -> (p: Pulse)
    ensures
        p == pulse_of(bit),
        bit ==> p.high == 56 && p.low == 48,
        !bit ==> p.high == 28 && p.low == 64,
{
    if bit {
        Pulse { high: ((T1H * CLOCK_MHZ) / 1000) as u16, low: ((T1L * CLOCK_MHZ) / 1000) as u16 }
    } else {
        Pulse { high: ((T0H * CLOCK_MHZ) / 1000) as u16, low: ((T0L * CLOCK_MHZ) / 1000) as u16 }
    }
}

/// A colour with eight bits for each of red, green and blue.
#[derive(Clone, Copy, Debug)]
pub struct RGB {
    pub r: u8,
    pub g: u8,
    pub b: u8,
}

impl RGB {
    /// The colour with the given parts.
    pub fn new(r: u8, g: u8, b: u8) -> (color: Self)
        ensures
            color.r == r,
            color.g == g,
            color.b == b,
    {
        RGB { r, g, b }
    }

    /// Write the pulses for this colour into `pulses`.
    ///
    /// The LED takes green first, then red, then blue; the bits of each part
    /// go out from the lowest position up. The last pulse, which marks the
    /// end, is left as it is.
    pub fn to_pulses(&self, pulses: &mut [Pulse; 25])
        ensures
            forall|pos: int|
                0 <= pos < 8 ==> final(pulses)[pos] == pulse_of(bit(self.g, pos)),
            forall|pos: int|
                0 <= pos < 8 ==> final(pulses)[8 + pos] == pulse_of(bit(self.r, pos)),
            forall|pos: int|
                0 <= pos < 8 ==> final(pulses)[16 + pos] == pulse_of(bit(self.b, pos)),
            final(pulses)[24] == old(pulses)[24],
    {
        Self::part_to_pulses(self.g, pulses, 0);
        Self::part_to_pulses(self.r, pulses, 8);
        Self::part_to_pulses(self.b, pulses, 16);
    }

    /// Write the pulses for the eight bits of `part` into `pulses`, from
    /// the index `at` on.
    fn part_to_pulses(part: u8, pulses: &mut [Pulse; 25], at: usize)
        requires
            at <= 16,
        ensures
            forall|pos: int| 0 <= pos < 8 ==> final(pulses)[at + pos] == pulse_of(bit(part, pos)),
            forall|i: int|
                0 <= i < 25 && !(at <= i < at + 8) ==> final(pulses)[i] == old(pulses)[i],
    {
        let mut pos: usize = 0;
        while pos < 8
            invariant
                0 <= pos <= 8,
                at <= 16,
                forall|p: int| 0 <= p < pos ==> pulses[at + p] == pulse_of(bit(part, p)),
                forall|i: int| 0 <= i < 25 && !(at <= i < at + 8) ==> pulses[i] == old(pulses)[i],
            decreases 8 - pos,
        {
            let mask: u8 = 1u8 << (pos as u8);
            pulses[at + pos] = pulse((part & mask) != 0);
            pos += 1;
        }
    }
}

} // verus!
