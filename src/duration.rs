//! Note durations: base class, dots, tuplet ratio, and their length in ticks.
use vstd::arithmetic::div_mod::lemma_div_denominator;
use vstd::arithmetic::power2::{lemma_pow2_pos, lemma_pow2_unfold, pow2};
use vstd::prelude::*;

verus! {

/// Ticks in one quarter note.
pub const DURATION_QUARTER_TIME: u64 = 960;

/// Ticks in one whole note.
pub const DURATION_WHOLE_TIME: u64 = 3840;

/// A note duration.
///
/// `value` is the power-of-two class of the base value: whole = 0, half = 1,
/// quarter = 2, eighth = 3, sixteenth = 4, thirty-second = 5 and so on.
/// The tuplet ratio `tuplet_enters:tuplet_times` is 1:1 for plain notes.
#[derive(Clone, Copy, Debug, PartialEq, Eq, Structural)]
pub struct Duration {
    pub value: u8,
    pub dotted: bool,
    pub double_dotted: bool,
    /// The time resulting with a 64th note and a 3/2 tuplet.
    pub min_time: u8,
    pub tuplet_enters: u8,
    pub tuplet_times: u8,
}

/// The class of a quarter note.
pub const QUARTER_CLASS: u8 = 2;

/// Whether `enters:times` is one of the tuplet ratios the formats define.
pub open spec fn supported_tuplet(enters: u8, times: u8) -> bool {
    ||| enters == 1 && times == 1
    ||| enters == 3 && times == 2
    ||| times == 4 && (enters == 5 || enters == 6 || enters == 7)
    ||| times == 8 && 9 <= enters <= 13
}

/// Ticks of the undotted base value of class `class`.
pub open spec fn base_ticks(class: nat) -> nat {
    DURATION_WHOLE_TIME as nat / pow2(class)
}

/// Ticks of the base value with the dot applied, before the tuplet ratio.
pub open spec fn dotted_ticks(d: Duration) -> nat {
    let t = base_ticks(d.value as nat);
    if d.dotted {
        t + t / 2
    } else {
        t
    }
}

/// Ticks of a duration: the dotted base scaled by `enters / times`, rounded down.
pub open spec fn tick_time(d: Duration) -> nat {
    dotted_ticks(d) * d.tuplet_enters as nat / d.tuplet_times as nat
}

/// Relies on fraction's `GenericFraction::new` and `floor`: the exact ratio
/// `n / d` rounded down, read back as an integer.
#[verifier::external_body]
fn ratio_floor(n: u64, d: u64) -> (r: u64)
    requires
        d > 0,
    ensures
        r == n / d,
{
    fraction::ToPrimitive::to_u64(&fraction::Fraction::new(n, d).floor()).unwrap()
}

impl Default for Duration {
    fn default() -> (d: Duration)
        ensures
            d == Duration::plain(QUARTER_CLASS),
    {
        Duration {
            value: QUARTER_CLASS,
            dotted: false,
            double_dotted: false,
            min_time: 0,
            tuplet_enters: 1,
            tuplet_times: 1,
        }
    }
}

impl Duration {
    /// An undotted duration of class `value` with the 1:1 tuplet ratio.
    pub open spec fn plain(value: u8) -> Duration {
        Duration {
            value,
            dotted: false,
            double_dotted: false,
            min_time: 0,
            tuplet_enters: 1,
            tuplet_times: 1,
        }
    }

    /// Whether the tuplet ratio of this duration is one the formats define.
    pub fn is_supported(&self) -> (r: bool)
        ensures
            r == supported_tuplet(self.tuplet_enters, self.tuplet_times),
    {
        let e = self.tuplet_enters;
        match self.tuplet_times {
            1 => e == 1,
            2 => e == 3,
            4 => e == 5 || e == 6 || e == 7,
            8 => 9 <= e && e <= 13,
            _ => false,
        }
    }

    /// Scales `time` ticks by the tuplet ratio, exactly, rounding down at the end.
    pub fn convert_time(&self, time: u32) -> (r: u64)
        requires
            self.tuplet_times > 0,
        ensures
            r == time as nat * self.tuplet_enters as nat / self.tuplet_times as nat,
    {
        assert(time as u64 * self.tuplet_enters as u64 <= 0xffff_ffff * 0xff) by (nonlinear_arith)
            requires
                time <= 0xffff_ffffu32,
                self.tuplet_enters <= 0xffu8,
        ;
        let n: u64 = time as u64 * self.tuplet_enters as u64;
        ratio_floor(n, self.tuplet_times as u64)
    }

    /// Length of this duration in ticks.
    pub fn time(&self) -> (r: u64)
        requires
            self.tuplet_times > 0,
        ensures
            r == tick_time(*self),
    {
        let mut ticks: u64 = DURATION_WHOLE_TIME;
        let mut i: u8 = 0;
        proof {
            assert(pow2(0) == 1) by {
                vstd::arithmetic::power2::lemma2_to64();
            }
        }
        while i < self.value
            invariant
                i <= self.value,
                ticks <= DURATION_WHOLE_TIME,
                ticks == DURATION_WHOLE_TIME as nat / pow2(i as nat),
            decreases self.value - i,
        {
            proof {
                lemma_pow2_pos(i as nat);
                lemma_pow2_unfold((i + 1) as nat);
                lemma_div_denominator(DURATION_WHOLE_TIME as int, pow2(i as nat) as int, 2);
            }
            ticks = ticks / 2;
            i = i + 1;
        }
        if self.dotted {
            ticks = ticks + ticks / 2;
        }
        self.convert_time(ticks as u32)
    }

    /// The class of the base value: whole is 0 and each halving adds one.
    pub fn index(&self) -> (r: u8)
        ensures
            r == self.value,
    {
        self.value
    }
}

/// The allow-list decides support on its own: 3:2 is supported, 4:3 is not,
/// and a ratio is supported exactly when it is one of 1:1, 3:2, 5:4, 6:4,
/// 7:4, 9:8, 10:8, 11:8, 12:8 and 13:8.
pub proof fn law_tuplet_allow_list(enters: u8, times: u8)
    ensures
        supported_tuplet(3, 2),
        !supported_tuplet(4, 3),
        supported_tuplet(enters, times) <==> {
            ||| (enters, times) == (1u8, 1u8)
            ||| (enters, times) == (3u8, 2u8)
            ||| (enters, times) == (5u8, 4u8)
            ||| (enters, times) == (6u8, 4u8)
            ||| (enters, times) == (7u8, 4u8)
            ||| (enters, times) == (9u8, 8u8)
            ||| (enters, times) == (10u8, 8u8)
            ||| (enters, times) == (11u8, 8u8)
            ||| (enters, times) == (12u8, 8u8)
            ||| (enters, times) == (13u8, 8u8)
        },
{
}

} // verus!
