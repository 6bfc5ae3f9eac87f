//! The backlight controller: plain state standing for the device pair, and
//! the decisions `new`, `get`, `set`, `bright` and `auto` make over it.

use vstd::prelude::*;

use crate::decimal;
use crate::error::BacklightError;

verus! {

/// A display backlight register pair, held as plain state.
///
/// The operating-system endpoints themselves are read and written by the
/// caller, which hands raw endpoint text in and carries chosen values out;
/// this type holds everything the control logic decides on.
#[verifier::ext_equal]
#[derive(Debug, PartialEq, Eq)]
pub struct Backlight {
    /// Fixed lower bound of the addressable range.
    pub min_brightness: u64,
    /// Upper bound, read once from the maximum endpoint at construction.
    pub max_brightness: u64,
    /// The addressable range, `max_brightness - min_brightness`.
    pub span: u64,
    /// Cached current value, when one is known.
    pub current: Option<u64>,
    /// Whether the write probe succeeded at construction.
    pub has_write_permission: bool,
}

impl Backlight {
    /// The bounds and the span agree, and the lower bound is the fixed zero.
    pub open spec fn wf(self) -> bool {
        &&& self.min_brightness == 0
        &&& self.span == self.max_brightness - self.min_brightness
    }

    /// The state construction yields from a current value, a parsed maximum,
    /// and the probe's outcome.
    pub open spec fn constructed(current: u64, max: u64, perm: bool) -> Backlight {
        Backlight {
            min_brightness: 0,
            max_brightness: max,
            span: max,
            current: Some(current),
            has_write_permission: perm,
        }
    }

    /// What construction returns once the maximum endpoint's text is in hand.
    pub open spec fn spec_new_some(current: u64, max_text: Seq<u8>, perm: bool) -> Result<
        Backlight,
        BacklightError,
    > {
        if decimal::parseable(max_text) {
            Ok(Backlight::constructed(current, decimal::parsed_value(max_text) as u64, perm))
        } else {
            Err(BacklightError::FormatError)
        }
    }

    /// A requested value forced into the addressable range.
    pub open spec fn clamped(self, value: u64) -> u64 {
        if value < self.min_brightness {
            self.min_brightness
        } else if value > self.max_brightness {
            self.max_brightness
        } else {
            value
        }
    }

    /// The controller state after `set(value)`: the clamped value is cached
    /// exactly when the controller may write at all.
    pub open spec fn after_set(self, value: u64) -> Backlight {
        if self.has_write_permission {
            Backlight { current: Some(self.clamped(value)), ..self }
        } else {
            self
        }
    }

    /// The ideal target for a percentage, `round_down(span / 100 * percent)`,
    /// never below zero.
    pub open spec fn percent_raw(self, percent: i64) -> int {
        if percent <= 0 {
            0
        } else {
            (self.span as int) * (percent as int) / 100
        }
    }

    /// The ideal target capped into the machine word, as `bright` hands it
    /// to `set`.
    pub open spec fn percent_value(self, percent: i64) -> u64 {
        if self.percent_raw(percent) > u64::MAX as int {
            u64::MAX
        } else {
            self.percent_raw(percent) as u64
        }
    }

    /// The ideal target for a percentage given in hundredths of a percent,
    /// `round_down(span / 100 * (hundredths / 100))`, never below zero.
    pub open spec fn hundredths_raw(self, hundredths: i64) -> int {
        if hundredths <= 0 {
            0
        } else {
            (self.span as int) * (hundredths as int) / 10000
        }
    }

    /// The ideal hundredths target capped into the machine word, as
    /// `bright_hundredths` hands it to `set`.
    pub open spec fn hundredths_value(self, hundredths: i64) -> u64 {
        if self.hundredths_raw(hundredths) > u64::MAX as int {
            u64::MAX
        } else {
            self.hundredths_raw(hundredths) as u64
        }
    }

    /// The percentage `auto` selects: darkness when the cached value sits
    /// above the two-percent threshold, otherwise full brightness.
    pub open spec fn auto_percent(self) -> i64 {
        match self.current {
            Some(c) => if c > self.span / 50 {
                0
            } else {
                100
            },
            None => 100,
        }
    }

    /// Builds the controller from the already-read current value, the raw
    /// text of the maximum endpoint (when that endpoint could be read at
    /// all), and the write probe's outcome.
    ///
    /// A missing maximum endpoint is fatal, as is one whose text is not a
    /// number; nothing of the state survives either failure.
    pub fn new(current: u64, max_raw: Option<Vec<u8>>, has_write_permission: bool) -> (r: Result<
        Backlight,
        BacklightError,
    >)
        ensures
            max_raw is None ==> r == Err::<Backlight, BacklightError>(BacklightError::IoError),
            max_raw matches Some(m) ==> r == Backlight::spec_new_some(
                current,
                m@,
                has_write_permission,
            ),
            r matches Ok(b) ==> b.wf() && b.current == Some(current) && b.has_write_permission
                == has_write_permission,
    {
        match max_raw {
            None => Err(BacklightError::IoError),
            Some(m) => match decimal::parse_value(m.as_slice()) {
                Ok(max_brightness) => Ok(
                    Backlight {
                        min_brightness: 0,
                        max_brightness,
                        span: max_brightness,
                        current: Some(current),
                        has_write_permission,
                    },
                ),
                Err(e) => Err(e),
            },
        }
    }

    /// Digests a fresh read of the current endpoint: parses the text,
    /// refreshes the cache, and returns the value; malformed text changes
    /// nothing.
    pub fn get(&mut self, raw: &[u8]) -> (r: Result<u64, BacklightError>)
        ensures
            decimal::parseable(raw@) ==> {
                &&& r == Ok::<u64, BacklightError>(decimal::parsed_value(raw@) as u64)
                &&& *final(self) == (Backlight {
                    current: Some(decimal::parsed_value(raw@) as u64),
                    ..*old(self)
                })
            },
            !decimal::parseable(raw@) ==> r == Err::<u64, BacklightError>(
                BacklightError::FormatError,
            ) && *final(self) == *old(self),
    {
        match decimal::parse_value(raw) {
            Ok(v) => {
                self.current = Some(v);
                Ok(v)
            },
            Err(e) => Err(e),
        }
    }

    /// Clamps the requested value into range and, given permission, caches
    /// it and returns it for the caller to put on the device; without
    /// permission the call fails and nothing changes.
    pub fn set(&mut self, value: u64) -> (r: Result<u64, BacklightError>)
        ensures
            *final(self) == old(self).after_set(value),
            old(self).has_write_permission ==> r == Ok::<u64, BacklightError>(
                old(self).clamped(value),
            ),
            !old(self).has_write_permission ==> r == Err::<u64, BacklightError>(
                BacklightError::PermissionError,
            ),
    {
        let value: u64 = if value < self.min_brightness {
            self.min_brightness
        } else if value > self.max_brightness {
            self.max_brightness
        } else {
            value
        };
        if !self.has_write_permission {
            return Err(BacklightError::PermissionError);
        }
        self.current = Some(value);
        Ok(value)
    }

    /// Maps a percentage to an absolute value, rounding down, and delegates
    /// to `set`; percentages outside the ordinary range end up clamped.
    pub fn bright(&mut self, percent: i64) -> (r: Result<u64, BacklightError>)
        ensures
            *final(self) == old(self).after_set(old(self).percent_value(percent)),
            old(self).has_write_permission ==> r == Ok::<u64, BacklightError>(
                old(self).clamped(old(self).percent_value(percent)),
            ),
            !old(self).has_write_permission ==> r == Err::<u64, BacklightError>(
                BacklightError::PermissionError,
            ),
    {
        if percent <= 0 {
            return self.set(0);
        }
        let span_wide: u128 = self.span as u128;
        let percent_wide: u128 = percent as u128;
        proof {
            vstd::arithmetic::mul::lemma_mul_upper_bound(
                span_wide as int,
                u64::MAX as int,
                percent_wide as int,
                i64::MAX as int,
            );
        }
        let product: u128 = span_wide * percent_wide;
        let raw_target: u128 = product / 100;
        let value: u64 = if raw_target > u64::MAX as u128 {
            u64::MAX
        } else {
            raw_target as u64
        };
        self.set(value)
    }

    /// Like `bright`, with the percentage given in hundredths of a percent,
    /// so a fractional request loses nothing before the one final rounding.
    pub fn bright_hundredths(&mut self, hundredths: i64) -> (r: Result<u64, BacklightError>)
        ensures
            *final(self) == old(self).after_set(old(self).hundredths_value(hundredths)),
            old(self).has_write_permission ==> r == Ok::<u64, BacklightError>(
                old(self).clamped(old(self).hundredths_value(hundredths)),
            ),
            !old(self).has_write_permission ==> r == Err::<u64, BacklightError>(
                BacklightError::PermissionError,
            ),
    {
        if hundredths <= 0 {
            return self.set(0);
        }
        let span_wide: u128 = self.span as u128;
        let hundredths_wide: u128 = hundredths as u128;
        proof {
            vstd::arithmetic::mul::lemma_mul_upper_bound(
                span_wide as int,
                u64::MAX as int,
                hundredths_wide as int,
                i64::MAX as int,
            );
        }
        let product: u128 = span_wide * hundredths_wide;
        let raw_target: u128 = product / 10000;
        let value: u64 = if raw_target > u64::MAX as u128 {
            u64::MAX
        } else {
            raw_target as u64
        };
        self.set(value)
    }

    /// Toggles: dims to nothing when the cache sits above two percent of the
    /// span, otherwise goes to full brightness.
    pub fn auto(&mut self) -> (r: Result<u64, BacklightError>)
        ensures
            *final(self) == old(self).after_set(old(self).percent_value(old(self).auto_percent())),
            old(self).has_write_permission ==> r == Ok::<u64, BacklightError>(
                old(self).clamped(old(self).percent_value(old(self).auto_percent())),
            ),
            !old(self).has_write_permission ==> r == Err::<u64, BacklightError>(
                BacklightError::PermissionError,
            ),
    {
        if let Some(current) = self.current {
            if current > self.span / 50 {
                return self.bright(0);
            }
        }
        self.bright(100)
    }
}

/// For any percentage within the ordinary range, the value `bright` writes
/// is exactly `round_down(span / 100 * percent)`, it lies within the
/// addressable range, and — once rendered onto the device in decimal — it
/// reads back unchanged by a following `get`.
pub proof fn lemma_percent_within_range(s: Backlight, percent: i64)
    requires
        s.wf(),
        0 <= percent <= 100,
    ensures
        s.clamped(s.percent_value(percent)) == (s.span as int) * (percent as int) / 100,
        s.min_brightness <= s.clamped(s.percent_value(percent)) <= s.max_brightness,
        decimal::parseable(decimal::dec_rep(s.clamped(s.percent_value(percent)) as int)),
        decimal::parsed_value(decimal::dec_rep(s.clamped(s.percent_value(percent)) as int))
            == s.clamped(s.percent_value(percent)),
{
    let span = s.span as int;
    let p = percent as int;
    if percent > 0 {
        vstd::arithmetic::mul::lemma_mul_inequality(p, 100, span);
        vstd::arithmetic::mul::lemma_mul_is_commutative(span, p);
        vstd::arithmetic::mul::lemma_mul_is_commutative(span, 100);
        assert(span * p <= span * 100);
        vstd::arithmetic::div_mod::lemma_div_is_ordered(span * p, span * 100, 100);
        vstd::arithmetic::div_mod::lemma_div_multiples_vanish(span, 100);
        assert(span * 100 == 100 * span);
        assert(span * 100 / 100 == span);
        vstd::arithmetic::mul::lemma_mul_is_commutative(p, span);
        vstd::arithmetic::div_mod::lemma_div_pos_is_pos(span * p, 100);
    }
    assert(0 <= s.percent_raw(percent) <= span);
    decimal::lemma_format_parse_round_trip(s.clamped(s.percent_value(percent)));
}

/// A whole percent asked for in hundredths is the same request: for any
/// percentage in the ordinary range, `bright_hundredths` of a hundredfold
/// argument writes exactly what `bright` of the percentage writes.
pub proof fn lemma_hundredths_of_whole_percent(s: Backlight, percent: i64)
    requires
        0 <= percent <= 100,
    ensures
        s.hundredths_value((100 * percent) as i64) == s.percent_value(percent),
{
    if percent > 0 {
        let span = s.span as int;
        let p = percent as int;
        let m = span * p;
        vstd::arithmetic::mul::lemma_mul_is_associative(span, 100, p);
        vstd::arithmetic::mul::lemma_mul_is_commutative(span, 100);
        vstd::arithmetic::mul::lemma_mul_is_associative(100, span, p);
        assert(span * (100 * p) == 100 * m);
        vstd::arithmetic::mul::lemma_mul_nonnegative(span, p);
        vstd::arithmetic::div_mod::lemma_div_multiples_vanish_quotient(100, m, 100);
        assert(m / 100 == (100 * m) / (100int * 100));
        assert(100int * 100 == 10000);
        assert(s.hundredths_raw((100 * percent) as i64) == s.percent_raw(percent));
    }
}

/// Setting the same value twice leaves exactly the state one call leaves,
/// and the second call writes the same value to the device as the first.
pub proof fn lemma_set_idempotent(s: Backlight, value: u64)
    ensures
        s.after_set(value).after_set(value) == s.after_set(value),
        s.after_set(value).clamped(value) == s.clamped(value),
{
    assert(s.after_set(value).after_set(value) =~= s.after_set(value));
}

/// Without write permission `set` refuses and the controller state is left
/// untouched, so the device endpoint is never written to.
pub proof fn lemma_set_denied_changes_nothing(s: Backlight, value: u64)
    requires
        !s.has_write_permission,
    ensures
        s.after_set(value) == s,
{
}

} // verus!
