//! PWM actuation arithmetic and the retry policy for mode changes.
//!
//! Power percentages are scaled to the device's 0–255 duty range,
//! rounded to the nearest value with halves up.  Raw duty values read
//! back are scaled to 0–100, truncating, clamped at 100.  A mode
//! change is retried up to ten times because some controllers apply
//! it asynchronously: each attempt checks the device's current state
//! first and writes only on a mismatch.

use crate::text::{parsed_int, trim_spec};
use vstd::prelude::*;

verus! {

/// View of an optional file read: the text that was read, if any.
pub open spec fn content_view(c: Option<String>) -> Option<Seq<char>> {
    match c {
        Option::Some(s) => Option::Some(s@),
        Option::None => Option::None,
    }
}

/// Device duty value for a power percentage: scaled to 0–255 and
/// rounded to the nearest value, halves up.
pub open spec fn pwm_of_percent(p: int) -> int {
    crate::curve::round_div(p * 255, 100)
}

/// Compute [`pwm_of_percent`] for a percentage.
pub fn pwm_value_for(power: u8) -> (v: u8)
    requires
        power <= 100,
    ensures
        v as int == pwm_of_percent(power as int),
{
    let n: u32 = power as u32 * 255;
    let v = (2 * n + 100) / 200;
    proof {
        crate::curve::lemma_round_div_bounds(power as int * 255, 100, 0, 255);
    }
    v as u8
}

/// Percentage shown for a raw duty value read back from a device:
/// scaled to 0–100 truncating; values at or above the duty scale
/// clamp to 100.
pub open spec fn percent_of_pwm(v: int) -> int {
    if v >= 255 {
        100
    } else {
        v * 100 / 255
    }
}

/// Compute [`percent_of_pwm`] for a raw duty value.
pub fn pwm_to_percent(v: u32) -> (p: u8)
    ensures
        p as int == percent_of_pwm(v as int),
        p <= 100,
{
    if v >= 255 {
        100
    } else {
        let q = (v * 100) / 255;
        proof {
            vstd::arithmetic::div_mod::lemma_div_is_ordered(v as int * 100, 25400, 255);
        }
        q as u8
    }
}

/// Whether PWM control mode is on, given what reading the enable file
/// returned: only readable content that trims to `1` counts as on.
pub open spec fn enabled_of_content(c: Option<Seq<char>>) -> bool {
    match c {
        Option::Some(s) => trim_spec(s) == seq!['1'],
        Option::None => false,
    }
}

/// Decide [`enabled_of_content`] for a read of the enable file.
pub fn is_enabled_content(content: &Option<String>) -> (r: bool)
    ensures
        r == enabled_of_content(content_view(*content)),
{
    match content {
        Option::None => false,
        Option::Some(s) => {
            let cs = crate::text::chars_vec(s.as_str());
            let n = cs.len();
            let (a, b) = crate::text::trim_range(&cs, 0, n);
            proof {
                assert(cs@.subrange(0, n as int) =~= cs@);
                let t = trim_spec(cs@);
                assert(t == cs@.subrange(a as int, b as int));
                if b - a == 1 && cs@[a as int] == '1' {
                    assert(t =~= seq!['1']);
                }
                if t == seq!['1'] {
                    assert(t.len() == 1);
                    assert(t[0] == seq!['1'][0]);
                    assert(cs@.subrange(a as int, b as int)[0] == cs@[a as int]);
                }
            }
            b - a == 1 && cs[a] == '1'
        },
    }
}

/// Temperature in whole degrees from raw sensor file content: the
/// trimmed text read as a 32-bit count of millidegrees, divided by
/// 1000 toward zero; nothing when the file was unreadable or not a
/// number.
pub open spec fn degrees_of_content(c: Option<Seq<char>>) -> Option<int> {
    match c {
        Option::None => Option::None,
        Option::Some(s) => match parsed_int(trim_spec(s)) {
            Option::None => Option::None,
            Option::Some(v) => if v < -0x8000_0000 || v > 0x7fff_ffff {
                Option::None
            } else {
                Option::Some(trunc_div_1000(v))
            },
        },
    }
}

/// Division by 1000 truncating toward zero.
pub open spec fn trunc_div_1000(v: int) -> int {
    if v >= 0 {
        v / 1000
    } else {
        -((-v) / 1000)
    }
}

/// Compute [`degrees_of_content`] for a sensor file read.
pub fn degrees_from_content(content: &Option<String>) -> (r: Option<i32>)
    ensures
        match r {
            Some(t) => degrees_of_content(content_view(*content)) == Some(t as int),
            None => degrees_of_content(content_view(*content)) is None,
        },
{
    match content {
        Option::None => None,
        Option::Some(s) => {
            let cs = crate::text::chars_vec(s.as_str());
            let n = cs.len();
            let (a, b) = crate::text::trim_range(&cs, 0, n);
            proof {
                assert(cs@.subrange(0, n as int) =~= cs@);
            }
            match crate::text::parse_i32_range(&cs, a, b) {
                None => None,
                Some(v) => {
                    let m = v as i64;
                    let d: i64 = if m >= 0 {
                        m / 1000
                    } else {
                        -((-m) / 1000)
                    };
                    proof {
                        if m >= 0 {
                            vstd::arithmetic::div_mod::lemma_div_is_ordered(
                                m as int,
                                0x7fff_ffffi64 as int,
                                1000,
                            );
                        } else {
                            vstd::arithmetic::div_mod::lemma_div_is_ordered(
                                (-m) as int,
                                0x8000_0000i64 as int,
                                1000,
                            );
                        }
                    }
                    Some(d as i32)
                },
            }
        },
    }
}

/// The path of a fan's enable-mode file: its PWM value path with
/// `_enable` appended.
pub fn enable_path(pwm_input: &str) -> (r: String)
    ensures
        r@ == pwm_input@ + "_enable"@,
{
    let mut s = pwm_input.to_owned();
    s.append("_enable");
    s
}

/// The text written to the enable-mode file for a desired mode: the
/// write-side counterpart of [`enabled_of_content`], which reads that
/// text back as exactly the desired mode.
pub fn enable_text(desired: bool) -> (r: &'static str)
    ensures
        enabled_of_content(Some(r@)) == desired,
        r@ == (if desired {
            "1"@
        } else {
            "0"@
        }),
{
    proof {
        reveal_strlit("1");
        reveal_strlit("0");
        assert("1"@ =~= seq!['1']);
        assert("0"@ =~= seq!['0']);
        assert(trim_spec(seq!['1']) == seq!['1']);
        assert(trim_spec(seq!['0']) == seq!['0']);
        assert(seq!['0'][0] == '0' && seq!['1'][0] == '1');
    }
    if desired {
        "1"
    } else {
        "0"
    }
}

/// A mode change is attempted at most this many times.
pub const MAX_ENABLE_ATTEMPTS: u8 = 10;

/// What the retry loop does after one check of the device.
#[derive(Clone, Copy, Debug, PartialEq, Eq, Structural)]
pub enum RetryAction {
    /// The device already shows the desired mode: stop, satisfied.
    Done,
    /// Write the desired mode and wait before checking again.
    Write,
    /// The attempt budget is spent: give up silently.
    GiveUp,
}

/// One decision of the retry loop, after `attempts_done` writes, on
/// seeing the device's current mode.
pub fn retry_decide(attempts_done: u8, observed: bool, desired: bool) -> (a: RetryAction)
    ensures
        observed == desired ==> a == RetryAction::Done,
        observed != desired && attempts_done >= MAX_ENABLE_ATTEMPTS ==> a == RetryAction::GiveUp,
        observed != desired && attempts_done < MAX_ENABLE_ATTEMPTS ==> a == RetryAction::Write,
{
    if observed == desired {
        RetryAction::Done
    } else if attempts_done >= MAX_ENABLE_ATTEMPTS {
        RetryAction::GiveUp
    } else {
        RetryAction::Write
    }
}

/// The whole retry run, driven by [`retry_decide`]: `obs[i]` is the
/// mode the `i`-th check observes.  Yields how many writes happen and
/// whether the desired mode was seen.
pub open spec fn retry_run(obs: Seq<bool>, desired: bool, attempts_done: nat) -> (nat, bool)
    decreases 10 - attempts_done,
{
    if attempts_done >= 10 || obs.len() == 0 {
        (attempts_done, false)
    } else if obs[0] == desired {
        (attempts_done, true)
    } else {
        retry_run(obs.drop_first(), desired, attempts_done + 1)
    }
}

/// A device that reflects a write by the next check makes the retry
/// loop succeed after at most one write.
pub proof fn lemma_retry_converges(obs: Seq<bool>, desired: bool)
    ensures
        obs.len() >= 2 && (forall|i: int| 1 <= i < obs.len() ==> obs[i] == desired) ==> ({
            let r = retry_run(obs, desired, 0);
            r.1 && r.0 <= 1
        }),
{
    if obs.len() >= 2 && (forall|i: int| 1 <= i < obs.len() ==> obs[i] == desired) {
        if obs[0] != desired {
            assert(obs.drop_first()[0] == obs[1]);
            assert(retry_run(obs.drop_first(), desired, 1) == (1nat, true));
        }
    }
}

/// A device that never reflects the change makes the retry loop give
/// up, without failing, after exactly ten writes.
pub proof fn lemma_retry_gives_up(obs: Seq<bool>, desired: bool)
    requires
        obs.len() >= 11,
        forall|i: int| 0 <= i < obs.len() ==> obs[i] != desired,
    ensures
        retry_run(obs, desired, 0) == (10nat, false),
{
    lemma_retry_gives_up_from(obs, desired, 0);
}

proof fn lemma_retry_gives_up_from(obs: Seq<bool>, desired: bool, attempts_done: nat)
    requires
        attempts_done <= 10,
        obs.len() >= 11 - attempts_done,
        forall|i: int| 0 <= i < obs.len() ==> obs[i] != desired,
    ensures
        retry_run(obs, desired, attempts_done) == (10nat, false),
    decreases 10 - attempts_done,
{
    if attempts_done < 10 {
        assert(obs.len() > 0);
        assert(obs[0] != desired);
        assert forall|i: int| 0 <= i < obs.drop_first().len() implies obs.drop_first()[i]
            != desired by {
            assert(obs.drop_first()[i] == obs[i + 1]);
        }
        lemma_retry_gives_up_from(obs.drop_first(), desired, attempts_done + 1);
    }
}

} // verus!
