//! The data shapes of the management interface, and the status
//! computation behind its read side.
//!
//! Every response is an [`ApiResponse`] envelope.  A fan's live
//! status pairs its record with the temperature and duty percentage
//! computed from its two device files; either is absent when its
//! file cannot be read or parsed.

use crate::actuator::{content_view, degrees_of_content, percent_of_pwm};
use crate::config::{copy_steps, FanConfig};
use crate::controller::FanController;
use crate::curve::FanStep;
use crate::text::{parsed_uint, trim_spec};
use vstd::prelude::*;

verus! {

/// The envelope every management-interface response carries.
pub struct ApiResponse<T> {
    pub success: bool,
    pub message: String,
    pub data: Option<T>,
}

/// One fan's live status.
pub struct FanStatus {
    pub name: String,
    pub temperature: Option<i32>,
    pub power: Option<u8>,
    pub sensor_input: String,
    pub pwm_input: String,
    pub steps: Vec<FanStep>,
}

/// A curve-replacement request body.
pub struct UpdateFanRequest {
    pub steps: Vec<FanStep>,
}

/// An add-fan request body.
pub struct AddFanRequest {
    pub sensor_name: String,
    pub sensor_input: String,
    pub pwm_name: String,
    pub pwm_input: String,
    pub steps: Vec<FanStep>,
}

/// What every request handler shares: the controller facade.
pub struct ApiState {
    pub controller: FanController,
}

impl ApiState {
    pub fn new(controller: FanController) -> Self {
        ApiState { controller }
    }
}

/// The duty percentage shown for the PWM value file's content: the
/// trimmed text read as a 32-bit unsigned duty value, scaled per
/// [`percent_of_pwm`]; nothing when unreadable or not a number.
pub open spec fn power_of_content(c: Option<Seq<char>>) -> Option<int> {
    match c {
        Option::None => Option::None,
        Option::Some(s) => match parsed_uint(trim_spec(s)) {
            Option::None => Option::None,
            Option::Some(v) => if v > 0xffff_ffff {
                Option::None
            } else {
                Option::Some(percent_of_pwm(v))
            },
        },
    }
}

/// Assemble one fan's live status from its record and what reading
/// its sensor and PWM value files returned.
pub fn fan_status(
    name: &String,
    fan: &FanConfig,
    sensor_content: &Option<String>,
    pwm_content: &Option<String>,
) -> (st: FanStatus)
    ensures
        st.name@ == name@,
        st.sensor_input@ == fan@.sensor_input,
        st.pwm_input@ == fan@.pwm_input,
        st.steps@ == fan@.steps,
        match st.temperature {
            Some(t) => degrees_of_content(content_view(*sensor_content)) == Some(t as int),
            None => degrees_of_content(content_view(*sensor_content)) is None,
        },
        match st.power {
            Some(p) => power_of_content(content_view(*pwm_content)) == Some(p as int),
            None => power_of_content(content_view(*pwm_content)) is None,
        },
{
    let temperature = crate::actuator::degrees_from_content(sensor_content);
    let power = match pwm_content {
        Option::None => None,
        Option::Some(s) => {
            let cs = crate::text::chars_vec(s.as_str());
            let n = cs.len();
            let (a, b) = crate::text::trim_range(&cs, 0, n);
            proof {
                assert(cs@.subrange(0, n as int) =~= cs@);
            }
            match crate::text::parse_u32_range(&cs, a, b) {
                None => None,
                Some(v) => Some(crate::actuator::pwm_to_percent(v)),
            }
        },
    };
    FanStatus {
        name: name.clone(),
        temperature,
        power,
        sensor_input: fan.sensor_input.clone(),
        pwm_input: fan.pwm_input.clone(),
        steps: copy_steps(&fan.steps),
    }
}

} // verus!
