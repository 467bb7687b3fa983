//! The command-line side of the library: the textual fan-curve
//! format, and the translation of subcommands into management-interface
//! requests.
//!
//! A curve is written `temp:power,temp:power,...`.  Each pair must
//! hold exactly one `:`; both sides are trimmed and read as decimal
//! integers; a power above 100 is rejected.  Parsing is all-or-nothing
//! and reports the first offending pair's error.

use crate::config::FanConfig;
use crate::curve::FanStep;
use crate::text::{
    count_char, find_first, find_last, lemma_find_first, lemma_find_last, parsed_int, parsed_uint,
    trim_spec,
};
use vstd::prelude::*;

verus! {

/// Why a textual fan curve was rejected.
#[derive(Clone, Copy, Debug, PartialEq, Eq, Structural)]
pub enum StepsError {
    /// A pair does not hold exactly one `:`.
    BadPair,
    /// The temperature side is not a 32-bit integer literal.
    BadTemp,
    /// The power side is not an 8-bit unsigned integer literal.
    BadPower,
    /// The power side exceeds 100.
    PowerOutOfRange,
}

/// What one `temp:power` pair denotes, or why it is rejected.
pub open spec fn step_of_piece(p: Seq<char>) -> Result<FanStep, StepsError> {
    if count_char(p, ':') != 1 {
        Err(StepsError::BadPair)
    } else {
        let k = find_last(p, ':');
        let tl = trim_spec(p.take(k));
        let tr = trim_spec(p.skip(k + 1));
        match parsed_int(tl) {
            Option::None => Err(StepsError::BadTemp),
            Option::Some(tv) => if tv < -0x8000_0000 || tv > 0x7fff_ffff {
                Err(StepsError::BadTemp)
            } else {
                match parsed_uint(tr) {
                    Option::None => Err(StepsError::BadPower),
                    Option::Some(pv) => if pv > 255 {
                        Err(StepsError::BadPower)
                    } else if pv > 100 {
                        Err(StepsError::PowerOutOfRange)
                    } else {
                        Ok(FanStep { temp: tv as i32, power: pv as u8 })
                    },
                }
            },
        }
    }
}

/// What a whole curve string denotes: its comma-separated pairs in
/// order, or the first pair's error.
pub open spec fn parse_steps_spec(s: Seq<char>) -> Result<Seq<FanStep>, StepsError>
    decreases s.len(),
    via parse_steps_spec_dec
{
    let k = find_first(s, ',');
    if k < 0 {
        match step_of_piece(s) {
            Ok(st) => Ok(seq![st]),
            Err(e) => Err(e),
        }
    } else {
        match step_of_piece(s.take(k)) {
            Err(e) => Err(e),
            Ok(st) => match parse_steps_spec(s.skip(k + 1)) {
                Ok(rest) => Ok(seq![st] + rest),
                Err(e) => Err(e),
            },
        }
    }
}

#[via_fn]
proof fn parse_steps_spec_dec(s: Seq<char>) {
    lemma_find_first(s, ',');
}

/// First occurrence of `c` in `s` at or after `start`.
fn find_char_from(s: &Vec<char>, start: usize, c: char) -> (r: Option<usize>)
    requires
        start <= s@.len(),
    ensures
        match r {
            Some(k) => start <= k < s@.len() && s@[k as int] == c && forall|j: int|
                start <= j < k ==> s@[j] != c,
            None => forall|j: int| start <= j < s@.len() ==> s@[j] != c,
        },
{
    let mut i = start;
    while i < s.len()
        invariant
            start <= i <= s@.len(),
            forall|j: int| start <= j < i ==> s@[j] != c,
        decreases s@.len() - i,
    {
        if s[i] == c {
            return Some(i);
        }
        i += 1;
    }
    None
}

/// Parse one `temp:power` pair in the window `[lo, hi)`.
fn parse_one_step(cs: &Vec<char>, lo: usize, hi: usize) -> (r: Result<FanStep, StepsError>)
    requires
        lo <= hi <= cs@.len(),
    ensures
        r == step_of_piece(cs@.subrange(lo as int, hi as int)),
        r matches Ok(st) ==> st.power <= 100,
{
    let ghost piece = cs@.subrange(lo as int, hi as int);
    let mut cnt: usize = 0;
    let mut pos: usize = lo;
    let mut j = lo;
    while j < hi
        invariant
            lo <= j <= hi <= cs@.len(),
            cnt <= j - lo,
            cnt == count_char(cs@.subrange(lo as int, j as int), ':'),
            cnt > 0 ==> lo <= pos < j && cs@[pos as int] == ':' && (forall|m: int|
                pos < m < j ==> cs@[m] != ':'),
        decreases hi - j,
    {
        proof {
            assert(cs@.subrange(lo as int, j + 1).drop_last() =~= cs@.subrange(
                lo as int,
                j as int,
            ));
            assert(cs@.subrange(lo as int, j + 1).last() == cs@[j as int]);
        }
        if cs[j] == ':' {
            cnt = cnt + 1;
            pos = j;
        }
        j += 1;
    }
    proof {
        assert(cs@.subrange(lo as int, hi as int) == cs@.subrange(lo as int, j as int));
    }
    if cnt != 1 {
        return Err(StepsError::BadPair);
    }
    proof {
        lemma_find_last(piece, ':');
        assert(piece[pos - lo] == cs@[pos as int]);
        let fl = find_last(piece, ':');
        assert forall|m: int| pos - lo < m < piece.len() implies piece[m] != ':' by {
            assert(piece[m] == cs@[lo + m]);
        }
        if fl < pos - lo {
            assert(piece[pos - lo] != ':');
        }
        if fl > pos - lo {
            assert(piece[fl] != ':');
        }
        assert(fl == pos - lo);
        assert(piece.take(fl) =~= cs@.subrange(lo as int, pos as int));
        assert(piece.skip(fl + 1) =~= cs@.subrange(pos + 1, hi as int));
    }
    let (ta, tb) = crate::text::trim_range(cs, lo, pos);
    let temp = match crate::text::parse_i32_range(cs, ta, tb) {
        Some(t) => t,
        None => {
            return Err(StepsError::BadTemp);
        },
    };
    let (pa, pb) = crate::text::trim_range(cs, pos + 1, hi);
    let power = match crate::text::parse_u8_range(cs, pa, pb) {
        Some(p) => p,
        None => {
            return Err(StepsError::BadPower);
        },
    };
    if power > 100 {
        return Err(StepsError::PowerOutOfRange);
    }
    Ok(FanStep { temp, power })
}

/// Parse a whole curve string, per [`parse_steps_spec`]: every pair
/// in order on success, the first offending pair's error otherwise.
/// Every returned power is at most 100.
pub fn parse_steps(steps_str: &str) -> (r: Result<Vec<FanStep>, StepsError>)
    ensures
        ({
            let p = parse_steps_spec(steps_str@);
            match r {
                Ok(v) => p == Ok::<Seq<FanStep>, StepsError>(v@),
                Err(e) => p == Err::<Seq<FanStep>, StepsError>(e),
            }
        }),
        r matches Ok(v) ==> crate::curve::powers_at_most(v@, 100),
{
    let cs = crate::text::chars_vec(steps_str);
    let n = cs.len();
    let mut out: Vec<FanStep> = Vec::new();
    let mut start: usize = 0;
    proof {
        assert(cs@.skip(0) =~= cs@);
    }
    loop
        invariant
            start <= n,
            n == cs@.len(),
            cs@ == steps_str@,
            forall|j: int| 0 <= j < out@.len() ==> (#[trigger] out@[j]).power <= 100,
            parse_steps_spec(cs@) == (match parse_steps_spec(cs@.skip(start as int)) {
                Ok(rest) => Ok::<Seq<FanStep>, StepsError>(out@ + rest),
                Err(e) => Err::<Seq<FanStep>, StepsError>(e),
            }),
        decreases n - start,
    {
        let ghost sub = cs@.skip(start as int);
        let k_opt = find_char_from(&cs, start, ',');
        let hi = match k_opt {
            Some(k) => k,
            None => n,
        };
        proof {
            lemma_find_first(sub, ',');
            let ff = find_first(sub, ',');
            assert forall|m: int| 0 <= m < sub.len() implies sub[m] == cs@[start + m] by {}
            match k_opt {
                Some(k) => {
                    assert(sub[k - start] == cs@[k as int]);
                    if ff < 0 {
                        assert(sub[k - start] != ',');
                    }
                    if 0 <= ff && ff < k - start {
                        assert(sub[ff] == ',');
                        assert(cs@[start + ff] == ',');
                    }
                    if ff > k - start {
                        assert(sub[k - start] != ',');
                    }
                    assert(ff == k - start);
                    assert(sub.take(ff) =~= cs@.subrange(start as int, k as int));
                    assert(sub.skip(ff + 1) =~= cs@.skip(k + 1));
                },
                None => {
                    if ff >= 0 {
                        assert(sub[ff] == ',');
                        assert(cs@[start + ff] == ',');
                        assert(false);
                    }
                    assert(sub =~= cs@.subrange(start as int, n as int));
                },
            }
        }
        match parse_one_step(&cs, start, hi) {
            Err(e) => {
                return Err(e);
            },
            Ok(st) => {
                let ghost old_out = out@;
                out.push(st);
                match k_opt {
                    None => {
                        proof {
                            let rest = seq![st];
                            assert(parse_steps_spec(sub) == Ok::<Seq<FanStep>, StepsError>(rest));
                            assert(old_out + rest =~= out@);
                        }
                        return Ok(out);
                    },
                    Some(k) => {
                        proof {
                            let tail = cs@.skip(k + 1);
                            match parse_steps_spec(tail) {
                                Ok(rest) => {
                                    assert(old_out + (seq![st] + rest) =~= out@ + rest);
                                },
                                Err(_) => {},
                            }
                        }
                        start = k + 1;
                    },
                }
            },
        }
    }
}

/// A management-interface request method.
#[derive(Clone, Copy, Debug, PartialEq, Eq, Structural)]
pub enum HttpMethod {
    Get,
    Post,
    Put,
    Delete,
}

/// What a request carries.
pub enum RequestBody {
    /// Nothing.
    NoBody,
    /// A replacement curve.
    Steps(Vec<FanStep>),
    /// A whole new fan record.
    NewFan(FanConfig),
    /// The configuration document found in the named file.
    ConfigFile(String),
}

/// One planned management-interface request.
pub struct RequestPlan {
    pub method: HttpMethod,
    pub path: String,
    pub body: RequestBody,
}

/// The subcommands the command-line client understands.
pub enum CliCommands {
    /// Current status of all fans.
    Status,
    /// Current configuration.
    Config,
    /// Replace the whole configuration from a file.
    UpdateConfig { file: String },
    /// List all fans.
    List,
    /// One fan's configuration.
    Get { name: String },
    /// Replace one fan's curve.
    Update { name: String, steps: String },
    /// Add a new fan.
    Add {
        sensor_name: String,
        sensor_input: String,
        pwm_name: String,
        pwm_input: String,
        steps: String,
    },
    /// Remove a fan.
    Remove { name: String },
    /// Ask the daemon to stop.
    Stop,
    /// Ask the daemon to start.
    Start,
    /// Enumerate discoverable sensor chips.
    Devices,
}

/// Translate a subcommand into the request it stands for.  Curve text
/// is validated here, before any request is made.
pub fn plan_request(cmd: &CliCommands) -> (r: Result<RequestPlan, StepsError>)
    ensures
        match *cmd {
            CliCommands::Status => (r matches Ok(p) && p.method == HttpMethod::Get && p.path@
                == "/status"@ && p.body is NoBody),
            CliCommands::Config => (r matches Ok(p) && p.method == HttpMethod::Get && p.path@
                == "/config"@ && p.body is NoBody),
            CliCommands::UpdateConfig { file } => (r matches Ok(p) && p.method
                == HttpMethod::Put && p.path@ == "/config"@ && (p.body matches
            RequestBody::ConfigFile(f) && f@ == file@)),
            CliCommands::List => (r matches Ok(p) && p.method == HttpMethod::Get && p.path@
                == "/fans"@ && p.body is NoBody),
            CliCommands::Get { name } => (r matches Ok(p) && p.method == HttpMethod::Get
                && p.path@ == "/fans/"@ + name@ && p.body is NoBody),
            CliCommands::Update { name, steps } => (match parse_steps_spec(steps@) {
                Ok(ss) => r matches Ok(p) && p.method == HttpMethod::Put && p.path@ == "/fans/"@
                    + name@ && (p.body matches RequestBody::Steps(v) && v@ == ss),
                Err(e) => r matches Err(e2) && e2 == e,
            }),
            CliCommands::Add { sensor_name, sensor_input, pwm_name, pwm_input, steps } => (match parse_steps_spec(steps@) {
                Ok(ss) => r matches Ok(p) && p.method == HttpMethod::Post && p.path@ == "/fans"@
                    && (p.body matches RequestBody::NewFan(f) && f@.sensor_name == sensor_name@
                    && f@.sensor_input == sensor_input@ && f@.pwm_name == pwm_name@
                    && f@.pwm_input == pwm_input@ && f@.steps == ss),
                Err(e) => r matches Err(e2) && e2 == e,
            }),
            CliCommands::Remove { name } => (r matches Ok(p) && p.method == HttpMethod::Delete
                && p.path@ == "/fans/"@ + name@ && p.body is NoBody),
            CliCommands::Stop => (r matches Ok(p) && p.method == HttpMethod::Post && p.path@
                == "/stop"@ && p.body is NoBody),
            CliCommands::Start => (r matches Ok(p) && p.method == HttpMethod::Post && p.path@
                == "/start"@ && p.body is NoBody),
            CliCommands::Devices => (r matches Ok(p) && p.method == HttpMethod::Get && p.path@
                == "/hwmon_devices"@ && p.body is NoBody),
        },
{
    match cmd {
        CliCommands::Status => Ok(RequestPlan {
            method: HttpMethod::Get,
            path: String::from_str("/status"),
            body: RequestBody::NoBody,
        }),
        CliCommands::Config => Ok(RequestPlan {
            method: HttpMethod::Get,
            path: String::from_str("/config"),
            body: RequestBody::NoBody,
        }),
        CliCommands::UpdateConfig { file } => Ok(RequestPlan {
            method: HttpMethod::Put,
            path: String::from_str("/config"),
            body: RequestBody::ConfigFile(file.clone()),
        }),
        CliCommands::List => Ok(RequestPlan {
            method: HttpMethod::Get,
            path: String::from_str("/fans"),
            body: RequestBody::NoBody,
        }),
        CliCommands::Get { name } => Ok(RequestPlan {
            method: HttpMethod::Get,
            path: fan_path(name),
            body: RequestBody::NoBody,
        }),
        CliCommands::Update { name, steps } => {
            let parsed = match parse_steps(steps.as_str()) {
                Ok(v) => v,
                Err(e) => {
                    return Err(e);
                },
            };
            Ok(RequestPlan {
                method: HttpMethod::Put,
                path: fan_path(name),
                body: RequestBody::Steps(parsed),
            })
        },
        CliCommands::Add { sensor_name, sensor_input, pwm_name, pwm_input, steps } => {
            let parsed = match parse_steps(steps.as_str()) {
                Ok(v) => v,
                Err(e) => {
                    return Err(e);
                },
            };
            Ok(RequestPlan {
                method: HttpMethod::Post,
                path: String::from_str("/fans"),
                body: RequestBody::NewFan(
                    FanConfig {
                        sensor_name: sensor_name.clone(),
                        sensor_input: sensor_input.clone(),
                        pwm_name: pwm_name.clone(),
                        pwm_input: pwm_input.clone(),
                        steps: parsed,
                    },
                ),
            })
        },
        CliCommands::Remove { name } => Ok(RequestPlan {
            method: HttpMethod::Delete,
            path: fan_path(name),
            body: RequestBody::NoBody,
        }),
        CliCommands::Stop => Ok(RequestPlan {
            method: HttpMethod::Post,
            path: String::from_str("/stop"),
            body: RequestBody::NoBody,
        }),
        CliCommands::Start => Ok(RequestPlan {
            method: HttpMethod::Post,
            path: String::from_str("/start"),
            body: RequestBody::NoBody,
        }),
        CliCommands::Devices => Ok(RequestPlan {
            method: HttpMethod::Get,
            path: String::from_str("/hwmon_devices"),
            body: RequestBody::NoBody,
        }),
    }
}

/// The resource path of one fan.
fn fan_path(name: &String) -> (r: String)
    ensures
        r@ == "/fans/"@ + name@,
{
    let mut p = String::from_str("/fans/");
    p.append(name.as_str());
    p
}

} // verus!
