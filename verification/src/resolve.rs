//! Device path resolution and the portable save form.
//!
//! At startup the daemon probes every sensor chip's name file.  A
//! device name resolves to the directory of the first probe whose
//! trimmed content equals it; each resolved fan's input files are
//! then joined onto their device's directory.  Fans that do not
//! resolve keep their configured values and do not block the others.
//! For saving, the reverse: resolved absolute inputs are reduced back
//! to bare file names, so the document stays portable.

use crate::config::{lemma_entries_map_mapped, Config, FanConfig, FanConfigV, FanEntry};
use crate::paths::{base_name, base_name_spec, join_path, join_spec, parent_dir, parent_dir_spec};
use crate::text::{str_eq, trim_spec};
use vstd::prelude::*;

verus! {

/// One probed name file: its path, and what reading it returned.
pub struct NameProbe {
    pub path: String,
    pub content: Option<String>,
}

/// Does a probe identify the device called `name`?  Unreadable
/// probes identify nothing.
pub open spec fn probe_matches(p: NameProbe, name: Seq<char>) -> bool {
    match p.content {
        Option::Some(s) => trim_spec(s@) == name,
        Option::None => false,
    }
}

/// The directory of the first probe that identifies `name`, if any:
/// the parent of that probe's path.
pub open spec fn find_dir_spec(ps: Seq<NameProbe>, name: Seq<char>) -> Option<Seq<char>>
    decreases ps.len(),
{
    if ps.len() == 0 {
        Option::None
    } else if probe_matches(ps[0], name) {
        parent_dir_spec(ps[0].path@)
    } else {
        find_dir_spec(ps.drop_first(), name)
    }
}

/// Find the sensor-chip directory for a device name, per
/// [`find_dir_spec`].
pub fn find_device_dir(probes: &Vec<NameProbe>, name: &str) -> (r: Option<String>)
    ensures
        match r {
            Some(d) => find_dir_spec(probes@, name@) == Some(d@),
            None => find_dir_spec(probes@, name@) is None,
        },
{
    let mut i: usize = 0;
    proof {
        assert(probes@.skip(0) =~= probes@);
    }
    while i < probes.len()
        invariant
            i <= probes@.len(),
            find_dir_spec(probes@, name@) == find_dir_spec(probes@.skip(i as int), name@),
        decreases probes@.len() - i,
    {
        let p = &probes[i];
        let matched = match &p.content {
            Option::Some(s) => {
                let cs = crate::text::chars_vec(s.as_str());
                let n = cs.len();
                let (a, b) = crate::text::trim_range(&cs, 0, n);
                proof {
                    assert(cs@.subrange(0, n as int) =~= cs@);
                }
                let t = s.as_str().substring_char(a, b);
                str_eq(t, name)
            },
            Option::None => false,
        };
        proof {
            assert(probes@.skip(i as int)[0] == probes@[i as int]);
            assert(matched == probe_matches(probes@[i as int], name@));
            assert(probes@.skip(i as int).drop_first() =~= probes@.skip(i + 1));
        }
        if matched {
            return parent_dir(p.path.as_str());
        }
        i += 1;
    }
    None
}

/// A fan record after resolution: when both of its device names
/// resolve, its input files joined onto the resolved directories;
/// otherwise unchanged.
pub open spec fn resolved_fan(f: FanConfigV, ps: Seq<NameProbe>) -> FanConfigV {
    let sd = find_dir_spec(ps, f.sensor_name);
    let pd = find_dir_spec(ps, f.pwm_name);
    if sd is Some && pd is Some {
        FanConfigV {
            sensor_input: join_spec(sd->0, f.sensor_input),
            pwm_input: join_spec(pd->0, f.pwm_input),
            ..f
        }
    } else {
        f
    }
}

/// Resolve every fan's device paths against the probed name files.
/// A fan that does not resolve keeps its configured values; it never
/// blocks the others.
pub fn resolve_config(c: &Config, probes: &Vec<NameProbe>) -> (r: Config)
    requires
        c.wf(),
    ensures
        r.wf(),
        r@ == c@.map_values(|f: FanConfigV| resolved_fan(f, probes@)),
{
    let mut out: Vec<FanEntry> = Vec::new();
    let mut i: usize = 0;
    while i < c.fan.len()
        invariant
            c.wf(),
            i <= c.fan@.len(),
            out@.len() == i,
            forall|j: int| #![trigger out@[j]] 0 <= j < i ==> out@[j].name@ == c.fan@[j].name@
                && out@[j].config@ == resolved_fan(c.fan@[j].config@, probes@),
        decreases c.fan@.len() - i,
    {
        let e = &c.fan[i];
        let sd = find_device_dir(probes, e.config.sensor_name.as_str());
        let pd = find_device_dir(probes, e.config.pwm_name.as_str());
        let resolved = match (sd, pd) {
            (Some(sdir), Some(pdir)) => FanConfig {
                sensor_name: e.config.sensor_name.clone(),
                sensor_input: join_path(sdir.as_str(), e.config.sensor_input.as_str()),
                pwm_name: e.config.pwm_name.clone(),
                pwm_input: join_path(pdir.as_str(), e.config.pwm_input.as_str()),
                steps: crate::config::copy_steps(&e.config.steps),
            },
            _ => e.config.clone(),
        };
        out.push(FanEntry { name: e.name.clone(), config: resolved });
        i += 1;
    }
    proof {
        lemma_entries_map_mapped(c.fan@, out@, |f: FanConfigV| resolved_fan(f, probes@));
        assert forall|a: int, b: int| #![trigger out@[a], out@[b]]
            0 <= a < b < out@.len() implies out@[a].name@ != out@[b].name@ by {
            assert(c.fan@[a].name@ != c.fan@[b].name@);
        }
        assert forall|j: int| 0 <= j < out@.len() implies (#[trigger] out@[j]).config.wf() by {
            assert(c.fan@[j].config.wf());
            assert(out@[j].config@.steps == c.fan@[j].config@.steps);
        }
    }
    Config { fan: out }
}

/// The saved form of a device input: its bare file name where it has
/// one, else the text as it stands.
pub open spec fn save_path(s: Seq<char>) -> Seq<char> {
    match base_name_spec(s) {
        Option::Some(b) => b,
        Option::None => s,
    }
}

fn save_path_exec(s: &str) -> (r: String)
    ensures
        r@ == save_path(s@),
{
    match base_name(s) {
        Some(b) => b,
        None => s.to_owned(),
    }
}

/// A fan record in its saved form: both inputs reduced to bare file
/// names.
pub open spec fn saved_fan(f: FanConfigV) -> FanConfigV {
    FanConfigV { sensor_input: save_path(f.sensor_input), pwm_input: save_path(f.pwm_input), ..f }
}

/// The configuration as it is persisted: every fan in its saved
/// form, so the document stays portable and paths are re-resolved at
/// the next startup.
pub fn config_for_save(c: &Config) -> (r: Config)
    requires
        c.wf(),
    ensures
        r.wf(),
        r@ == c@.map_values(|f: FanConfigV| saved_fan(f)),
{
    let mut out: Vec<FanEntry> = Vec::new();
    let mut i: usize = 0;
    while i < c.fan.len()
        invariant
            c.wf(),
            i <= c.fan@.len(),
            out@.len() == i,
            forall|j: int| #![trigger out@[j]] 0 <= j < i ==> out@[j].name@ == c.fan@[j].name@
                && out@[j].config@ == saved_fan(c.fan@[j].config@),
        decreases c.fan@.len() - i,
    {
        let e = &c.fan[i];
        let saved = FanConfig {
            sensor_name: e.config.sensor_name.clone(),
            sensor_input: save_path_exec(e.config.sensor_input.as_str()),
            pwm_name: e.config.pwm_name.clone(),
            pwm_input: save_path_exec(e.config.pwm_input.as_str()),
            steps: crate::config::copy_steps(&e.config.steps),
        };
        out.push(FanEntry { name: e.name.clone(), config: saved });
        i += 1;
    }
    proof {
        lemma_entries_map_mapped(c.fan@, out@, |f: FanConfigV| saved_fan(f));
        assert forall|a: int, b: int| #![trigger out@[a], out@[b]]
            0 <= a < b < out@.len() implies out@[a].name@ != out@[b].name@ by {
            assert(c.fan@[a].name@ != c.fan@[b].name@);
        }
        assert forall|j: int| 0 <= j < out@.len() implies (#[trigger] out@[j]).config.wf() by {
            assert(c.fan@[j].config.wf());
            assert(out@[j].config@.steps == c.fan@[j].config@.steps);
        }
    }
    Config { fan: out }
}

} // verus!
