use coold::config::{config_eq, extract_hw_map, fan_config_eq, Config, FanConfig};
use coold::curve::FanStep;
use coold::paths::{base_name, join_path, parent_dir};
use coold::resolve::{config_for_save, find_device_dir, resolve_config, NameProbe};

fn fan(sensor: &str, sensor_input: &str, pwm: &str, pwm_input: &str) -> FanConfig {
    FanConfig {
        sensor_name: String::from(sensor),
        sensor_input: String::from(sensor_input),
        pwm_name: String::from(pwm),
        pwm_input: String::from(pwm_input),
        steps: vec![FanStep { temp: 30, power: 10 }, FanStep { temp: 80, power: 100 }],
    }
}

fn two_fan_config() -> Config {
    let mut c = Config { fan: Vec::new() };
    c.insert_fan(String::from("cpu"), fan("k10temp", "temp1_input", "nct6797", "pwm2"));
    c.insert_fan(String::from("case"), fan("nct6797", "temp2_input", "nct6797", "pwm3"));
    c
}

#[test]
fn insert_get_remove() {
    let mut c = two_fan_config();
    assert!(c.get_fan("cpu").is_some());
    assert_eq!(c.get_fan("cpu").unwrap().pwm_input, "pwm2");
    assert!(c.get_fan("gpu").is_none());
    assert!(c.remove_fan("cpu"));
    assert!(c.get_fan("cpu").is_none());
    assert!(!c.remove_fan("cpu"));
    assert_eq!(c.fan.len(), 1);
}

#[test]
fn insert_replaces_same_name() {
    let mut c = two_fan_config();
    c.insert_fan(String::from("cpu"), fan("k10temp", "temp3_input", "nct6797", "pwm4"));
    assert_eq!(c.fan.len(), 2);
    assert_eq!(c.get_fan("cpu").unwrap().pwm_input, "pwm4");
}

#[test]
fn set_fan_steps_touches_only_the_curve() {
    let mut c = two_fan_config();
    let new_steps = vec![FanStep { temp: 0, power: 0 }, FanStep { temp: 100, power: 100 }];
    assert!(c.set_fan_steps("cpu", new_steps.clone()));
    let f = c.get_fan("cpu").unwrap();
    assert_eq!(f.steps, new_steps);
    assert_eq!(f.sensor_input, "temp1_input");
    assert!(!c.set_fan_steps("gpu", new_steps));
}

#[test]
fn add_fan_generates_fresh_names() {
    let mut c = Config { fan: Vec::new() };
    let n1 = c.add_fan(fan("a", "t1", "b", "p1"));
    assert_eq!(n1, "fan_1");
    let n2 = c.add_fan(fan("a", "t2", "b", "p2"));
    assert_eq!(n2, "fan_2");
    assert!(c.get_fan("fan_1").is_some());
    assert!(c.get_fan("fan_2").is_some());
}

#[test]
fn add_fan_never_overwrites_after_deletions() {
    let mut c = Config { fan: Vec::new() };
    c.add_fan(fan("a", "t1", "b", "p1"));
    c.add_fan(fan("a", "t2", "b", "p2"));
    assert!(c.remove_fan("fan_1"));
    // the freed least slot is reused; the surviving fan is untouched
    let n = c.add_fan(fan("a", "t3", "b", "p3"));
    assert_eq!(n, "fan_1");
    assert_eq!(c.fan.len(), 2);
    assert_eq!(c.get_fan("fan_2").unwrap().sensor_input, "t2");
    assert_eq!(c.get_fan("fan_1").unwrap().sensor_input, "t3");
    let n = c.add_fan(fan("a", "t4", "b", "p4"));
    assert_eq!(n, "fan_3");
}

#[test]
fn add_fan_skips_taken_names() {
    let mut c = Config { fan: Vec::new() };
    c.insert_fan(String::from("fan_1"), fan("a", "t1", "b", "p1"));
    c.insert_fan(String::from("fan_2"), fan("a", "t2", "b", "p2"));
    let n = c.add_fan(fan("a", "t3", "b", "p3"));
    assert_eq!(n, "fan_3");
    assert_eq!(c.fan.len(), 3);
    assert_eq!(c.get_fan("fan_2").unwrap().sensor_input, "t2");
}

#[test]
fn add_fan_names_grow_past_one_digit() {
    let mut c = Config { fan: Vec::new() };
    for i in 0..11 {
        c.add_fan(fan("s", &format!("t{}", i), "p", &format!("w{}", i)));
    }
    let name = c.add_fan(fan("s", "t11", "p", "w11"));
    assert_eq!(name, "fan_12");
}

#[test]
fn config_eq_ignores_entry_order() {
    let c1 = two_fan_config();
    let mut c2 = Config { fan: Vec::new() };
    c2.insert_fan(String::from("case"), fan("nct6797", "temp2_input", "nct6797", "pwm3"));
    c2.insert_fan(String::from("cpu"), fan("k10temp", "temp1_input", "nct6797", "pwm2"));
    assert!(config_eq(&c1, &c2));
    c2.remove_fan("cpu");
    assert!(!config_eq(&c1, &c2));
}

#[test]
fn hardware_mapping_ignores_curves() {
    let c1 = two_fan_config();
    let mut c2 = two_fan_config();
    // a curve-only edit
    assert!(c2.set_fan_steps("cpu", vec![FanStep { temp: 10, power: 50 }]));
    let h1 = extract_hw_map(&c1);
    let h2 = extract_hw_map(&c2);
    assert!(config_eq(&h1, &h2));
    assert!(!coold::controller::needs_reinit(&c2, &h1));
    // a device edit
    let mut c3 = two_fan_config();
    c3.insert_fan(String::from("cpu"), fan("k10temp", "temp1_input", "nct6797", "pwm5"));
    assert!(coold::controller::needs_reinit(&c3, &h1));
}

#[test]
fn hardware_mapping_has_empty_curves() {
    let h = extract_hw_map(&two_fan_config());
    for e in &h.fan {
        assert!(e.config.steps.is_empty());
    }
}

#[test]
fn fan_config_eq_compares_all_fields() {
    let a = fan("s", "si", "p", "pi");
    let mut b = fan("s", "si", "p", "pi");
    assert!(fan_config_eq(&a, &b));
    b.steps.push(FanStep { temp: 99, power: 1 });
    assert!(!fan_config_eq(&a, &b));
}

#[test]
fn save_form_strips_directories() {
    let mut c = Config { fan: Vec::new() };
    let mut f = fan("k10temp", "/sys/class/hwmon/hwmon3/temp1_input", "n", "pwm2");
    f.pwm_input = String::from("/sys/class/hwmon/hwmon4/pwm2");
    c.insert_fan(String::from("cpu"), f);
    let saved = config_for_save(&c);
    let sf = saved.get_fan("cpu").unwrap();
    assert_eq!(sf.sensor_input, "temp1_input");
    assert_eq!(sf.pwm_input, "pwm2");
}

#[test]
fn save_form_keeps_bare_names() {
    let mut c = Config { fan: Vec::new() };
    c.insert_fan(String::from("cpu"), fan("k10temp", "temp1_input", "n", "pwm2"));
    let saved = config_for_save(&c);
    let sf = saved.get_fan("cpu").unwrap();
    assert_eq!(sf.sensor_input, "temp1_input");
    assert_eq!(sf.pwm_input, "pwm2");
}

fn probe(path: &str, content: Option<&str>) -> NameProbe {
    NameProbe { path: String::from(path), content: content.map(String::from) }
}

#[test]
fn find_device_dir_matches_trimmed_first() {
    let probes = vec![
        probe("/sys/class/hwmon/hwmon0/name", Some("amdgpu\n")),
        probe("/sys/class/hwmon/hwmon1/name", None),
        probe("/sys/class/hwmon/hwmon2/name", Some("k10temp\n")),
        probe("/sys/class/hwmon/hwmon3/name", Some("k10temp\n")),
    ];
    assert_eq!(find_device_dir(&probes, "k10temp").unwrap(), "/sys/class/hwmon/hwmon2");
    assert_eq!(find_device_dir(&probes, "amdgpu").unwrap(), "/sys/class/hwmon/hwmon0");
    assert!(find_device_dir(&probes, "nct6797").is_none());
}

#[test]
fn resolve_rewrites_inputs_under_device_dirs() {
    let probes = vec![
        probe("/sys/class/hwmon/hwmon0/name", Some("k10temp\n")),
        probe("/sys/class/hwmon/hwmon1/name", Some("nct6797\n")),
    ];
    let mut c = Config { fan: Vec::new() };
    c.insert_fan(String::from("cpu"), fan("k10temp", "temp1_input", "nct6797", "pwm2"));
    c.insert_fan(String::from("aux"), fan("missing", "temp9_input", "nct6797", "pwm9"));
    let r = resolve_config(&c, &probes);
    let cpu = r.get_fan("cpu").unwrap();
    assert_eq!(cpu.sensor_input, "/sys/class/hwmon/hwmon0/temp1_input");
    assert_eq!(cpu.pwm_input, "/sys/class/hwmon/hwmon1/pwm2");
    // an unresolved fan keeps its values and does not block the rest
    let aux = r.get_fan("aux").unwrap();
    assert_eq!(aux.sensor_input, "temp9_input");
    assert_eq!(aux.pwm_input, "pwm9");
}

#[test]
fn path_helpers_follow_the_documented_rules() {
    assert_eq!(base_name("/a/b/name").unwrap(), "name");
    assert_eq!(base_name("name").unwrap(), "name");
    assert_eq!(base_name("/a/b/").unwrap(), "b");
    assert!(base_name("").is_none());
    assert!(base_name("/a/..").is_none());
    assert_eq!(parent_dir("/a/b/name").unwrap(), "/a/b");
    assert_eq!(parent_dir("name").unwrap(), "");
    assert_eq!(parent_dir("/name").unwrap(), "/");
    assert!(parent_dir("").is_none());
    assert_eq!(join_path("/a/b", "c"), "/a/b/c");
    assert_eq!(join_path("/a/b/", "c"), "/a/b/c");
    assert_eq!(join_path("", "c"), "c");
    assert_eq!(join_path("/a", "/abs"), "/abs");
}
