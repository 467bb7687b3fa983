use coold::actuator::{
    degrees_from_content, enable_path, is_enabled_content, pwm_to_percent, pwm_value_for,
    retry_decide, RetryAction,
};
use coold::api::{fan_status, ApiState};
use coold::config::{config_eq, Config, FanConfig};
use coold::controller::{fan_cycle_action, fans_of, FanController};
use coold::curve::FanStep;

fn curve_fan() -> FanConfig {
    FanConfig {
        sensor_name: String::from("k10temp"),
        sensor_input: String::from("/sys/class/hwmon/hwmon0/temp1_input"),
        pwm_name: String::from("nct6797"),
        pwm_input: String::from("/sys/class/hwmon/hwmon1/pwm2"),
        steps: vec![
            FanStep { temp: 0, power: 20 },
            FanStep { temp: 50, power: 50 },
            FanStep { temp: 80, power: 100 },
        ],
    }
}

fn one_fan_config() -> Config {
    let mut c = Config { fan: Vec::new() };
    c.insert_fan(String::from("cpu"), curve_fan());
    c
}

#[test]
fn facade_snapshot_reflects_whole_replacement() {
    let controller = FanController::new(one_fan_config());
    let before = controller.get_config();
    assert!(config_eq(&before, &one_fan_config()));

    let mut next = one_fan_config();
    next.insert_fan(String::from("case"), curve_fan());
    controller.update_config(next);

    let after = controller.get_config();
    assert_eq!(after.fan.len(), 2);
    assert!(after.get_fan("cpu").is_some());
    assert!(after.get_fan("case").is_some());
}

#[test]
fn facade_stop_is_monotonic() {
    let controller = FanController::new(one_fan_config());
    assert!(controller.is_running());
    controller.stop();
    assert!(!controller.is_running());
    controller.stop();
    assert!(!controller.is_running());
    let flag = controller.get_running();
    assert!(!flag.load(core::sync::atomic::Ordering::SeqCst));
}

#[test]
fn cleanup_lists_every_fan() {
    let controller = FanController::new(one_fan_config());
    let fans = controller.cleanup_fans();
    assert_eq!(fans.len(), 1);
    assert_eq!(fans[0].pwm_input, "/sys/class/hwmon/hwmon1/pwm2");
    let listed = fans_of(&one_fan_config());
    assert_eq!(listed.len(), 1);
}

#[test]
fn cycle_computes_power_and_duty() {
    let fan = curve_fan();
    let r = fan_cycle_action(&fan, &Some(String::from("65000\n"))).unwrap();
    assert_eq!(r, (65, 75, 191)); // 75% of 255, rounded
}

#[test]
fn cycle_skips_unreadable_or_malformed_readings() {
    let fan = curve_fan();
    assert!(fan_cycle_action(&fan, &None).is_none());
    assert!(fan_cycle_action(&fan, &Some(String::from("warm"))).is_none());
    assert!(fan_cycle_action(&fan, &Some(String::from(""))).is_none());
}

#[test]
fn degrees_truncate_toward_zero() {
    assert_eq!(degrees_from_content(&Some(String::from("65000"))), Some(65));
    assert_eq!(degrees_from_content(&Some(String::from(" 65999\n"))), Some(65));
    assert_eq!(degrees_from_content(&Some(String::from("-1500"))), Some(-1));
    assert_eq!(degrees_from_content(&Some(String::from("-999"))), Some(0));
    assert_eq!(degrees_from_content(&Some(String::from("2147483648"))), None);
    assert_eq!(degrees_from_content(&None), None);
}

#[test]
fn duty_conversion_rounds_to_nearest() {
    assert_eq!(pwm_value_for(0), 0);
    assert_eq!(pwm_value_for(100), 255);
    assert_eq!(pwm_value_for(50), 128); // 127.5 rounds up
    assert_eq!(pwm_value_for(33), 84); // 84.15 rounds down
}

#[test]
fn duty_readback_truncates_and_clamps() {
    assert_eq!(pwm_to_percent(0), 0);
    assert_eq!(pwm_to_percent(128), 50);
    assert_eq!(pwm_to_percent(255), 100);
    assert_eq!(pwm_to_percent(1000000), 100);
}

#[test]
fn enable_file_path_appends_suffix() {
    assert_eq!(enable_path("/sys/class/hwmon/hwmon1/pwm2"), "/sys/class/hwmon/hwmon1/pwm2_enable");
}

#[test]
fn enable_state_reads_trimmed_one() {
    assert!(is_enabled_content(&Some(String::from("1"))));
    assert!(is_enabled_content(&Some(String::from(" 1\n"))));
    assert!(!is_enabled_content(&Some(String::from("0"))));
    assert!(!is_enabled_content(&Some(String::from("10"))));
    assert!(!is_enabled_content(&None));
}

/// Drive the retry policy against a simulated device.
fn drive_retry(initial: bool, writes_stick: bool, desired: bool) -> (u32, bool) {
    let mut state = initial;
    let mut attempts: u8 = 0;
    let mut writes: u32 = 0;
    loop {
        match retry_decide(attempts, state, desired) {
            RetryAction::Done => return (writes, true),
            RetryAction::GiveUp => return (writes, false),
            RetryAction::Write => {
                if writes_stick {
                    state = desired;
                }
                writes += 1;
                attempts += 1;
            },
        }
    }
}

#[test]
fn retry_converges_when_writes_stick() {
    assert_eq!(drive_retry(false, true, true), (1, true));
    assert_eq!(drive_retry(true, true, true), (0, true));
}

#[test]
fn retry_gives_up_after_ten_attempts() {
    assert_eq!(drive_retry(false, false, true), (10, false));
    assert_eq!(drive_retry(true, false, false), (10, false));
}

#[test]
fn status_combines_record_and_readings() {
    let fan = curve_fan();
    let name = String::from("cpu");
    let st = fan_status(&name, &fan, &Some(String::from("42000\n")), &Some(String::from("128\n")));
    assert_eq!(st.name, "cpu");
    assert_eq!(st.temperature, Some(42));
    assert_eq!(st.power, Some(50));
    assert_eq!(st.sensor_input, fan.sensor_input);
    assert_eq!(st.pwm_input, fan.pwm_input);
    assert_eq!(st.steps, fan.steps);

    let st = fan_status(&name, &fan, &None, &Some(String::from("junk")));
    assert_eq!(st.temperature, None);
    assert_eq!(st.power, None);
}

#[test]
fn api_state_wraps_controller() {
    let state = ApiState::new(FanController::new(one_fan_config()));
    assert!(state.controller.is_running());
}
