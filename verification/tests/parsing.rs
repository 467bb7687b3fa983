use coold::cli::{parse_steps, plan_request, CliCommands, HttpMethod, RequestBody, StepsError};
use coold::curve::FanStep;

#[test]
fn parses_three_pairs() {
    let steps = parse_steps("30:10,60:50,90:100").unwrap();
    assert_eq!(
        steps,
        vec![
            FanStep { temp: 30, power: 10 },
            FanStep { temp: 60, power: 50 },
            FanStep { temp: 90, power: 100 },
        ]
    );
}

#[test]
fn rejects_power_out_of_range() {
    assert_eq!(parse_steps("30:150"), Err(StepsError::PowerOutOfRange));
    assert_eq!(parse_steps("30:101"), Err(StepsError::PowerOutOfRange));
    assert_eq!(parse_steps("30:100").unwrap().len(), 1);
}

#[test]
fn rejects_malformed_pairs() {
    assert_eq!(parse_steps("30"), Err(StepsError::BadPair));
    assert_eq!(parse_steps("30:10:5"), Err(StepsError::BadPair));
    assert_eq!(parse_steps(""), Err(StepsError::BadPair));
    assert_eq!(parse_steps("30:10,"), Err(StepsError::BadPair));
}

#[test]
fn rejects_bad_temperatures() {
    assert_eq!(parse_steps("x:10"), Err(StepsError::BadTemp));
    assert_eq!(parse_steps(":10"), Err(StepsError::BadTemp));
    assert_eq!(parse_steps("2147483648:10"), Err(StepsError::BadTemp));
    assert_eq!(parse_steps("1.5:10"), Err(StepsError::BadTemp));
}

#[test]
fn accepts_extreme_temperatures() {
    let steps = parse_steps("-2147483648:0,2147483647:100").unwrap();
    assert_eq!(steps[0].temp, i32::MIN);
    assert_eq!(steps[1].temp, i32::MAX);
}

#[test]
fn rejects_bad_powers() {
    assert_eq!(parse_steps("30:x"), Err(StepsError::BadPower));
    assert_eq!(parse_steps("30:"), Err(StepsError::BadPower));
    assert_eq!(parse_steps("30:256"), Err(StepsError::BadPower));
    assert_eq!(parse_steps("30:-1"), Err(StepsError::BadPower));
    assert_eq!(parse_steps("30:99999999999999999999"), Err(StepsError::BadPower));
}

#[test]
fn trims_spaces_around_numbers() {
    let steps = parse_steps(" 30 : 10 ,\t40:20").unwrap();
    assert_eq!(steps.len(), 2);
    assert_eq!(steps[0], FanStep { temp: 30, power: 10 });
    assert_eq!(steps[1], FanStep { temp: 40, power: 20 });
}

#[test]
fn trims_unicode_white_space() {
    let steps = parse_steps("\u{a0}30:10\u{2009}").unwrap();
    assert_eq!(steps, vec![FanStep { temp: 30, power: 10 }]);
}

#[test]
fn accepts_plus_signs_and_negatives() {
    let steps = parse_steps("+30:+10,-5:0").unwrap();
    assert_eq!(steps[0], FanStep { temp: 30, power: 10 });
    assert_eq!(steps[1], FanStep { temp: -5, power: 0 });
}

#[test]
fn first_error_wins() {
    assert_eq!(parse_steps("30:150,xx"), Err(StepsError::PowerOutOfRange));
    assert_eq!(parse_steps("xx,30:150"), Err(StepsError::BadPair));
}

#[test]
fn plan_status_request() {
    let plan = plan_request(&CliCommands::Status).unwrap();
    assert_eq!(plan.method, HttpMethod::Get);
    assert_eq!(plan.path, "/status");
    assert!(matches!(plan.body, RequestBody::NoBody));
}

#[test]
fn plan_fan_requests_build_paths() {
    let plan = plan_request(&CliCommands::Get { name: String::from("cpu") }).unwrap();
    assert_eq!(plan.method, HttpMethod::Get);
    assert_eq!(plan.path, "/fans/cpu");
    let plan = plan_request(&CliCommands::Remove { name: String::from("gpu") }).unwrap();
    assert_eq!(plan.method, HttpMethod::Delete);
    assert_eq!(plan.path, "/fans/gpu");
}

#[test]
fn plan_update_validates_steps_before_any_request() {
    let bad = plan_request(&CliCommands::Update {
        name: String::from("cpu"),
        steps: String::from("30:150"),
    });
    assert!(matches!(bad, Err(StepsError::PowerOutOfRange)));

    let good = plan_request(&CliCommands::Update {
        name: String::from("cpu"),
        steps: String::from("30:10,60:50"),
    })
    .unwrap();
    assert_eq!(good.method, HttpMethod::Put);
    assert_eq!(good.path, "/fans/cpu");
    match good.body {
        RequestBody::Steps(v) => assert_eq!(v.len(), 2),
        _ => panic!("expected a curve body"),
    }
}

#[test]
fn plan_add_builds_fan_record() {
    let plan = plan_request(&CliCommands::Add {
        sensor_name: String::from("k10temp"),
        sensor_input: String::from("temp1_input"),
        pwm_name: String::from("nct6797"),
        pwm_input: String::from("pwm2"),
        steps: String::from("30:10,90:100"),
    })
    .unwrap();
    assert_eq!(plan.method, HttpMethod::Post);
    assert_eq!(plan.path, "/fans");
    match plan.body {
        RequestBody::NewFan(f) => {
            assert_eq!(f.sensor_name, "k10temp");
            assert_eq!(f.pwm_input, "pwm2");
            assert_eq!(f.steps.len(), 2);
        },
        _ => panic!("expected a fan body"),
    }
}

#[test]
fn plan_stop_and_devices() {
    let stop = plan_request(&CliCommands::Stop).unwrap();
    assert_eq!(stop.method, HttpMethod::Post);
    assert_eq!(stop.path, "/stop");
    let devices = plan_request(&CliCommands::Devices).unwrap();
    assert_eq!(devices.method, HttpMethod::Get);
    assert_eq!(devices.path, "/hwmon_devices");
}
