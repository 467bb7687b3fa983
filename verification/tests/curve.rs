use coold::curve::{get_fan_power, power_from_sorted, sort_fan_steps, FanStep};

fn st(temp: i32, power: u8) -> FanStep {
    FanStep { temp, power }
}

#[test]
fn empty_curve_is_zero() {
    assert_eq!(get_fan_power(&vec![], 0), 0);
    assert_eq!(get_fan_power(&vec![], -50), 0);
    assert_eq!(get_fan_power(&vec![], 1000), 0);
}

#[test]
fn interpolation_example() {
    let steps = vec![st(0, 20), st(50, 50), st(80, 100)];
    // fraction = (65-50)/(80-50) = 0.5, power = 50 + 0.5*50 = 75
    assert_eq!(get_fan_power(&steps, 65), 75);
}

#[test]
fn clamp_above_example() {
    let steps = vec![st(40, 30), st(70, 90)];
    assert_eq!(get_fan_power(&steps, 100), 90);
    assert_eq!(get_fan_power(&steps, 70), 90);
}

#[test]
fn clamp_below() {
    let steps = vec![st(40, 30), st(70, 90)];
    assert_eq!(get_fan_power(&steps, 0), 30);
    assert_eq!(get_fan_power(&steps, 40), 30);
    assert_eq!(get_fan_power(&steps, -100), 30);
}

#[test]
fn unsorted_input_is_sorted_first() {
    let steps = vec![st(80, 100), st(0, 20), st(50, 50)];
    assert_eq!(get_fan_power(&steps, 65), 75);
    assert_eq!(get_fan_power(&steps, -5), 20);
    assert_eq!(get_fan_power(&steps, 90), 100);
}

#[test]
fn rounding_half_goes_up() {
    // exact midpoint: 0 + 0.5 rounds to 1
    let steps = vec![st(0, 0), st(10, 1)];
    assert_eq!(get_fan_power(&steps, 5), 1);
}

#[test]
fn rounding_to_nearest() {
    let steps = vec![st(0, 0), st(3, 1)];
    assert_eq!(get_fan_power(&steps, 1), 0); // 1/3
    assert_eq!(get_fan_power(&steps, 2), 1); // 2/3
}

#[test]
fn negative_temperatures() {
    let steps = vec![st(-10, 10), st(10, 20)];
    assert_eq!(get_fan_power(&steps, 0), 15);
    assert_eq!(get_fan_power(&steps, -20), 10);
}

#[test]
fn equal_temperatures_tie_break_by_power() {
    // ties are ordered by power; at or below the shared temperature
    // the least power wins
    let steps = vec![st(50, 80), st(50, 20), st(80, 100)];
    assert_eq!(get_fan_power(&steps, 50), 20);
    // inside the range the bracket starts at the highest-power tie
    assert_eq!(get_fan_power(&steps, 65), 90);
}

#[test]
fn descending_curve_interpolates_down() {
    let steps = vec![st(0, 100), st(100, 0)];
    assert_eq!(get_fan_power(&steps, 25), 75);
    assert_eq!(get_fan_power(&steps, 150), 0);
}

#[test]
fn sort_orders_by_temp_then_power() {
    let steps = vec![st(50, 80), st(0, 20), st(50, 20)];
    let sorted = sort_fan_steps(&steps);
    assert_eq!(sorted, vec![st(0, 20), st(50, 20), st(50, 80)]);
}

#[test]
fn evaluation_on_sorted_form_matches() {
    let steps = vec![st(0, 20), st(50, 50), st(80, 100)];
    let sorted = sort_fan_steps(&steps);
    assert_eq!(power_from_sorted(&sorted, 65), get_fan_power(&steps, 65));
    assert_eq!(power_from_sorted(&sorted, -3), get_fan_power(&steps, -3));
}

#[test]
fn single_step_curve_is_constant() {
    let steps = vec![st(42, 66)];
    assert_eq!(get_fan_power(&steps, 0), 66);
    assert_eq!(get_fan_power(&steps, 42), 66);
    assert_eq!(get_fan_power(&steps, 99), 66);
}

#[test]
fn extreme_temperatures_do_not_overflow() {
    let steps = vec![st(i32::MIN, 0), st(i32::MAX, 100)];
    assert_eq!(get_fan_power(&steps, 0), 50);
    assert_eq!(get_fan_power(&steps, i32::MIN), 0);
    assert_eq!(get_fan_power(&steps, i32::MAX), 100);
}
