use esp_rs::fan::{plan, Drive, FanController, ParamsSent, Power};

fn on(target: u32, angle: f32) -> ParamsSent {
    ParamsSent { power: Power::On, targetTemp: target, angle_bits: angle.to_bits() }
}

#[test]
fn power_defaults_to_off() {
    assert_eq!(Power::default(), Power::Off);
}

#[test]
fn params_default_is_off_with_zero_target_and_angle() {
    let p = ParamsSent::default();
    assert_eq!(p.power, Power::Off);
    assert_eq!(p.targetTemp, 0);
    assert_eq!(f32::from_bits(p.angle_bits), 0.0);
}

#[test]
fn plan_runs_when_on_and_parks_when_off() {
    let p = on(24, 0.5);
    assert_eq!(plan(&p), Drive::Run { target_temp: 24, angle_bits: 0.5f32.to_bits() });
    let off = ParamsSent { power: Power::Off, ..p };
    assert_eq!(plan(&off), Drive::Park);
}

#[test]
fn new_controller_parks_until_a_command_arrives() {
    let mut c = FanController::new();
    assert_eq!(c.params, ParamsSent::default());
    assert_eq!(c.step(None), Drive::Park);
    assert_eq!(c.params, ParamsSent::default());
}

#[test]
fn received_command_takes_effect() {
    let mut c = FanController::new();
    let d = c.step(Some(on(22, -0.25)));
    assert_eq!(d, Drive::Run { target_temp: 22, angle_bits: (-0.25f32).to_bits() });
    assert_eq!(c.params, on(22, -0.25));
}

#[test]
fn failed_fetch_keeps_last_command() {
    let mut c = FanController::new();
    c.step(Some(on(27, 0.1)));
    let d = c.step(None);
    assert_eq!(d, Drive::Run { target_temp: 27, angle_bits: 0.1f32.to_bits() });
    assert_eq!(c.params, on(27, 0.1));
}

#[test]
fn off_command_parks_a_running_fan() {
    let mut c = FanController::new();
    c.step(Some(on(27, 0.1)));
    let off = ParamsSent { power: Power::Off, targetTemp: 27, angle_bits: 0 };
    assert_eq!(c.step(Some(off)), Drive::Park);
    assert_eq!(c.step(None), Drive::Park);
}
