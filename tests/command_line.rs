use nvidia_oc::command::{build_command, service_unit};
use nvidia_oc::decimal::{decimal_string, read_i32_text};
use nvidia_oc::service::parse_service_unit;

#[test]
fn command_has_every_flag_in_order() {
    let cmd = build_command("/usr/bin/nvidia_oc", "1", 250000, -150, 1200, 210, 2800);
    assert_eq!(
        cmd,
        "/usr/bin/nvidia_oc set --index 1 --power-limit 250000 --freq-offset -150 --mem-offset 1200 --min-clock 210 --max-clock 2800"
    );
}

#[test]
fn command_writes_extreme_numbers() {
    let cmd = build_command("p", "0", i32::MAX, i32::MIN, 0, -1, 9);
    assert_eq!(
        cmd,
        "p set --index 0 --power-limit 2147483647 --freq-offset -2147483648 --mem-offset 0 --min-clock -1 --max-clock 9"
    );
}

#[test]
fn unit_runs_the_command_as_root() {
    let unit = service_unit("x set --index 0");
    assert_eq!(
        unit,
        "[Unit]\nDescription=NVIDIA Overclocking Service\nAfter=network.target\n\n[Service]\nExecStart=x set --index 0\nUser=root\nRestart=on-failure\n\n[Install]\nWantedBy=multi-user.target\n"
    );
}

#[test]
fn decimal_text_of_integers() {
    assert_eq!(decimal_string(0), "0");
    assert_eq!(decimal_string(7), "7");
    assert_eq!(decimal_string(-45), "-45");
    assert_eq!(decimal_string(1000), "1000");
    assert_eq!(decimal_string(i32::MIN), "-2147483648");
    assert_eq!(decimal_string(i32::MAX), "2147483647");
}

#[test]
fn reading_integers_follows_from_str() {
    for s in ["0", "+5", "-0", "007", "-2147483648", "2147483647", "", "-", "+", "12a", " 1", "2147483648", "-2147483649", "99999999999", "--1", "+-1"] {
        assert_eq!(read_i32_text(s), s.parse::<i32>().ok(), "input {:?}", s);
    }
}

#[test]
fn unit_round_trip_recovers_settings() {
    let cmd = build_command("/opt/nvidia_oc", "2", 312500, -75, 800, 300, 2100);
    let unit = service_unit(&cmd);
    let s = parse_service_unit(&unit);
    assert_eq!(s.index.as_deref(), Some("2"));
    assert_eq!(s.power_limit, Some(312500));
    assert_eq!(s.freq_offset, Some(-75));
    assert_eq!(s.mem_offset, Some(800));
    assert_eq!(s.min_clock, Some(300));
    assert_eq!(s.max_clock, Some(2100));
}

#[test]
fn unit_round_trip_with_spaces_in_program_path() {
    let cmd = build_command("/opt/my tools/set --index 9/oc", "0", 1000, 5, -5, 100, 200);
    let s = parse_service_unit(&service_unit(&cmd));
    assert_eq!(s.index.as_deref(), Some("0"));
    assert_eq!(s.power_limit, Some(1000));
    assert_eq!(s.freq_offset, Some(5));
    assert_eq!(s.mem_offset, Some(-5));
    assert_eq!(s.min_clock, Some(100));
    assert_eq!(s.max_clock, Some(200));
}
