use nvidia_oc::form::{FormValues, DEFAULT_MAX_CLOCK, DEFAULT_POWER_LIMIT};
use nvidia_oc::service::{parse_service_unit, ServiceSettings};

#[test]
fn unit_without_exec_start_gives_nothing() {
    let s = parse_service_unit("[Unit]\nDescription=x\n");
    assert_eq!(s.index, None);
    assert_eq!(s.power_limit, None);
    assert_eq!(s.max_clock, None);
}

#[test]
fn unquoted_exec_start_is_read() {
    let s = parse_service_unit("  ExecStart=/bin/oc set --index 3 --mem-offset -200\r\n");
    assert_eq!(s.index.as_deref(), Some("3"));
    assert_eq!(s.mem_offset, Some(-200));
    assert_eq!(s.freq_offset, None);
}

#[test]
fn flags_before_set_are_ignored() {
    let s = parse_service_unit("ExecStart=oc --index 9 set --power-limit 100");
    assert_eq!(s.index, None);
    assert_eq!(s.power_limit, Some(100));
}

#[test]
fn value_that_does_not_read_clears_field() {
    let s = parse_service_unit(
        "ExecStart=oc set --power-limit 100\nExecStart=oc set --power-limit abc --min-clock 5",
    );
    assert_eq!(s.power_limit, None);
    assert_eq!(s.min_clock, Some(5));
}

#[test]
fn later_line_overrides_earlier() {
    let s = parse_service_unit(
        "ExecStart=oc set --index 1 --max-clock 10\nExecStart=oc set --max-clock 20",
    );
    assert_eq!(s.index.as_deref(), Some("1"));
    assert_eq!(s.max_clock, Some(20));
}

#[test]
fn flag_at_end_keeps_value() {
    let s = parse_service_unit("ExecStart=oc set --freq-offset 5 --freq-offset");
    assert_eq!(s.freq_offset, Some(5));
}

#[test]
fn flag_takes_next_word_even_if_flag() {
    let s = parse_service_unit("ExecStart=oc set --index --min-clock 7");
    assert_eq!(s.index.as_deref(), Some("--min-clock"));
    assert_eq!(s.min_clock, None);
}

#[test]
fn repeated_prefix_is_cut() {
    let s = parse_service_unit("ExecStart=ExecStart=\"oc set --index 4\"");
    assert_eq!(s.index.as_deref(), Some("4"));
}

#[test]
fn lone_quote_is_kept_as_word() {
    let s = parse_service_unit("ExecStart=\"");
    assert_eq!(s.index, None);
}

#[test]
fn form_defaults_where_unit_is_silent() {
    let f = FormValues::from_settings(&ServiceSettings::new());
    assert_eq!(f.gpu_index, "0");
    assert_eq!(f.power_limit, DEFAULT_POWER_LIMIT);
    assert_eq!(f.power_limit, 400000);
    assert_eq!(f.freq_offset, 0);
    assert_eq!(f.mem_offset, 0);
    assert_eq!(f.min_clock, 0);
    assert_eq!(f.max_clock, DEFAULT_MAX_CLOCK);
    assert_eq!(f.max_clock, 3800);
}

#[test]
fn form_takes_values_from_unit() {
    let s = parse_service_unit("ExecStart=\"oc set --index 1 --power-limit 150000 --max-clock 2500\"");
    let f = FormValues::from_settings(&s);
    assert_eq!(f.gpu_index, "1");
    assert_eq!(f.power_limit, 150000);
    assert_eq!(f.max_clock, 2500);
    assert_eq!(f.min_clock, 0);
}
