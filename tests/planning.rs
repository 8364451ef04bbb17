use nvidia_oc::form::{command_output_message, install_failure_message, ServiceAction};
use nvidia_oc::gpus::parse_gpu_list;
use nvidia_oc::launch::{
    choose_escalation, file_option_values, gui_child_args, gui_config_path, wants_gui,
    Escalation, EscalationError, DEFAULT_CONFIG_PATH,
};
use nvidia_oc::params::{GpuAction, Sets};
use nvidia_oc::text::split_words;

fn args(v: &[&str]) -> Vec<String> {
    v.iter().map(|s| s.to_string()).collect()
}

fn no_sets() -> Sets {
    Sets {
        freq_offset: None,
        mem_offset: None,
        power_limit: None,
        min_clock: None,
        max_clock: None,
        min_mem_clock: None,
        max_mem_clock: None,
    }
}

#[test]
fn all_parameters_give_all_calls_in_order() {
    let s = Sets {
        freq_offset: Some(100),
        mem_offset: Some(-50),
        power_limit: Some(200000),
        min_clock: Some(300),
        max_clock: Some(1800),
        min_mem_clock: Some(405),
        max_mem_clock: Some(5001),
    };
    assert_eq!(
        s.actions(),
        vec![
            GpuAction::GpcClockOffset(100),
            GpuAction::MemClockOffset(-50),
            GpuAction::PowerLimit(200000),
            GpuAction::LockedClocks { min_mhz: 300, max_mhz: 1800 },
            GpuAction::LockedMemClocks { min_mhz: 405, max_mhz: 5001 },
        ]
    );
}

#[test]
fn half_a_clock_range_gives_no_call() {
    let s = Sets { min_clock: Some(300), max_mem_clock: Some(9000), power_limit: Some(1), ..no_sets() };
    assert_eq!(s.actions(), vec![GpuAction::PowerLimit(1)]);
    assert!(no_sets().actions().is_empty());
}

#[test]
fn gui_flag_anywhere() {
    assert!(wants_gui(&args(&["oc", "--file", "x", "--gui"])));
    assert!(wants_gui(&args(&["oc", "--gui=true"])));
    assert!(!wants_gui(&args(&["oc", "--gui=false", "-g"])));
}

#[test]
fn config_path_is_last_file_option() {
    assert_eq!(gui_config_path(&args(&["oc"])), DEFAULT_CONFIG_PATH);
    assert_eq!(DEFAULT_CONFIG_PATH, "/etc/nvidia_oc.json");
    assert_eq!(gui_config_path(&args(&["oc", "-f", "a.json", "--file=b.json"])), "b.json");
    assert_eq!(gui_config_path(&args(&["oc", "--file=b.json", "--file", "c.json"])), "c.json");
    assert_eq!(gui_config_path(&args(&["oc", "--file"])), DEFAULT_CONFIG_PATH);
}

#[test]
fn file_values_skip_consumed_words() {
    assert_eq!(
        file_option_values(&args(&["oc", "--file", "--file=x", "-f", "y", "--file=z=w"])),
        args(&["--file=x", "y", "z=w"])
    );
}

#[test]
fn child_gets_file_options_only() {
    assert_eq!(
        gui_child_args(&args(&["oc", "--gui", "-f", "a", "--file=b", "--other"])),
        args(&["--file", "a", "--file=b"])
    );
    assert!(gui_child_args(&args(&["oc", "--gui", "-f"])).is_empty());
}

#[test]
fn escalation_prefers_root_then_sudo_doas_pkexec() {
    assert_eq!(choose_escalation(true, false, false, false), Ok(Escalation::AlreadyRoot));
    assert_eq!(choose_escalation(false, true, true, true), Ok(Escalation::Sudo));
    assert_eq!(choose_escalation(false, false, true, true), Ok(Escalation::Doas));
    assert_eq!(choose_escalation(false, false, false, true), Ok(Escalation::Pkexec));
    assert_eq!(choose_escalation(false, false, false, false), Err(EscalationError::NoTool));
    assert_eq!(
        EscalationError::NoTool.message(),
        "Please install sudo, doas or pkexec and try again. Alternatively, run the program as root."
    );
}

#[test]
fn gpu_listing_gives_index_and_label() {
    let listing = "GPU 0: NVIDIA GeForce RTX 4090 (UUID: GPU-abc)\nGPU 1: Tesla T4 (UUID: GPU-def)\r\n";
    let gpus = parse_gpu_list(listing);
    assert_eq!(
        gpus,
        vec![
            ("0".to_string(), "GPU 0: NVIDIA GeForce RTX 4090".to_string()),
            ("1".to_string(), "GPU 1: Tesla T4".to_string()),
        ]
    );
}

#[test]
fn gpu_listing_skips_other_lines() {
    let gpus = parse_gpu_list("No devices\n  GPU 2: X\nGPU 3 no colon\nGPU  4 : Name: more ( a\n");
    assert_eq!(gpus, vec![("4".to_string(), "GPU 4: Name: more".to_string())]);
}

#[test]
fn empty_gpu_listing_offers_default() {
    assert_eq!(parse_gpu_list(""), vec![("0".to_string(), "GPU 0 (default)".to_string())]);
}

#[test]
fn service_action_texts() {
    let c = ServiceAction::for_unit(false);
    assert_eq!(c, ServiceAction::Create);
    assert_eq!(c.script_arg(), "create");
    assert_eq!(c.button_label(), "Create Service");
    assert_eq!(c.done_message(), "Service created, enabled and started.");
    let u = ServiceAction::for_unit(true);
    assert_eq!(u.script_arg(), "update");
    assert_eq!(u.button_label(), "Update Service");
    assert_eq!(u.done_message(), "Service updated and restarted.");
}

#[test]
fn install_failure_joins_streams() {
    assert_eq!(
        install_failure_message("out", "err", "exit status: 2"),
        "Failed to install/update service: out\nerr"
    );
    assert_eq!(install_failure_message("", "err", "s"), "Failed to install/update service: err");
    assert_eq!(
        install_failure_message("", "", "exit status: 4"),
        "Failed to install/update service: Process exited with status: exit status: 4"
    );
}

#[test]
fn command_output_headings() {
    assert_eq!(command_output_message("a", "b", "s"), "STDOUT:\na\nSTDERR:\nb");
    assert_eq!(command_output_message("", "b", "s"), "\nSTDERR:\nb");
    assert_eq!(command_output_message("a", "", "s"), "STDOUT:\na");
    assert_eq!(command_output_message("", "", "exit status: 0"), "Process exited with status: exit status: 0");
}

#[test]
fn words_split_on_unicode_whitespace() {
    assert_eq!(split_words("  a\tbb\u{3000}c \u{85}d\n"), args(&["a", "bb", "c", "d"]));
    assert!(split_words(" \t ").is_empty());
    let s = "x  y\u{a0}z\u{2028}";
    let std_words: Vec<String> = s.split_whitespace().map(|w| w.to_string()).collect();
    assert_eq!(split_words(s), std_words);
}
