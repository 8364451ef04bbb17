//! The GUI's form: its starting values, what the service button does and
//! says, and the messages that report how a command went.

use vstd::prelude::*;
use crate::service::ServiceSettings;

verus! {

/// The values the form starts with. The power limit is in milliwatts, the
/// clocks and offsets in MHz.
pub struct FormValues {
    pub gpu_index: String,
    pub power_limit: i32,
    pub freq_offset: i32,
    pub mem_offset: i32,
    pub min_clock: i32,
    pub max_clock: i32,
}

pub const DEFAULT_POWER_LIMIT: i32 = 400_000;

pub const DEFAULT_MAX_CLOCK: i32 = 3800;

impl FormValues {
    /// The settings read from an installed service, with defaults for what
    /// it does not give: GPU `0`, a 400 W power limit, no offsets, clocks
    /// from 0 to 3800 MHz.
    pub fn from_settings(s: &ServiceSettings) -> (r: FormValues)
        ensures
            r.gpu_index@ == (match s@.index {
                Some(i) => i,
                None => "0"@,
            }),
            r.power_limit == s@.power_limit.unwrap_or(DEFAULT_POWER_LIMIT),
            r.freq_offset == s@.freq_offset.unwrap_or(0),
            r.mem_offset == s@.mem_offset.unwrap_or(0),
            r.min_clock == s@.min_clock.unwrap_or(0),
            r.max_clock == s@.max_clock.unwrap_or(DEFAULT_MAX_CLOCK),
    {
        let gpu_index = match &s.index {
            Some(i) => i.clone(),
            None => String::from_str("0"),
        };
        FormValues {
            gpu_index,
            power_limit: match s.power_limit {
                Some(p) => p,
                None => DEFAULT_POWER_LIMIT,
            },
            freq_offset: match s.freq_offset {
                Some(f) => f,
                None => 0,
            },
            mem_offset: match s.mem_offset {
                Some(m) => m,
                None => 0,
            },
            min_clock: match s.min_clock {
                Some(c) => c,
                None => 0,
            },
            max_clock: match s.max_clock {
                Some(c) => c,
                None => DEFAULT_MAX_CLOCK,
            },
        }
    }
}

/// Whether the service button installs a new unit or replaces one.
#[derive(Clone, Copy, Debug, PartialEq, Eq, Structural)]
pub enum ServiceAction {
    Create,
    Update,
}

impl ServiceAction {
    pub fn for_unit(exists: bool) -> (r: ServiceAction)
        ensures
            r == (if exists {
                ServiceAction::Update
            } else {
                ServiceAction::Create
            }),
    {
        if exists {
            ServiceAction::Update
        } else {
            ServiceAction::Create
        }
    }

    /// The word that tells the install script what to do.
    pub fn script_arg(&self) -> (r: &'static str)
        ensures
            r@ == (match self {
                ServiceAction::Create => "create"@,
                ServiceAction::Update => "update"@,
            }),
    {
        match self {
            ServiceAction::Create => "create",
            ServiceAction::Update => "update",
        }
    }

    pub fn button_label(&self) -> (r: &'static str)
        ensures
            r@ == (match self {
                ServiceAction::Create => "Create Service"@,
                ServiceAction::Update => "Update Service"@,
            }),
    {
        match self {
            ServiceAction::Create => "Create Service",
            ServiceAction::Update => "Update Service",
        }
    }

    pub fn done_message(&self) -> (r: &'static str)
        ensures
            r@ == (match self {
                ServiceAction::Create => "Service created, enabled and started."@,
                ServiceAction::Update => "Service updated and restarted."@,
            }),
    {
        match self {
            ServiceAction::Create => "Service created, enabled and started.",
            ServiceAction::Update => "Service updated and restarted.",
        }
    }
}

pub open spec fn exit_text(status: Seq<char>) -> Seq<char> {
    "Process exited with status: "@ + status
}

/// Why installing the service failed: what the script printed, its
/// standard output and then its standard error on a new line, or where it
/// printed nothing, its exit status.
pub open spec fn install_failure_text(out: Seq<char>, err: Seq<char>, status: Seq<char>) -> Seq<
    char,
> {
    "Failed to install/update service: "@ + if out.len() == 0 && err.len() == 0 {
        exit_text(status)
    } else if out.len() > 0 && err.len() > 0 {
        out + "\n"@ + err
    } else {
        out + err
    }
}

/// What a command printed, each stream under its own heading, or where it
/// printed nothing, its exit status.
pub open spec fn command_output_text(out: Seq<char>, err: Seq<char>, status: Seq<char>) -> Seq<
    char,
> {
    if out.len() == 0 && err.len() == 0 {
        exit_text(status)
    } else {
        (if out.len() > 0 {
            "STDOUT:\n"@ + out
        } else {
            Seq::empty()
        }) + (if err.len() > 0 {
            "\nSTDERR:\n"@ + err
        } else {
            Seq::empty()
        })
    }
}

pub fn install_failure_message(out: &str, err: &str, status: &str) -> (r: String)
    ensures
        r@ == install_failure_text(out@, err@, status@),
{
    let mut r = String::from_str("Failed to install/update service: ");
    let no_out = out.unicode_len() == 0;
    let no_err = err.unicode_len() == 0;
    if no_out && no_err {
        r.append("Process exited with status: ");
        r.append(status);
    } else {
        r.append(out);
        if !no_out && !no_err {
            r.append("\n");
        }
        r.append(err);
    }
    assert(r@ =~= install_failure_text(out@, err@, status@));
    r
}

pub fn command_output_message(out: &str, err: &str, status: &str) -> (r: String)
    ensures
        r@ == command_output_text(out@, err@, status@),
{
    let no_out = out.unicode_len() == 0;
    let no_err = err.unicode_len() == 0;
    let mut r = String::new();
    if no_out && no_err {
        r.append("Process exited with status: ");
        r.append(status);
    } else {
        if !no_out {
            r.append("STDOUT:\n");
            r.append(out);
        }
        if !no_err {
            r.append("\nSTDERR:\n");
            r.append(err);
        }
    }
    assert(r@ =~= command_output_text(out@, err@, status@));
    r
}

} // verus!
