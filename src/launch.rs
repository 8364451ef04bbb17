//! Decisions taken before the program does its work: whether the GUI was
//! asked for, which config file it is to use, what a re-launched GUI process
//! is handed, and how to gain root.

use vstd::prelude::*;
use crate::text::{starts_with, str_is, str_starts_with};

verus! {

/// Where the configuration is read from when no `--file` is given.
pub const DEFAULT_CONFIG_PATH: &'static str = "/etc/nvidia_oc.json";

pub open spec fn arg_texts(args: Seq<String>) -> Seq<Seq<char>> {
    args.map_values(|a: String| a@)
}

pub open spec fn is_gui_flag(a: Seq<char>) -> bool {
    a == "--gui"@ || a == "--gui=true"@
}

pub open spec fn is_file_flag(a: Seq<char>) -> bool {
    a == "--file"@ || a == "-f"@
}

/// The config file values given in `args`, in order: the word after each
/// `--file` or `-f` (which that word does not count as an option itself),
/// and the rest of each `--file=...`.
pub open spec fn file_values(args: Seq<Seq<char>>) -> Seq<Seq<char>>
    decreases args.len(),
{
    if args.len() == 0 {
        seq![]
    } else if is_file_flag(args[0]) {
        if args.len() >= 2 {
            seq![args[1]] + file_values(args.skip(2))
        } else {
            seq![]
        }
    } else if starts_with(args[0], "--file="@) {
        seq![args[0].skip(7)] + file_values(args.drop_first())
    } else {
        file_values(args.drop_first())
    }
}

/// The arguments that carry the config file options of `args` over to a
/// new process: `--file <v>` for each separate value, each `--file=...` as
/// it stands.
pub open spec fn forwarded_file_args(args: Seq<Seq<char>>) -> Seq<Seq<char>>
    decreases args.len(),
{
    if args.len() == 0 {
        seq![]
    } else if is_file_flag(args[0]) {
        if args.len() >= 2 {
            seq!["--file"@, args[1]] + forwarded_file_args(args.skip(2))
        } else {
            seq![]
        }
    } else if starts_with(args[0], "--file="@) {
        seq![args[0]] + forwarded_file_args(args.drop_first())
    } else {
        forwarded_file_args(args.drop_first())
    }
}

/// The config file that the last file option names, or the default one.
pub open spec fn config_path(args: Seq<Seq<char>>) -> Seq<char> {
    let vs = file_values(args);
    if vs.len() == 0 {
        DEFAULT_CONFIG_PATH@
    } else {
        vs.last()
    }
}

/// Whether any argument is `--gui` or `--gui=true`.
pub fn wants_gui(args: &Vec<String>) -> (r: bool)
    ensures
        r == exists|i: int| 0 <= i < args@.len() && is_gui_flag(#[trigger] args@[i]@),
{
    let mut i: usize = 0;
    while i < args.len()
        invariant
            i <= args@.len(),
            forall|j: int| 0 <= j < i ==> !is_gui_flag(#[trigger] args@[j]@),
        decreases args@.len() - i,
    {
        let a = args[i].as_str();
        if str_is(a, "--gui") || str_is(a, "--gui=true") {
            assert(is_gui_flag(args@[i as int]@));
            return true;
        }
        i = i + 1;
    }
    false
}

fn rest_after(a: &String, k: usize) -> (r: String)
    requires
        k <= a@.len(),
    ensures
        r@ == a@.skip(k as int),
{
    let s = a.as_str();
    let n = s.unicode_len();
    String::from_str(s.substring_char(k, n))
}

/// The config file values given in `args`, in order.
pub fn file_option_values(args: &Vec<String>) -> (r: Vec<String>)
    ensures
        arg_texts(r@) == file_values(arg_texts(args@)),
{
    let ghost all = arg_texts(args@);
    let mut r: Vec<String> = Vec::new();
    let mut i: usize = 0;
    proof {
        reveal_strlit("--file=");
        assert(all.skip(0) =~= all);
        assert(arg_texts(r@) + file_values(all) =~= file_values(all));
    }
    while i < args.len()
        invariant
            i <= args@.len(),
            all == arg_texts(args@),
            "--file="@.len() == 7,
            file_values(all) == arg_texts(r@) + file_values(all.skip(i as int)),
        decreases args@.len() - i,
    {
        let ghost rest = all.skip(i as int);
        let ghost before = arg_texts(r@);
        assert(rest[0] == args@[i as int]@);
        let a = args[i].as_str();
        if str_is(a, "--file") || str_is(a, "-f") {
            if i + 1 < args.len() {
                assert(rest[1] == args@[i + 1]@);
                assert(rest.skip(2) =~= all.skip(i + 2));
                r.push(args[i + 1].clone());
                assert(arg_texts(r@) =~= before.push(args@[i + 1]@));
                assert(before + file_values(rest) =~= arg_texts(r@) + file_values(all.skip(i + 2)));
                i = i + 2;
            } else {
                assert(all.skip(args@.len() as int) =~= Seq::<Seq<char>>::empty());
                assert(file_values(rest) == Seq::<Seq<char>>::empty());
                assert(before + file_values(rest) =~= before + file_values(
                    Seq::<Seq<char>>::empty(),
                ));
                i = args.len();
            }
        } else if str_starts_with(a, "--file=") {
            let v = rest_after(&args[i], 7);
            r.push(v);
            assert(rest.drop_first() =~= all.skip(i + 1));
            assert(arg_texts(r@) =~= before.push(rest[0].skip(7)));
            assert(before + file_values(rest) =~= arg_texts(r@) + file_values(all.skip(i + 1)));
            i = i + 1;
        } else {
            assert(rest.drop_first() =~= all.skip(i + 1));
            i = i + 1;
        }
    }
    assert(all.skip(i as int) =~= Seq::<Seq<char>>::empty());
    assert(arg_texts(r@) + file_values(Seq::<Seq<char>>::empty()) =~= arg_texts(r@));
    r
}

/// The arguments that carry the config file options of `args` over to a
/// re-launched process.
pub fn gui_child_args(args: &Vec<String>) -> (r: Vec<String>)
    ensures
        arg_texts(r@) == forwarded_file_args(arg_texts(args@)),
{
    let ghost all = arg_texts(args@);
    let mut r: Vec<String> = Vec::new();
    let mut i: usize = 0;
    proof {
        reveal_strlit("--file=");
        assert(all.skip(0) =~= all);
        assert(arg_texts(r@) + forwarded_file_args(all) =~= forwarded_file_args(all));
    }
    while i < args.len()
        invariant
            i <= args@.len(),
            all == arg_texts(args@),
            forwarded_file_args(all) == arg_texts(r@) + forwarded_file_args(all.skip(i as int)),
        decreases args@.len() - i,
    {
        let ghost rest = all.skip(i as int);
        let ghost before = arg_texts(r@);
        assert(rest[0] == args@[i as int]@);
        let a = args[i].as_str();
        if str_is(a, "--file") || str_is(a, "-f") {
            if i + 1 < args.len() {
                assert(rest[1] == args@[i + 1]@);
                assert(rest.skip(2) =~= all.skip(i + 2));
                r.push(String::from_str("--file"));
                r.push(args[i + 1].clone());
                assert(arg_texts(r@) =~= before + seq!["--file"@, args@[i + 1]@]);
                assert(before + forwarded_file_args(rest) =~= arg_texts(r@) + forwarded_file_args(
                    all.skip(i + 2),
                ));
                i = i + 2;
            } else {
                assert(all.skip(args@.len() as int) =~= Seq::<Seq<char>>::empty());
                assert(forwarded_file_args(rest) == Seq::<Seq<char>>::empty());
                assert(before + forwarded_file_args(rest) =~= before + forwarded_file_args(
                    Seq::<Seq<char>>::empty(),
                ));
                i = args.len();
            }
        } else if str_starts_with(a, "--file=") {
            r.push(args[i].clone());
            assert(rest.drop_first() =~= all.skip(i + 1));
            assert(arg_texts(r@) =~= before.push(rest[0]));
            assert(before + forwarded_file_args(rest) =~= arg_texts(r@) + forwarded_file_args(
                all.skip(i + 1),
            ));
            i = i + 1;
        } else {
            assert(rest.drop_first() =~= all.skip(i + 1));
            i = i + 1;
        }
    }
    assert(all.skip(i as int) =~= Seq::<Seq<char>>::empty());
    assert(arg_texts(r@) + forwarded_file_args(Seq::<Seq<char>>::empty()) =~= arg_texts(r@));
    r
}

/// The config file that a GUI started with `args` is to use: the value of
/// the last file option, or the default path.
pub fn gui_config_path(args: &Vec<String>) -> (r: String)
    ensures
        r@ == config_path(arg_texts(args@)),
{
    let vs = file_option_values(args);
    let n = vs.len();
    if n == 0 {
        String::from_str(DEFAULT_CONFIG_PATH)
    } else {
        assert(vs@[n - 1]@ == arg_texts(vs@).last());
        vs[n - 1].clone()
    }
}

/// How root is gained before the GPU is changed.
#[derive(Clone, Copy, Debug, PartialEq, Eq, Structural)]
pub enum Escalation {
    /// The process already runs as root.
    AlreadyRoot,
    Sudo,
    Doas,
    Pkexec,
}

/// None of `sudo`, `doas` and `pkexec` is installed.
#[derive(Clone, Copy, Debug, PartialEq, Eq, Structural)]
pub enum EscalationError {
    NoTool,
}

/// Picks how to gain root: nothing to do as root, else the first of `sudo`,
/// `doas` and `pkexec` that is installed.
pub fn choose_escalation(running_as_root: bool, has_sudo: bool, has_doas: bool, has_pkexec: bool) -> (r:
    Result<Escalation, EscalationError>)
    ensures
        r == (if running_as_root {
            Ok::<Escalation, EscalationError>(Escalation::AlreadyRoot)
        } else if has_sudo {
            Ok(Escalation::Sudo)
        } else if has_doas {
            Ok(Escalation::Doas)
        } else if has_pkexec {
            Ok(Escalation::Pkexec)
        } else {
            Err(EscalationError::NoTool)
        }),
{
    if running_as_root {
        Ok(Escalation::AlreadyRoot)
    } else if has_sudo {
        Ok(Escalation::Sudo)
    } else if has_doas {
        Ok(Escalation::Doas)
    } else if has_pkexec {
        Ok(Escalation::Pkexec)
    } else {
        Err(EscalationError::NoTool)
    }
}

impl EscalationError {
    pub fn message(&self) -> (r: &'static str)
        ensures
            r@ == "Please install sudo, doas or pkexec and try again. Alternatively, run the program as root."@,
    {
        "Please install sudo, doas or pkexec and try again. Alternatively, run the program as root."
    }
}

} // verus!
