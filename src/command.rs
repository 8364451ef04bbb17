//! The command line that applies one set of GPU settings, and the systemd
//! unit that runs it at boot.

use vstd::prelude::*;
use crate::decimal::{decimal, decimal_string};
use crate::text::{join_lines, lemma_join_push, spaced};

verus! {

/// The words of the command that applies the given settings, after the
/// program: `set --index <i> --power-limit <p> --freq-offset <f>
/// --mem-offset <m> --min-clock <lo> --max-clock <hi>`, the numbers in decimal.
pub open spec fn command_words(
    gpu_index: Seq<char>,
    power: int,
    freq: int,
    mem: int,
    min_clock: int,
    max_clock: int,
) -> Seq<Seq<char>> {
    seq![
        "set"@,
        "--index"@,
        gpu_index,
        "--power-limit"@,
        decimal(power),
        "--freq-offset"@,
        decimal(freq),
        "--mem-offset"@,
        decimal(mem),
        "--min-clock"@,
        decimal(min_clock),
        "--max-clock"@,
        decimal(max_clock),
    ]
}

/// The program and those words, a single space between each two.
pub open spec fn command_line(
    prog: Seq<char>,
    gpu_index: Seq<char>,
    power: int,
    freq: int,
    mem: int,
    min_clock: int,
    max_clock: int,
) -> Seq<char> {
    spaced(seq![prog] + command_words(gpu_index, power, freq, mem, min_clock, max_clock))
}

/// The lines of the unit that runs `cmd` as root at boot.
pub open spec fn unit_lines(cmd: Seq<char>) -> Seq<Seq<char>> {
    seq![
        "[Unit]"@,
        "Description=NVIDIA Overclocking Service"@,
        "After=network.target"@,
        ""@,
        "[Service]"@,
        "ExecStart="@ + cmd,
        "User=root"@,
        "Restart=on-failure"@,
        ""@,
        "[Install]"@,
        "WantedBy=multi-user.target"@,
    ]
}

pub open spec fn unit_text(cmd: Seq<char>) -> Seq<char> {
    join_lines(unit_lines(cmd))
}

/// The command line that applies the given settings to the GPU `gpu_index`
/// through the program at `prog`.
pub fn build_command(
    prog: &str,
    gpu_index: &str,
    power: i32,
    freq: i32,
    mem: i32,
    min_clock: i32,
    max_clock: i32,
) -> (r: String)
    ensures
        r@ == command_line(
            prog@,
            gpu_index@,
            power as int,
            freq as int,
            mem as int,
            min_clock as int,
            max_clock as int,
        ),
{
    let words: Vec<String> = vec![
        String::from_str("set"),
        String::from_str("--index"),
        String::from_str(gpu_index),
        String::from_str("--power-limit"),
        decimal_string(power),
        String::from_str("--freq-offset"),
        decimal_string(freq),
        String::from_str("--mem-offset"),
        decimal_string(mem),
        String::from_str("--min-clock"),
        decimal_string(min_clock),
        String::from_str("--max-clock"),
        decimal_string(max_clock),
    ];
    let ghost cw = command_words(
        gpu_index@,
        power as int,
        freq as int,
        mem as int,
        min_clock as int,
        max_clock as int,
    );
    let ghost ps = seq![prog@] + cw;
    assert forall|j: int| 0 <= j < 13 implies (#[trigger] words@[j])@ == cw[j] by {}
    let mut r = String::from_str(prog);
    assert(ps.take(1) =~= seq![prog@]);
    let mut i: usize = 0;
    while i < words.len()
        invariant
            words@.len() == 13,
            i <= 13,
            ps == seq![prog@] + cw,
            cw.len() == 13,
            forall|j: int| 0 <= j < 13 ==> (#[trigger] words@[j])@ == cw[j],
            r@ == spaced(ps.take(i + 1)),
        decreases 13 - i,
    {
        proof {
            reveal_strlit(" ");
            assert(ps.take(i + 2).drop_last() =~= ps.take(i + 1));
            assert(ps.take(i + 2).last() == words@[i as int]@);
        }
        r.append(" ");
        r.append(words[i].as_str());
        i = i + 1;
    }
    assert(ps.take(14) =~= ps);
    r
}

fn push_line(s: &mut String, line: &str)
    ensures
        final(s)@ == old(s)@ + line@ + seq!['\n'],
{
    s.append(line);
    proof {
        reveal_strlit("\n");
    }
    s.append("\n");
}

/// The systemd unit that runs `cmd` as root at boot.
pub fn service_unit(cmd: &str) -> (r: String)
    ensures
        r@ == unit_text(cmd@),
{
    let mut exec = String::from_str("ExecStart=");
    exec.append(cmd);
    let parts: [&str; 11] = [
        "[Unit]",
        "Description=NVIDIA Overclocking Service",
        "After=network.target",
        "",
        "[Service]",
        exec.as_str(),
        "User=root",
        "Restart=on-failure",
        "",
        "[Install]",
        "WantedBy=multi-user.target",
    ];
    let ghost ls = unit_lines(cmd@);
    assert forall|j: int| 0 <= j < 11 implies (#[trigger] parts@[j])@ == ls[j] by {}
    let mut r = String::new();
    let mut i: usize = 0;
    while i < 11
        invariant
            i <= 11,
            ls == unit_lines(cmd@),
            forall|j: int| 0 <= j < 11 ==> (#[trigger] parts@[j])@ == ls[j],
            r@ == join_lines(ls.take(i as int)),
        decreases 11 - i,
    {
        proof {
            lemma_join_push(ls.take(i as int), ls[i as int]);
            assert(ls.take(i as int).push(ls[i as int]) =~= ls.take(i + 1));
        }
        push_line(&mut r, parts[i]);
        i = i + 1;
    }
    assert(ls.take(11) =~= ls);
    r
}

} // verus!
