//! The law that ties writing a service unit to reading it back: the unit
//! written for a command line gives back the values on that line.

use vstd::prelude::*;
use crate::command::{command_line, command_words, unit_lines, unit_text};
use crate::decimal::{decimal, is_digit, lemma_nat_digits, lemma_read_decimal, nat_digits};
use crate::service::{
    SettingsModel, apply_command, apply_line, exec_words, is_flag, no_settings, scan_flags,
    service_settings, set_flag, settings_of_lines, strip_prefixes, unquote,
};
use crate::text::{
    Sep, find, is_space, lemma_drop_empty_none, lemma_find, lemma_lines_join, lemma_no_sep_concat,
    lemma_spaced_front, lemma_spaced_words, lemma_trim_first, lemma_trim_keeps_last,
    lemma_trim_plain, lemma_words_concat, lemma_words_trim,
    no_sep, spaced, starts_with, trim, trim_end, trim_start, words,
};

verus! {

proof fn lemma_decimal_word(n: int)
    ensures
        decimal(n).len() > 0,
        no_sep(decimal(n), Sep::Space),
        is_digit(decimal(n).last()),
{
    let m: nat = if n < 0 {
        (-n) as nat
    } else {
        n as nat
    };
    lemma_nat_digits(m);
    let s = decimal(n);
    assert forall|i: int| 0 <= i < s.len() implies !Sep::Space.holds(#[trigger] s[i]) by {
        if n < 0 {
            if i > 0 {
                assert(s[i] == nat_digits(m)[i - 1]);
                assert(is_digit(nat_digits(m)[i - 1]));
            }
        } else {
            assert(is_digit(s[i]));
        }
    }
}

proof fn lemma_literals()
    ensures
        "set"@ =~= seq!['s', 'e', 't'],
        "--index"@ =~= seq!['-', '-', 'i', 'n', 'd', 'e', 'x'],
        "--power-limit"@ =~= seq!['-', '-', 'p', 'o', 'w', 'e', 'r', '-', 'l', 'i', 'm', 'i', 't'],
        "--freq-offset"@ =~= seq!['-', '-', 'f', 'r', 'e', 'q', '-', 'o', 'f', 'f', 's', 'e', 't'],
        "--mem-offset"@ =~= seq!['-', '-', 'm', 'e', 'm', '-', 'o', 'f', 'f', 's', 'e', 't'],
        "--min-clock"@ =~= seq!['-', '-', 'm', 'i', 'n', '-', 'c', 'l', 'o', 'c', 'k'],
        "--max-clock"@ =~= seq!['-', '-', 'm', 'a', 'x', '-', 'c', 'l', 'o', 'c', 'k'],
        " set --index "@ =~= seq![' '] + "set"@ + seq![' '] + "--index"@ + seq![' '],
        " --power-limit "@ =~= seq![' '] + "--power-limit"@ + seq![' '],
        " --freq-offset "@ =~= seq![' '] + "--freq-offset"@ + seq![' '],
        " --mem-offset "@ =~= seq![' '] + "--mem-offset"@ + seq![' '],
        " --min-clock "@ =~= seq![' '] + "--min-clock"@ + seq![' '],
        " --max-clock "@ =~= seq![' '] + "--max-clock"@ + seq![' '],
        no_sep("set"@, Sep::Space),
        no_sep("--index"@, Sep::Space),
        no_sep("--power-limit"@, Sep::Space),
        no_sep("--freq-offset"@, Sep::Space),
        no_sep("--mem-offset"@, Sep::Space),
        no_sep("--min-clock"@, Sep::Space),
        no_sep("--max-clock"@, Sep::Space),
{
    reveal_strlit("set");
    reveal_strlit("--index");
    reveal_strlit("--power-limit");
    reveal_strlit("--freq-offset");
    reveal_strlit("--mem-offset");
    reveal_strlit("--min-clock");
    reveal_strlit("--max-clock");
    reveal_strlit(" set --index ");
    reveal_strlit(" --power-limit ");
    reveal_strlit(" --freq-offset ");
    reveal_strlit(" --mem-offset ");
    reveal_strlit(" --min-clock ");
    reveal_strlit(" --max-clock ");
}

proof fn lemma_command_words(
    prog: Seq<char>,
    gpu_index: Seq<char>,
    power: int,
    freq: int,
    mem: int,
    min_clock: int,
    max_clock: int,
)
    requires
        no_sep(prog, Sep::Newline),
        gpu_index.len() > 0,
        no_sep(gpu_index, Sep::Space),
    ensures
        words(command_line(prog, gpu_index, power, freq, mem, min_clock, max_clock)) == words(prog)
            + command_words(gpu_index, power, freq, mem, min_clock, max_clock),
        no_sep(command_line(prog, gpu_index, power, freq, mem, min_clock, max_clock), Sep::Newline),
{
    lemma_literals();
    lemma_decimal_word(power);
    lemma_decimal_word(freq);
    lemma_decimal_word(mem);
    lemma_decimal_word(min_clock);
    lemma_decimal_word(max_clock);
    let cw = command_words(gpu_index, power, freq, mem, min_clock, max_clock);
    let ps = seq![prog] + cw;
    assert forall|i: int| 0 <= i < cw.len() implies no_sep(#[trigger] cw[i], Sep::Space) && cw[i].len()
        > 0 by {}
    lemma_spaced_words(cw);
    lemma_drop_empty_none(cw);
    lemma_spaced_front(ps);
    assert(ps.drop_first() =~= cw);
    lemma_words_concat(prog, ' ', spaced(cw));
    assert(no_sep(seq![' '], Sep::Newline));
    lemma_no_sep_concat(prog, seq![' '], Sep::Newline);
    lemma_no_sep_concat(prog + seq![' '], spaced(cw), Sep::Newline);
}

/// Cutting leading copies of `ExecStart=` stops at the space after the
/// program at the latest.
proof fn lemma_strip_in_prog(prog: Seq<char>, tail: Seq<char>) -> (j: int)
    ensures
        0 <= j <= prog.len(),
        strip_prefixes(prog + seq![' '] + tail, "ExecStart="@) == prog.skip(j) + seq![' '] + tail,
    decreases prog.len(),
{
    reveal_strlit("ExecStart=");
    let p = "ExecStart="@;
    let s = prog + seq![' '] + tail;
    assert(no_sep(p, Sep::Space));
    if starts_with(s, p) {
        if prog.len() < 10 {
            assert(s.take(10)[prog.len() as int] == s[prog.len() as int]);
            assert(!is_space(p[prog.len() as int]));
        }
        assert(s.skip(10) =~= prog.skip(10) + seq![' '] + tail);
        let j2 = lemma_strip_in_prog(prog.skip(10), tail);
        assert(prog.skip(10).skip(j2) =~= prog.skip(10 + j2));
        10 + j2
    } else {
        assert(prog.skip(0) =~= prog);
        0
    }
}

/// A command line is its program, a space, and the spaced command words,
/// which end in a digit.
proof fn lemma_command_tail(
    prog: Seq<char>,
    gpu_index: Seq<char>,
    power: int,
    freq: int,
    mem: int,
    min_clock: int,
    max_clock: int,
)
    requires
        gpu_index.len() > 0,
        no_sep(gpu_index, Sep::Space),
    ensures
        command_line(prog, gpu_index, power, freq, mem, min_clock, max_clock) == prog + seq![' ']
            + spaced(command_words(gpu_index, power, freq, mem, min_clock, max_clock)),
        spaced(command_words(gpu_index, power, freq, mem, min_clock, max_clock)).len() > 0,
        is_digit(spaced(command_words(gpu_index, power, freq, mem, min_clock, max_clock)).last()),
        words(spaced(command_words(gpu_index, power, freq, mem, min_clock, max_clock)))
            == command_words(gpu_index, power, freq, mem, min_clock, max_clock),
{
    let cw = command_words(gpu_index, power, freq, mem, min_clock, max_clock);
    lemma_literals();
    lemma_decimal_word(power);
    lemma_decimal_word(freq);
    lemma_decimal_word(mem);
    lemma_decimal_word(min_clock);
    lemma_decimal_word(max_clock);
    assert forall|i: int| 0 <= i < cw.len() implies no_sep(#[trigger] cw[i], Sep::Space) && cw[i].len()
        > 0 by {}
    lemma_spaced_words(cw);
    lemma_drop_empty_none(cw);
    let ps = seq![prog] + cw;
    lemma_spaced_front(ps);
    assert(ps.drop_first() =~= cw);
    assert(spaced(cw) == spaced(cw.drop_last()) + seq![' '] + cw.last());
}

/// The service line for a program and the words after it is read as those
/// words, from where the cutting of `ExecStart=` copies stopped in the
/// program path on.
proof fn lemma_exec_line(prog: Seq<char>, tail: Seq<char>) -> (j: int)
    requires
        tail.len() > 0,
        is_digit(tail.last()),
    ensures
        0 <= j <= prog.len(),
        exec_words("ExecStart="@ + (prog + seq![' '] + tail)) == Some(
            words(prog.skip(j)) + words(tail),
        ),
{
    reveal_strlit("ExecStart=");
    let p = "ExecStart="@;
    let cmd = prog + seq![' '] + tail;
    let l = p + cmd;
    assert(l[0] == 'E');
    assert(l.last() == tail.last());
    lemma_trim_plain(l);
    assert(l.take(10) =~= p);
    assert(l.skip(10) =~= cmd);
    assert(strip_prefixes(l, p) == strip_prefixes(cmd, p));
    let j = lemma_strip_in_prog(prog, tail);
    let x = prog.skip(j) + seq![' '] + tail;
    assert(x.last() == tail.last());
    lemma_trim_keeps_last(x);
    assert(unquote(trim(x)) == trim(x));
    lemma_words_trim(x);
    lemma_words_concat(prog.skip(j), ' ', tail);
    j
}

/// A line that does not begin with `E`, leading whitespace aside, is no
/// `ExecStart=` line.
proof fn lemma_other_line(l: Seq<char>)
    requires
        l.len() == 0 || (!is_space(l[0]) && l[0] != 'E'),
    ensures
        exec_words(l) is None,
{
    reveal_strlit("ExecStart=");
    if l.len() == 0 {
        assert(trim_start(l) == l);
        assert(trim_end(l) == l);
    } else {
        lemma_trim_first(l);
        if starts_with(trim(l), "ExecStart="@) {
            assert(trim(l).take(10)[0] == "ExecStart="@[0]);
        }
    }
}

proof fn lemma_no_exec_lines(ls: Seq<Seq<char>>)
    requires
        forall|i: int| 0 <= i < ls.len() ==> exec_words(#[trigger] ls[i]) is None,
    ensures
        settings_of_lines(ls) == no_settings(),
    decreases ls.len(),
{
    if ls.len() > 0 {
        let d = ls.drop_last();
        assert forall|i: int| 0 <= i < d.len() implies exec_words(#[trigger] d[i]) is None by {
            assert(d[i] == ls[i]);
        }
        lemma_no_exec_lines(d);
        assert(exec_words(ls[ls.len() - 1]) is None);
    }
}

/// Where only the line `j` is an `ExecStart=` line, the settings are those
/// of that line.
proof fn lemma_one_exec_line(ls: Seq<Seq<char>>, j: int)
    requires
        0 <= j < ls.len(),
        forall|i: int| 0 <= i < ls.len() && i != j ==> exec_words(#[trigger] ls[i]) is None,
    ensures
        settings_of_lines(ls) == apply_line(ls[j], no_settings()),
    decreases ls.len(),
{
    let d = ls.drop_last();
    if j == ls.len() - 1 {
        assert forall|i: int| 0 <= i < d.len() implies exec_words(#[trigger] d[i]) is None by {
            assert(d[i] == ls[i]);
        }
        lemma_no_exec_lines(d);
    } else {
        assert forall|i: int| 0 <= i < d.len() && i != j implies exec_words(
            #[trigger] d[i],
        ) is None by {
            assert(d[i] == ls[i]);
        }
        lemma_one_exec_line(d, j);
        assert(exec_words(ls[ls.len() - 1]) is None);
    }
}

pub open spec fn full_settings(
    gpu_index: Seq<char>,
    power: i32,
    freq: i32,
    mem: i32,
    min_clock: i32,
    max_clock: i32,
) -> SettingsModel {
    SettingsModel {
        index: Some(gpu_index),
        power_limit: Some(power),
        freq_offset: Some(freq),
        mem_offset: Some(mem),
        min_clock: Some(min_clock),
        max_clock: Some(max_clock),
    }
}

/// The flags after `set` give every field, whatever was read before them.
proof fn lemma_flags_give_all(
    gpu_index: Seq<char>,
    power: i32,
    freq: i32,
    mem: i32,
    min_clock: i32,
    max_clock: i32,
    st0: SettingsModel,
)
    ensures
        scan_flags(
            command_words(
                gpu_index,
                power as int,
                freq as int,
                mem as int,
                min_clock as int,
                max_clock as int,
            ).drop_first(),
            st0,
        ) == full_settings(gpu_index, power, freq, mem, min_clock, max_clock),
{
    lemma_literals();
    lemma_read_decimal(power);
    lemma_read_decimal(freq);
    lemma_read_decimal(mem);
    lemma_read_decimal(min_clock);
    lemma_read_decimal(max_clock);
    let cw = command_words(
        gpu_index,
        power as int,
        freq as int,
        mem as int,
        min_clock as int,
        max_clock as int,
    );
    let f = cw.drop_first();
    let st1 = set_flag(st0, "--index"@, gpu_index);
    let st2 = set_flag(st1, "--power-limit"@, decimal(power as int));
    let st3 = set_flag(st2, "--freq-offset"@, decimal(freq as int));
    let st4 = set_flag(st3, "--mem-offset"@, decimal(mem as int));
    let st5 = set_flag(st4, "--min-clock"@, decimal(min_clock as int));
    let st6 = set_flag(st5, "--max-clock"@, decimal(max_clock as int));
    assert(f.skip(2) =~= cw.skip(3));
    assert(f.skip(2).skip(2) =~= cw.skip(5));
    assert(cw.skip(5).skip(2) =~= cw.skip(7));
    assert(cw.skip(7).skip(2) =~= cw.skip(9));
    assert(cw.skip(9).skip(2) =~= cw.skip(11));
    assert(cw.skip(11).skip(2) =~= Seq::<Seq<char>>::empty());
    assert(scan_flags(Seq::<Seq<char>>::empty(), st6) == st6);
    assert(scan_flags(cw.skip(11), st5) == st6);
    assert(scan_flags(cw.skip(9), st4) == st6);
    assert(scan_flags(cw.skip(7), st3) == st6);
    assert(scan_flags(cw.skip(5), st2) == st6);
    assert(scan_flags(cw.skip(3), st1) == st6);
    assert(scan_flags(f, st0) == st6);
}

/// Whatever words come before the command's own `set`, reading them falls
/// in step with its flags by the time the flags begin.
proof fn lemma_scan_into_command(
    q: Seq<Seq<char>>,
    gpu_index: Seq<char>,
    power: i32,
    freq: i32,
    mem: i32,
    min_clock: i32,
    max_clock: i32,
    st: SettingsModel,
)
    ensures
        scan_flags(
            q + command_words(
                gpu_index,
                power as int,
                freq as int,
                mem as int,
                min_clock as int,
                max_clock as int,
            ),
            st,
        ) == full_settings(gpu_index, power, freq, mem, min_clock, max_clock),
    decreases q.len(),
{
    lemma_literals();
    let cw = command_words(
        gpu_index,
        power as int,
        freq as int,
        mem as int,
        min_clock as int,
        max_clock as int,
    );
    let ws = q + cw;
    if q.len() == 0 {
        assert(ws =~= cw);
        assert(!is_flag(cw[0]));
        lemma_flags_give_all(gpu_index, power, freq, mem, min_clock, max_clock, st);
    } else if !is_flag(q[0]) {
        assert(ws.drop_first() =~= q.drop_first() + cw);
        lemma_scan_into_command(q.drop_first(), gpu_index, power, freq, mem, min_clock, max_clock, st);
    } else if q.len() >= 2 {
        assert(ws.skip(2) =~= q.skip(2) + cw);
        lemma_scan_into_command(
            q.skip(2),
            gpu_index,
            power,
            freq,
            mem,
            min_clock,
            max_clock,
            set_flag(st, q[0], q[1]),
        );
    } else {
        assert(ws.skip(2) =~= cw.drop_first());
        lemma_flags_give_all(
            gpu_index,
            power,
            freq,
            mem,
            min_clock,
            max_clock,
            set_flag(st, q[0], ws[1]),
        );
    }
}

proof fn lemma_scan_command(
    pre: Seq<Seq<char>>,
    gpu_index: Seq<char>,
    power: i32,
    freq: i32,
    mem: i32,
    min_clock: i32,
    max_clock: i32,
)
    ensures
        apply_command(
            pre + command_words(
                gpu_index,
                power as int,
                freq as int,
                mem as int,
                min_clock as int,
                max_clock as int,
            ),
            no_settings(),
        ) == full_settings(gpu_index, power, freq, mem, min_clock, max_clock),
{
    let cw = command_words(
        gpu_index,
        power as int,
        freq as int,
        mem as int,
        min_clock as int,
        max_clock as int,
    );
    let ws = pre + cw;
    lemma_find(ws, "set"@);
    assert(ws[pre.len() as int] == "set"@);
    let k = find(ws, "set"@)->0;
    if k < pre.len() {
        assert(ws.skip(k + 1) =~= pre.skip(k + 1) + cw);
        lemma_scan_into_command(
            pre.skip(k + 1),
            gpu_index,
            power,
            freq,
            mem,
            min_clock,
            max_clock,
            no_settings(),
        );
    } else {
        assert(ws.skip(k + 1) =~= cw.drop_first());
        lemma_flags_give_all(gpu_index, power, freq, mem, min_clock, max_clock, no_settings());
    }
}

/// Reading back a unit written for a command line gives the settings on that
/// line, where the program path has no line feed and the GPU index is one
/// word.
pub proof fn lemma_unit_round_trip(
    prog: Seq<char>,
    gpu_index: Seq<char>,
    power: i32,
    freq: i32,
    mem: i32,
    min_clock: i32,
    max_clock: i32,
)
    requires
        no_sep(prog, Sep::Newline),
        gpu_index.len() > 0,
        no_sep(gpu_index, Sep::Space),
    ensures
        service_settings(
            unit_text(
                command_line(
                    prog,
                    gpu_index,
                    power as int,
                    freq as int,
                    mem as int,
                    min_clock as int,
                    max_clock as int,
                ),
            ),
        ) == full_settings(gpu_index, power, freq, mem, min_clock, max_clock),
{
    let cmd = command_line(
        prog,
        gpu_index,
        power as int,
        freq as int,
        mem as int,
        min_clock as int,
        max_clock as int,
    );
    lemma_command_words(
        prog,
        gpu_index,
        power as int,
        freq as int,
        mem as int,
        min_clock as int,
        max_clock as int,
    );
    lemma_command_tail(
        prog,
        gpu_index,
        power as int,
        freq as int,
        mem as int,
        min_clock as int,
        max_clock as int,
    );
    let tail = spaced(
        command_words(
            gpu_index,
            power as int,
            freq as int,
            mem as int,
            min_clock as int,
            max_clock as int,
        ),
    );
    let j = lemma_exec_line(prog, tail);
    reveal_strlit("ExecStart=");
    assert(no_sep("ExecStart="@, Sep::Newline));
    lemma_no_sep_concat("ExecStart="@, cmd, Sep::Newline);
    lemma_scan_command(words(prog.skip(j)), gpu_index, power, freq, mem, min_clock, max_clock);
    let ul = unit_lines(cmd);
    reveal_strlit("[Unit]");
    reveal_strlit("Description=NVIDIA Overclocking Service");
    reveal_strlit("After=network.target");
    reveal_strlit("");
    reveal_strlit("[Service]");
    reveal_strlit("User=root");
    reveal_strlit("Restart=on-failure");
    reveal_strlit("[Install]");
    reveal_strlit("WantedBy=multi-user.target");
    assert forall|i: int| 0 <= i < ul.len() implies no_sep(#[trigger] ul[i], Sep::Newline) by {
        if i != 5 {
            assert(no_sep(ul[i], Sep::Newline));
        }
    }
    lemma_lines_join(ul);
    let ls = ul + seq![Seq::<char>::empty()];
    assert forall|i: int| 0 <= i < ls.len() && i != 5 implies exec_words(#[trigger] ls[i]) is None by {
        lemma_other_line(ls[i]);
    }
    lemma_one_exec_line(ls, 5);
}

} // verus!
