//! Reading back the settings that a service unit's `ExecStart=` command
//! line holds, so that a form can start from them.

use vstd::prelude::*;
use crate::decimal::{read_i32, read_i32_range};
use crate::text::{
    Sep, chars_of, find, lemma_find, lines, range_is, range_starts_with, range_texts,
    split_ranges, starts_with, trim, trim_range, word_ranges, words,
};

verus! {

/// The settings found on `ExecStart=` lines; a field stays `None` where no
/// flag for it was seen.
pub struct ServiceSettings {
    pub index: Option<String>,
    pub power_limit: Option<i32>,
    pub freq_offset: Option<i32>,
    pub mem_offset: Option<i32>,
    pub min_clock: Option<i32>,
    pub max_clock: Option<i32>,
}

pub ghost struct SettingsModel {
    pub index: Option<Seq<char>>,
    pub power_limit: Option<i32>,
    pub freq_offset: Option<i32>,
    pub mem_offset: Option<i32>,
    pub min_clock: Option<i32>,
    pub max_clock: Option<i32>,
}

impl View for ServiceSettings {
    type V = SettingsModel;

    open spec fn view(&self) -> SettingsModel {
        SettingsModel {
            index: match self.index {
                Some(s) => Some(s@),
                None => None,
            },
            power_limit: self.power_limit,
            freq_offset: self.freq_offset,
            mem_offset: self.mem_offset,
            min_clock: self.min_clock,
            max_clock: self.max_clock,
        }
    }
}

pub open spec fn no_settings() -> SettingsModel {
    SettingsModel {
        index: None,
        power_limit: None,
        freq_offset: None,
        mem_offset: None,
        min_clock: None,
        max_clock: None,
    }
}

/// `s` with every leading copy of `p` cut off (as `str::trim_start_matches`).
pub open spec fn strip_prefixes(s: Seq<char>, p: Seq<char>) -> Seq<char>
    decreases s.len(),
{
    if p.len() > 0 && starts_with(s, p) {
        strip_prefixes(s.skip(p.len() as int), p)
    } else {
        s
    }
}

/// `s` without a pair of enclosing double quotes.
pub open spec fn unquote(s: Seq<char>) -> Seq<char> {
    if s.len() >= 2 && s[0] == '"' && s.last() == '"' {
        s.subrange(1, s.len() - 1)
    } else {
        s
    }
}

/// The words of the command on an `ExecStart=` line, or `None` for another line.
pub open spec fn exec_words(line: Seq<char>) -> Option<Seq<Seq<char>>> {
    let t = trim(line);
    if starts_with(t, "ExecStart="@) {
        Some(words(unquote(trim(strip_prefixes(t, "ExecStart="@)))))
    } else {
        None
    }
}

pub open spec fn is_flag(w: Seq<char>) -> bool {
    w == "--index"@ || w == "--power-limit"@ || w == "--freq-offset"@ || w == "--mem-offset"@
        || w == "--min-clock"@ || w == "--max-clock"@
}

/// The settings after the value `v` is given to the flag `flag`: the index
/// as it stands, the numbers as read, or `None` where they do not read.
pub open spec fn set_flag(st: SettingsModel, flag: Seq<char>, v: Seq<char>) -> SettingsModel {
    if flag == "--index"@ {
        SettingsModel { index: Some(v), ..st }
    } else if flag == "--power-limit"@ {
        SettingsModel { power_limit: read_i32(v), ..st }
    } else if flag == "--freq-offset"@ {
        SettingsModel { freq_offset: read_i32(v), ..st }
    } else if flag == "--mem-offset"@ {
        SettingsModel { mem_offset: read_i32(v), ..st }
    } else if flag == "--min-clock"@ {
        SettingsModel { min_clock: read_i32(v), ..st }
    } else {
        SettingsModel { max_clock: read_i32(v), ..st }
    }
}

/// Reads flags from `ws`: a flag takes the word after it as its value, and
/// any other word is passed over.
pub open spec fn scan_flags(ws: Seq<Seq<char>>, st: SettingsModel) -> SettingsModel
    decreases ws.len(),
{
    if ws.len() == 0 {
        st
    } else if is_flag(ws[0]) {
        if ws.len() >= 2 {
            scan_flags(ws.skip(2), set_flag(st, ws[0], ws[1]))
        } else {
            st
        }
    } else {
        scan_flags(ws.drop_first(), st)
    }
}

/// The flags of a command are read after its first word `set`.
pub open spec fn apply_command(ws: Seq<Seq<char>>, st: SettingsModel) -> SettingsModel {
    match find(ws, "set"@) {
        Some(k) => scan_flags(ws.skip(k + 1), st),
        None => st,
    }
}

pub open spec fn apply_line(line: Seq<char>, st: SettingsModel) -> SettingsModel {
    match exec_words(line) {
        Some(ws) => apply_command(ws, st),
        None => st,
    }
}

/// The settings after reading the lines in order: a later line overrides
/// what an earlier one gave.
pub open spec fn settings_of_lines(ls: Seq<Seq<char>>) -> SettingsModel
    decreases ls.len(),
{
    if ls.len() == 0 {
        no_settings()
    } else {
        apply_line(ls.last(), settings_of_lines(ls.drop_last()))
    }
}

pub open spec fn service_settings(text: Seq<char>) -> SettingsModel {
    settings_of_lines(lines(text))
}

impl ServiceSettings {
    pub fn new() -> (r: ServiceSettings)
        ensures
            r@ == no_settings(),
    {
        ServiceSettings {
            index: None,
            power_limit: None,
            freq_offset: None,
            mem_offset: None,
            min_clock: None,
            max_clock: None,
        }
    }
}

/// Gives the flag `c[fa..fb]` the value `c[va..vb]`.
fn set_flag_range(
    text: &str,
    c: &Vec<char>,
    fa: usize,
    fb: usize,
    va: usize,
    vb: usize,
    st: &mut ServiceSettings,
)
    requires
        c@ == text@,
        fa <= fb <= c@.len(),
        va <= vb <= c@.len(),
        is_flag(c@.subrange(fa as int, fb as int)),
    ensures
        final(st)@ == set_flag(
            old(st)@,
            c@.subrange(fa as int, fb as int),
            c@.subrange(va as int, vb as int),
        ),
{
    if range_is(c, fa, fb, "--index") {
        let v = String::from_str(text.substring_char(va, vb));
        st.index = Some(v);
    } else if range_is(c, fa, fb, "--power-limit") {
        st.power_limit = read_i32_range(c, va, vb);
    } else if range_is(c, fa, fb, "--freq-offset") {
        st.freq_offset = read_i32_range(c, va, vb);
    } else if range_is(c, fa, fb, "--mem-offset") {
        st.mem_offset = read_i32_range(c, va, vb);
    } else if range_is(c, fa, fb, "--min-clock") {
        st.min_clock = read_i32_range(c, va, vb);
    } else {
        st.max_clock = read_i32_range(c, va, vb);
    }
}

fn is_flag_range(c: &Vec<char>, a: usize, b: usize) -> (r: bool)
    requires
        a <= b <= c@.len(),
    ensures
        r == is_flag(c@.subrange(a as int, b as int)),
{
    range_is(c, a, b, "--index") || range_is(c, a, b, "--power-limit") || range_is(
        c,
        a,
        b,
        "--freq-offset",
    ) || range_is(c, a, b, "--mem-offset") || range_is(c, a, b, "--min-clock") || range_is(
        c,
        a,
        b,
        "--max-clock",
    )
}

/// Applies the command whose words are at `ws` in `c`.
fn apply_command_ranges(text: &str, c: &Vec<char>, ws: &Vec<(usize, usize)>, st: &mut ServiceSettings)
    requires
        c@ == text@,
        forall|i: int| 0 <= i < ws@.len() ==> (#[trigger] ws@[i]).0 <= ws@[i].1 <= c@.len(),
    ensures
        final(st)@ == apply_command(range_texts(c@, ws@), old(st)@),
{
    let ghost w = range_texts(c@, ws@);
    let n = ws.len();
    let mut k: usize = 0;
    while k < n
        invariant
            n == ws@.len(),
            k <= n,
            w == range_texts(c@, ws@),
            forall|i: int| 0 <= i < ws@.len() ==> (#[trigger] ws@[i]).0 <= ws@[i].1 <= c@.len(),
            forall|j: int| 0 <= j < k ==> w[j] != "set"@,
        ensures
            k <= n,
            forall|j: int| 0 <= j < k ==> w[j] != "set"@,
            k < n ==> w[k as int] == "set"@,
        decreases n - k,
    {
        if range_is(c, ws[k].0, ws[k].1, "set") {
            break;
        }
        k = k + 1;
    }
    proof {
        lemma_find(w, "set"@);
    }
    if k == n {
        return;
    }
    assert(w[k as int] == "set"@);
    assert(find(w, "set"@) == Some(k as int));
    let ghost st0 = st@;
    let mut i: usize = k + 1;
    while i < n
        invariant
            n == ws@.len(),
            k < i <= n,
            w == range_texts(c@, ws@),
            c@ == text@,
            forall|j: int| 0 <= j < ws@.len() ==> (#[trigger] ws@[j]).0 <= ws@[j].1 <= c@.len(),
            scan_flags(w.skip(k + 1), st0) == scan_flags(w.skip(i as int), st@),
        decreases n - i,
    {
        let (fa, fb) = ws[i];
        assert(w.skip(i as int)[0] == c@.subrange(fa as int, fb as int));
        if is_flag_range(c, fa, fb) {
            if i + 1 < n {
                let (va, vb) = ws[i + 1];
                assert(w.skip(i as int)[1] == c@.subrange(va as int, vb as int));
                assert(w.skip(i as int).skip(2) =~= w.skip(i + 2));
                set_flag_range(text, c, fa, fb, va, vb, st);
                i = i + 2;
            } else {
                i = n;
            }
        } else {
            assert(w.skip(i as int).drop_first() =~= w.skip(i + 1));
            i = i + 1;
        }
    }
    assert(w.skip(i as int) =~= Seq::<Seq<char>>::empty());
}

/// Applies the line `c[a..b]`.
fn apply_line_range(text: &str, c: &Vec<char>, a: usize, b: usize, st: &mut ServiceSettings)
    requires
        c@ == text@,
        a <= b <= c@.len(),
    ensures
        final(st)@ == apply_line(c@.subrange(a as int, b as int), old(st)@),
{
    let ghost line = c@.subrange(a as int, b as int);
    let prefix = "ExecStart=";
    proof {
        reveal_strlit("ExecStart=");
    }
    let (ta, tb) = trim_range(c, a, b);
    if !range_starts_with(c, ta, tb, prefix) {
        return;
    }
    let n = prefix.unicode_len();
    let mut s: usize = ta;
    while range_starts_with(c, s, tb, prefix)
        invariant
            ta <= s <= tb <= c@.len(),
            n == prefix@.len(),
            n == 10,
            prefix@ == "ExecStart="@,
            strip_prefixes(c@.subrange(ta as int, tb as int), prefix@) == strip_prefixes(
                c@.subrange(s as int, tb as int),
                prefix@,
            ),
        decreases tb - s,
    {
        assert(c@.subrange(s as int, tb as int).skip(n as int) =~= c@.subrange(
            (s + n) as int,
            tb as int,
        ));
        s = s + n;
    }
    let (ua, ub) = trim_range(c, s, tb);
    let ghost u = c@.subrange(ua as int, ub as int);
    let (qa, qb) = if ub - ua >= 2 && c[ua] == '"' && c[ub - 1] == '"' {
        assert(u.subrange(1, u.len() - 1) =~= c@.subrange(ua + 1, ub - 1));
        (ua + 1, ub - 1)
    } else {
        (ua, ub)
    };
    assert(c@.subrange(qa as int, qb as int) == unquote(u));
    let ws = word_ranges(c, qa, qb);
    apply_command_ranges(text, c, &ws, st);
}

/// The settings that the `ExecStart=` lines of a systemd unit give to the
/// flags after the command's first word `set`.
pub fn parse_service_unit(text: &str) -> (r: ServiceSettings)
    ensures
        r@ == service_settings(text@),
{
    let c = chars_of(text);
    let ls = split_ranges(&c, 0, c.len(), &Sep::Newline);
    assert(c@.subrange(0, c@.len() as int) =~= text@);
    let ghost texts = range_texts(c@, ls@);
    let mut st = ServiceSettings::new();
    let mut i: usize = 0;
    while i < ls.len()
        invariant
            c@ == text@,
            texts == range_texts(c@, ls@),
            texts == lines(text@),
            i <= ls@.len(),
            forall|j: int| 0 <= j < ls@.len() ==> (#[trigger] ls@[j]).0 <= ls@[j].1 <= c@.len(),
            st@ == settings_of_lines(texts.take(i as int)),
        decreases ls@.len() - i,
    {
        let (a, b) = ls[i];
        assert(texts.take(i + 1).drop_last() =~= texts.take(i as int));
        apply_line_range(text, &c, a, b, &mut st);
        i = i + 1;
    }
    assert(texts.take(i as int) =~= texts);
    st
}

} // verus!
