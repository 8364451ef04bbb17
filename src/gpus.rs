//! The GPU choices offered in the GUI, read from a listing in the form that
//! `nvidia-smi -L` prints: `GPU <index>: <name> (UUID: ...)`.

use vstd::prelude::*;
use crate::text::{
    Sep, chars_of, find, find_in, lemma_find, lines, range_starts_with, range_texts, split_ranges,
    starts_with, trim, trim_range,
};

verus! {

/// `s` up to its first `c`, or all of it.
pub open spec fn before(s: Seq<char>, c: char) -> Seq<char> {
    match find(s, c) {
        Some(k) => s.take(k),
        None => s,
    }
}

/// The index and the label that a line of the listing gives: for
/// `GPU <i>: <name> (<details>)` the index `<i>` and the label
/// `GPU <i>: <name>`, each part trimmed.
pub open spec fn gpu_entry(line: Seq<char>) -> Option<(Seq<char>, Seq<char>)> {
    if starts_with(line, "GPU "@) {
        let rest = line.skip(4);
        match find(rest, ':') {
            Some(k) => {
                let index = trim(rest.take(k));
                let name = trim(before(trim(rest.skip(k + 1)), '('));
                Some((index, "GPU "@ + index + ": "@ + name))
            },
            None => None,
        }
    } else {
        None
    }
}

pub open spec fn gpu_entries(ls: Seq<Seq<char>>) -> Seq<(Seq<char>, Seq<char>)>
    decreases ls.len(),
{
    if ls.len() == 0 {
        seq![]
    } else {
        gpu_entries(ls.drop_last()) + match gpu_entry(ls.last()) {
            Some(e) => seq![e],
            None => seq![],
        }
    }
}

/// The entries of the listing's lines, in order; a listing without any
/// offers GPU 0 alone.
pub open spec fn gpu_choices(listing: Seq<char>) -> Seq<(Seq<char>, Seq<char>)> {
    let es = gpu_entries(lines(listing));
    if es.len() == 0 {
        seq![("0"@, "GPU 0 (default)"@)]
    } else {
        es
    }
}

pub open spec fn pair_text(p: (String, String)) -> (Seq<char>, Seq<char>) {
    (p.0@, p.1@)
}

pub open spec fn pair_texts(v: Seq<(String, String)>) -> Seq<(Seq<char>, Seq<char>)> {
    v.map_values(|p: (String, String)| pair_text(p))
}

/// The entry of the line `c[a..b]`.
fn entry_of_line(text: &str, c: &Vec<char>, a: usize, b: usize) -> (r: Option<(String, String)>)
    requires
        c@ == text@,
        a <= b <= c@.len(),
    ensures
        match gpu_entry(c@.subrange(a as int, b as int)) {
            Some(e) => r is Some && pair_text(r->0) == e,
            None => r is None,
        },
{
    let ghost line = c@.subrange(a as int, b as int);
    let prefix = "GPU ";
    proof {
        reveal_strlit("GPU ");
    }
    if !range_starts_with(c, a, b, prefix) {
        return None;
    }
    let s = a + 4;
    let ghost rest = line.skip(4);
    assert(rest =~= c@.subrange(s as int, b as int));
    proof {
        lemma_find(rest, ':');
    }
    let colon = match find_in(c, s, b, ':') {
        Some(k) => k,
        None => {
            return None;
        },
    };
    let ghost k = colon - s;
    assert(rest.take(k) =~= c@.subrange(s as int, colon as int));
    assert(rest.skip(k + 1) =~= c@.subrange(colon + 1, b as int));
    let (ia, ib) = trim_range(c, s, colon);
    let (na, nb) = trim_range(c, colon + 1, b);
    let ghost part = c@.subrange(na as int, nb as int);
    let paren = match find_in(c, na, nb, '(') {
        Some(p) => p,
        None => nb,
    };
    proof {
        lemma_find(part, '(');
        match find(part, '(') {
            Some(p) => {
                assert(part.take(p) =~= c@.subrange(na as int, paren as int));
            },
            None => {},
        }
    }
    let (ma, mb) = trim_range(c, na, paren);
    let index = String::from_str(text.substring_char(ia, ib));
    let mut label = String::from_str(prefix);
    label.append(index.as_str());
    label.append(": ");
    label.append(text.substring_char(ma, mb));
    Some((index, label))
}

/// The GPU choices in a listing: an index and a label for each line of the
/// form `GPU <i>: <name> (...)`, or GPU 0 alone where there is none.
pub fn parse_gpu_list(listing: &str) -> (r: Vec<(String, String)>)
    ensures
        pair_texts(r@) == gpu_choices(listing@),
{
    let c = chars_of(listing);
    let ls = split_ranges(&c, 0, c.len(), &Sep::Newline);
    assert(c@.subrange(0, c@.len() as int) =~= listing@);
    let ghost texts = range_texts(c@, ls@);
    let mut r: Vec<(String, String)> = Vec::new();
    let mut i: usize = 0;
    while i < ls.len()
        invariant
            c@ == listing@,
            texts == range_texts(c@, ls@),
            texts == lines(listing@),
            i <= ls@.len(),
            forall|j: int| 0 <= j < ls@.len() ==> (#[trigger] ls@[j]).0 <= ls@[j].1 <= c@.len(),
            pair_texts(r@) == gpu_entries(texts.take(i as int)),
        decreases ls@.len() - i,
    {
        let (a, b) = ls[i];
        let ghost before_r = pair_texts(r@);
        assert(texts.take(i + 1).drop_last() =~= texts.take(i as int));
        assert(texts.take(i + 1).last() == c@.subrange(a as int, b as int));
        match entry_of_line(listing, &c, a, b) {
            Some(e) => {
                r.push(e);
                assert(pair_texts(r@) =~= before_r.push(pair_text(e)));
            },
            None => {
                assert(before_r + seq![] =~= before_r);
            },
        }
        i = i + 1;
    }
    assert(texts.take(i as int) =~= texts);
    if r.len() == 0 {
        let mut d: Vec<(String, String)> = Vec::new();
        d.push((String::from_str("0"), String::from_str("GPU 0 (default)")));
        assert(pair_texts(d@) =~= seq![("0"@, "GPU 0 (default)"@)]);
        d
    } else {
        r
    }
}

} // verus!
