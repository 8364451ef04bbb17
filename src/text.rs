//! Character-level text handling: whitespace, trimming and splitting, over
//! `Seq<char>` models with executable counterparts on `Vec<char>` ranges.

use vstd::prelude::*;

verus! {

/// The characters with the Unicode `White_Space` property, which is what
/// `char::is_whitespace` tests.
pub open spec fn is_space(c: char) -> bool {
    let n = c as u32;
    (9 <= n <= 13) || n == 32 || n == 0x85 || n == 0xa0 || n == 0x1680 || (0x2000 <= n
        <= 0x200a) || n == 0x2028 || n == 0x2029 || n == 0x202f || n == 0x205f || n == 0x3000
}

pub fn is_space_char(c: char) -> (r: bool)
    ensures
        r == is_space(c),
{
    let n = c as u32;
    (9 <= n && n <= 13) || n == 32 || n == 0x85 || n == 0xa0 || n == 0x1680 || (0x2000 <= n && n
        <= 0x200a) || n == 0x2028 || n == 0x2029 || n == 0x202f || n == 0x205f || n == 0x3000
}

/// What separates the pieces of a text: a line feed, or any whitespace.
pub enum Sep {
    Newline,
    Space,
}

impl Sep {
    pub open spec fn holds(self, c: char) -> bool {
        match self {
            Sep::Newline => c == '\n',
            Sep::Space => is_space(c),
        }
    }

    pub fn test(&self, c: char) -> (r: bool)
        ensures
            r == self.holds(c),
    {
        match self {
            Sep::Newline => c == '\n',
            Sep::Space => is_space_char(c),
        }
    }
}

/// The pieces of `s` between separators, empty ones included: with `k`
/// separators there are `k + 1` pieces (as `str::split` yields them).
pub open spec fn split_by(s: Seq<char>, sep: Sep) -> Seq<Seq<char>>
    decreases s.len(),
{
    if s.len() == 0 {
        seq![Seq::empty()]
    } else {
        let rest = split_by(s.drop_first(), sep);
        if sep.holds(s[0]) {
            seq![Seq::empty()] + rest
        } else {
            rest.update(0, seq![s[0]] + rest[0])
        }
    }
}

/// The lines of a text, split at each line feed.
pub open spec fn lines(s: Seq<char>) -> Seq<Seq<char>> {
    split_by(s, Sep::Newline)
}

pub open spec fn drop_empty(ps: Seq<Seq<char>>) -> Seq<Seq<char>>
    decreases ps.len(),
{
    if ps.len() == 0 {
        seq![]
    } else if ps[0].len() == 0 {
        drop_empty(ps.drop_first())
    } else {
        seq![ps[0]] + drop_empty(ps.drop_first())
    }
}

/// The non-empty runs of non-whitespace characters (as `str::split_whitespace`
/// yields them).
pub open spec fn words(s: Seq<char>) -> Seq<Seq<char>> {
    drop_empty(split_by(s, Sep::Space))
}

/// The lines joined, each ended by a line feed.
pub open spec fn join_lines(ls: Seq<Seq<char>>) -> Seq<char>
    decreases ls.len(),
{
    if ls.len() == 0 {
        Seq::empty()
    } else {
        ls[0] + seq!['\n'] + join_lines(ls.drop_first())
    }
}

/// The pieces joined, a single space between each two.
pub open spec fn spaced(ps: Seq<Seq<char>>) -> Seq<char>
    decreases ps.len(),
{
    if ps.len() == 0 {
        Seq::empty()
    } else if ps.len() == 1 {
        ps[0]
    } else {
        spaced(ps.drop_last()) + seq![' '] + ps.last()
    }
}

pub open spec fn no_sep(s: Seq<char>, sep: Sep) -> bool {
    forall|i: int| 0 <= i < s.len() ==> !sep.holds(#[trigger] s[i])
}

pub open spec fn trim_start(s: Seq<char>) -> Seq<char>
    decreases s.len(),
{
    if s.len() > 0 && is_space(s[0]) {
        trim_start(s.drop_first())
    } else {
        s
    }
}

pub open spec fn trim_end(s: Seq<char>) -> Seq<char>
    decreases s.len(),
{
    if s.len() > 0 && is_space(s.last()) {
        trim_end(s.drop_last())
    } else {
        s
    }
}

/// `s` without leading and trailing whitespace (as `str::trim` gives it).
pub open spec fn trim(s: Seq<char>) -> Seq<char> {
    trim_end(trim_start(s))
}

pub open spec fn starts_with(s: Seq<char>, p: Seq<char>) -> bool {
    p.len() <= s.len() && s.take(p.len() as int) == p
}

/// The position of the first `c` in `s`, if any.
pub open spec fn find<A>(s: Seq<A>, c: A) -> Option<int>
    decreases s.len(),
{
    if s.len() == 0 {
        None
    } else if s[0] == c {
        Some(0)
    } else {
        match find(s.drop_first(), c) {
            Some(k) => Some(k + 1),
            None => None,
        }
    }
}

pub proof fn lemma_split_nonempty(s: Seq<char>, sep: Sep)
    ensures
        split_by(s, sep).len() >= 1,
    decreases s.len(),
{
    if s.len() > 0 {
        lemma_split_nonempty(s.drop_first(), sep);
    }
}

/// A text without separators is a single piece.
pub proof fn lemma_split_plain(s: Seq<char>, sep: Sep)
    requires
        no_sep(s, sep),
    ensures
        split_by(s, sep) == seq![s],
    decreases s.len(),
{
    if s.len() > 0 {
        let t = s.drop_first();
        assert(no_sep(t, sep)) by {
            assert forall|i: int| 0 <= i < t.len() implies !sep.holds(#[trigger] t[i]) by {
                assert(t[i] == s[i + 1]);
            }
        }
        lemma_split_plain(t, sep);
        assert(!sep.holds(s[0]));
        assert(seq![s[0]] + t =~= s);
        assert(seq![t].update(0, seq![s[0]] + t) =~= seq![s]);
    } else {
        assert(s =~= Seq::<char>::empty());
    }
}

/// A separator right after a piece without separators ends that piece.
pub proof fn lemma_split_at(x: Seq<char>, c: char, y: Seq<char>, sep: Sep)
    requires
        no_sep(x, sep),
        sep.holds(c),
    ensures
        split_by(x + seq![c] + y, sep) == seq![x] + split_by(y, sep),
    decreases x.len(),
{
    let s = x + seq![c] + y;
    if x.len() == 0 {
        assert(s.drop_first() =~= y);
        assert(x =~= Seq::<char>::empty());
    } else {
        let t = x.drop_first();
        assert(no_sep(t, sep)) by {
            assert forall|i: int| 0 <= i < t.len() implies !sep.holds(#[trigger] t[i]) by {
                assert(t[i] == x[i + 1]);
            }
        }
        lemma_split_at(t, c, y, sep);
        assert(s.drop_first() =~= t + seq![c] + y);
        assert(s[0] == x[0]);
        assert(!sep.holds(x[0]));
        assert(seq![x[0]] + t =~= x);
        assert((seq![t] + split_by(y, sep)).update(0, seq![x[0]] + t) =~= seq![x] + split_by(
            y,
            sep,
        ));
    }
}

/// Splitting at a separator splits the text into the pieces of each side.
pub proof fn lemma_split_concat(x: Seq<char>, c: char, y: Seq<char>, sep: Sep)
    requires
        sep.holds(c),
    ensures
        split_by(x + seq![c] + y, sep) == split_by(x, sep) + split_by(y, sep),
    decreases x.len(),
{
    let s = x + seq![c] + y;
    if x.len() == 0 {
        assert(s.drop_first() =~= y);
        assert(split_by(x, sep) =~= seq![Seq::<char>::empty()]);
        assert(seq![Seq::<char>::empty()] + split_by(y, sep) =~= split_by(x, sep) + split_by(y, sep));
    } else {
        let t = x.drop_first();
        lemma_split_concat(t, c, y, sep);
        lemma_split_nonempty(t, sep);
        assert(s.drop_first() =~= t + seq![c] + y);
        assert(s[0] == x[0]);
        if sep.holds(x[0]) {
            assert(seq![Seq::<char>::empty()] + (split_by(t, sep) + split_by(y, sep)) =~= (seq![
                Seq::<char>::empty(),
            ] + split_by(t, sep)) + split_by(y, sep));
        } else {
            let a = split_by(t, sep);
            let b = split_by(y, sep);
            assert((a + b).update(0, seq![x[0]] + (a + b)[0]) =~= a.update(0, seq![x[0]] + a[0])
                + b);
        }
    }
}

pub proof fn lemma_drop_empty_concat(a: Seq<Seq<char>>, b: Seq<Seq<char>>)
    ensures
        drop_empty(a + b) == drop_empty(a) + drop_empty(b),
    decreases a.len(),
{
    if a.len() == 0 {
        assert(a + b =~= b);
        assert(seq![] + drop_empty(b) =~= drop_empty(b));
    } else {
        lemma_drop_empty_concat(a.drop_first(), b);
        assert((a + b).drop_first() =~= a.drop_first() + b);
        assert((a + b)[0] == a[0]);
        if a[0].len() > 0 {
            assert(seq![a[0]] + (drop_empty(a.drop_first()) + drop_empty(b)) =~= (seq![a[0]]
                + drop_empty(a.drop_first())) + drop_empty(b));
        }
    }
}

/// The words on both sides of a whitespace character.
pub proof fn lemma_words_concat(x: Seq<char>, c: char, y: Seq<char>)
    requires
        is_space(c),
    ensures
        words(x + seq![c] + y) == words(x) + words(y),
{
    lemma_split_concat(x, c, y, Sep::Space);
    lemma_drop_empty_concat(split_by(x, Sep::Space), split_by(y, Sep::Space));
}

/// Whitespace cut from the front of a text takes no word with it.
pub proof fn lemma_words_trim_start(s: Seq<char>)
    ensures
        words(trim_start(s)) == words(s),
    decreases s.len(),
{
    if s.len() > 0 && is_space(s[0]) {
        let rest = s.drop_first();
        lemma_words_trim_start(rest);
        lemma_words_concat(Seq::empty(), s[0], rest);
        assert(Seq::<char>::empty() + seq![s[0]] + rest =~= s);
        lemma_words_plain(Seq::<char>::empty());
        assert(Seq::<Seq<char>>::empty() + words(rest) =~= words(rest));
    }
}

/// Whitespace cut from the end of a text takes no word with it.
pub proof fn lemma_words_trim_end(s: Seq<char>)
    ensures
        words(trim_end(s)) == words(s),
    decreases s.len(),
{
    if s.len() > 0 && is_space(s.last()) {
        let rest = s.drop_last();
        lemma_words_trim_end(rest);
        lemma_words_concat(rest, s.last(), Seq::empty());
        assert(rest + seq![s.last()] + Seq::<char>::empty() =~= s);
        lemma_words_plain(Seq::<char>::empty());
        assert(words(rest) + Seq::<Seq<char>>::empty() =~= words(rest));
    }
}

/// Trimming keeps the words.
pub proof fn lemma_words_trim(s: Seq<char>)
    ensures
        words(trim(s)) == words(s),
{
    lemma_words_trim_start(s);
    lemma_words_trim_end(trim_start(s));
}

/// A last character that is not whitespace stays last after trimming.
pub proof fn lemma_trim_keeps_last(s: Seq<char>)
    requires
        s.len() > 0,
        !is_space(s.last()),
    ensures
        trim(s).len() > 0,
        trim(s).last() == s.last(),
{
    lemma_trim_start_keeps_last(s);
}

proof fn lemma_trim_start_keeps_last(s: Seq<char>)
    requires
        s.len() > 0,
        !is_space(s.last()),
    ensures
        trim_start(s).len() > 0,
        trim_start(s).last() == s.last(),
        trim_end(trim_start(s)) == trim_start(s),
    decreases s.len(),
{
    if is_space(s[0]) {
        assert(s.len() >= 2);
        let rest = s.drop_first();
        assert(rest.last() == s.last());
        lemma_trim_start_keeps_last(rest);
    }
}

/// Words of a piece without whitespace, a space, and the rest.
pub proof fn lemma_words_at(x: Seq<char>, c: char, y: Seq<char>)
    requires
        no_sep(x, Sep::Space),
        is_space(c),
    ensures
        words(x + seq![c] + y) == (if x.len() == 0 {
            seq![]
        } else {
            seq![x]
        }) + words(y),
{
    lemma_split_at(x, c, y, Sep::Space);
    let ps = seq![x] + split_by(y, Sep::Space);
    assert(ps.drop_first() =~= split_by(y, Sep::Space));
    if x.len() == 0 {
        assert(seq![] + words(y) =~= words(y));
    }
}

/// The words of a text without whitespace.
pub proof fn lemma_words_plain(x: Seq<char>)
    requires
        no_sep(x, Sep::Space),
    ensures
        words(x) == (if x.len() == 0 {
            seq![]
        } else {
            seq![x]
        }),
{
    lemma_split_plain(x, Sep::Space);
    assert(seq![x].drop_first() =~= Seq::<Seq<char>>::empty());
    assert(drop_empty(Seq::<Seq<char>>::empty()) == Seq::<Seq<char>>::empty());
    if x.len() > 0 {
        assert(seq![x] + Seq::<Seq<char>>::empty() =~= seq![x]);
    }
}

/// The characters of `s`, in order.
pub fn chars_of(s: &str) -> (r: Vec<char>)
    ensures
        r@ == s@,
{
    let n = s.unicode_len();
    let mut r: Vec<char> = Vec::with_capacity(n);
    let mut i: usize = 0;
    while i < n
        invariant
            n == s@.len(),
            i <= n,
            r@ == s@.take(i as int),
        decreases n - i,
    {
        r.push(s.get_char(i));
        i = i + 1;
        assert(r@ =~= s@.take(i as int));
    }
    assert(s@.take(n as int) =~= s@);
    r
}

pub proof fn lemma_no_sep_concat(a: Seq<char>, b: Seq<char>, sep: Sep)
    requires
        no_sep(a, sep),
        no_sep(b, sep),
    ensures
        no_sep(a + b, sep),
{
    assert forall|i: int| 0 <= i < (a + b).len() implies !sep.holds(#[trigger] (a + b)[i]) by {
        if i < a.len() {
            assert((a + b)[i] == a[i]);
        } else {
            assert((a + b)[i] == b[i - a.len()]);
        }
    }
}

/// A text without whitespace has no line feed either.
pub proof fn lemma_no_space_no_newline(s: Seq<char>)
    requires
        no_sep(s, Sep::Space),
    ensures
        no_sep(s, Sep::Newline),
{
    assert forall|i: int| 0 <= i < s.len() implies !Sep::Newline.holds(#[trigger] s[i]) by {
        assert(!is_space(s[i]));
    }
}

pub proof fn lemma_trim_end_prefix(s: Seq<char>)
    ensures
        trim_end(s).len() <= s.len(),
        trim_end(s) == s.take(trim_end(s).len() as int),
    decreases s.len(),
{
    if s.len() > 0 && is_space(s.last()) {
        lemma_trim_end_prefix(s.drop_last());
        assert(s.drop_last().take(trim_end(s).len() as int) =~= s.take(trim_end(s).len() as int));
    } else {
        assert(s.take(s.len() as int) =~= s);
    }
}

/// Trimming leaves a text alone whose ends are not whitespace.
pub proof fn lemma_trim_plain(s: Seq<char>)
    requires
        s.len() > 0,
        !is_space(s[0]),
        !is_space(s.last()),
    ensures
        trim(s) == s,
{
}

/// The first character that is left after trimming is the first of the text,
/// where that one is not whitespace.
pub proof fn lemma_trim_first(s: Seq<char>)
    requires
        s.len() > 0,
        !is_space(s[0]),
    ensures
        trim(s).len() == 0 || trim(s)[0] == s[0],
{
    lemma_trim_end_prefix(s);
}

pub proof fn lemma_join_push(ls: Seq<Seq<char>>, l: Seq<char>)
    ensures
        join_lines(ls.push(l)) == join_lines(ls) + l + seq!['\n'],
    decreases ls.len(),
{
    if ls.len() == 0 {
        assert(ls.push(l).drop_first() =~= Seq::<Seq<char>>::empty());
        assert(join_lines(Seq::<Seq<char>>::empty()) == Seq::<char>::empty());
        assert(ls.push(l)[0] == l);
        assert(join_lines(ls.push(l)) =~= join_lines(ls) + l + seq!['\n']);
    } else {
        lemma_join_push(ls.drop_first(), l);
        assert(ls.push(l).drop_first() =~= ls.drop_first().push(l));
        assert(join_lines(ls.push(l)) =~= join_lines(ls) + l + seq!['\n']);
    }
}

pub proof fn lemma_spaced_front(ps: Seq<Seq<char>>)
    requires
        ps.len() >= 2,
    ensures
        spaced(ps) == ps[0] + seq![' '] + spaced(ps.drop_first()),
    decreases ps.len(),
{
    if ps.len() > 2 {
        let dl = ps.drop_last();
        let df = ps.drop_first();
        lemma_spaced_front(dl);
        assert(dl.drop_first() =~= df.drop_last());
        assert(df.last() == ps.last());
        assert(dl[0] == ps[0]);
        assert(spaced(df) == spaced(df.drop_last()) + seq![' '] + df.last());
        assert(spaced(ps) =~= ps[0] + seq![' '] + spaced(ps.drop_first()));
    } else {
        assert(ps.drop_first().len() == 1);
        assert(ps.drop_last().len() == 1);
        assert(spaced(ps.drop_first()) == ps[1]);
        assert(spaced(ps.drop_last()) == ps[0]);
    }
}

/// Words without whitespace, joined by spaces, split back into the
/// non-empty ones; and the joined text has no line feed.
pub proof fn lemma_spaced_words(ps: Seq<Seq<char>>)
    requires
        forall|i: int| 0 <= i < ps.len() ==> no_sep(#[trigger] ps[i], Sep::Space),
    ensures
        words(spaced(ps)) == drop_empty(ps),
        no_sep(spaced(ps), Sep::Newline),
    decreases ps.len(),
{
    if ps.len() == 0 {
        assert(spaced(ps) =~= Seq::<char>::empty());
        lemma_words_plain(Seq::<char>::empty());
        assert(drop_empty(ps) == Seq::<Seq<char>>::empty());
    } else if ps.len() == 1 {
        assert(no_sep(ps[0], Sep::Space));
        lemma_words_plain(ps[0]);
        lemma_no_space_no_newline(ps[0]);
        assert(ps.drop_first() =~= Seq::<Seq<char>>::empty());
        assert(drop_empty(Seq::<Seq<char>>::empty()) == Seq::<Seq<char>>::empty());
        if ps[0].len() > 0 {
            assert(seq![ps[0]] + Seq::<Seq<char>>::empty() =~= seq![ps[0]]);
        }
    } else {
        let rest = ps.drop_first();
        assert forall|i: int| 0 <= i < rest.len() implies no_sep(#[trigger] rest[i], Sep::Space) by {
            assert(rest[i] == ps[i + 1]);
        }
        lemma_spaced_words(rest);
        lemma_spaced_front(ps);
        assert(no_sep(ps[0], Sep::Space));
        lemma_words_at(ps[0], ' ', spaced(rest));
        if ps[0].len() == 0 {
            assert(seq![] + drop_empty(rest) =~= drop_empty(rest));
        }
        lemma_no_space_no_newline(ps[0]);
        assert(no_sep(seq![' '], Sep::Newline));
        lemma_no_sep_concat(ps[0], seq![' '], Sep::Newline);
        lemma_no_sep_concat(ps[0] + seq![' '], spaced(rest), Sep::Newline);
    }
}

pub proof fn lemma_drop_empty_none(ps: Seq<Seq<char>>)
    requires
        forall|i: int| 0 <= i < ps.len() ==> (#[trigger] ps[i]).len() > 0,
    ensures
        drop_empty(ps) == ps,
    decreases ps.len(),
{
    if ps.len() > 0 {
        let rest = ps.drop_first();
        assert forall|i: int| 0 <= i < rest.len() implies (#[trigger] rest[i]).len() > 0 by {
            assert(rest[i] == ps[i + 1]);
        }
        lemma_drop_empty_none(rest);
        assert(seq![ps[0]] + rest =~= ps);
    }
}

/// Joined lines without line feeds split back into those lines, and the
/// empty text after the last line feed.
pub proof fn lemma_lines_join(ls: Seq<Seq<char>>)
    requires
        forall|i: int| 0 <= i < ls.len() ==> no_sep(#[trigger] ls[i], Sep::Newline),
    ensures
        lines(join_lines(ls)) == ls + seq![Seq::<char>::empty()],
    decreases ls.len(),
{
    if ls.len() == 0 {
        assert(join_lines(ls) =~= Seq::<char>::empty());
        assert(ls + seq![Seq::<char>::empty()] =~= seq![Seq::<char>::empty()]);
    } else {
        let rest = ls.drop_first();
        assert forall|i: int| 0 <= i < rest.len() implies no_sep(#[trigger] rest[i], Sep::Newline) by {
            assert(rest[i] == ls[i + 1]);
        }
        lemma_lines_join(rest);
        assert(no_sep(ls[0], Sep::Newline));
        lemma_split_at(ls[0], '\n', join_lines(rest), Sep::Newline);
        assert(seq![ls[0]] + (rest + seq![Seq::<char>::empty()]) =~= ls + seq![Seq::<char>::empty()]);
    }
}

/// Whether `s` is the text `lit`.
pub fn str_is(s: &str, lit: &str) -> (r: bool)
    ensures
        r == (s@ == lit@),
{
    let n = lit.unicode_len();
    if s.unicode_len() != n {
        return false;
    }
    let mut i: usize = 0;
    while i < n
        invariant
            n == lit@.len(),
            n == s@.len(),
            i <= n,
            forall|j: int| 0 <= j < i ==> s@[j] == lit@[j],
        decreases n - i,
    {
        if s.get_char(i) != lit.get_char(i) {
            return false;
        }
        i = i + 1;
    }
    assert(s@ =~= lit@);
    true
}

/// Whether `s` begins with the text `lit`.
pub fn str_starts_with(s: &str, lit: &str) -> (r: bool)
    ensures
        r == starts_with(s@, lit@),
{
    let n = lit.unicode_len();
    if s.unicode_len() < n {
        return false;
    }
    let mut i: usize = 0;
    while i < n
        invariant
            n == lit@.len(),
            n <= s@.len(),
            i <= n,
            forall|j: int| 0 <= j < i ==> s@[j] == lit@[j],
        decreases n - i,
    {
        if s.get_char(i) != lit.get_char(i) {
            assert(s@.take(n as int)[i as int] != lit@[i as int]);
            return false;
        }
        i = i + 1;
    }
    assert(s@.take(n as int) =~= lit@);
    true
}

/// The texts that a list of ranges picks out of `c`.
pub open spec fn range_texts(c: Seq<char>, rs: Seq<(usize, usize)>) -> Seq<Seq<char>> {
    rs.map_values(|p: (usize, usize)| c.subrange(p.0 as int, p.1 as int))
}

pub open spec fn ranges_within(rs: Seq<(usize, usize)>, a: int, b: int) -> bool {
    forall|i: int| 0 <= i < rs.len() ==> a <= (#[trigger] rs[i]).0 <= rs[i].1 <= b
}

pub proof fn lemma_find<A>(s: Seq<A>, c: A)
    ensures
        match find(s, c) {
            Some(k) => 0 <= k < s.len() && s[k] == c && forall|j: int| 0 <= j < k ==> s[j] != c,
            None => forall|j: int| 0 <= j < s.len() ==> s[j] != c,
        },
    decreases s.len(),
{
    if s.len() > 0 && s[0] != c {
        let t = s.drop_first();
        lemma_find(t, c);
        assert forall|j: int| 0 < j < s.len() implies s[j] == t[j - 1] by {}
    }
}

/// Whether `c[a..b]` is the text `lit`.
pub fn range_is(c: &Vec<char>, a: usize, b: usize, lit: &str) -> (r: bool)
    requires
        a <= b <= c@.len(),
    ensures
        r == (c@.subrange(a as int, b as int) == lit@),
{
    let n = lit.unicode_len();
    if b - a != n {
        return false;
    }
    let mut i: usize = 0;
    while i < n
        invariant
            n == lit@.len(),
            b - a == n,
            a <= b <= c@.len(),
            i <= n,
            forall|j: int| 0 <= j < i ==> c@[a + j] == lit@[j],
        decreases n - i,
    {
        if c[a + i] != lit.get_char(i) {
            assert(c@.subrange(a as int, b as int)[i as int] != lit@[i as int]);
            return false;
        }
        i = i + 1;
    }
    assert(c@.subrange(a as int, b as int) =~= lit@);
    true
}

/// Whether `c[a..b]` begins with the text `lit`.
pub fn range_starts_with(c: &Vec<char>, a: usize, b: usize, lit: &str) -> (r: bool)
    requires
        a <= b <= c@.len(),
    ensures
        r == starts_with(c@.subrange(a as int, b as int), lit@),
{
    let n = lit.unicode_len();
    if b - a < n {
        return false;
    }
    let r = range_is(c, a, a + n, lit);
    assert(c@.subrange(a as int, b as int).take(n as int) =~= c@.subrange(a as int, (a + n) as int));
    r
}

/// The position of the first `ch` in `c[a..b]`.
pub fn find_in(c: &Vec<char>, a: usize, b: usize, ch: char) -> (r: Option<usize>)
    requires
        a <= b <= c@.len(),
    ensures
        match find(c@.subrange(a as int, b as int), ch) {
            Some(k) => r == Some((a + k) as usize),
            None => r is None,
        },
{
    let ghost s = c@.subrange(a as int, b as int);
    let mut i: usize = a;
    while i < b
        invariant
            a <= i <= b <= c@.len(),
            s == c@.subrange(a as int, b as int),
            forall|j: int| a <= j < i ==> c@[j] != ch,
        decreases b - i,
    {
        if c[i] == ch {
            proof {
                lemma_find(s, ch);
                assert(s[i - a] == ch);
                if let Some(k) = find(s, ch) {
                    assert(s[k] == c@[a + k]);
                    assert(k == i - a);
                }
            }
            return Some(i);
        }
        i = i + 1;
    }
    proof {
        lemma_find(s, ch);
        if let Some(k) = find(s, ch) {
            assert(s[k] == c@[a + k]);
        }
    }
    None
}

/// The range of `c[a..b]` that is left once its whitespace ends are cut.
pub fn trim_range(c: &Vec<char>, a: usize, b: usize) -> (r: (usize, usize))
    requires
        a <= b <= c@.len(),
    ensures
        a <= r.0 <= r.1 <= b,
        c@.subrange(r.0 as int, r.1 as int) == trim(c@.subrange(a as int, b as int)),
{
    let mut i: usize = a;
    while i < b && is_space_char(c[i])
        invariant
            a <= i <= b <= c@.len(),
            trim_start(c@.subrange(a as int, b as int)) == trim_start(
                c@.subrange(i as int, b as int),
            ),
        decreases b - i,
    {
        assert(c@.subrange(i as int, b as int).drop_first() =~= c@.subrange(
            (i + 1) as int,
            b as int,
        ));
        i = i + 1;
    }
    let mut j: usize = b;
    while j > i && is_space_char(c[j - 1])
        invariant
            a <= i <= j <= b <= c@.len(),
            trim_end(c@.subrange(i as int, b as int)) == trim_end(c@.subrange(i as int, j as int)),
        decreases j - i,
    {
        assert(c@.subrange(i as int, j as int).drop_last() =~= c@.subrange(
            i as int,
            (j - 1) as int,
        ));
        j = j - 1;
    }
    (i, j)
}

/// The ranges of the pieces of `c[a..b]` between separators.
pub fn split_ranges(c: &Vec<char>, a: usize, b: usize, sep: &Sep) -> (r: Vec<(usize, usize)>)
    requires
        a <= b <= c@.len(),
    ensures
        ranges_within(r@, a as int, b as int),
        range_texts(c@, r@) == split_by(c@.subrange(a as int, b as int), *sep),
{
    let mut r: Vec<(usize, usize)> = Vec::new();
    let mut cur: usize = a;
    let mut i: usize = a;
    while i < b
        invariant
            a <= cur <= i <= b <= c@.len(),
            ranges_within(r@, a as int, b as int),
            no_sep(c@.subrange(cur as int, i as int), *sep),
            split_by(c@.subrange(a as int, b as int), *sep) == range_texts(c@, r@) + split_by(
                c@.subrange(cur as int, b as int),
                *sep,
            ),
        decreases b - i,
    {
        if sep.test(c[i]) {
            proof {
                let x = c@.subrange(cur as int, i as int);
                let y = c@.subrange(i + 1, b as int);
                assert(c@.subrange(cur as int, b as int) =~= x + seq![c@[i as int]] + y);
                lemma_split_at(x, c@[i as int], y, *sep);
                assert(range_texts(c@, r@.push((cur, i))) =~= range_texts(c@, r@) + seq![x]);
            }
            r.push((cur, i));
            cur = i + 1;
            assert(c@.subrange(cur as int, (i + 1) as int) =~= Seq::<char>::empty());
        } else {
            assert(c@.subrange(cur as int, (i + 1) as int) =~= c@.subrange(cur as int, i as int)
                + seq![c@[i as int]]);
        }
        i = i + 1;
    }
    proof {
        let x = c@.subrange(cur as int, b as int);
        lemma_split_plain(x, *sep);
        assert(range_texts(c@, r@.push((cur, b))) =~= range_texts(c@, r@) + seq![x]);
    }
    r.push((cur, b));
    r
}

/// The ranges of the words of `c[a..b]`.
pub fn word_ranges(c: &Vec<char>, a: usize, b: usize) -> (r: Vec<(usize, usize)>)
    requires
        a <= b <= c@.len(),
    ensures
        ranges_within(r@, a as int, b as int),
        range_texts(c@, r@) == words(c@.subrange(a as int, b as int)),
{
    let mut r: Vec<(usize, usize)> = Vec::new();
    let mut cur: usize = a;
    let mut i: usize = a;
    while i < b
        invariant
            a <= cur <= i <= b <= c@.len(),
            ranges_within(r@, a as int, b as int),
            no_sep(c@.subrange(cur as int, i as int), Sep::Space),
            words(c@.subrange(a as int, b as int)) == range_texts(c@, r@) + words(
                c@.subrange(cur as int, b as int),
            ),
        decreases b - i,
    {
        if is_space_char(c[i]) {
            proof {
                let x = c@.subrange(cur as int, i as int);
                let y = c@.subrange(i + 1, b as int);
                assert(c@.subrange(cur as int, b as int) =~= x + seq![c@[i as int]] + y);
                lemma_words_at(x, c@[i as int], y);
                if cur < i {
                    assert(range_texts(c@, r@.push((cur, i))) =~= range_texts(c@, r@) + seq![x]);
                } else {
                    assert(range_texts(c@, r@) + (seq![] + words(y)) =~= range_texts(c@, r@)
                        + words(y));
                }
            }
            if cur < i {
                r.push((cur, i));
            }
            cur = i + 1;
            assert(c@.subrange(cur as int, (i + 1) as int) =~= Seq::<char>::empty());
        } else {
            assert(c@.subrange(cur as int, (i + 1) as int) =~= c@.subrange(cur as int, i as int)
                + seq![c@[i as int]]);
        }
        i = i + 1;
    }
    proof {
        let x = c@.subrange(cur as int, b as int);
        lemma_words_plain(x);
        if cur < b {
            assert(range_texts(c@, r@.push((cur, b))) =~= range_texts(c@, r@) + seq![x]);
        } else {
            assert(range_texts(c@, r@) + seq![] =~= range_texts(c@, r@));
        }
    }
    if cur < b {
        r.push((cur, b));
    }
    r
}

pub open spec fn string_texts(v: Seq<String>) -> Seq<Seq<char>> {
    v.map_values(|x: String| x@)
}

/// The words of `s`, as `str::split_whitespace` yields them.
pub fn split_words(s: &str) -> (r: Vec<String>)
    ensures
        string_texts(r@) == words(s@),
{
    let c = chars_of(s);
    let ws = word_ranges(&c, 0, c.len());
    assert(c@.subrange(0, c@.len() as int) =~= s@);
    let mut r: Vec<String> = Vec::new();
    let mut i: usize = 0;
    while i < ws.len()
        invariant
            c@ == s@,
            i <= ws@.len(),
            ranges_within(ws@, 0, c@.len() as int),
            string_texts(r@) == range_texts(c@, ws@).take(i as int),
        decreases ws@.len() - i,
    {
        let (a, b) = ws[i];
        assert(ws@[i as int].0 <= ws@[i as int].1);
        let w = String::from_str(s.substring_char(a, b));
        let ghost before = string_texts(r@);
        r.push(w);
        assert(string_texts(r@) =~= before.push(c@.subrange(a as int, b as int)));
        assert(range_texts(c@, ws@).take(i + 1) =~= range_texts(c@, ws@).take(i as int).push(
            c@.subrange(a as int, b as int),
        ));
        i = i + 1;
    }
    assert(range_texts(c@, ws@).take(i as int) =~= range_texts(c@, ws@));
    r
}

} // verus!
