//! Character-level helpers shared by the parsers: line splitting, trimming
//! and conversion between strings and character vectors.
use vstd::prelude::*;
use vstd::std_specs::iter::IteratorSpec;

verus! {

broadcast use vstd::string::group_string_axioms;

/// True when `c` has the Unicode `White_Space` property, the set that
/// `char::is_whitespace` accepts.
pub open spec fn is_space(c: char) -> bool {
    c == '\t' || c == '\n' || c == '\u{0B}' || c == '\u{0C}' || c == '\r' || c == ' '
        || c == '\u{85}' || c == '\u{A0}' || c == '\u{1680}' || ('\u{2000}' <= c && c
        <= '\u{200A}') || c == '\u{2028}' || c == '\u{2029}' || c == '\u{202F}' || c
        == '\u{205F}' || c == '\u{3000}'
}

/// Executable form of `is_space`.
pub fn space(c: char) -> (r: bool)
    ensures
        r == is_space(c),
{
    c == '\t' || c == '\n' || c == '\u{0B}' || c == '\u{0C}' || c == '\r' || c == ' ' || c
        == '\u{85}' || c == '\u{A0}' || c == '\u{1680}' || ('\u{2000}' <= c && c <= '\u{200A}')
        || c == '\u{2028}' || c == '\u{2029}' || c == '\u{202F}' || c == '\u{205F}' || c
        == '\u{3000}'
}

/// The characters of `s`, in order.
pub fn chars_of(s: &str) -> (r: Vec<char>)
    ensures
        r@ == s@,
{
    let mut out: Vec<char> = Vec::new();
    let mut it = s.chars();
    loop
        invariant
            it.obeys_prophetic_iter_laws(),
            out@ + it.remaining() == s@,
            it.decrease() is Some,
        ensures
            it.remaining().len() == 0,
            out@ + it.remaining() == s@,
        decreases it.decrease()->0,
    {
        match it.next() {
            Some(c) => {
                out.push(c);
            },
            None => {
                break;
            },
        }
    }
    proof {
        assert(out@ + it.remaining() =~= out@);
    }
    out
}

/// The characters that branch listings put around a name: blanks, carriage
/// returns, tabs and the asterisk that marks the checked-out branch.
pub open spec fn is_marker(c: char) -> bool {
    c == ' ' || c == '\r' || c == '\t' || c == '*'
}

/// The class of characters that `trim` strips: markers, or else whitespace.
pub open spec fn strips(markers: bool, c: char) -> bool {
    if markers {
        is_marker(c)
    } else {
        is_space(c)
    }
}

/// `s` without its leading characters of the class.
pub open spec fn trim_start(s: Seq<char>, markers: bool) -> Seq<char>
    decreases s.len(),
{
    if s.len() > 0 && strips(markers, s[0]) {
        trim_start(s.drop_first(), markers)
    } else {
        s
    }
}

/// `s` without its trailing characters of the class.
pub open spec fn trim_end(s: Seq<char>, markers: bool) -> Seq<char>
    decreases s.len(),
{
    if s.len() > 0 && strips(markers, s.last()) {
        trim_end(s.drop_last(), markers)
    } else {
        s
    }
}

/// `s` without the characters of the class at either end.
pub open spec fn trim(s: Seq<char>, markers: bool) -> Seq<char> {
    trim_end(trim_start(s, markers), markers)
}

/// `s` cut at every newline, as `str::split('\n')` cuts it: `n` newlines
/// give `n + 1` pieces, none of which holds a newline.
pub open spec fn split_lines(s: Seq<char>) -> Seq<Seq<char>>
    decreases s.len(),
{
    if s.len() == 0 {
        seq![Seq::empty()]
    } else {
        let prev = split_lines(s.drop_last());
        if s.last() == '\n' {
            prev.push(Seq::empty())
        } else {
            prev.update(prev.len() - 1, prev.last().push(s.last()))
        }
    }
}

pub proof fn lemma_split_lines_len(s: Seq<char>)
    ensures
        split_lines(s).len() >= 1,
    decreases s.len(),
{
    if s.len() > 0 {
        lemma_split_lines_len(s.drop_last());
    }
}

/// Executable form of `strips`.
pub fn strip_char(markers: bool, c: char) -> (r: bool)
    ensures
        r == strips(markers, c),
{
    if markers {
        c == ' ' || c == '\r' || c == '\t' || c == '*'
    } else {
        space(c)
    }
}

pub proof fn lemma_trim_start_at(s: Seq<char>, markers: bool, i: int)
    requires
        0 <= i <= s.len(),
        forall|k: int| 0 <= k < i ==> strips(markers, #[trigger] s[k]),
        i == s.len() || !strips(markers, s[i]),
    ensures
        trim_start(s, markers) == s.subrange(i, s.len() as int),
    decreases i,
{
    if i == 0 {
        assert(s.subrange(0, s.len() as int) =~= s);
    } else {
        let t = s.drop_first();
        assert forall|k: int| 0 <= k < i - 1 implies strips(markers, #[trigger] t[k]) by {
            assert(t[k] == s[k + 1]);
        }
        if i - 1 < t.len() {
            assert(t[i - 1] == s[i]);
        }
        lemma_trim_start_at(t, markers, i - 1);
        assert(t.subrange(i - 1, t.len() as int) =~= s.subrange(i, s.len() as int));
    }
}

pub proof fn lemma_trim_end_at(s: Seq<char>, markers: bool, j: int)
    requires
        0 <= j <= s.len(),
        forall|k: int| j <= k < s.len() ==> strips(markers, #[trigger] s[k]),
        j == 0 || !strips(markers, s[j - 1]),
    ensures
        trim_end(s, markers) == s.subrange(0, j),
    decreases s.len() - j,
{
    if j == s.len() {
        assert(s.subrange(0, j) =~= s);
    } else {
        let t = s.drop_last();
        assert forall|k: int| j <= k < t.len() implies strips(markers, #[trigger] t[k]) by {
            assert(t[k] == s[k]);
        }
        if j > 0 {
            assert(t[j - 1] == s[j - 1]);
        }
        lemma_trim_end_at(t, markers, j);
        assert(t.subrange(0, j) =~= s.subrange(0, j));
    }
}

/// The bounds of `trim(line@, markers)` within `line`.
pub fn trim_span(line: &Vec<char>, markers: bool) -> (r: (usize, usize))
    ensures
        r.0 <= r.1 <= line@.len(),
        line@.subrange(r.0 as int, r.1 as int) == trim(line@, markers),
{
    let n = line.len();
    let mut i: usize = 0;
    while i < n && strip_char(markers, line[i])
        invariant
            n == line@.len(),
            i <= n,
            forall|k: int| 0 <= k < i ==> strips(markers, #[trigger] line@[k]),
        decreases n - i,
    {
        i = i + 1;
    }
    proof {
        lemma_trim_start_at(line@, markers, i as int);
    }
    let ghost rest = line@.subrange(i as int, n as int);
    let mut j: usize = n;
    while j > i && strip_char(markers, line[j - 1])
        invariant
            n == line@.len(),
            i <= j <= n,
            rest == line@.subrange(i as int, n as int),
            forall|k: int| j <= k < n ==> strips(markers, #[trigger] line@[k]),
        decreases j,
    {
        j = j - 1;
    }
    proof {
        assert forall|k: int| j - i <= k < rest.len() implies strips(markers, #[trigger] rest[k]) by {
            assert(rest[k] == line@[k + i]);
        }
        if j > i {
            assert(rest[j - i - 1] == line@[j - 1]);
        }
        lemma_trim_end_at(rest, markers, j - i);
        assert(rest.subrange(0, j - i) =~= line@.subrange(i as int, j as int));
    }
    (i, j)
}

/// The contents of each character vector of `v`.
pub open spec fn views(v: Seq<Vec<char>>) -> Seq<Seq<char>> {
    v.map_values(|l: Vec<char>| l@)
}

/// The lines of `s`: the pieces between newlines, as `split_lines` gives them.
pub fn lines_of(s: &str) -> (r: Vec<Vec<char>>)
    ensures
        views(r@) == split_lines(s@),
{
    let cs = chars_of(s);
    let mut done: Vec<Vec<char>> = Vec::new();
    let mut cur: Vec<char> = Vec::new();
    let mut k: usize = 0;
    while k < cs.len()
        invariant
            cs@ == s@,
            k <= cs@.len(),
            views(done@).push(cur@) == split_lines(cs@.subrange(0, k as int)),
        decreases cs@.len() - k,
    {
        let c = cs[k];
        let ghost pre = cs@.subrange(0, k as int);
        let ghost next = cs@.subrange(0, k + 1);
        assert(next.drop_last() =~= pre);
        proof {
            lemma_split_lines_len(pre);
        }
        if c == '\n' {
            let ghost before = views(done@);
            let line = cur;
            done.push(line);
            cur = Vec::new();
            assert(views(done@) =~= before.push(line@));
            assert(views(done@).push(cur@) =~= split_lines(next));
        } else {
            let ghost before = views(done@).push(cur@);
            cur.push(c);
            assert(views(done@).push(cur@) =~= before.update(
                before.len() - 1,
                before.last().push(c),
            ));
        }
        k = k + 1;
    }
    assert(cs@.subrange(0, k as int) =~= cs@);
    let ghost before = views(done@);
    done.push(cur);
    assert(views(done@) =~= before.push(cur@));
    done
}

/// Relies on `String::push`: appends `c` at the end of the string.
#[verifier::external_body]
pub(crate) fn push_char(s: &mut String, c: char)
    ensures
        final(s)@ == old(s)@.push(c),
{
    s.push(c);
}

/// A string holding `v@[from..to]`.
pub fn string_of(v: &Vec<char>, from: usize, to: usize) -> (r: String)
    requires
        from <= to <= v@.len(),
    ensures
        r@ == v@.subrange(from as int, to as int),
{
    let mut out = String::new();
    let mut k: usize = from;
    while k < to
        invariant
            from <= k <= to <= v@.len(),
            out@ == v@.subrange(from as int, k as int),
        decreases to - k,
    {
        push_char(&mut out, v[k]);
        k = k + 1;
        assert(out@ =~= v@.subrange(from as int, k as int));
    }
    out
}

} // verus!
