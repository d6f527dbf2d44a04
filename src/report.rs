//! Merging the checks' results for one repository into its report.
use vstd::prelude::*;
use vstd::string::{StrSliceExecFns, StringExecFns};
use crate::checks::CheckResult;

verus! {

broadcast use vstd::string::group_string_axioms;

/// What one check result holds, as character sequences.
pub open spec fn result_view(r: CheckResult) -> Result<(Seq<char>, Seq<char>), Seq<char>> {
    match r {
        Ok((c, m)) => Ok((c@, m@)),
        Err(e) => Err(e@),
    }
}

/// What each check result of `rs` holds.
pub open spec fn results_view(rs: Seq<CheckResult>) -> Seq<Result<(Seq<char>, Seq<char>), Seq<char>>> {
    rs.map_values(|r: CheckResult| result_view(r))
}

/// The summary codes of the successful checks, concatenated in check order.
pub open spec fn codes(rs: Seq<Result<(Seq<char>, Seq<char>), Seq<char>>>) -> Seq<char>
    decreases rs.len(),
{
    if rs.len() == 0 {
        Seq::empty()
    } else {
        codes(rs.drop_last()) + match rs.last() {
            Ok((c, _)) => c,
            Err(_) => Seq::empty(),
        }
    }
}

/// The non-empty detail messages of the successful checks, in check order.
pub open spec fn details(rs: Seq<Result<(Seq<char>, Seq<char>), Seq<char>>>) -> Seq<Seq<char>>
    decreases rs.len(),
{
    if rs.len() == 0 {
        Seq::empty()
    } else {
        details(rs.drop_last()) + match rs.last() {
            Ok((_, m)) => if m.len() > 0 {
                seq![m]
            } else {
                Seq::empty()
            },
            Err(_) => Seq::empty(),
        }
    }
}

/// The diagnostic texts of the failed checks, in check order.
pub open spec fn failures(rs: Seq<Result<(Seq<char>, Seq<char>), Seq<char>>>) -> Seq<Seq<char>>
    decreases rs.len(),
{
    if rs.len() == 0 {
        Seq::empty()
    } else {
        failures(rs.drop_last()) + match rs.last() {
            Ok(_) => Seq::empty(),
            Err(e) => seq![e],
        }
    }
}

/// The repository's summary: the checks' codes in order, then `E` if any
/// check failed.
pub open spec fn summary_of(rs: Seq<Result<(Seq<char>, Seq<char>), Seq<char>>>) -> Seq<char> {
    codes(rs) + if failures(rs).len() > 0 {
        seq!['E']
    } else {
        Seq::empty()
    }
}

/// Checks that answer the same on an unchanged repository give the same
/// summary: the summary is a function of what the checks returned.
pub proof fn lemma_same_results_same_summary(a: Seq<CheckResult>, b: Seq<CheckResult>)
    requires
        results_view(a) == results_view(b),
    ensures
        summary_of(results_view(a)) == summary_of(results_view(b)),
        failures(results_view(a)) == failures(results_view(b)),
{
}

/// The report on one repository.
pub struct RepoReport {
    /// The summary code.
    pub summary: String,
    /// The non-empty detail messages, printed in verbose mode.
    pub details: Vec<String>,
    /// The diagnostic texts of the checks that failed.
    pub errors: Vec<String>,
    /// The repository is listed: its summary is not empty, or all
    /// repositories are listed.
    pub shown: bool,
    /// Nothing was found: the summary is empty.
    pub clean: bool,
}

/// Merges the results of the checks run on one repository, in check order
/// (working-tree status first, then unpushed branches), into its report.
pub fn summarize(show_all: bool, results: &Vec<CheckResult>) -> (r: RepoReport)
    ensures
        r.summary@ == summary_of(results_view(results@)),
        crate::branches::strings(r.details@) == details(results_view(results@)),
        crate::branches::strings(r.errors@) == failures(results_view(results@)),
        r.shown == (r.summary@.len() > 0 || show_all),
        r.clean == (r.summary@.len() == 0),
{
    let ghost rv = results_view(results@);
    let mut summary = String::new();
    let mut msgs: Vec<String> = Vec::new();
    let mut errors: Vec<String> = Vec::new();
    let mut k: usize = 0;
    while k < results.len()
        invariant
            rv == results_view(results@),
            k <= results@.len(),
            summary@ == codes(rv.take(k as int)),
            crate::branches::strings(msgs@) == details(rv.take(k as int)),
            crate::branches::strings(errors@) == failures(rv.take(k as int)),
        decreases results@.len() - k,
    {
        assert(rv.take(k + 1).drop_last() =~= rv.take(k as int));
        assert(rv.take(k + 1).last() == result_view(results@[k as int]));
        let ghost m0 = crate::branches::strings(msgs@);
        let ghost e0 = crate::branches::strings(errors@);
        match &results[k] {
            Ok((code, msg)) => {
                summary.append(code.as_str());
                if !msg.as_str().is_empty() {
                    msgs.push(msg.clone());
                    assert(crate::branches::strings(msgs@) =~= m0.push(msg@));
                }
            },
            Err(e) => {
                errors.push(e.clone());
                assert(crate::branches::strings(errors@) =~= e0.push(e@));
            },
        }
        k = k + 1;
    }
    assert(rv.take(k as int) =~= rv);
    if errors.len() > 0 {
        proof {
            reveal_strlit("E");
        }
        summary.append("E");
    }
    let clean = summary.as_str().is_empty();
    proof {
        assert(summary@.len() == 0 <==> clean);
    }
    RepoReport { summary, details: msgs, errors, shown: !clean || show_all, clean }
}

/// The line that lists a repository: its summary padded with blanks to four
/// characters, a blank, and its path.
pub open spec fn listing_line(summary: Seq<char>, path: Seq<char>) -> Seq<char> {
    let pad: nat = if summary.len() < 4 {
        (4 - summary.len()) as nat
    } else {
        0
    };
    summary + Seq::new(pad, |i: int| ' ') + seq![' '] + path
}

/// The line that lists a repository, as `listing_line` gives it.
pub fn summary_line(summary: &str, path: &str) -> (r: String)
    ensures
        r@ == listing_line(summary@, path@),
{
    let n = summary.unicode_len();
    let mut line = String::from_str(summary);
    let mut k: usize = n;
    while k < 4
        invariant
            n == summary@.len(),
            n <= k <= 4 || (n > 4 && k == n),
            line@ == summary@ + Seq::new((k - n) as nat, |i: int| ' '),
        decreases 4 - k,
    {
        crate::text::push_char(&mut line, ' ');
        k = k + 1;
        assert(line@ =~= summary@ + Seq::new((k - n) as nat, |i: int| ' '));
    }
    crate::text::push_char(&mut line, ' ');
    line.append(path);
    proof {
        let pad: nat = if summary@.len() < 4 {
            (4 - summary@.len()) as nat
        } else {
            0
        };
        assert(Seq::new((k - n) as nat, |i: int| ' ') =~= Seq::new(pad, |i: int| ' '));
        assert(line@ =~= listing_line(summary@, path@));
    }
    line
}

/// The decimal digit for `d < 10`.
pub open spec fn digit(d: nat) -> char {
    if d == 0 { '0' } else if d == 1 { '1' } else if d == 2 { '2' } else if d == 3 { '3' }
    else if d == 4 { '4' } else if d == 5 { '5' } else if d == 6 { '6' } else if d == 7 { '7' }
    else if d == 8 { '8' } else { '9' }
}

/// `n` written in decimal, without leading zeros.
pub open spec fn decimal(n: nat) -> Seq<char>
    decreases n,
{
    if n < 10 {
        seq![digit(n)]
    } else {
        decimal(n / 10).push(digit(n % 10))
    }
}

fn digit_char(d: usize) -> (r: char)
    requires
        d < 10,
    ensures
        r == digit(d as nat),
{
    if d == 0 { '0' } else if d == 1 { '1' } else if d == 2 { '2' } else if d == 3 { '3' }
    else if d == 4 { '4' } else if d == 5 { '5' } else if d == 6 { '6' } else if d == 7 { '7' }
    else if d == 8 { '8' } else { '9' }
}

/// Appends `n` in decimal to `s`.
fn push_decimal(s: &mut String, n: usize)
    ensures
        final(s)@ == old(s)@ + decimal(n as nat),
    decreases n,
{
    if n >= 10 {
        push_decimal(s, n / 10);
    }
    crate::text::push_char(s, digit_char(n % 10));
    proof {
        if n < 10 {
            assert(n % 10 == n);
        }
    }
    assert(s@ =~= old(s)@ + decimal(n as nat));
}

/// The line on the error channel for the `n`-th failed check of a
/// repository, counted from 0: `[Error<n>]:` and the diagnostic text.
pub open spec fn failure_line(n: nat, text: Seq<char>) -> Seq<char> {
    "[Error"@ + decimal(n) + "]:"@ + text
}

/// The line on the error channel for the `n`-th failed check, as
/// `failure_line` gives it.
pub fn error_line(n: usize, text: &str) -> (r: String)
    ensures
        r@ == failure_line(n as nat, text@),
{
    let mut line = String::from_str("[Error");
    push_decimal(&mut line, n);
    line.append("]:");
    line.append(text);
    proof {
        assert(line@ =~= failure_line(n as nat, text@));
    }
    line
}

} // verus!
