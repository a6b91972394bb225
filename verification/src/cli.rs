//! What a command-line run hands back, and the common ways of reading it.

use vstd::prelude::*;
use crate::text::{chars_of, lines, split_lines, string_of, trim, trim_chars, views};

verus! {

/// The captured result of a finished command: its output streams (decoded
/// lossily as UTF-8), whether it exited successfully, and its exit status as
/// text (as `ExitStatus` displays it, such as `exit status: 1`).
#[derive(Debug, PartialEq, Eq)]
pub struct CliOutput {
    pub stdout: String,
    pub stderr: String,
    pub success: bool,
    pub status: String,
}

/// The views of a sequence of strings.
pub open spec fn texts(v: Seq<String>) -> Seq<Seq<char>> {
    v.map_values(|s: String| s@)
}

/// The last line of `ls` that holds more than whitespace.
pub open spec fn last_nonblank(ls: Seq<Seq<char>>) -> Option<Seq<char>>
    decreases ls.len(),
{
    if ls.len() == 0 {
        None
    } else if trim(ls.last()).len() > 0 {
        Some(ls.last())
    } else {
        last_nonblank(ls.drop_last())
    }
}

/// The message a failed command is reported with: the last non-blank line of
/// its error output, or a generic message when there is none.
pub open spec fn last_error_text(stderr: Seq<char>) -> Seq<char> {
    match last_nonblank(lines(stderr)) {
        Some(l) => l,
        None => "Unknown container CLI error"@,
    }
}

/// The last non-blank line of `stderr`, or a generic message.
pub fn last_error(stderr: &str) -> (r: String)
    ensures
        r@ == last_error_text(stderr@),
{
    let cs = chars_of(stderr);
    let ls = split_lines(cs.as_slice());
    let ghost all = views(ls@);
    assert(all.subrange(0, all.len() as int) =~= all);
    let mut k = ls.len();
    while k > 0
        invariant
            k <= ls@.len(),
            all == views(ls@),
            all == lines(stderr@),
            last_nonblank(all) == last_nonblank(all.subrange(0, k as int)),
        decreases k,
    {
        let ghost pre = all.subrange(0, k as int);
        assert(pre.drop_last() =~= all.subrange(0, k - 1));
        let t = trim_chars(ls[k - 1].as_slice());
        assert(pre.last() == ls@[k - 1]@);
        if t.len() > 0 {
            assert(last_nonblank(pre) == Some(ls@[k - 1]@));
            return string_of(ls[k - 1].as_slice());
        }
        k = k - 1;
    }
    assert(all.subrange(0, 0) =~= Seq::<Seq<char>>::empty());
    String::from_str("Unknown container CLI error")
}

/// What a command whose only product is success is answered with: the
/// launch error as it is, nothing on success, the last error line otherwise.
pub open spec fn unit_outcome(out: Result<CliOutput, String>) -> Result<(), Seq<char>> {
    match out {
        Err(e) => Err(e@),
        Ok(o) => if o.success {
            Ok(())
        } else {
            Err(last_error_text(o.stderr@))
        },
    }
}

/// Reads the outcome of a command whose only product is success.
pub fn unit_result(out: Result<CliOutput, String>) -> (r: Result<(), String>)
    ensures
        match r {
            Ok(()) => unit_outcome(out) == Ok::<(), Seq<char>>(()),
            Err(e) => unit_outcome(out) == Err::<(), Seq<char>>(e@),
        },
{
    match out {
        Err(e) => Err(e),
        Ok(o) => if o.success {
            Ok(())
        } else {
            Err(last_error(o.stderr.as_str()))
        },
    }
}

/// The concatenation of `a` and `b`.
pub fn concat(a: &str, b: &str) -> (r: String)
    ensures
        r@ == a@ + b@,
{
    let mut r = String::from_str(a);
    r.append(b);
    r
}

} // verus!
