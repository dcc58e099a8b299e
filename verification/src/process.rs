//! What a child process left behind.
use vstd::prelude::*;

use crate::text::concat3;
use crate::text::join;
use crate::text::lines;
use crate::text::number;
use crate::text::trim;

verus! {

/// The outcome of running a child process.
#[derive(Debug)]
pub struct RunOutput {
    pub timed_out: bool,
    /// None when killed by a signal.
    pub exit_code: Option<i32>,
    pub stdout: String,
    pub stderr: String,
    /// In milliseconds.
    pub elapsed: u64,
}

/// How waiting for a child process ended.
#[derive(Debug, Clone, Copy, PartialEq, Eq)]
pub enum Waited {
    /// It ended, with an exit code unless a signal killed it.
    Exited(Option<i32>),
    /// Time ran out; its whole process group has to be killed.
    TimedOut,
}

/// The lines that a diagnosis shows.
pub const TAIL_LINES: usize = 40;

/// The last `n` of a list, all where it is shorter.
pub open spec fn last_of<A>(s: Seq<A>, n: int) -> Seq<A> {
    if s.len() <= n {
        s
    } else {
        s.skip(s.len() - n)
    }
}

impl RunOutput {
    /// The process ended in time with exit code zero.
    pub open spec fn succeeded(self) -> bool {
        !self.timed_out && self.exit_code == Some(0i32)
    }

    /// The process ended in time with exit code zero.
    pub fn success(&self) -> (r: bool)
        ensures
            r == self.succeeded(),
    {
        !self.timed_out && (match self.exit_code {
            Some(code) => code == 0,
            None => false,
        })
    }

    /// Last lines of stderr, of stdout where stderr is blank.
    pub open spec fn tail(self) -> Seq<char> {
        let text = if crate::text::trimmed(self.stderr@).len() == 0 {
            self.stdout@
        } else {
            self.stderr@
        };
        crate::text::joined(last_of(crate::text::lines_of(text), TAIL_LINES as int), "\n"@)
    }

    /// Last ~40 lines of stderr (or stdout as fallback) for diagnostics.
    pub fn diagnostic_tail(&self) -> (r: String)
        ensures
            r@ == self.tail(),
    {
        let all = if trim(self.stderr.as_str()).as_str().is_empty() {
            lines(self.stdout.as_str())
        } else {
            lines(self.stderr.as_str())
        };
        let ghost texts = crate::text::texts(all@);
        let total = all.len();
        let start: usize = if total <= TAIL_LINES {
            0
        } else {
            total - TAIL_LINES
        };
        let mut rest: Vec<String> = Vec::new();
        let mut i: usize = start;
        proof {
            assert(crate::text::texts(rest@) =~= texts.subrange(start as int, start as int));
        }
        while i < total
            invariant
                start <= i <= total == all@.len(),
                texts == crate::text::texts(all@),
                crate::text::texts(rest@) == texts.subrange(start as int, i as int),
            decreases total - i,
        {
            let line = crate::text::copy_text(all[i].as_str());
            proof {
                crate::text::lemma_texts_push(rest@, line);
                assert(texts.subrange(start as int, i + 1) =~= texts.subrange(
                    start as int,
                    i as int,
                ).push(line@));
            }
            rest.push(line);
            i = i + 1;
        }
        proof {
            assert(texts.subrange(start as int, total as int) =~= last_of(
                texts,
                TAIL_LINES as int,
            ));
        }
        join(&rest, "\n")
    }

    /// The outcome of a process, given how waiting for it ended.
    pub fn after(waited: Waited, stdout: String, stderr: String, elapsed: u64) -> (r: RunOutput)
        ensures
            r.timed_out == (waited is TimedOut),
            r.exit_code == (match waited {
                Waited::Exited(code) => code,
                Waited::TimedOut => None,
            }),
            r.stdout == stdout,
            r.stderr == stderr,
            r.elapsed == elapsed,
    {
        match waited {
            Waited::Exited(code) => RunOutput {
                timed_out: false,
                exit_code: code,
                stdout,
                stderr,
                elapsed,
            },
            Waited::TimedOut => RunOutput {
                timed_out: true,
                exit_code: None,
                stdout,
                stderr,
                elapsed,
            },
        }
    }
}

/// A process that ran out of time did not succeed.
pub proof fn law_timeout_is_no_success(output: RunOutput)
    ensures
        output.timed_out ==> !output.succeeded(),
{
}

/// An exit code for display.
pub open spec fn exit_text(code: Option<i32>) -> Seq<char> {
    match code {
        None => "None"@,
        Some(n) => "Some("@ + (if n < 0 {
            "-"@ + crate::text::decimal((-n) as nat)
        } else {
            crate::text::decimal(n as nat)
        }) + ")"@,
    }
}

/// An exit code for display.
pub fn show_exit(code: Option<i32>) -> (r: String)
    ensures
        r@ == exit_text(code),
{
    match code {
        None => crate::text::copy_text("None"),
        Some(n) => {
            let digits = if n < 0 {
                let positive: i64 = -(n as i64);
                crate::text::concat2("-", number(positive as u64).as_str())
            } else {
                number(n as u64)
            };
            concat3("Some(", digits.as_str(), ")")
        },
    }
}

/// A process succeeded where it ended in time with the exit code zero.
pub proof fn law_what_success_is(output: RunOutput)
    ensures
        output.succeeded() <==> output.exit_code == Some(0i32) && !output.timed_out,
{
}

/// What is shown of a process are the last forty lines, at most, of what it said
/// on stderr, or on stdout where that is blank.
pub proof fn law_tails_are_the_last_lines(output: RunOutput)
    ensures
        ({
            let said = if crate::text::trimmed(output.stderr@).len() > 0 {
                output.stderr@
            } else {
                output.stdout@
            };
            let all = crate::text::lines_of(said);
            &&& all.len() <= 40 ==> output.tail() == crate::text::joined(all, "\n"@)
            &&& all.len() > 40 ==> output.tail() == crate::text::joined(
                all.subrange(all.len() - 40, all.len() as int),
                "\n"@,
            )
        }),
{
    let said = if crate::text::trimmed(output.stderr@).len() > 0 {
        output.stderr@
    } else {
        output.stdout@
    };
    let all = crate::text::lines_of(said);
    if all.len() > 40 {
        assert(all.skip(all.len() - 40) =~= all.subrange(all.len() - 40, all.len() as int));
    }
}

/// An exit code is shown with its sign, and its absence as such.
pub proof fn law_exit_codes_in_words(n: i32)
    ensures
        exit_text(None) == "None"@,
        n >= 0 ==> exit_text(Some(n)) == "Some("@ + crate::text::decimal(n as nat) + ")"@,
        n < 0 ==> exit_text(Some(n)) == "Some("@ + ("-"@ + crate::text::decimal((-n) as nat))
            + ")"@,
{
}

} // verus!
