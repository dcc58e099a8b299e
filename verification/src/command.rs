//! The generic command runner: re-run a user-supplied test command per
//! mutant. Exit 0 = Survived, nonzero = Killed, our kill = Timeout.
//!
//! Execution modes, chosen per command:
//! - **Direct argv** (default): split into words, leading `VAR=value` words
//!   become child env, the rest is exec'd with no shell, so paths with
//!   `(`/`)` (Next.js route groups) can't break quoting.
//! - **bash -c**: commands with real shell syntax (`&&`, `|`, `$(...)`, ...)
//!   run through `bash`. Auto-detected, or forced via `commandRunner.shell: true`.
use vstd::prelude::*;

use crate::process::show_exit;
use crate::process::RunOutput;
use crate::runners::Capabilities;
use crate::runners::DryRunResult;
use crate::runners::MutantRunOutcome;
use crate::runners::TestResult;
use crate::text::chars_of;
use crate::text::copy_text;
use crate::text::has_text;
use crate::text::split_once;

verus! {

/// How a command is executed.
#[derive(Debug)]
pub enum Invocation {
    /// Env prefix assignments, then argv.
    Direct(Vec<(String, String)>, Vec<String>),
    /// Full command string for `bash -c`.
    Shell(String),
}

/// The mathematical value of an invocation.
pub enum InvocationView {
    Direct(Seq<(Seq<char>, Seq<char>)>, Seq<Seq<char>>),
    Shell(Seq<char>),
}

impl Invocation {
    pub open spec fn view(&self) -> InvocationView {
        match self {
            Invocation::Direct(env, argv) => InvocationView::Direct(
                crate::runners::env_views(env@),
                crate::text::texts(argv@),
            ),
            Invocation::Shell(command) => InvocationView::Shell(command@),
        }
    }
}

/// Runs one command for every mutant.
#[derive(Debug)]
pub struct CommandRunner {
    pub invocation: Invocation,
    pub cwd: String,
}

/// Why a command was refused.
#[derive(Debug, Clone, Copy, PartialEq, Eq)]
pub enum CommandError {
    /// The command has a quote without an end.
    Unparsable,
    /// The command is empty.
    Empty,
    /// The command has assignments only.
    NoCommandWord,
}

impl CommandError {
    /// The error about a command in words.
    pub open spec fn words(self, command: Seq<char>) -> Seq<char> {
        match self {
            CommandError::Unparsable => "cannot parse commandRunner.command "@
                + crate::text::quoted(command) + ": missing closing quote"@,
            CommandError::Empty => "commandRunner.command is empty"@,
            CommandError::NoCommandWord => "commandRunner.command "@ + crate::text::quoted(command)
                + " has no command word"@,
        }
    }

    /// The error about a command in words.
    pub fn message(self, command: &str) -> (r: String)
        ensures
            r@ == self.words(command@),
    {
        match self {
            CommandError::Unparsable => crate::text::concat3(
                "cannot parse commandRunner.command ",
                crate::text::quote(command).as_str(),
                ": missing closing quote",
            ),
            CommandError::Empty => copy_text("commandRunner.command is empty"),
            CommandError::NoCommandWord => crate::text::concat3(
                "commandRunner.command ",
                crate::text::quote(command).as_str(),
                " has no command word",
            ),
        }
    }
}

/// The words of a command by the rules of a shell; nothing where a quote has
/// no end.
pub uninterp spec fn shell_words_of(command: Seq<char>) -> Option<Seq<Seq<char>>>;

/// `split` of `shell_words`; the words depend on the command alone.
#[verifier::external_body]
fn split_words(command: &str) -> (r: Option<Vec<String>>)
    ensures
        match r {
            Some(words) => shell_words_of(command@) == Some(crate::text::texts(words@)),
            None => shell_words_of(command@) is None,
        },
{
    shell_words::split(command).ok()
}

/// A character that is an operator of a shell, where it is not quoted.
pub open spec fn is_operator(c: char) -> bool {
    c == ';' || c == '|' || c == '&' || c == '<' || c == '>'
}

/// Where a shell stands in a command.
#[derive(Debug, Clone, Copy, PartialEq, Eq, Structural)]
pub enum Quoting {
    /// Between words.
    Between,
    /// In a word, outside of quotes.
    Word,
    /// In single quotes.
    Single,
    /// In double quotes.
    Double,
    /// In a comment.
    Comment,
}

/// Where a shell stands behind an unquoted character.
pub open spec fn behind(state: Quoting, c: char) -> Quoting {
    if c == '\'' {
        Quoting::Single
    } else if c == '"' {
        Quoting::Double
    } else if c == ' ' || c == '\t' || c == '\n' {
        Quoting::Between
    } else if c == '#' && state == Quoting::Between {
        Quoting::Comment
    } else {
        Quoting::Word
    }
}

/// Whether an operator stands in a command from index `i` on, outside of quotes
/// and comments and not behind a backslash.
pub open spec fn has_operator(s: Seq<char>, i: int, state: Quoting) -> bool
    decreases s.len() - i,
{
    if i < 0 || i >= s.len() {
        false
    } else {
        match state {
            Quoting::Single => has_operator(
                s,
                i + 1,
                if s[i] == '\'' {
                    Quoting::Word
                } else {
                    Quoting::Single
                },
            ),
            Quoting::Double => if s[i] == '\\' {
                i + 1 < s.len() && has_operator(s, i + 2, Quoting::Double)
            } else {
                has_operator(
                    s,
                    i + 1,
                    if s[i] == '"' {
                        Quoting::Word
                    } else {
                        Quoting::Double
                    },
                )
            },
            Quoting::Comment => has_operator(
                s,
                i + 1,
                if s[i] == '\n' {
                    Quoting::Between
                } else {
                    Quoting::Comment
                },
            ),
            _ => if is_operator(s[i]) {
                true
            } else if s[i] == '\\' {
                // An escaped line feed joins two lines.
                i + 1 < s.len() && has_operator(
                    s,
                    i + 2,
                    if s[i + 1] == '\n' {
                        state
                    } else {
                        Quoting::Word
                    },
                )
            } else {
                has_operator(s, i + 1, behind(state, s[i]))
            },
        }
    }
}

/// Whether a command holds real shell syntax: an unquoted operator, or the
/// substitution of a command.
pub open spec fn wants_shell(command: Seq<char>) -> bool {
    ||| has_operator(command, 0, Quoting::Between)
    ||| crate::text::has(command, "$("@)
    ||| crate::text::has(command, "`"@)
}

fn step(state: Quoting, c: char) -> (r: Quoting)
    ensures
        r == behind(state, c),
{
    if c == '\'' {
        Quoting::Single
    } else if c == '"' {
        Quoting::Double
    } else if c == ' ' || c == '\t' || c == '\n' {
        Quoting::Between
    } else if c == '#' && state == Quoting::Between {
        Quoting::Comment
    } else {
        Quoting::Word
    }
}

fn find_operator(command: &str) -> (r: bool)
    ensures
        r == has_operator(command@, 0, Quoting::Between),
{
    let chars = chars_of(command);
    let total = chars.len();
    let mut state = Quoting::Between;
    let mut i: usize = 0;
    while i < total
        invariant
            i <= total == chars@.len(),
            chars@ == command@,
            has_operator(chars@, 0, Quoting::Between) == has_operator(chars@, i as int, state),
        decreases total - i,
    {
        let c = chars[i];
        let mut wide = false;
        match state {
            Quoting::Single => {
                if c == '\'' {
                    state = Quoting::Word;
                }
            },
            Quoting::Double => {
                if c == '\\' {
                    wide = true;
                } else if c == '"' {
                    state = Quoting::Word;
                }
            },
            Quoting::Comment => {
                if c == '\n' {
                    state = Quoting::Between;
                }
            },
            _ => {
                if c == ';' || c == '|' || c == '&' || c == '<' || c == '>' {
                    return true;
                }
                if c == '\\' {
                    wide = true;
                    if total - i < 2 || chars[i + 1] != '\n' {
                        state = Quoting::Word;
                    }
                } else {
                    state = step(state, c);
                }
            },
        }
        if wide {
            if total - i < 2 {
                return false;
            }
            i = i + 2;
        } else {
            i = i + 1;
        }
    }
    false
}

/// Does the raw command, whose words are `argv`, require a real shell? Its words
/// have lost their quotes, so its text decides.
pub fn needs_shell(command: &str, argv: &Vec<String>) -> (r: bool)
    ensures
        r == wants_shell(command@),
{
    find_operator(command) || has_text(command, "$(") || has_text(command, "`")
}

/// A name of letters, digits and underscores that does not begin with a digit.
pub open spec fn is_variable_name(name: Seq<char>) -> bool {
    &&& name.len() > 0
    &&& forall|i: int|
        0 <= i < name.len() ==> crate::text::is_ascii_word(#[trigger] name[i]) || name[i] == '_'
    &&& !crate::text::is_ascii_digit(name[0])
}

/// A word of the form `NAME=value`.
pub open spec fn is_assignment(word: Seq<char>) -> bool {
    match crate::text::cut_once(word, "="@) {
        Some((name, _)) => is_variable_name(name),
        None => false,
    }
}

fn variable_name(name: &str) -> (r: bool)
    ensures
        r == is_variable_name(name@),
{
    let chars = chars_of(name);
    if chars.len() == 0 {
        return false;
    }
    let mut i: usize = 0;
    while i < chars.len()
        invariant
            i <= chars@.len(),
            chars@ == name@,
            forall|k: int|
                0 <= k < i ==> crate::text::is_ascii_word(#[trigger] chars@[k]) || chars@[k] == '_',
        decreases chars@.len() - i,
    {
        let c = chars[i];
        let word: bool = ('0' <= c && c <= '9') || ('a' <= c && c <= 'z') || ('A' <= c && c <= 'Z');
        if !word && c != '_' {
            proof {
                assert(!crate::text::is_ascii_word(name@[i as int]) && name@[i as int] != '_');
            }
            return false;
        }
        i = i + 1;
    }
    !('0' <= chars[0] && chars[0] <= '9')
}

/// Is the word an environment assignment?
pub fn is_env_assignment(token: &str) -> (r: bool)
    ensures
        r == is_assignment(token@),
{
    match split_once(token, "=") {
        Some((name, _)) => variable_name(name.as_str()),
        None => false,
    }
}

/// The number of assignments that words begin with.
pub open spec fn assignments(words: Seq<Seq<char>>) -> nat
    decreases words.len(),
{
    if words.len() == 0 || !is_assignment(words[0]) {
        0
    } else {
        1 + assignments(words.skip(1))
    }
}

/// The name and the value of every assignment.
pub open spec fn env_of(words: Seq<Seq<char>>) -> Seq<(Seq<char>, Seq<char>)> {
    words.map_values(
        |w: Seq<char>|
            match crate::text::cut_once(w, "="@) {
                Some(parts) => parts,
                None => (w, Seq::<char>::empty()),
            },
    )
}

/// How the words of a command are executed.
pub open spec fn invocation_of(
    command: Seq<char>,
    words: Seq<Seq<char>>,
    force_shell: bool,
) -> Result<InvocationView, CommandError> {
    let n = assignments(words) as int;
    if words.len() == 0 {
        Err(CommandError::Empty)
    } else if force_shell || wants_shell(command) {
        Ok(InvocationView::Shell(command))
    } else if n == words.len() {
        Err(CommandError::NoCommandWord)
    } else {
        Ok(InvocationView::Direct(env_of(words.take(n)), words.skip(n)))
    }
}

proof fn lemma_assignments(words: Seq<Seq<char>>, i: int)
    requires
        0 <= i <= words.len(),
        forall|k: int| 0 <= k < i ==> is_assignment(#[trigger] words[k]),
        i < words.len() ==> !is_assignment(words[i]),
    ensures
        assignments(words) == i,
    decreases words.len(),
{
    if i > 0 {
        assert(is_assignment(words[0]));
        assert forall|k: int| 0 <= k < i - 1 implies is_assignment(#[trigger] words.skip(1)[k]) by {
            assert(words.skip(1)[k] == words[k + 1]);
        }
        lemma_assignments(words.skip(1), i - 1);
    }
}

/// The mathematical value of a runner.
pub struct RunnerView {
    pub invocation: InvocationView,
    pub cwd: Seq<char>,
}

/// The runner of a command whose words are given.
pub open spec fn runner_of(
    command: Seq<char>,
    words: Seq<Seq<char>>,
    cwd: Seq<char>,
    force_shell: bool,
) -> Result<RunnerView, CommandError> {
    match invocation_of(command, words, force_shell) {
        Ok(invocation) => Ok(RunnerView { invocation, cwd }),
        Err(e) => Err(e),
    }
}

/// A result of setting up a runner by its value.
pub open spec fn runner_view(r: Result<CommandRunner, CommandError>) -> Result<
    RunnerView,
    CommandError,
> {
    match r {
        Ok(runner) => Ok(RunnerView { invocation: runner.invocation@, cwd: runner.cwd@ }),
        Err(e) => Err(e),
    }
}

impl CommandRunner {
    /// A runner for `command` in the directory `cwd`.
    pub fn new(command: &str, cwd: String) -> (r: Result<CommandRunner, CommandError>)
        ensures
            match shell_words_of(command@) {
                Some(words) => runner_view(r) == runner_of(command@, words, cwd@, false),
                None => r == Err::<CommandRunner, CommandError>(CommandError::Unparsable),
            },
    {
        Self::with_shell(command, cwd, false)
    }

    /// A runner for `command` in the directory `cwd`, through bash where that
    /// is asked for.
    pub fn with_shell(command: &str, cwd: String, force_shell: bool) -> (r: Result<
        CommandRunner,
        CommandError,
    >)
        ensures
            match shell_words_of(command@) {
                Some(words) => runner_view(r) == runner_of(command@, words, cwd@, force_shell),
                None => r == Err::<CommandRunner, CommandError>(CommandError::Unparsable),
            },
    {
        match split_words(command) {
            Some(words) => Self::from_words(command, words, cwd, force_shell),
            None => Err(CommandError::Unparsable),
        }
    }

    /// A runner for `command`, whose words are given.
    pub fn from_words(command: &str, words: Vec<String>, cwd: String, force_shell: bool) -> (r: Result<
        CommandRunner,
        CommandError,
    >)
        ensures
            runner_view(r) == runner_of(command@, crate::text::texts(words@), cwd@, force_shell),
    {
        let ghost all = crate::text::texts(words@);
        let total = words.len();
        if total == 0 {
            return Err(CommandError::Empty);
        }
        if force_shell || needs_shell(command, &words) {
            return Ok(CommandRunner { invocation: Invocation::Shell(copy_text(command)), cwd });
        }
        let mut env: Vec<(String, String)> = Vec::new();
        let mut i: usize = 0;
        proof {
            reveal_strlit("=");
            assert(crate::runners::env_views(env@) =~= env_of(all.take(0)));
        }
        while i < total && is_env_assignment(words[i].as_str())
            invariant
                i <= total == words@.len(),
                all == crate::text::texts(words@),
                forall|k: int| 0 <= k < i ==> is_assignment(#[trigger] all[k]),
                crate::runners::env_views(env@) == env_of(all.take(i as int)),
            decreases total - i,
        {
            proof {
                assert(is_assignment(all[i as int]));
            }
            if let Some((name, value)) = split_once(words[i].as_str(), "=") {
                let ghost before = env@;
                env.push((name, value));
                proof {
                    assert(crate::runners::env_views(env@) =~= crate::runners::env_views(
                        before,
                    ).push((name@, value@)));
                    assert(env_of(all.take(i + 1)) =~= env_of(all.take(i as int)).push(
                        (name@, value@),
                    ));
                }
            }
            i = i + 1;
        }
        proof {
            lemma_assignments(all, i as int);
        }
        if i == total {
            return Err(CommandError::NoCommandWord);
        }
        let mut argv: Vec<String> = Vec::new();
        let mut k: usize = i;
        proof {
            assert(crate::text::texts(argv@) =~= all.subrange(i as int, i as int));
        }
        while k < total
            invariant
                i <= k <= total == words@.len(),
                all == crate::text::texts(words@),
                crate::text::texts(argv@) == all.subrange(i as int, k as int),
            decreases total - k,
        {
            let word = copy_text(words[k].as_str());
            proof {
                crate::text::lemma_texts_push(argv@, word);
                assert(all.subrange(i as int, k + 1) =~= all.subrange(i as int, k as int).push(
                    word@,
                ));
            }
            argv.push(word);
            k = k + 1;
        }
        proof {
            assert(all.subrange(i as int, total as int) =~= all.skip(i as int));
        }
        Ok(CommandRunner { invocation: Invocation::Direct(env, argv), cwd })
    }

    /// The command runner cannot observe single tests.
    pub fn capabilities(&self) -> (r: Capabilities)
        ensures
            !r.per_test_coverage,
    {
        Capabilities { per_test_coverage: false }
    }
}

/// The program and its arguments that carry out an invocation.
pub open spec fn program_of(i: InvocationView) -> Seq<Seq<char>> {
    match i {
        InvocationView::Direct(_, argv) => argv,
        InvocationView::Shell(command) => seq!["bash"@, "-c"@, command],
    }
}

/// The environment that an invocation adds.
pub open spec fn prefix_env(i: InvocationView) -> Seq<(Seq<char>, Seq<char>)> {
    match i {
        InvocationView::Direct(env, _) => env,
        InvocationView::Shell(_) => Seq::empty(),
    }
}

impl Invocation {
    /// The program and its arguments that carry out this invocation.
    pub fn program(&self) -> (r: Vec<String>)
        ensures
            crate::text::texts(r@) == program_of(self@),
    {
        match self {
            Invocation::Direct(_, argv) => crate::text::copy_texts(argv),
            Invocation::Shell(command) => {
                let mut out: Vec<String> = Vec::new();
                out.push(copy_text("bash"));
                out.push(copy_text("-c"));
                out.push(copy_text(command.as_str()));
                proof {
                    assert(crate::text::texts(out@) =~= seq!["bash"@, "-c"@, command@]);
                }
                out
            },
        }
    }

    /// The environment that this invocation adds.
    pub fn env(&self) -> (r: Vec<(String, String)>)
        ensures
            crate::runners::env_views(r@) == prefix_env(self@),
    {
        let mut out: Vec<(String, String)> = Vec::new();
        proof {
            assert(crate::runners::env_views(out@) =~= Seq::<(Seq<char>, Seq<char>)>::empty());
        }
        if let Invocation::Direct(env, _) = self {
            let ghost all = crate::runners::env_views(env@);
            let mut i: usize = 0;
            proof {
                assert(crate::runners::env_views(out@) =~= all.take(0));
            }
            while i < env.len()
                invariant
                    i <= env@.len(),
                    all == crate::runners::env_views(env@),
                    crate::runners::env_views(out@) == all.take(i as int),
                decreases env@.len() - i,
            {
                let ghost before = out@;
                let pair = (copy_text(env[i].0.as_str()), copy_text(env[i].1.as_str()));
                out.push(pair);
                i = i + 1;
                proof {
                    assert(crate::runners::env_views(out@) =~= crate::runners::env_views(
                        before,
                    ).push((pair.0@, pair.1@)));
                    assert(crate::runners::env_views(out@) =~= all.take(i as int));
                }
            }
            proof {
                assert(all.take(env@.len() as int) =~= all);
            }
        }
        out
    }
}

/// A runnable command has a program.
pub proof fn law_direct_invocations_have_a_program(
    command: Seq<char>,
    words: Seq<Seq<char>>,
    force_shell: bool,
)
    ensures
        invocation_of(command, words, force_shell) matches Ok(i) ==> program_of(i).len() > 0,
{
    lemma_assignments_bound(words);
}

proof fn lemma_assignments_bound(words: Seq<Seq<char>>)
    ensures
        assignments(words) <= words.len(),
    decreases words.len(),
{
    if words.len() > 0 && is_assignment(words[0]) {
        lemma_assignments_bound(words.skip(1));
    }
}

// ---- outcomes ----

/// The one test that a command stands for.
pub open spec fn whole_suite(time_bits: u64) -> crate::runners::TestResultView {
    crate::runners::TestResultView {
        id: "all"@,
        name: "All tests"@,
        file: None,
        time_bits,
        failed: false,
        failure: None,
    }
}

/// What a dry run of the command gave.
pub open spec fn dry_run_of(output: RunOutput, time_bits: u64) -> crate::runners::DryRunView {
    if output.timed_out {
        crate::runners::DryRunView::Timeout
    } else if output.succeeded() {
        crate::runners::DryRunView::Complete {
            tests: seq![whole_suite(time_bits)],
            coverage: None,
            gross_ms: output.elapsed,
        }
    } else {
        crate::runners::DryRunView::Error(
            "test command failed in the dry run (exit "@ + crate::process::exit_text(
                output.exit_code,
            ) + "):\n"@ + output.tail(),
        )
    }
}

/// What a dry run of the command gave; `time_bits` is the time it took as the
/// bits of a double.
pub fn dry_run_result(output: &RunOutput, time_bits: u64) -> (r: DryRunResult)
    ensures
        r@ == dry_run_of(*output, time_bits),
{
    if output.timed_out {
        return DryRunResult::Timeout;
    }
    if output.success() {
        let test = TestResult {
            id: copy_text("all"),
            name: copy_text("All tests"),
            file: None,
            time_bits,
            failed: false,
            failure: None,
        };
        let mut tests: Vec<TestResult> = Vec::new();
        tests.push(test);
        proof {
            assert(crate::runners::test_views(tests@) =~= seq![whole_suite(time_bits)]);
        }
        DryRunResult::Complete { tests, coverage: None, gross_ms: output.elapsed }
    } else {
        let mut message = copy_text("test command failed in the dry run (exit ");
        message.append(show_exit(output.exit_code).as_str());
        message.append("):\n");
        message.append(output.diagnostic_tail().as_str());
        DryRunResult::Error(message)
    }
}

/// Whether the instrumented code reported too many hits.
pub open spec fn hit_limit_reached(text: Seq<char>) -> bool {
    crate::text::has(text, crate::runners::HIT_LIMIT_TEXT@)
}

/// What a run of the command with an active mutant gave.
pub open spec fn outcome_of(output: RunOutput) -> crate::runners::OutcomeView {
    if output.timed_out {
        crate::runners::OutcomeView::Timeout { reason: None }
    } else if output.succeeded() {
        crate::runners::OutcomeView::Survived { tests_ran: 1 }
    } else if hit_limit_reached(output.stderr@) || hit_limit_reached(output.stdout@) {
        crate::runners::OutcomeView::Timeout { reason: Some("Hit limit reached"@) }
    } else {
        crate::runners::OutcomeView::Killed {
            killed_by: seq!["all"@],
            tests_ran: 1,
            failure: Some(output.tail()),
        }
    }
}

/// What a run of the command with an active mutant gave.
pub fn mutant_outcome(output: &RunOutput) -> (r: MutantRunOutcome)
    ensures
        r@ == outcome_of(*output),
{
    if output.timed_out {
        return MutantRunOutcome::Timeout { reason: None };
    }
    if output.success() {
        MutantRunOutcome::Survived { tests_ran: 1 }
    } else if has_text(output.stderr.as_str(), crate::runners::HIT_LIMIT_TEXT) || has_text(
        output.stdout.as_str(),
        crate::runners::HIT_LIMIT_TEXT,
    ) {
        MutantRunOutcome::Timeout { reason: Some(copy_text("Hit limit reached")) }
    } else {
        let mut killed_by: Vec<String> = Vec::new();
        killed_by.push(copy_text("all"));
        proof {
            assert(crate::text::texts(killed_by@) =~= seq!["all"@]);
        }
        MutantRunOutcome::Killed {
            killed_by,
            tests_ran: 1,
            failure: Some(output.diagnostic_tail()),
        }
    }
}

/// Exit 0 is a survivor, a timeout is never a kill.
pub proof fn law_exit_decides_the_mutant(output: RunOutput)
    ensures
        output.succeeded() <==> outcome_of(output) is Survived,
        output.timed_out ==> outcome_of(output) is Timeout,
{
}

// ---- what a command is taken for ----

/// What the end of the command says of a mutant: success lets it survive, a
/// timeout and the limit of hits end it, and any other end kills it. The command
/// stands for one test.
pub proof fn law_outcomes_of_the_command(output: RunOutput)
    ensures
        ({
            let o = outcome_of(output);
            let limited = crate::text::has(output.stderr@, "Stryker: Hit limit reached"@)
                || crate::text::has(output.stdout@, "Stryker: Hit limit reached"@);
            let passed = !output.timed_out && output.exit_code == Some(0i32);
            &&& output.timed_out ==> o == (crate::runners::OutcomeView::Timeout { reason: None })
            &&& passed ==> o == (crate::runners::OutcomeView::Survived { tests_ran: 1 })
            &&& !output.timed_out && !passed && limited ==> o
                == (crate::runners::OutcomeView::Timeout { reason: Some("Hit limit reached"@) })
            &&& !output.timed_out && !passed && !limited ==> o
                == (crate::runners::OutcomeView::Killed {
                killed_by: seq!["all"@],
                tests_ran: 1,
                failure: Some(output.tail()),
            })
        }),
{
}

/// A dry run of the command has one test that passed, and no coverage; where the
/// command failed or took too long there is none.
pub proof fn law_dry_runs_of_the_command(output: RunOutput, time_bits: u64)
    ensures
        ({
            let d = dry_run_of(output, time_bits);
            let passed = !output.timed_out && output.exit_code == Some(0i32);
            &&& output.timed_out <==> d is Timeout
            &&& passed <==> d is Complete
            &&& passed ==> d->tests.len() == 1 && d->tests[0].id == "all"@ && !d->tests[0].failed
                && d->tests[0].time_bits == time_bits && d->coverage is None && d->gross_ms
                == output.elapsed
            &&& !passed && !output.timed_out ==> d == crate::runners::DryRunView::Error(
                "test command failed in the dry run (exit "@ + crate::process::exit_text(
                    output.exit_code,
                ) + "):\n"@ + output.tail(),
            )
        }),
{
}

proof fn lemma_cut_at_equals(name: Seq<char>, value: Seq<char>)
    requires
        !name.contains('='),
    ensures
        crate::text::cut_once(name + "="@ + value, "="@) == Some((name, value)),
        crate::text::cut_once(name, "="@) is None,
{
    reveal_strlit("=");
    let eq = "="@;
    assert(eq.len() == 1 && eq[0] == '=');
    let word = name + eq + value;
    let n = name.len() as int;
    assert(word.subrange(n, n + 1) =~= eq);
    assert(crate::text::occurs_at(word, eq, n));
    crate::text::lemma_find_from(word, eq, 0);
    crate::text::lemma_find_from(name, eq, 0);
    let p = crate::text::find(word, eq)->0;
    assert(word.subrange(p, p + 1)[0] == '=');
    if p < n {
        assert(name[p] == '=');
        assert(name.contains('='));
    }
    assert(word.take(n) =~= name);
    assert(word.skip(n + 1) =~= value);
    if let Some(q) = crate::text::find(name, eq) {
        assert(name.subrange(q, q + 1)[0] == '=');
        assert(name[q] == '=');
    }
}

/// Whether a character may stand in the name of a variable.
pub open spec fn in_variable_name(c: char) -> bool {
    '0' <= c <= '9' || 'a' <= c <= 'z' || 'A' <= c <= 'Z' || c == '_'
}

/// A word assigns to a variable where a name of letters, digits and underscores,
/// not beginning with a digit, stands before an equals sign.
pub proof fn law_assignments_in_words(name: Seq<char>, value: Seq<char>)
    requires
        !name.contains('='),
    ensures
        is_assignment(name + "="@ + value) <==> name.len() > 0 && !('0' <= name[0] <= '9')
            && forall|i: int| 0 <= i < name.len() ==> in_variable_name(#[trigger] name[i]),
        !is_assignment(name),
        env_of(seq![name + "="@ + value]) == seq![(name, value)],
{
    lemma_cut_at_equals(name, value);
    assert(is_variable_name(name) <==> name.len() > 0 && !('0' <= name[0] <= '9') && forall|i: int|
        0 <= i < name.len() ==> in_variable_name(#[trigger] name[i]));
    assert(env_of(seq![name + "="@ + value]) =~= seq![(name, value)]);
}

proof fn lemma_count_assignments(before: Seq<Seq<char>>, rest: Seq<Seq<char>>)
    requires
        forall|i: int| 0 <= i < before.len() ==> is_assignment(#[trigger] before[i]),
        rest.len() > 0 ==> !is_assignment(rest[0]),
    ensures
        assignments(before + rest) == before.len(),
    decreases before.len(),
{
    let all = before + rest;
    if before.len() > 0 {
        let tail = before.skip(1);
        assert(all[0] == before[0]);
        assert(all.skip(1) =~= tail + rest);
        assert forall|i: int| 0 <= i < tail.len() implies is_assignment(#[trigger] tail[i]) by {
            assert(tail[i] == before[i + 1]);
        }
        lemma_count_assignments(tail, rest);
    } else {
        assert(all =~= rest);
    }
}

/// A command is run directly, with its leading assignments as environment and the
/// rest as program and arguments, unless it needs a shell or one is asked for. A
/// command without words, or of assignments alone, is refused.
pub proof fn law_how_commands_are_run(
    command: Seq<char>,
    before: Seq<Seq<char>>,
    rest: Seq<Seq<char>>,
    force_shell: bool,
)
    requires
        forall|i: int| 0 <= i < before.len() ==> is_assignment(#[trigger] before[i]),
        rest.len() > 0 ==> !is_assignment(rest[0]),
    ensures
        ({
            let found = invocation_of(command, before + rest, force_shell);
            let shell = force_shell || wants_shell(command);
            let words = before.len() + rest.len();
            &&& words == 0 ==> found == Err::<InvocationView, CommandError>(CommandError::Empty)
            &&& words > 0 && shell ==> found == Ok::<InvocationView, CommandError>(
                InvocationView::Shell(command),
            )
            &&& words > 0 && !shell && rest.len() == 0 ==> found == Err::<
                InvocationView,
                CommandError,
            >(CommandError::NoCommandWord)
            &&& !shell && rest.len() > 0 ==> found == Ok::<InvocationView, CommandError>(
                InvocationView::Direct(env_of(before), rest),
            )
            &&& env_of(before).len() == before.len()
        }),
{
    lemma_count_assignments(before, rest);
    let all = before + rest;
    let n = before.len() as int;
    assert(all.take(n) =~= before);
    assert(all.skip(n) =~= rest);
}

/// A shell runs the command text as it is.
pub proof fn law_programs(command: Seq<char>, env: Seq<(Seq<char>, Seq<char>)>, argv: Seq<Seq<char>>)
    ensures
        program_of(InvocationView::Shell(command)) == seq!["bash"@, "-c"@, command],
        prefix_env(InvocationView::Shell(command)).len() == 0,
        program_of(InvocationView::Direct(env, argv)) == argv,
        prefix_env(InvocationView::Direct(env, argv)) == env,
{
}

/// Whether a character joins commands or redirects them.
pub open spec fn joins_commands(c: char) -> bool {
    c == ';' || c == '|' || c == '&' || c == '<' || c == '>'
}

proof fn lemma_no_operator(s: Seq<char>, i: int, state: Quoting)
    requires
        0 <= i,
        forall|k: int| 0 <= k < s.len() ==> !joins_commands(#[trigger] s[k]),
    ensures
        !has_operator(s, i, state),
    decreases s.len() - i,
{
    if i < s.len() {
        lemma_no_operator(s, i + 1, Quoting::Single);
        lemma_no_operator(s, i + 1, Quoting::Word);
        lemma_no_operator(s, i + 1, Quoting::Double);
        lemma_no_operator(s, i + 1, Quoting::Between);
        lemma_no_operator(s, i + 1, Quoting::Comment);
        if i + 1 < s.len() {
            lemma_no_operator(s, i + 2, Quoting::Double);
            lemma_no_operator(s, i + 2, Quoting::Word);
            lemma_no_operator(s, i + 2, state);
        }
        assert(!joins_commands(s[i]));
    }
}

proof fn lemma_operator(s: Seq<char>, i: int, n: int, state: Quoting)
    requires
        0 <= i <= n < s.len(),
        joins_commands(s[n]),
        state == Quoting::Between || state == Quoting::Word,
        forall|k: int|
            0 <= k < n ==> #[trigger] s[k] != '\'' && s[k] != '"' && s[k] != '\\' && s[k] != '#',
    ensures
        has_operator(s, i, state),
    decreases n - i,
{
    if i < n && !is_operator(s[i]) {
        lemma_operator(s, i + 1, n, behind(state, s[i]));
    }
}

proof fn lemma_in_single_quotes(s: Seq<char>, i: int, end: int)
    requires
        0 < i <= end < s.len(),
        s[end] == '\'',
        forall|k: int| i <= k < end ==> #[trigger] s[k] != '\'',
    ensures
        has_operator(s, i, Quoting::Single) == has_operator(s, end + 1, Quoting::Word),
    decreases end - i,
{
    if i < end {
        lemma_in_single_quotes(s, i + 1, end);
    }
}

/// A command needs a shell where it joins commands, redirects or substitutes; what
/// stands in quotes does not count, and a command with none of it needs none.
pub proof fn law_who_needs_a_shell(command: Seq<char>, n: int, body: Seq<char>)
    ensures
        crate::text::has(command, "$("@) || crate::text::has(command, "`"@) ==> wants_shell(command),
        0 <= n < command.len() && joins_commands(command[n]) && (forall|k: int|
            0 <= k < n ==> #[trigger] command[k] != '\'' && command[k] != '"' && command[k] != '\\'
                && command[k] != '#') ==> wants_shell(command),
        (forall|k: int| 0 <= k < command.len() ==> !joins_commands(#[trigger] command[k]))
            && !crate::text::has(command, "$("@) && !crate::text::has(command, "`"@)
            ==> !wants_shell(command),
        !body.contains('\'') && !crate::text::has(seq!['\''] + body + seq!['\''], "$("@)
            && !crate::text::has(seq!['\''] + body + seq!['\''], "`"@) ==> !wants_shell(
            seq!['\''] + body + seq!['\''],
        ),
{
    if 0 <= n < command.len() && joins_commands(command[n]) && (forall|k: int|
        0 <= k < n ==> #[trigger] command[k] != '\'' && command[k] != '"' && command[k] != '\\'
            && command[k] != '#') {
        lemma_operator(command, 0, n, Quoting::Between);
    }
    if forall|k: int| 0 <= k < command.len() ==> !joins_commands(#[trigger] command[k]) {
        lemma_no_operator(command, 0, Quoting::Between);
    }
    let quoted = seq!['\''] + body + seq!['\''];
    if !body.contains('\'') {
        let end = body.len() + 1int;
        assert forall|k: int| 1 <= k < end implies #[trigger] quoted[k] != '\'' by {
            assert(quoted[k] == body[k - 1]);
            assert(body.contains(body[k - 1]));
        }
        assert(quoted[0] == '\'' && quoted[end] == '\'');
        lemma_in_single_quotes(quoted, 1, end);
        assert(!has_operator(quoted, end + 1, Quoting::Word));
        assert(behind(Quoting::Between, '\'') == Quoting::Single);
        assert(!is_operator('\''));
        assert(has_operator(quoted, 0, Quoting::Between) == has_operator(
            quoted,
            1,
            Quoting::Single,
        ));
    }
}

} // verus!
