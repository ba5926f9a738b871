//! Evaluation of a configured command: its `${env.X}`, `${vars.X}`,
//! `${secrets.X}` and `${param.X}` placeholders are found, substituted or
//! collected; and the interpretation of what a shell run gave back.

use vstd::prelude::*;
use vstd::utf8::*;
use crate::config::{AppConfig, find_value, has_name, lemma_lookup_has_name, lookup};
use crate::errors::{AppErrors, ErrorView};
use crate::text::{
    contains, decode_utf8_bytes, join3, lemma_replace_absent, lemma_replace_leading, replace, replace_all, starts_with,
    trim, trim_end, trim_start, trim_text, whitespace,
};

verus! {

/// The shell that runs every command.
pub const PROGRAM_NAME: &'static str = "zsh";

/// What the displayed command shows in place of a secret.
pub const MODIFIED_SECRET: &'static str = "********";

/// The regular expression that finds placeholders, one named group per kind.
pub const PLACEHOLDER_PATTERN: &'static str = "(?<envs>(\\$\\{env.\\w+}))|(?<variables>(\\$\\{vars.\\w+}))|(?<secrets>(\\$\\{secrets.\\w+}))|(?<params>(\\$\\{param.\\w+}))";

pub const ENVS: &'static str = "envs";
pub const VARS: &'static str = "variables";
pub const SECRETS: &'static str = "secrets";
pub const PARAMS: &'static str = "params";

pub const ENV_PREFIX: &'static str = "${env.";
pub const VARS_PREFIX: &'static str = "${vars.";
pub const SECRETS_PREFIX: &'static str = "${secrets.";
pub const PARAM_PREFIX: &'static str = "${param.";
pub const SUFFIX: &'static str = "}";

/// The error text of a failed environment lookup.
pub const ENV_FAILURE: &'static str = "Failed to get env variable";

/// What running a shell command gave back: whether it exited successfully and
/// its standard output, or the text of the error that kept it from starting.
#[derive(Debug, Clone, PartialEq, Eq)]
pub enum ProcessOutcome {
    Finished { success: bool, stdout: Vec<u8> },
    SpawnFailed(String),
}

/// One match of the placeholder expression: the text of each named group
/// that took part in it.
#[derive(Debug, Clone, PartialEq, Eq)]
pub struct PlaceholderCapture {
    pub envs: Option<String>,
    pub variables: Option<String>,
    pub secrets: Option<String>,
    pub params: Option<String>,
}

/// A command after evaluation: the command to run, the command to show
/// (secrets masked), and the parameters that it asks for, if any.
#[derive(Debug, Clone, PartialEq, Eq)]
pub struct EvaluatedCmd {
    pub original_cmd: String,
    pub modified_cmd: String,
    pub parameters: Option<Vec<String>>,
}

/// An evaluation in progress, with its text as sequences of characters.
#[verifier::ext_equal]
pub ghost struct EvalView {
    pub original: Seq<char>,
    pub modified: Seq<char>,
    pub params: Seq<Seq<char>>,
}

impl EvaluatedCmd {
    pub open spec fn params_view(&self) -> Seq<Seq<char>> {
        match self.parameters {
            Some(v) => v@.map_values(|s: String| s@),
            None => Seq::empty(),
        }
    }

    pub open spec fn eval_view(&self) -> EvalView {
        EvalView { original: self.original_cmd@, modified: self.modified_cmd@, params: self.params_view() }
    }

    /// Parameters are only present when there is at least one.
    pub open spec fn wf(&self) -> bool {
        self.parameters matches Some(v) ==> v@.len() > 0
    }
}

pub open spec fn opt_view(o: Option<String>) -> Option<Seq<char>> {
    match o {
        Some(s) => Some(s@),
        None => None,
    }
}

/// What `regex::Regex::new(pattern)` followed by `captures_iter(haystack)`
/// gives, each match read through `Captures::name` for every group named in
/// `groups`; `None` when the pattern is refused.
pub uninterp spec fn regex_captures_result(
    pattern: Seq<char>,
    groups: Seq<Seq<char>>,
    haystack: Seq<char>,
) -> Option<Seq<Seq<Option<Seq<char>>>>>;

/// What each of the four groups of the placeholder expression begins with:
/// `${` and the kind's word.
pub open spec fn group_lead(k: int) -> Seq<char> {
    if k == 0 {
        "${env"@
    } else if k == 1 {
        "${vars"@
    } else if k == 2 {
        "${secrets"@
    } else {
        "${param"@
    }
}

/// One match of the placeholder expression over `haystack`, read group by
/// group: at least one of the four groups took part, and the text of each
/// one that did is a piece of `haystack` that begins with its group's lead.
pub open spec fn placeholder_row(row: Seq<Option<Seq<char>>>, haystack: Seq<char>) -> bool {
    &&& row.len() == 4
    &&& (row[0] is Some || row[1] is Some || row[2] is Some || row[3] is Some)
    &&& forall|k: int|
        0 <= k < 4 ==> (#[trigger] row[k] matches Some(t) ==> contains(haystack, t) && starts_with(t, group_lead(k)))
}

/// Compiles `pattern` with `regex::Regex::new` and lists, for every match of
/// `Regex::captures_iter` over `haystack`, the text of each group in `groups`
/// (`Captures::name`, `Match::as_str`).  The result is named by
/// `regex_captures_result`, with one entry per group in every match.  For the
/// placeholder expression, whose four named groups are the four branches of
/// its alternation, each match is also read as the syntax documents it: the
/// branch that matched gives its group's text, which `Match::as_str` takes
/// from the haystack and which begins with the branch's literal `${` and
/// word.  Beyond that, which pieces the engine matches is not described.
#[verifier::external_body]
fn regex_named_captures(pattern: &str, groups: &Vec<&str>, haystack: &str) -> (r: Option<
    Vec<Vec<Option<String>>>,
>)
    ensures
        match regex_captures_result(pattern@, groups@.map_values(|g: &str| g@), haystack@) {
            Some(caps) => r matches Some(v) && v@.len() == caps.len() && (forall|i: int|
                0 <= i < v@.len() ==> (#[trigger] v@[i])@.len() == groups@.len() && v@[i]@.map_values(
                    |o: Option<String>| opt_view(o),
                ) == caps[i]),
            None => r is None,
        },
        pattern@ == PLACEHOLDER_PATTERN@ && groups@.map_values(|g: &str| g@) == placeholder_groups() ==> (
        r matches Some(v) ==> forall|i: int|
            0 <= i < v@.len() ==> placeholder_row(
                (#[trigger] v@[i])@.map_values(|o: Option<String>| opt_view(o)),
                haystack@,
            )),
{
    match regex::Regex::new(pattern) {
        Ok(re) => Some(
            re.captures_iter(haystack).map(
                |c| groups.iter().map(|g| c.name(g).map(|m| m.as_str().to_string())).collect(),
            ).collect(),
        ),
        Err(_) => None,
    }
}

pub open spec fn placeholder_groups() -> Seq<Seq<char>> {
    seq![ENVS@, VARS@, SECRETS@, PARAMS@]
}

pub open spec fn capture_of(groups: Seq<Option<Seq<char>>>, c: PlaceholderCapture) -> bool {
    &&& opt_view(c.envs) == groups[0]
    &&& opt_view(c.variables) == groups[1]
    &&& opt_view(c.secrets) == groups[2]
    &&& opt_view(c.params) == groups[3]
}

/// `c` is a match of the placeholder expression over `cmd`.
pub open spec fn placeholder_found(c: PlaceholderCapture, cmd: Seq<char>) -> bool {
    placeholder_row(seq![opt_view(c.envs), opt_view(c.variables), opt_view(c.secrets), opt_view(c.params)], cmd)
}

/// The placeholders of `cmd`, in order, as the placeholder expression finds
/// them; `None` only if the regex engine refuses the expression.
pub fn placeholders(cmd: &str) -> (r: Option<Vec<PlaceholderCapture>>)
    ensures
        match regex_captures_result(PLACEHOLDER_PATTERN@, placeholder_groups(), cmd@) {
            Some(caps) => r matches Some(v) && v@.len() == caps.len() && forall|i: int|
                0 <= i < v@.len() ==> capture_of(caps[i], #[trigger] v@[i]),
            None => r is None,
        },
        r matches Some(v) ==> forall|i: int| 0 <= i < v@.len() ==> placeholder_found(#[trigger] v@[i], cmd@),
{
    let mut groups: Vec<&str> = Vec::new();
    groups.push(ENVS);
    groups.push(VARS);
    groups.push(SECRETS);
    groups.push(PARAMS);
    assert(groups@.map_values(|g: &str| g@) =~= placeholder_groups());
    let found = regex_named_captures(PLACEHOLDER_PATTERN, &groups, cmd);
    match found {
        None => None,
        Some(all) => {
            let ghost caps = regex_captures_result(PLACEHOLDER_PATTERN@, placeholder_groups(), cmd@)->0;
            assert forall|j: int| 0 <= j < all@.len() implies placeholder_row(#[trigger] caps[j], cmd@) by {
                assert(placeholder_row(all@[j]@.map_values(|o: Option<String>| opt_view(o)), cmd@));
            }
            let mut out: Vec<PlaceholderCapture> = Vec::new();
            let mut i: usize = 0;
            while i < all.len()
                invariant
                    i <= all.len(),
                    all@.len() == caps.len(),
                    forall|j: int|
                        0 <= j < all@.len() ==> (#[trigger] all@[j])@.len() == 4 && all@[j]@.map_values(
                            |o: Option<String>| opt_view(o),
                        ) == caps[j],
                    out@.len() == i,
                    forall|j: int| 0 <= j < i ==> capture_of(caps[j], #[trigger] out@[j]),
                    forall|j: int| 0 <= j < all@.len() ==> placeholder_row(#[trigger] caps[j], cmd@),
                    forall|j: int| 0 <= j < i ==> placeholder_found(#[trigger] out@[j], cmd@),
                decreases all.len() - i,
            {
                let row = &all[i];
                proof {
                    let m = all@[i as int]@.map_values(|o: Option<String>| opt_view(o));
                    assert(m[0] == opt_view(row@[0]));
                    assert(m[1] == opt_view(row@[1]));
                    assert(m[2] == opt_view(row@[2]));
                    assert(m[3] == opt_view(row@[3]));
                    assert(placeholder_row(m, cmd@));
                    assert(m =~= seq![opt_view(row@[0]), opt_view(row@[1]), opt_view(row@[2]), opt_view(row@[3])]);
                }
                out.push(
                    PlaceholderCapture {
                        envs: row[0].clone(),
                        variables: row[1].clone(),
                        secrets: row[2].clone(),
                        params: row[3].clone(),
                    },
                );
                i = i + 1;
            }
            Some(out)
        },
    }
}

/// The name that a placeholder refers to: the match without surrounding
/// whitespace, the prefix and the closing brace.
pub open spec fn capture_name(m: Seq<char>, prefix: Seq<char>) -> Seq<char> {
    replace_all(replace_all(trim(m), prefix, Seq::empty()), SUFFIX@, Seq::empty())
}

/// The shell command that reads environment variable `name`.
pub open spec fn env_command(name: Seq<char>) -> Seq<char> {
    "echo $"@ + name
}

/// The value that a run of `cmd` produced, as `execute_and_get` reads it.
pub open spec fn output_value(
    cmd: Seq<char>,
    outcome: ProcessOutcome,
    err_msg: Seq<char>,
    empty_err: ErrorView,
) -> Result<Seq<char>, ErrorView> {
    match outcome {
        ProcessOutcome::Finished { success, stdout } => if success {
            if valid_utf8(stdout@) {
                let v = trim(decode_utf8(stdout@));
                if v.len() == 0 {
                    Err(empty_err)
                } else {
                    Ok(v)
                }
            } else {
                Err(ErrorView::FailedToReadHome)
            }
        } else {
            Err(ErrorView::CommandFailed(err_msg))
        },
        ProcessOutcome::SpawnFailed(e) => Err(
            ErrorView::FailedToExecuteCommand(" Failed to execute command "@ + cmd + ", ("@ + e@ + ")"@),
        ),
    }
}

/// What `execute_cmd` makes of a run of `cmd`.
pub open spec fn run_result(cmd: Seq<char>, outcome: ProcessOutcome, err_msg: Seq<char>) -> Result<(), ErrorView> {
    match outcome {
        ProcessOutcome::Finished { success, stdout: _ } => if success {
            Ok(())
        } else {
            Err(ErrorView::CommandFailed(err_msg))
        },
        ProcessOutcome::SpawnFailed(e) => Err(
            ErrorView::FailedToExecuteCommand(" Failed to execute command "@ + cmd + " \n ("@ + e@ + ")"@),
        ),
    }
}

/// The outcome of a run of `cmd` whose output is not needed: `Ok` when it
/// exited successfully, `err_msg` when it failed, and the start-up error when
/// it did not start.
pub fn execute_cmd(cmd: &str, outcome: &ProcessOutcome, err_msg: &str) -> (r: Result<(), AppErrors>)
    ensures
        match run_result(cmd@, *outcome, err_msg@) {
            Ok(_) => r is Ok,
            Err(e) => r matches Err(x) && x@ == e,
        },
{
    match outcome {
        ProcessOutcome::Finished { success, stdout: _ } => if *success {
            Ok(())
        } else {
            Err(AppErrors::CommandFailed(err_msg.to_owned()))
        },
        ProcessOutcome::SpawnFailed(e) => {
            let head = join3(" Failed to execute command ", cmd, " \n (");
            Err(AppErrors::FailedToExecuteCommand(join3(head.as_str(), e.as_str(), ")")))
        },
    }
}

/// The value that a run of `cmd` printed, without surrounding whitespace:
/// `empty_output_err` when it printed nothing, `err_msg` when it failed, and
/// the start-up error when it did not start.
pub fn execute_and_get(
    cmd: &str,
    outcome: &ProcessOutcome,
    err_msg: &str,
    empty_output_err: AppErrors,
) -> (r: Result<String, AppErrors>)
    ensures
        match output_value(cmd@, *outcome, err_msg@, empty_output_err@) {
            Ok(v) => r matches Ok(s) && s@ == v,
            Err(e) => r matches Err(x) && x@ == e,
        },
{
    match outcome {
        ProcessOutcome::Finished { success, stdout } => if *success {
            match decode_utf8_bytes(stdout) {
                Some(text) => {
                    let value = trim_text(text.as_str());
                    if value.unicode_len() == 0 {
                        Err(empty_output_err)
                    } else {
                        Ok(value)
                    }
                },
                None => Err(AppErrors::FailedToReadHome),
            }
        } else {
            Err(AppErrors::CommandFailed(err_msg.to_owned()))
        },
        ProcessOutcome::SpawnFailed(e) => {
            let head = join3(" Failed to execute command ", cmd, ", (");
            Err(AppErrors::FailedToExecuteCommand(join3(head.as_str(), e.as_str(), ")")))
        },
    }
}

/// The match text without surrounding whitespace, and the name it refers to.
fn placeholder_name(m: &String, prefix: &str) -> (r: (String, String))
    ensures
        r.0@ == trim(m@),
        r.1@ == capture_name(m@, prefix@),
{
    let pat = trim_text(m.as_str());
    let without_prefix = replace(pat.as_str(), prefix, "");
    let name = replace(without_prefix.as_str(), SUFFIX, "");
    proof {
        reveal_strlit("");
        assert(""@ =~= Seq::<char>::empty());
    }
    (pat, name)
}

/// The shell command that reads environment variable `name`.
pub fn env_lookup_command(name: &str) -> (r: String)
    ensures
        r@ == env_command(name@),
{
    crate::text::join2("echo $", name)
}

/// The command that the environment placeholder of a match needs run, if it
/// has one.
pub fn env_request(cap: &PlaceholderCapture) -> (r: Option<String>)
    ensures
        match cap.envs {
            Some(m) => r matches Some(c) && c@ == env_command(capture_name(m@, ENV_PREFIX@)),
            None => r is None,
        },
{
    match &cap.envs {
        Some(m) => {
            let (_, name) = placeholder_name(m, ENV_PREFIX);
            Some(env_lookup_command(name.as_str()))
        },
        None => None,
    }
}

/// The value of variable `var_name`, or `VarNotFound` when the configuration
/// has no such variable.
pub fn get_var(config: &AppConfig, var_name: &String) -> (r: Result<String, AppErrors>)
    ensures
        match lookup(config.variables@, var_name@) {
            Some(v) => r matches Ok(s) && s@ == v,
            None => r matches Err(e) && e@ == ErrorView::VarNotFound(var_name@),
        },
{
    match find_value(&config.variables, var_name) {
        Some(v) => Ok(v),
        None => Err(AppErrors::VarNotFound(var_name.clone())),
    }
}

/// The value of secret `var_name`, or `SecretNotFound` when the configuration
/// has no such secret.
pub fn get_secret(config: &AppConfig, var_name: &String) -> (r: Result<String, AppErrors>)
    ensures
        match lookup(config.secrets@, var_name@) {
            Some(v) => r matches Ok(s) && s@ == v,
            None => r matches Err(e) && e@ == ErrorView::SecretNotFound(var_name@),
        },
{
    match find_value(&config.secrets, var_name) {
        Some(v) => Ok(v),
        None => Err(AppErrors::SecretNotFound(var_name.clone())),
    }
}

/// `acc` with every occurrence of `pat` replaced by `value` in the command to
/// run and by `shown` in the command to show.
pub open spec fn substitute(acc: EvalView, pat: Seq<char>, value: Seq<char>, shown: Seq<char>) -> EvalView {
    EvalView {
        original: replace_all(acc.original, pat, value),
        modified: replace_all(acc.modified, pat, shown),
        params: acc.params,
    }
}

pub open spec fn apply_env(acc: EvalView, m: Option<String>, env: Option<ProcessOutcome>) -> Result<EvalView, ErrorView> {
    match m {
        None => Ok(acc),
        Some(m) => {
            let name = capture_name(m@, ENV_PREFIX@);
            match env {
                None => Err(ErrorView::EnvNotFound(name)),
                Some(o) => match output_value(env_command(name), o, ENV_FAILURE@, ErrorView::EnvNotFound(name)) {
                    Ok(v) => Ok(substitute(acc, trim(m@), v, v)),
                    Err(e) => Err(e),
                },
            }
        },
    }
}

pub open spec fn apply_var(acc: EvalView, m: Option<String>, vars: Seq<(String, String)>) -> Result<EvalView, ErrorView> {
    match m {
        None => Ok(acc),
        Some(m) => {
            let name = capture_name(m@, VARS_PREFIX@);
            match lookup(vars, name) {
                Some(v) => Ok(substitute(acc, trim(m@), v, v)),
                None => Err(ErrorView::VarNotFound(name)),
            }
        },
    }
}

pub open spec fn apply_secret(acc: EvalView, m: Option<String>, secrets: Seq<(String, String)>) -> Result<EvalView, ErrorView> {
    match m {
        None => Ok(acc),
        Some(m) => {
            let name = capture_name(m@, SECRETS_PREFIX@);
            match lookup(secrets, name) {
                Some(v) => Ok(substitute(acc, trim(m@), v, MODIFIED_SECRET@)),
                None => Err(ErrorView::SecretNotFound(name)),
            }
        },
    }
}

pub open spec fn apply_param(acc: EvalView, m: Option<String>) -> EvalView {
    match m {
        None => acc,
        Some(m) => EvalView { params: acc.params.push(capture_name(m@, PARAM_PREFIX@)), ..acc },
    }
}

/// One placeholder match applied to an evaluation in progress: its
/// environment, variable, secret and parameter groups, in that order, the
/// first error ending the evaluation.
pub open spec fn capture_step(
    acc: EvalView,
    cap: PlaceholderCapture,
    config: AppConfig,
    env: Option<ProcessOutcome>,
) -> Result<EvalView, ErrorView> {
    match apply_env(acc, cap.envs, env) {
        Err(e) => Err(e),
        Ok(a1) => match apply_var(a1, cap.variables, config.variables@) {
            Err(e) => Err(e),
            Ok(a2) => match apply_secret(a2, cap.secrets, config.secrets@) {
                Err(e) => Err(e),
                Ok(a3) => Ok(apply_param(a3, cap.params)),
            },
        },
    }
}

/// Number of matches that have an environment placeholder.
pub open spec fn env_count(caps: Seq<PlaceholderCapture>) -> nat
    decreases caps.len(),
{
    if caps.len() == 0 {
        0
    } else {
        (if caps[0].envs is Some { 1nat } else { 0nat }) + env_count(caps.skip(1))
    }
}

/// All matches applied in order; the environment lookups' outcomes are taken
/// from `envs` in the order in which the matches need them.
pub open spec fn evaluate_from(
    acc: EvalView,
    caps: Seq<PlaceholderCapture>,
    config: AppConfig,
    envs: Seq<ProcessOutcome>,
) -> Result<EvalView, ErrorView>
    decreases caps.len(),
{
    if caps.len() == 0 {
        Ok(acc)
    } else {
        let needs_env = caps[0].envs is Some;
        let env = if needs_env && envs.len() > 0 { Some(envs[0]) } else { None };
        let rest = if needs_env && envs.len() > 0 { envs.skip(1) } else { envs };
        match capture_step(acc, caps[0], config, env) {
            Err(e) => Err(e),
            Ok(a) => evaluate_from(a, caps.skip(1), config, rest),
        }
    }
}

fn substitute_exec(acc: EvaluatedCmd, pat: &String, value: &String, shown: &str) -> (r: EvaluatedCmd)
    requires
        acc.wf(),
    ensures
        r.wf(),
        r.eval_view() == substitute(acc.eval_view(), pat@, value@, shown@),
{
    EvaluatedCmd {
        original_cmd: replace(acc.original_cmd.as_str(), pat.as_str(), value.as_str()),
        modified_cmd: replace(acc.modified_cmd.as_str(), pat.as_str(), shown),
        parameters: acc.parameters,
    }
}

/// One placeholder match applied to an evaluation in progress.  `env` is the
/// outcome of running the command that `env_request` gives for this match,
/// when it gives one.
pub fn apply_capture(
    acc: EvaluatedCmd,
    cap: &PlaceholderCapture,
    config: &AppConfig,
    env: Option<&ProcessOutcome>,
) -> (r: Result<EvaluatedCmd, AppErrors>)
    requires
        acc.wf(),
        cap.envs is Some ==> env is Some,
    ensures
        match capture_step(
            acc.eval_view(),
            *cap,
            *config,
            match env {
                Some(o) => Some(*o),
                None => None,
            },
        ) {
            Ok(v) => r matches Ok(x) && x.wf() && x.eval_view() == v,
            Err(e) => r matches Err(x) && x@ == e,
        },
{
    let mut acc = acc;
    let ghost a0 = acc.eval_view();
    if let Some(m) = &cap.envs {
        let (pat, name) = placeholder_name(m, ENV_PREFIX);
        let command = env_lookup_command(name.as_str());
        let outcome = env.unwrap();
        match execute_and_get(command.as_str(), outcome, ENV_FAILURE, AppErrors::EnvNotFound(name)) {
            Ok(value) => {
                acc = substitute_exec(acc, &pat, &value, value.as_str());
            },
            Err(e) => {
                return Err(e);
            },
        }
    }
    let ghost a1 = acc.eval_view();
    assert(apply_env(a0, cap.envs, match env { Some(o) => Some(*o), None => None }) == Ok::<EvalView, ErrorView>(a1));
    if let Some(m) = &cap.variables {
        let (pat, name) = placeholder_name(m, VARS_PREFIX);
        match get_var(config, &name) {
            Ok(value) => {
                acc = substitute_exec(acc, &pat, &value, value.as_str());
            },
            Err(e) => {
                return Err(e);
            },
        }
    }
    let ghost a2 = acc.eval_view();
    assert(apply_var(a1, cap.variables, config.variables@) == Ok::<EvalView, ErrorView>(a2));
    if let Some(m) = &cap.secrets {
        let (pat, name) = placeholder_name(m, SECRETS_PREFIX);
        match get_secret(config, &name) {
            Ok(value) => {
                acc = substitute_exec(acc, &pat, &value, MODIFIED_SECRET);
            },
            Err(e) => {
                return Err(e);
            },
        }
    }
    let ghost a3 = acc.eval_view();
    assert(apply_secret(a2, cap.secrets, config.secrets@) == Ok::<EvalView, ErrorView>(a3));
    if let Some(m) = &cap.params {
        let (_, name) = placeholder_name(m, PARAM_PREFIX);
        let parameters = match acc.parameters {
            Some(mut v) => {
                let ghost before = v@;
                v.push(name);
                proof {
                    assert(v@.map_values(|s: String| s@) =~= before.map_values(|s: String| s@).push(
                        capture_name(m@, PARAM_PREFIX@),
                    ));
                }
                v
            },
            None => {
                let mut v: Vec<String> = Vec::new();
                v.push(name);
                proof {
                    assert(v@.map_values(|s: String| s@) =~= Seq::<Seq<char>>::empty().push(
                        capture_name(m@, PARAM_PREFIX@),
                    ));
                }
                v
            },
        };
        acc = EvaluatedCmd {
            original_cmd: acc.original_cmd,
            modified_cmd: acc.modified_cmd,
            parameters: Some(parameters),
        };
    }
    assert(acc.eval_view() == apply_param(a3, cap.params));
    Ok(acc)
}

/// `cmd` with its placeholders evaluated: environment and variable
/// placeholders replaced by their values, secret placeholders replaced by the
/// secret in the command to run and masked in the command to show, parameter
/// names collected in order.  `captures` are the placeholder matches of
/// `cmd` (see `placeholders`), `env_outputs` the outcomes of the environment
/// lookups that they need, in order (see `env_request`).
pub fn evaluate_cmd_value(
    cmd: &str,
    captures: &Vec<PlaceholderCapture>,
    config: &AppConfig,
    env_outputs: &Vec<ProcessOutcome>,
) -> (r: Result<EvaluatedCmd, AppErrors>)
    requires
        env_outputs@.len() == env_count(captures@),
    ensures
        match evaluate_from(
            start(cmd@),
            captures@,
            *config,
            env_outputs@,
        ) {
            Ok(v) => r matches Ok(x) && x.original_cmd@ == v.original && x.modified_cmd@ == v.modified
                && x.params_view() == v.params && (x.parameters is None <==> v.params.len() == 0),
            Err(e) => r matches Err(x) && x@ == e,
        },
{
    let mut acc = EvaluatedCmd { original_cmd: cmd.to_owned(), modified_cmd: cmd.to_owned(), parameters: None };
    let ghost init = EvalView { original: cmd@, modified: cmd@, params: Seq::<Seq<char>>::empty() };
    assert(acc.eval_view() =~= init);
    let mut i: usize = 0;
    let mut k: usize = 0;
    assert(captures@.skip(0) =~= captures@);
    assert(env_outputs@.skip(0) =~= env_outputs@);
    while i < captures.len()
        invariant
            i <= captures.len(),
            k <= env_outputs.len(),
            acc.wf(),
            init == (EvalView { original: cmd@, modified: cmd@, params: Seq::<Seq<char>>::empty() }),
            k + env_count(captures@.skip(i as int)) == env_outputs@.len(),
            evaluate_from(init, captures@, *config, env_outputs@) == evaluate_from(
                acc.eval_view(),
                captures@.skip(i as int),
                *config,
                env_outputs@.skip(k as int),
            ),
        decreases captures.len() - i,
    {
        let cap = &captures[i];
        let ghost rest = captures@.skip(i as int);
        let ghost envs = env_outputs@.skip(k as int);
        proof {
            assert(rest[0] == captures@[i as int]);
            assert(rest.skip(1) =~= captures@.skip(i + 1));
            assert(env_count(rest) == (if rest[0].envs is Some { 1nat } else { 0nat }) + env_count(
                rest.skip(1),
            ));
            if rest[0].envs is Some {
                assert(envs[0] == env_outputs@[k as int]);
            }
        }
        let env = if cap.envs.is_some() {
            Some(&env_outputs[k])
        } else {
            None
        };
        let ghost before = acc.eval_view();
        let ghost env_spec = match env {
            Some(o) => Some(*o),
            None => None,
        };
        proof {
            let needs_env = rest[0].envs is Some;
            let e2 = if needs_env && envs.len() > 0 { Some(envs[0]) } else { None };
            assert(env_spec == e2);
        }
        let step = apply_capture(acc, cap, config, env);
        match step {
            Ok(next) => {
                acc = next;
            },
            Err(e) => {
                proof {
                    assert(capture_step(before, rest[0], *config, env_spec) == Err::<EvalView, ErrorView>(e@));
                    assert(evaluate_from(before, rest, *config, envs) == Err::<EvalView, ErrorView>(e@));
                }
                return Err(e);
            },
        }
        if cap.envs.is_some() {
            proof {
                assert(envs[0] == env_outputs@[k as int]);
                assert(envs.skip(1) =~= env_outputs@.skip(k + 1));
            }
            k = k + 1;
        }
        i = i + 1;
    }
    proof {
        assert(captures@.skip(i as int) =~= Seq::<PlaceholderCapture>::empty());
    }
    Ok(acc)
}

/// `c1` and `c2` have the same variables and the same secret names, in
/// whatever order; their secrets' values may differ.
pub open spec fn same_but_secret_values(c1: AppConfig, c2: AppConfig) -> bool {
    &&& c1.variables@ == c2.variables@
    &&& forall|n: Seq<char>| #[trigger] has_name(c1.secrets@, n) <==> has_name(c2.secrets@, n)
}

/// Two evaluations show the same command, ask for the same parameters and
/// fail with the same error.
pub open spec fn same_shown(r1: Result<EvalView, ErrorView>, r2: Result<EvalView, ErrorView>) -> bool {
    match (r1, r2) {
        (Ok(a), Ok(b)) => a.modified == b.modified && a.params == b.params,
        (Err(e1), Err(e2)) => e1 == e2,
        _ => false,
    }
}

/// The evaluation that starts from the command itself.
pub open spec fn start(cmd: Seq<char>) -> EvalView {
    EvalView { original: cmd, modified: cmd, params: Seq::empty() }
}

proof fn lemma_step_ignores_secret_values(
    a1: EvalView,
    a2: EvalView,
    cap: PlaceholderCapture,
    c1: AppConfig,
    c2: AppConfig,
    env: Option<ProcessOutcome>,
)
    requires
        same_but_secret_values(c1, c2),
        a1.modified == a2.modified,
        a1.params == a2.params,
    ensures
        same_shown(capture_step(a1, cap, c1, env), capture_step(a2, cap, c2, env)),
{
    if let Some(m) = cap.secrets {
        let name = capture_name(m@, SECRETS_PREFIX@);
        lemma_lookup_has_name(c1.secrets@, name);
        lemma_lookup_has_name(c2.secrets@, name);
        assert(has_name(c1.secrets@, name) <==> has_name(c2.secrets@, name));
    }
}

proof fn lemma_from_ignores_secret_values(
    a1: EvalView,
    a2: EvalView,
    caps: Seq<PlaceholderCapture>,
    c1: AppConfig,
    c2: AppConfig,
    envs: Seq<ProcessOutcome>,
)
    requires
        same_but_secret_values(c1, c2),
        a1.modified == a2.modified,
        a1.params == a2.params,
    ensures
        same_shown(evaluate_from(a1, caps, c1, envs), evaluate_from(a2, caps, c2, envs)),
    decreases caps.len(),
{
    if caps.len() > 0 {
        let needs_env = caps[0].envs is Some;
        let env = if needs_env && envs.len() > 0 { Some(envs[0]) } else { None };
        let rest = if needs_env && envs.len() > 0 { envs.skip(1) } else { envs };
        lemma_step_ignores_secret_values(a1, a2, caps[0], c1, c2, env);
        match (capture_step(a1, caps[0], c1, env), capture_step(a2, caps[0], c2, env)) {
            (Ok(b1), Ok(b2)) => {
                lemma_from_ignores_secret_values(b1, b2, caps.skip(1), c1, c2, rest);
            },
            _ => {},
        }
    }
}

/// The command shown, the parameters asked for and the error reported do not
/// depend on the values of the secrets: two configurations with the same
/// variables and the same secret names, in any order, give the same ones.
pub proof fn lemma_shown_command_ignores_secret_values(
    cmd: Seq<char>,
    caps: Seq<PlaceholderCapture>,
    c1: AppConfig,
    c2: AppConfig,
    envs: Seq<ProcessOutcome>,
)
    requires
        same_but_secret_values(c1, c2),
    ensures
        same_shown(evaluate_from(start(cmd), caps, c1, envs), evaluate_from(start(cmd), caps, c2, envs)),
{
    lemma_from_ignores_secret_values(start(cmd), start(cmd), caps, c1, c2, envs);
}

proof fn lemma_from_without_secrets(a: EvalView, caps: Seq<PlaceholderCapture>, c: AppConfig, envs: Seq<ProcessOutcome>)
    requires
        a.original == a.modified,
        forall|i: int| 0 <= i < caps.len() ==> (#[trigger] caps[i]).secrets is None,
    ensures
        evaluate_from(a, caps, c, envs) matches Ok(v) ==> v.original == v.modified,
    decreases caps.len(),
{
    if caps.len() > 0 {
        let needs_env = caps[0].envs is Some;
        let env = if needs_env && envs.len() > 0 { Some(envs[0]) } else { None };
        let rest = if needs_env && envs.len() > 0 { envs.skip(1) } else { envs };
        assert(caps[0].secrets is None);
        assert forall|i: int| 0 <= i < caps.skip(1).len() implies (#[trigger] caps.skip(1)[i]).secrets is None by {
            assert(caps.skip(1)[i] == caps[i + 1]);
        }
        if let Ok(b) = capture_step(a, caps[0], c, env) {
            lemma_from_without_secrets(b, caps.skip(1), c, rest);
        }
    }
}

/// Without a secret placeholder, the command to run and the command shown
/// are the same.
pub proof fn lemma_no_secret_nothing_masked(
    cmd: Seq<char>,
    caps: Seq<PlaceholderCapture>,
    c: AppConfig,
    envs: Seq<ProcessOutcome>,
)
    requires
        forall|i: int| 0 <= i < caps.len() ==> (#[trigger] caps[i]).secrets is None,
    ensures
        evaluate_from(start(cmd), caps, c, envs) matches Ok(v) ==> v.original == v.modified,
{
    lemma_from_without_secrets(start(cmd), caps, c, envs);
}

proof fn lemma_starts_with_trans(s: Seq<char>, t: Seq<char>, p: Seq<char>)
    requires
        starts_with(s, t),
        starts_with(t, p),
    ensures
        starts_with(s, p),
{
    assert forall|j: int| 0 <= j < p.len() implies s.subrange(0, p.len() as int)[j] == p[j] by {
        assert(s.subrange(0, t.len() as int)[j] == t[j]);
        assert(t.subrange(0, p.len() as int)[j] == p[j]);
    }
    assert(s.subrange(0, p.len() as int) =~= p);
}

proof fn lemma_contains_lead(h: Seq<char>, t: Seq<char>, p: Seq<char>)
    requires
        contains(h, t),
        starts_with(t, p),
    ensures
        contains(h, p),
{
    let k = choose|k: int| 0 <= k <= h.len() && #[trigger] starts_with(h.skip(k), t);
    lemma_starts_with_trans(h.skip(k), t, p);
}

proof fn lemma_leads_open(k: int)
    requires
        0 <= k < 4,
    ensures
        starts_with(group_lead(k), "${"@),
{
    reveal_strlit("${");
    reveal_strlit("${env");
    reveal_strlit("${vars");
    reveal_strlit("${secrets");
    reveal_strlit("${param");
    assert(group_lead(k).subrange(0, 2) =~= "${"@);
}

/// A match of the placeholder expression over `cmd` shows that `${` occurs
/// in `cmd`, and one with a secret group that `${secrets` does.
proof fn lemma_found_in_text(c: PlaceholderCapture, cmd: Seq<char>)
    requires
        placeholder_found(c, cmd),
    ensures
        contains(cmd, "${"@),
        c.secrets is Some ==> contains(cmd, "${secrets"@),
{
    let row = seq![opt_view(c.envs), opt_view(c.variables), opt_view(c.secrets), opt_view(c.params)];
    let k = if row[0] is Some { 0int } else if row[1] is Some { 1int } else if row[2] is Some { 2int } else { 3int };
    let t = row[k]->0;
    lemma_leads_open(k);
    lemma_starts_with_trans(t, group_lead(k), "${"@);
    lemma_contains_lead(cmd, t, "${"@);
    if c.secrets is Some {
        assert(row[2] is Some);
        lemma_contains_lead(cmd, row[2]->0, "${secrets"@);
    }
}

/// A command in which `${` does not occur has no placeholder match, and
/// evaluates to itself: the command to run and the command shown are the
/// command, with no parameters.
pub proof fn lemma_plain_command_unchanged(
    cmd: Seq<char>,
    caps: Seq<PlaceholderCapture>,
    c: AppConfig,
    envs: Seq<ProcessOutcome>,
)
    requires
        forall|i: int| 0 <= i < caps.len() ==> placeholder_found(#[trigger] caps[i], cmd),
        !contains(cmd, "${"@),
    ensures
        caps.len() == 0,
        evaluate_from(start(cmd), caps, c, envs) == Ok::<EvalView, ErrorView>(start(cmd)),
{
    if caps.len() > 0 {
        lemma_found_in_text(caps[0], cmd);
    }
}

/// A command in which `${secrets` does not occur has nothing masked: when it
/// evaluates, the command to run and the command shown are the same.
pub proof fn lemma_no_secret_text_nothing_masked(
    cmd: Seq<char>,
    caps: Seq<PlaceholderCapture>,
    c: AppConfig,
    envs: Seq<ProcessOutcome>,
)
    requires
        forall|i: int| 0 <= i < caps.len() ==> placeholder_found(#[trigger] caps[i], cmd),
        !contains(cmd, "${secrets"@),
    ensures
        evaluate_from(start(cmd), caps, c, envs) matches Ok(v) ==> v.original == v.modified,
{
    assert forall|i: int| 0 <= i < caps.len() implies (#[trigger] caps[i]).secrets is None by {
        lemma_found_in_text(caps[i], cmd);
    }
    lemma_no_secret_nothing_masked(cmd, caps, c, envs);
}

proof fn lemma_trim_unchanged(m: Seq<char>)
    requires
        m.len() > 0,
        !whitespace(m[0]),
        !whitespace(m.last()),
    ensures
        trim(m) == m,
{
    assert(trim_start(m) == m);
    assert(trim_end(m) == m);
}

proof fn lemma_replace_last_char(n: Seq<char>, pat: Seq<char>, rep: Seq<char>)
    requires
        pat.len() == 1,
        !contains(n, pat),
    ensures
        replace_all(n + pat, pat, rep) == n + rep,
    decreases n.len(),
{
    let s = n + pat;
    if n.len() == 0 {
        assert(s =~= pat + Seq::<char>::empty());
        lemma_replace_leading(pat, Seq::<char>::empty(), rep);
        assert(n + rep =~= rep + Seq::<char>::empty());
    } else {
        assert(n.skip(0) =~= n);
        if starts_with(s, pat) {
            assert(s.subrange(0, 1) =~= n.subrange(0, 1));
            assert(starts_with(n.skip(0), pat));
        }
        let t = n.skip(1);
        assert forall|k: int| 0 <= k <= t.len() implies !#[trigger] starts_with(t.skip(k), pat) by {
            assert(t.skip(k) =~= n.skip(k + 1));
        }
        assert(s.skip(1) =~= t + pat);
        lemma_replace_last_char(t, pat, rep);
        assert(n + rep =~= seq![s[0]] + (t + rep));
    }
}

proof fn lemma_absent_before_char(n: Seq<char>, p: Seq<char>, c: char)
    requires
        p.len() > 0,
        !contains(n, p),
        forall|j: int| 0 <= j < p.len() ==> p[j] != c,
    ensures
        !contains(n + seq![c], p),
{
    let s = n + seq![c];
    assert forall|k: int| 0 <= k <= s.len() implies !#[trigger] starts_with(s.skip(k), p) by {
        if starts_with(s.skip(k), p) {
            if k + p.len() <= n.len() {
                assert(n.skip(k).subrange(0, p.len() as int) =~= s.skip(k).subrange(0, p.len() as int));
                assert(starts_with(n.skip(k), p));
            } else {
                assert(s.skip(k).subrange(0, p.len() as int)[p.len() - 1] == s[n.len() as int]);
                assert(p[p.len() - 1] == c);
            }
        }
    }
}

/// The placeholder `prefix`, `n`, `}` refers to the name `n` as written, and
/// is its own trimmed match text, when `n` holds neither the prefix nor `}`.
proof fn lemma_written_name(prefix: Seq<char>, n: Seq<char>)
    requires
        prefix.len() > 0,
        prefix[0] == '$',
        forall|j: int| 0 <= j < prefix.len() ==> prefix[j] != '}',
        !contains(n, prefix),
        !contains(n, SUFFIX@),
    ensures
        trim(prefix + n + SUFFIX@) == prefix + n + SUFFIX@,
        capture_name(prefix + n + SUFFIX@, prefix) == n,
{
    reveal_strlit("}");
    let m = prefix + n + SUFFIX@;
    assert(m[0] == '$');
    assert(m.last() == '}');
    lemma_trim_unchanged(m);
    assert(m =~= prefix + (n + SUFFIX@));
    lemma_replace_leading(prefix, n + SUFFIX@, Seq::empty());
    assert(SUFFIX@ =~= seq!['}']);
    lemma_absent_before_char(n, prefix, '}');
    lemma_replace_absent(n + SUFFIX@, prefix, Seq::empty());
    assert(Seq::<char>::empty() + (n + SUFFIX@) =~= n + SUFFIX@);
    lemma_replace_last_char(n, SUFFIX@, Seq::empty());
    assert(n + Seq::<char>::empty() =~= n);
}

proof fn lemma_prefix_shapes()
    ensures
        VARS_PREFIX@.len() > 0 && VARS_PREFIX@[0] == '$' && forall|j: int| 0 <= j < VARS_PREFIX@.len() ==> VARS_PREFIX@[j] != '}',
        SECRETS_PREFIX@.len() > 0 && SECRETS_PREFIX@[0] == '$' && forall|j: int|
            0 <= j < SECRETS_PREFIX@.len() ==> SECRETS_PREFIX@[j] != '}',
        ENV_PREFIX@.len() > 0 && ENV_PREFIX@[0] == '$' && forall|j: int| 0 <= j < ENV_PREFIX@.len() ==> ENV_PREFIX@[j] != '}',
        PARAM_PREFIX@.len() > 0 && PARAM_PREFIX@[0] == '$' && forall|j: int| 0 <= j < PARAM_PREFIX@.len() ==> PARAM_PREFIX@[j] != '}',
{
    reveal_strlit("${vars.");
    reveal_strlit("${secrets.");
    reveal_strlit("${env.");
    reveal_strlit("${param.");
}

/// A match that is only the variable placeholder `${vars.N}` looks `N` up
/// exactly as written: when the configuration has a variable `N`, every
/// occurrence of the placeholder is replaced by its value in both commands;
/// `VarNotFound(N)` comes exactly when it has none.
pub proof fn lemma_var_placeholder_uses_written_name(
    acc: EvalView,
    cap: PlaceholderCapture,
    config: AppConfig,
    env: Option<ProcessOutcome>,
    n: Seq<char>,
)
    requires
        cap.envs is None && cap.secrets is None && cap.params is None,
        cap.variables matches Some(m) && m@ == VARS_PREFIX@ + n + SUFFIX@,
        !contains(n, VARS_PREFIX@),
        !contains(n, SUFFIX@),
    ensures
        lookup(config.variables@, n) matches Some(v) ==> capture_step(acc, cap, config, env) == Ok::<EvalView, ErrorView>(
            EvalView {
                original: replace_all(acc.original, VARS_PREFIX@ + n + SUFFIX@, v),
                modified: replace_all(acc.modified, VARS_PREFIX@ + n + SUFFIX@, v),
                params: acc.params,
            },
        ),
        lookup(config.variables@, n) is None ==> capture_step(acc, cap, config, env) == Err::<EvalView, ErrorView>(
            ErrorView::VarNotFound(n),
        ),
{
    lemma_prefix_shapes();
    lemma_written_name(VARS_PREFIX@, n);
}

/// A match that is only the secret placeholder `${secrets.N}` looks `N` up
/// exactly as written: when the configuration has a secret `N`, the
/// placeholder is replaced by its value in the command to run and by the mask
/// in the command shown; `SecretNotFound(N)` comes exactly when it has none.
pub proof fn lemma_secret_placeholder_uses_written_name(
    acc: EvalView,
    cap: PlaceholderCapture,
    config: AppConfig,
    env: Option<ProcessOutcome>,
    n: Seq<char>,
)
    requires
        cap.envs is None && cap.variables is None && cap.params is None,
        cap.secrets matches Some(m) && m@ == SECRETS_PREFIX@ + n + SUFFIX@,
        !contains(n, SECRETS_PREFIX@),
        !contains(n, SUFFIX@),
    ensures
        lookup(config.secrets@, n) matches Some(v) ==> capture_step(acc, cap, config, env) == Ok::<EvalView, ErrorView>(
            EvalView {
                original: replace_all(acc.original, SECRETS_PREFIX@ + n + SUFFIX@, v),
                modified: replace_all(acc.modified, SECRETS_PREFIX@ + n + SUFFIX@, MODIFIED_SECRET@),
                params: acc.params,
            },
        ),
        lookup(config.secrets@, n) is None ==> capture_step(acc, cap, config, env) == Err::<EvalView, ErrorView>(
            ErrorView::SecretNotFound(n),
        ),
{
    lemma_prefix_shapes();
    lemma_written_name(SECRETS_PREFIX@, n);
}

/// A match that is only the parameter placeholder `${param.N}` adds `N`, as
/// written, after the parameters collected so far, and changes neither
/// command.
pub proof fn lemma_param_placeholder_uses_written_name(
    acc: EvalView,
    cap: PlaceholderCapture,
    config: AppConfig,
    env: Option<ProcessOutcome>,
    n: Seq<char>,
)
    requires
        cap.envs is None && cap.variables is None && cap.secrets is None,
        cap.params matches Some(m) && m@ == PARAM_PREFIX@ + n + SUFFIX@,
        !contains(n, PARAM_PREFIX@),
        !contains(n, SUFFIX@),
    ensures
        capture_step(acc, cap, config, env) == Ok::<EvalView, ErrorView>(
            EvalView { original: acc.original, modified: acc.modified, params: acc.params.push(n) },
        ),
{
    lemma_prefix_shapes();
    lemma_written_name(PARAM_PREFIX@, n);
}

/// A match that is only the environment placeholder `${env.N}` asks the
/// shell for `N` as written (`env_request` gives `echo $N`), and the value read from that run
/// replaces the placeholder in both commands; a failed run gives its error.
pub proof fn lemma_env_placeholder_uses_written_name(
    acc: EvalView,
    cap: PlaceholderCapture,
    config: AppConfig,
    o: ProcessOutcome,
    n: Seq<char>,
)
    requires
        cap.variables is None && cap.secrets is None && cap.params is None,
        cap.envs matches Some(m) && m@ == ENV_PREFIX@ + n + SUFFIX@,
        !contains(n, ENV_PREFIX@),
        !contains(n, SUFFIX@),
    ensures
        cap.envs matches Some(m) && env_command(capture_name(m@, ENV_PREFIX@)) == "echo $"@ + n,
        match output_value("echo $"@ + n, o, ENV_FAILURE@, ErrorView::EnvNotFound(n)) {
            Ok(v) => capture_step(acc, cap, config, Some(o)) == Ok::<EvalView, ErrorView>(
                EvalView {
                    original: replace_all(acc.original, ENV_PREFIX@ + n + SUFFIX@, v),
                    modified: replace_all(acc.modified, ENV_PREFIX@ + n + SUFFIX@, v),
                    params: acc.params,
                },
            ),
            Err(e) => capture_step(acc, cap, config, Some(o)) == Err::<EvalView, ErrorView>(e),
        },
{
    lemma_prefix_shapes();
    lemma_written_name(ENV_PREFIX@, n);
}

/// The environment outcome that the `j`-th match uses: for a match with an
/// environment placeholder, the outcome that comes after one outcome for
/// each earlier match that had one.
pub open spec fn env_outcome_for(caps: Seq<PlaceholderCapture>, envs: Seq<ProcessOutcome>, j: int) -> Option<
    ProcessOutcome,
> {
    if caps[j].envs is Some {
        Some(envs[env_count(caps.take(j)) as int])
    } else {
        None
    }
}

/// The matches from the `j`-th on applied one after the other, each with the
/// environment outcome that `env_outcome_for` gives it.
pub open spec fn apply_in_turn(
    acc: EvalView,
    caps: Seq<PlaceholderCapture>,
    config: AppConfig,
    envs: Seq<ProcessOutcome>,
    j: int,
) -> Result<EvalView, ErrorView>
    decreases caps.len() - j,
{
    if j < 0 || j >= caps.len() {
        Ok(acc)
    } else {
        match capture_step(acc, caps[j], config, env_outcome_for(caps, envs, j)) {
            Err(e) => Err(e),
            Ok(a) => apply_in_turn(a, caps, config, envs, j + 1),
        }
    }
}

proof fn lemma_env_count_concat(a: Seq<PlaceholderCapture>, b: Seq<PlaceholderCapture>)
    ensures
        env_count(a + b) == env_count(a) + env_count(b),
    decreases a.len(),
{
    if a.len() == 0 {
        assert(a + b =~= b);
    } else {
        assert((a + b)[0] == a[0]);
        assert((a + b).skip(1) =~= a.skip(1) + b);
        lemma_env_count_concat(a.skip(1), b);
    }
}

proof fn lemma_in_turn_from(
    acc: EvalView,
    caps: Seq<PlaceholderCapture>,
    config: AppConfig,
    envs: Seq<ProcessOutcome>,
    j: int,
)
    requires
        0 <= j <= caps.len(),
        envs.len() == env_count(caps),
    ensures
        evaluate_from(acc, caps.skip(j), config, envs.skip(env_count(caps.take(j)) as int)) == apply_in_turn(
            acc,
            caps,
            config,
            envs,
            j,
        ),
    decreases caps.len() - j,
{
    let c = env_count(caps.take(j));
    assert(caps =~= caps.take(j) + caps.skip(j));
    lemma_env_count_concat(caps.take(j), caps.skip(j));
    let rest = caps.skip(j);
    let es = envs.skip(c as int);
    if j < caps.len() {
        assert(rest[0] == caps[j]);
        assert(rest.skip(1) =~= caps.skip(j + 1));
        assert(caps.take(j + 1) =~= caps.take(j) + seq![caps[j]]);
        lemma_env_count_concat(caps.take(j), seq![caps[j]]);
        assert(seq![caps[j]].skip(1) =~= Seq::<PlaceholderCapture>::empty());
        let env = env_outcome_for(caps, envs, j);
        assert(env_count(rest) == (if rest[0].envs is Some { 1nat } else { 0nat }) + env_count(rest.skip(1)));
        assert(env_count(Seq::<PlaceholderCapture>::empty()) == 0);
        assert(env_count(seq![caps[j]]) == (if caps[j].envs is Some { 1nat } else { 0nat }) + env_count(
            seq![caps[j]].skip(1),
        ));
        assert(es.len() == env_count(rest));
        let needs_env = rest[0].envs is Some;
        let e2 = if needs_env && es.len() > 0 { Some(es[0]) } else { None };
        let r2 = if needs_env && es.len() > 0 { es.skip(1) } else { es };
        if caps[j].envs is Some {
            assert(es[0] == envs[c as int]);
            assert(es.skip(1) =~= envs.skip(c + 1int));
            assert(env_count(caps.take(j + 1)) == c + 1);
        } else {
            assert(env_count(caps.take(j + 1)) == c);
        }
        assert(e2 == env);
        assert(r2 == envs.skip(env_count(caps.take(j + 1)) as int));
        match capture_step(acc, caps[j], config, env) {
            Err(e) => {},
            Ok(a) => {
                lemma_in_turn_from(a, caps, config, envs, j + 1);
            },
        }
    } else {
        assert(rest =~= Seq::<PlaceholderCapture>::empty());
    }
}

/// Evaluation hands out the environment outcomes in order, one to each match
/// with an environment placeholder: the `j`-th match uses the outcome that
/// follows those of the earlier matches with one (`env_outcome_for`), and the
/// matches are applied left to right.
pub proof fn lemma_env_outcomes_in_order(
    acc: EvalView,
    caps: Seq<PlaceholderCapture>,
    config: AppConfig,
    envs: Seq<ProcessOutcome>,
)
    requires
        envs.len() == env_count(caps),
    ensures
        evaluate_from(acc, caps, config, envs) == apply_in_turn(acc, caps, config, envs, 0),
{
    assert(caps.take(0) =~= Seq::<PlaceholderCapture>::empty());
    assert(caps.skip(0) =~= caps);
    assert(envs.skip(0) =~= envs);
    lemma_in_turn_from(acc, caps, config, envs, 0);
}

} // verus!
