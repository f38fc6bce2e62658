//! The Amp CLI: which command is run, and what its reply means.
use vstd::prelude::*;
use crate::args;
use crate::args::{
    dirs_add_args, dirs_list_args, dirs_remove_args, list_runners_args, update_args, version_args,
};
use crate::dirpick;
use crate::dirpick::parse_zoxide_output;
use crate::listing;
use crate::listing::{looks_like_json, parse_dirs_list, parse_runner_list, ListError};
use crate::path;
use crate::path::{is_compound, join_path};
use crate::process;
use crate::process::merge_runners;
use crate::runner;
use crate::runner::{LocalProcess, ProcessView, Runner, RunnerView};
use crate::text;
use crate::text::{
    chars_of, first_line, join, split, string_of, text_from_utf8_lossy, trimmed, Class,
};

verus! {

/// What became of a command.
#[derive(Debug)]
pub enum CommandReply {
    /// It could not be run; why.
    NotRun(String),
    /// It ran to its end.
    Finished {
        success: bool,
        /// How its exit status reads.
        status: String,
        stdout: Vec<u8>,
        stderr: Vec<u8>,
    },
}

/// Why a call of Amp failed.
#[derive(Debug, PartialEq, Eq)]
pub enum CallError {
    NotRun { binary: String, args: String, detail: String },
    Failed { args: String, status: String, stdout: String, stderr: String },
    /// The runner list starts like JSON and is none; what the parser says.
    NotJson(String),
}

/// What a [`CallError`] holds.
#[verifier::ext_equal]
pub enum CallErrorView {
    NotRun { binary: Seq<char>, args: Seq<char>, detail: Seq<char> },
    Failed { args: Seq<char>, status: Seq<char>, stdout: Seq<char>, stderr: Seq<char> },
    NotJson(Seq<char>),
}

impl View for CallError {
    type V = CallErrorView;

    open spec fn view(&self) -> CallErrorView {
        match self {
            CallError::NotRun { binary, args, detail } => CallErrorView::NotRun {
                binary: binary@,
                args: args@,
                detail: detail@,
            },
            CallError::Failed { args, status, stdout, stderr } => CallErrorView::Failed {
                args: args@,
                status: status@,
                stdout: stdout@,
                stderr: stderr@,
            },
            CallError::NotJson(detail) => CallErrorView::NotJson(detail@),
        }
    }
}

/// The message of an error.
pub open spec fn call_error_text(e: CallErrorView) -> Seq<char> {
    match e {
        CallErrorView::NotRun { binary, args, detail } => "failed to execute "@ + binary + " "@
            + args + ": "@ + detail,
        CallErrorView::Failed { args, status, stdout, stderr } => "`amp "@ + args + "` failed ("@
            + status + "): "@ + stdout + " "@ + stderr,
        CallErrorView::NotJson(detail) => "amp runner list --json is not JSON: "@ + detail,
    }
}

impl CallError {
    /// The message with its cause.
    pub fn message(&self) -> (r: String)
        ensures
            r@ == call_error_text(self@),
    {
        match self {
            CallError::NotRun { binary, args, detail } => {
                let mut out = "failed to execute ".to_owned();
                out.append(binary.as_str());
                out.append(" ");
                out.append(args.as_str());
                out.append(": ");
                out.append(detail.as_str());
                out
            },
            CallError::Failed { args, status, stdout, stderr } => {
                let mut out = "`amp ".to_owned();
                out.append(args.as_str());
                out.append("` failed (");
                out.append(status.as_str());
                out.append("): ");
                out.append(stdout.as_str());
                out.append(" ");
                out.append(stderr.as_str());
                out
            },
            CallError::NotJson(detail) => {
                let mut out = "amp runner list --json is not JSON: ".to_owned();
                out.append(detail.as_str());
                out
            },
        }
    }
}

/// What a command printed, or why it failed.
pub open spec fn output_of(
    binary: Seq<char>,
    args: Seq<Seq<char>>,
    reply: CommandReply,
) -> Result<Seq<char>, CallErrorView> {
    let shown = text::joined(args, " "@);
    match reply {
        CommandReply::NotRun(detail) => Err(
            CallErrorView::NotRun { binary, args: shown, detail: detail@ },
        ),
        CommandReply::Finished { success, status, stdout, stderr } => {
            let out = text::utf8_lossy(stdout@);
            if success {
                Ok(out)
            } else {
                Err(
                    CallErrorView::Failed {
                        args: shown,
                        status: status@,
                        stdout: text::trim(out),
                        stderr: text::trim(text::utf8_lossy(stderr@)),
                    },
                )
            }
        },
    }
}

/// What a text result holds.
pub open spec fn text_result(r: Result<String, CallError>) -> Result<Seq<char>, CallErrorView> {
    match r {
        Ok(s) => Ok(s@),
        Err(e) => Err(e@),
    }
}

/// What a list of runners, or the error in its place, holds.
pub open spec fn list_result(r: Result<Vec<Runner>, CallError>) -> Result<
    Seq<RunnerView>,
    CallErrorView,
> {
    match r {
        Ok(v) => Ok(runner::runners(v@)),
        Err(e) => Err(e@),
    }
}

/// What a list of directories, or the error in its place, holds.
pub open spec fn dirs_result(r: Result<Vec<String>, CallError>) -> Result<
    Seq<Seq<char>>,
    CallErrorView,
> {
    match r {
        Ok(v) => Ok(text::strings(v@)),
        Err(e) => Err(e@),
    }
}

fn finish_output(binary: &str, args: &Vec<String>, reply: &CommandReply) -> (r: Result<
    String,
    CallError,
>)
    ensures
        text_result(r) == output_of(binary@, text::strings(args@), *reply),
{
    match reply {
        CommandReply::NotRun(detail) => Err(
            CallError::NotRun {
                binary: binary.to_owned(),
                args: join(args, " "),
                detail: detail.clone(),
            },
        ),
        CommandReply::Finished { success, status, stdout, stderr } => {
            let out = text_from_utf8_lossy(stdout);
            if *success {
                return Ok(out);
            }
            let err = text_from_utf8_lossy(stderr);
            Err(
                CallError::Failed {
                    args: join(args, " "),
                    status: status.clone(),
                    stdout: string_of(trimmed(&chars_of(out.as_str()))),
                    stderr: string_of(trimmed(&chars_of(err.as_str()))),
                },
            )
        },
    }
}

/// The runners of an output, or the error in their place.
pub open spec fn runners_in(output: Seq<char>) -> Result<Seq<RunnerView>, CallErrorView> {
    match listing::runner_list(output) {
        Ok(v) => Ok(v),
        Err(detail) => Err(CallErrorView::NotJson(detail)),
    }
}

fn read_runners(output: &str) -> (r: Result<Vec<Runner>, CallError>)
    ensures
        list_result(r) == runners_in(output@),
{
    match parse_runner_list(output) {
        Ok(v) => Ok(v),
        Err(ListError::NotJson(detail)) => Err(CallError::NotJson(detail)),
    }
}

/// What follows the reply to `amp runner list --json`.
#[derive(Debug)]
pub enum ListStep {
    Done(Result<Vec<Runner>, CallError>),
    /// Ask for the list as text.
    AskText,
}

/// What a [`ListStep`] holds.
#[verifier::ext_equal]
pub enum ListStepView {
    Done(Result<Seq<RunnerView>, CallErrorView>),
    AskText,
}

impl View for ListStep {
    type V = ListStepView;

    open spec fn view(&self) -> ListStepView {
        match self {
            ListStep::Done(r) => ListStepView::Done(list_result(*r)),
            ListStep::AskText => ListStepView::AskText,
        }
    }
}

/// What follows the reply to `amp runner list --json`: the list, where it names a runner or is
/// JSON; the error, where it starts like JSON and is none; else the list is asked for as text.
pub open spec fn json_step(binary: Seq<char>, reply: CommandReply) -> ListStepView {
    match output_of(binary, args::list_args(true), reply) {
        Ok(out) => match runners_in(out) {
            Ok(v) => if v.len() > 0 || listing::json_start(out) {
                ListStepView::Done(Ok(v))
            } else {
                ListStepView::AskText
            },
            Err(e) => ListStepView::Done(Err(e)),
        },
        Err(_) => ListStepView::AskText,
    }
}

/// The list in the reply to `amp runner list`.
pub open spec fn text_list(binary: Seq<char>, reply: CommandReply) -> Result<
    Seq<RunnerView>,
    CallErrorView,
> {
    match output_of(binary, args::list_args(false), reply) {
        Ok(out) => runners_in(out),
        Err(e) => Err(e),
    }
}

/// The runners to show: what Amp lists with the processes of this machine. Where Amp gives no
/// list, the processes alone, and the error where there is none.
pub open spec fn runners_shown(
    listed: Result<Seq<RunnerView>, CallErrorView>,
    local: Seq<ProcessView>,
    spawned: Seq<ProcessView>,
) -> Result<Seq<RunnerView>, CallErrorView> {
    match listed {
        Ok(v) => Ok(process::merged(v, local, spawned)),
        Err(e) => if local.len() == 0 {
            Err(e)
        } else {
            Ok(process::merged(Seq::empty(), local, spawned))
        },
    }
}

/// The message for a missing Amp CLI.
pub open spec fn missing_text(binary: Seq<char>) -> Seq<char> {
    "Amp CLI not found on PATH (looked for `"@ + binary
        + "`).\n\nlazyamp wraps the Amp CLI and cannot start without it.\nInstall Amp: https://ampcode.com/docs/cli\nThen confirm `amp --help` works in this shell.\nOptional: set AMP_BIN to the full path of the amp binary."@
}

/// The message for a missing Amp CLI.
pub fn missing_amp_message(binary: &str) -> (r: String)
    ensures
        r@ == missing_text(binary@),
{
    let mut out = "Amp CLI not found on PATH (looked for `".to_owned();
    out.append(binary);
    out.append(
        "`).\n\nlazyamp wraps the Amp CLI and cannot start without it.\nInstall Amp: https://ampcode.com/docs/cli\nThen confirm `amp --help` works in this shell.\nOptional: set AMP_BIN to the full path of the amp binary.",
    );
    out
}

/// The name that Amp is looked for under: `AMP_BIN`, else `amp`.
pub open spec fn wanted_binary(specified: Option<Seq<char>>) -> Seq<char> {
    match specified {
        Some(s) => s,
        None => "amp"@,
    }
}

/// The name that Amp is looked for under: `AMP_BIN`, else `amp`.
pub fn binary_name(specified: Option<&str>) -> (r: String)
    ensures
        r@ == wanted_binary(text::opt_str(specified)),
{
    match specified {
        Some(s) => s.to_owned(),
        None => "amp".to_owned(),
    }
}

/// The paths under which an executable is looked for, in order: the name itself where it is a
/// path, else the name in each directory of the search path.
pub open spec fn candidates(name: Seq<char>, search_path: Option<Seq<char>>) -> Seq<Seq<char>> {
    if path::component_count(name) > 1 || path::path_view(name).rooted {
        seq![name]
    } else {
        match search_path {
            Some(p) => {
                let dirs = text::split_by(p, Class::Colon);
                Seq::new(dirs.len(), |i: int| path::joined_path(dirs[i], name))
            },
            None => Seq::empty(),
        }
    }
}

/// The paths under which an executable is looked for, in order.
pub fn executable_candidates(name: &str, search_path: Option<&str>) -> (r: Vec<String>)
    ensures
        text::strings(r@) == candidates(name@, text::opt_str(search_path)),
{
    let mut out: Vec<String> = Vec::new();
    if is_compound(name) {
        out.push(name.to_owned());
        assert(text::strings(out@) == seq![name@]);
        return out;
    }
    match search_path {
        Some(p) => {
            let dirs = split(&chars_of(p), Class::Colon);
            let ghost all = candidates(name@, text::opt_str(search_path));
            let ghost parts = text::texts(dirs@);
            for i in 0..dirs.len()
                invariant
                    parts == text::texts(dirs@),
                    all == Seq::new(parts.len(), |j: int| path::joined_path(parts[j], name@)),
                    text::strings(out@) == all.take(i as int),
            {
                let ghost before = text::strings(out@);
                assert(parts[i as int] == dirs@[i as int]@);
                out.push(join_path(string_of(&dirs[i]).as_str(), name));
                assert(text::strings(out@) == before.push(all[i as int]));
                assert(all.take(i + 1) == all.take(i as int).push(all[i as int]));
            }
            assert(all.take(all.len() as int) == all);
            out
        },
        None => {
            assert(text::strings(out@) == Seq::<Seq<char>>::empty());
            out
        },
    }
}

/// Located Amp binary plus helpers to invoke it.
#[derive(Debug, Clone)]
pub struct AmpClient {
    pub binary: String,
}

impl AmpClient {
    /// The client, where Amp was found on `PATH`, or at `AMP_BIN` if set; else the message.
    pub fn detect(specified: Option<&str>, found: Option<&str>) -> (r: Result<AmpClient, String>)
        ensures
            match (r, found) {
                (Ok(c), Some(p)) => c.binary@ == p@,
                (Err(m), None) => m@ == missing_text(wanted_binary(text::opt_str(specified))),
                _ => false,
            },
    {
        match found {
            Some(p) => Ok(AmpClient { binary: p.to_owned() }),
            None => Err(missing_amp_message(binary_name(specified).as_str())),
        }
    }

    /// The version in the reply to `amp version`.
    pub fn version(&self, reply: &CommandReply) -> (r: Result<String, CallError>)
        ensures
            text_result(r) == match output_of(self.binary@, seq!["version"@], *reply) {
                Ok(out) => Ok(text::first_line_of(out)),
                Err(e) => Err(e),
            },
    {
        match finish_output(self.binary.as_str(), &version_args(), reply) {
            Ok(out) => Ok(first_line(out.as_str())),
            Err(e) => Err(e),
        }
    }

    /// What follows the reply to `amp runner list --json`.
    pub fn listed_as_json(&self, reply: &CommandReply) -> (r: ListStep)
        ensures
            r@ == json_step(self.binary@, *reply),
    {
        match finish_output(self.binary.as_str(), &list_runners_args(true), reply) {
            Ok(out) => match read_runners(out.as_str()) {
                Ok(v) => {
                    let chars = chars_of(out.as_str());
                    if v.len() > 0 || looks_like_json(&chars) {
                        ListStep::Done(Ok(v))
                    } else {
                        ListStep::AskText
                    }
                },
                Err(e) => ListStep::Done(Err(e)),
            },
            Err(_) => ListStep::AskText,
        }
    }

    /// The runners in the reply to `amp runner list`.
    pub fn listed_as_text(&self, reply: &CommandReply) -> (r: Result<Vec<Runner>, CallError>)
        ensures
            list_result(r) == text_list(self.binary@, *reply),
    {
        match finish_output(self.binary.as_str(), &list_runners_args(false), reply) {
            Ok(out) => read_runners(out.as_str()),
            Err(e) => Err(e),
        }
    }

    /// The runners to show: what Amp lists, with PIDs from a local scan attached.
    pub fn list_runners(
        &self,
        listed: Result<Vec<Runner>, CallError>,
        local: &Vec<LocalProcess>,
        spawned: &Vec<LocalProcess>,
    ) -> (r: Result<Vec<Runner>, CallError>)
        ensures
            list_result(r) == runners_shown(
                list_result(listed),
                runner::processes(local@),
                runner::processes(spawned@),
            ),
    {
        match listed {
            Ok(v) => Ok(merge_runners(v, local, spawned)),
            Err(e) => {
                if local.len() == 0 {
                    return Err(e);
                }
                let none: Vec<Runner> = Vec::new();
                assert(runner::runners(none@) == Seq::<RunnerView>::empty());
                Ok(merge_runners(none, local, spawned))
            },
        }
    }

    /// The directories in the reply to `amp runner dirs list`.
    pub fn dirs_list(&self, runner_id: Option<&str>, reply: &CommandReply) -> (r: Result<
        Vec<String>,
        CallError,
    >)
        ensures
            dirs_result(r) == match output_of(
                self.binary@,
                args::dirs_args("list"@, text::opt_str(runner_id)),
                *reply,
            ) {
                Ok(out) => Ok(listing::dirs_listed(out)),
                Err(e) => Err(e),
            },
    {
        match finish_output(self.binary.as_str(), &dirs_list_args(runner_id), reply) {
            Ok(out) => Ok(parse_dirs_list(out.as_str())),
            Err(e) => Err(e),
        }
    }

    /// What `amp runner dirs add` printed.
    pub fn dirs_add(&self, runner_id: Option<&str>, path: &str, reply: &CommandReply) -> (r: Result<
        String,
        CallError,
    >)
        ensures
            text_result(r) == output_of(
                self.binary@,
                args::dirs_args("add"@, text::opt_str(runner_id)).push(path@),
                *reply,
            ),
    {
        finish_output(self.binary.as_str(), &dirs_add_args(runner_id, path), reply)
    }

    /// What `amp runner dirs remove` printed.
    pub fn dirs_remove(&self, runner_id: Option<&str>, path: &str, reply: &CommandReply) -> (r:
        Result<String, CallError>)
        ensures
            text_result(r) == output_of(
                self.binary@,
                args::dirs_args("remove"@, text::opt_str(runner_id)).push(path@),
                *reply,
            ),
    {
        finish_output(self.binary.as_str(), &dirs_remove_args(runner_id, path), reply)
    }

    /// What `amp update` printed.
    pub fn update(&self, reply: &CommandReply) -> (r: Result<String, CallError>)
        ensures
            text_result(r) == output_of(self.binary@, seq!["update"@], *reply),
    {
        finish_output(self.binary.as_str(), &update_args(), reply)
    }
}

/// The directories that zoxide lists: none where it is missing, slow or fails.
pub open spec fn zoxide_listed(reply: Option<CommandReply>) -> Seq<Seq<char>> {
    match reply {
        Some(CommandReply::Finished { success, status, stdout, stderr }) => if success {
            dirpick::zoxide_paths(text::utf8_lossy(stdout@))
        } else {
            Seq::empty()
        },
        _ => Seq::empty(),
    }
}

/// The directories of `zoxide query -l`. Empty if missing or slow.
pub fn query_zoxide_dirs(reply: &Option<CommandReply>) -> (r: Vec<String>)
    ensures
        text::strings(r@) == zoxide_listed(*reply),
{
    match reply {
        Some(CommandReply::Finished { success, status, stdout, stderr }) => {
            if *success {
                return parse_zoxide_output(text_from_utf8_lossy(stdout).as_str());
            }
        },
        _ => {},
    }
    Vec::new()
}

/// A command's output is what it printed where it succeeded; where it did not, or could not be run,
/// the error says which command it was and why.
pub proof fn output_needs_success(binary: Seq<char>, args: Seq<Seq<char>>, reply: CommandReply)
    ensures
        output_of(binary, args, reply) is Ok <==> reply is Finished && reply->success,
        output_of(binary, args, reply) is Ok ==> output_of(binary, args, reply)->Ok_0
            == text::utf8_lossy(reply->stdout@),
        reply is NotRun ==> output_of(binary, args, reply)->Err_0 == (CallErrorView::NotRun {
            binary,
            args: text::joined(args, " "@),
            detail: reply->NotRun_0@,
        }),
        reply is Finished && !reply->success ==> output_of(binary, args, reply)->Err_0 == (
        CallErrorView::Failed {
            args: text::joined(args, " "@),
            status: reply->status@,
            stdout: text::trim(text::utf8_lossy(reply->stdout@)),
            stderr: text::trim(text::utf8_lossy(reply->stderr@)),
        }),
{
}

/// Amp is asked for the list as text where it would not give it as JSON: where that command failed,
/// or printed something else that holds no runner. A list in JSON is taken though it is empty, and
/// JSON that cannot be read is an error.
pub proof fn text_is_asked_for_without_json(binary: Seq<char>, reply: CommandReply)
    ensures
        ({
            let ok = reply is Finished && reply->success;
            let out = text::utf8_lossy(reply->stdout@);
            let list = listing::runner_list(out);
            let step = json_step(binary, reply);
            &&& !ok ==> step is AskText
            &&& ok && list is Ok && (list->Ok_0.len() > 0 || listing::json_start(out)) ==> step
                == ListStepView::Done(Ok(list->Ok_0))
            &&& ok && list is Ok && list->Ok_0.len() == 0 && !listing::json_start(out)
                ==> step is AskText
            &&& ok && list is Err ==> step == ListStepView::Done(
                Err(CallErrorView::NotJson(list->Err_0)),
            )
        }),
        ({
            let ok = reply is Finished && reply->success;
            let list = listing::runner_list(text::utf8_lossy(reply->stdout@));
            &&& !ok ==> text_list(binary, reply) is Err
            &&& ok && list is Ok ==> text_list(binary, reply) == Ok::<Seq<RunnerView>, CallErrorView>(
                list->Ok_0,
            )
        }),
{
}

/// Where Amp gives no list, the processes of this machine are shown without it, and the error where
/// there are none; where it gives one, the processes are merged into it.
pub proof fn processes_stand_in_for_the_list(
    listed: Result<Seq<RunnerView>, CallErrorView>,
    local: Seq<ProcessView>,
    spawned: Seq<ProcessView>,
    p: ProcessView,
)
    ensures
        listed is Err && local.len() == 0 ==> runners_shown(listed, local, spawned) == Err::<
            Seq<RunnerView>,
            CallErrorView,
        >(listed->Err_0),
        listed is Ok || local.len() > 0 ==> runners_shown(listed, local, spawned) is Ok,
        (listed is Ok || local.len() > 0) && (local.contains(p) || spawned.contains(p))
            ==> process::has_row(runners_shown(listed, local, spawned)->Ok_0, p),
        listed is Ok ==> exists|at: Seq<int>| #[trigger]
            process::rows_of(at, listed->Ok_0, runners_shown(listed, local, spawned)->Ok_0),
{
    let list = match listed {
        Ok(v) => v,
        Err(_) => Seq::empty(),
    };
    if local.contains(p) || spawned.contains(p) {
        process::merge_serves_processes(list, local, spawned, p);
    }
    process::merge_keeps_listed(list, local, spawned);
    let at = choose|at: Seq<int>| #[trigger]
        process::rows_of(at, list, process::merged(list, local, spawned));
    assert(listed is Ok ==> process::rows_of(
        at,
        listed->Ok_0,
        runners_shown(listed, local, spawned)->Ok_0,
    ));
}

/// The binary is looked for under its own path where it has one, and else by its name in each
/// directory of the search path, in their order; it is `amp` where none is named.
pub proof fn the_binary_is_looked_for_in_order(
    name: Seq<char>,
    search_path: Option<Seq<char>>,
    i: int,
)
    ensures
        name.len() > 0 && name[0] == '/' ==> candidates(name, search_path) == seq![name],
        path::component_count(name) == 1 && !path::path_view(name).rooted && search_path is None
            ==> candidates(name, search_path).len() == 0,
        path::component_count(name) == 1 && !path::path_view(name).rooted && search_path is Some
            ==> {
            let dirs = text::split_by(search_path->0, Class::Colon);
            &&& text::joined(dirs, seq![':']) == search_path->0
            &&& candidates(name, search_path).len() == dirs.len()
            &&& 0 <= i < dirs.len() && dirs[i].len() > 0 && dirs[i].last() != '/' && name.len() > 0
                && name[0] != '/' ==> candidates(name, search_path)[i] == dirs[i] + seq!['/'] + name
        },
        wanted_binary(None) == "amp"@,
        wanted_binary(Some(name)) == name,
{
    if search_path is Some {
        let dirs = text::split_by(search_path->0, Class::Colon);
        text::splitting_loses_nothing(search_path->0, Class::Colon, ':');
        if 0 <= i < dirs.len() {
            assert(dirs[i].push('/') + name =~= dirs[i] + seq!['/'] + name);
        }
    }
}

/// What zoxide printed counts where it ran and succeeded.
pub proof fn zoxide_counts_where_it_succeeds(reply: CommandReply)
    ensures
        zoxide_listed(None).len() == 0,
        !(reply is Finished && reply->success) ==> zoxide_listed(Some(reply)).len() == 0,
        reply is Finished && reply->success ==> zoxide_listed(Some(reply)) == dirpick::zoxide_paths(
            text::utf8_lossy(reply->stdout@),
        ),
{
}

/// The message of a failed command holds all that is known of it: the command, and its status and what
/// it printed, or why it could not be run.
pub proof fn messages_hold_the_cause(
    binary: Seq<char>,
    args: Seq<char>,
    detail: Seq<char>,
    status: Seq<char>,
    stdout: Seq<char>,
    stderr: Seq<char>,
)
    ensures
        ({
            let t = call_error_text(CallErrorView::NotRun { binary, args, detail });
            text::holds(t, binary) && text::holds(t, args) && text::has_suffix(t, detail)
        }),
        ({
            let t = call_error_text(CallErrorView::Failed { args, status, stdout, stderr });
            text::holds(t, args) && text::holds(t, status) && text::holds(t, stdout)
                && text::has_suffix(t, stderr)
        }),
        text::has_suffix(call_error_text(CallErrorView::NotJson(detail)), detail),
{
    let a = call_error_text(CallErrorView::NotRun { binary, args, detail });
    text::lemma_holds("failed to execute "@, binary, " "@ + args + ": "@ + detail);
    assert("failed to execute "@ + binary + (" "@ + args + ": "@ + detail) =~= a);
    text::lemma_holds("failed to execute "@ + binary + " "@, args, ": "@ + detail);
    assert("failed to execute "@ + binary + " "@ + args + (": "@ + detail) =~= a);
    text::prefixes_and_rests(detail, "failed to execute "@ + binary + " "@ + args + ": "@, a);
    let b = call_error_text(CallErrorView::Failed { args, status, stdout, stderr });
    let p1 = "`amp "@ + args + "` failed ("@;
    let p2 = p1 + status + "): "@;
    let p3 = p2 + stdout + " "@;
    text::lemma_holds("`amp "@, args, "` failed ("@ + status + "): "@ + stdout + " "@ + stderr);
    assert("`amp "@ + args + ("` failed ("@ + status + "): "@ + stdout + " "@ + stderr) =~= b);
    text::lemma_holds(p1, status, "): "@ + stdout + " "@ + stderr);
    assert(p1 + status + ("): "@ + stdout + " "@ + stderr) =~= b);
    text::lemma_holds(p2, stdout, " "@ + stderr);
    assert(p2 + stdout + (" "@ + stderr) =~= b);
    text::prefixes_and_rests(stderr, p3, b);
    text::prefixes_and_rests(detail, "amp runner list --json is not JSON: "@, detail);
}

} // verus!
