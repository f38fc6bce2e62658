//! Argument vectors for the Amp CLI, without the binary name.
use vstd::prelude::*;
use crate::runner;
use crate::runner::{OptionsView, StartOptions};
use crate::text;
use crate::text::{borrowed, nonempty};

verus! {

/// A flag with its value, where the value is not blank.
pub open spec fn valued(flag: Seq<char>, value: Option<Seq<char>>) -> Seq<Seq<char>> {
    match text::nonblank(value) {
        Some(v) => seq![flag, v],
        None => Seq::empty(),
    }
}

/// A flag that is there or not.
pub open spec fn switch(flag: Seq<char>, on: bool) -> Seq<Seq<char>> {
    if on {
        seq![flag]
    } else {
        Seq::empty()
    }
}

/// One `--dir` for each directory, in order.
pub open spec fn dir_args(dirs: Seq<Seq<char>>) -> Seq<Seq<char>>
    decreases dirs.len(),
{
    if dirs.len() == 0 {
        Seq::empty()
    } else {
        dir_args(dirs.drop_last()).push("--dir"@).push(dirs.last())
    }
}

/// The arguments that start a runner.
pub open spec fn start_args(o: OptionsView) -> Seq<Seq<char>> {
    seq!["--no-tui"@] + valued("--runner-id"@, o.runner_id) + valued("--mode"@, o.mode) + valued(
        "--log-level"@,
        o.log_level,
    ) + valued("--settings-file"@, o.settings_file) + valued("--mcp-config"@, o.mcp_config)
        + valued("--visibility"@, o.visibility) + switch(
        "--remote-control-terminal"@,
        o.remote_control_terminal,
    ) + switch("--discover-dirs"@, o.discover_dirs) + switch("--amp-env"@, o.amp_env) + dir_args(
        o.extra_dirs,
    )
}

/// Appends one argument.
fn push_arg(args: &mut Vec<String>, arg: &str)
    ensures
        text::strings(final(args)@) == text::strings(old(args)@).push(arg@),
{
    args.push(arg.to_owned());
}

/// Appends a flag and its value unless the value is missing or blank.
fn push_opt(args: &mut Vec<String>, flag: &str, value: Option<&str>)
    ensures
        text::strings(final(args)@) == text::strings(old(args)@) + valued(
            flag@,
            text::opt_str(value),
        ),
{
    match nonempty(value) {
        Some(v) => {
            push_arg(args, flag);
            push_arg(args, v.as_str());
        },
        None => {},
    }
}

/// Appends a flag where it is on.
fn push_switch(args: &mut Vec<String>, flag: &str, on: bool)
    ensures
        text::strings(final(args)@) == text::strings(old(args)@) + switch(flag@, on),
{
    if on {
        push_arg(args, flag);
    }
}

/// Build argv for `amp --no-tui` (without the binary name).
pub fn start_runner_args(opts: &StartOptions) -> (r: Vec<String>)
    ensures
        text::strings(r@) == start_args(opts@),
{
    let mut args: Vec<String> = Vec::new();
    push_arg(&mut args, "--no-tui");
    push_opt(&mut args, "--runner-id", borrowed(&opts.runner_id));
    push_opt(&mut args, "--mode", borrowed(&opts.mode));
    push_opt(&mut args, "--log-level", borrowed(&opts.log_level));
    push_opt(&mut args, "--settings-file", borrowed(&opts.settings_file));
    push_opt(&mut args, "--mcp-config", borrowed(&opts.mcp_config));
    push_opt(&mut args, "--visibility", borrowed(&opts.visibility));
    push_switch(&mut args, "--remote-control-terminal", opts.remote_control_terminal);
    push_switch(&mut args, "--discover-dirs", opts.discover_dirs);
    push_switch(&mut args, "--amp-env", opts.amp_env);
    let ghost flags = text::strings(args@);
    let ghost dirs = text::strings(opts.extra_dirs@);
    for i in 0..opts.extra_dirs.len()
        invariant
            dirs == text::strings(opts.extra_dirs@),
            text::strings(args@) == flags + dir_args(dirs.take(i as int)),
    {
        assert(dirs.take(i + 1).drop_last() == dirs.take(i as int));
        push_arg(&mut args, "--dir");
        push_arg(&mut args, opts.extra_dirs[i].as_str());
    }
    assert(dirs.take(dirs.len() as int) == dirs);
    args
}

/// The arguments of a `runner dirs` command.
pub open spec fn dirs_args(verb: Seq<char>, runner_id: Option<Seq<char>>) -> Seq<Seq<char>> {
    seq!["runner"@, "dirs"@, verb] + valued("--runner-id"@, runner_id)
}

fn dirs_command(verb: &str, runner_id: Option<&str>) -> (r: Vec<String>)
    ensures
        text::strings(r@) == dirs_args(verb@, text::opt_str(runner_id)),
{
    let mut args: Vec<String> = Vec::new();
    push_arg(&mut args, "runner");
    push_arg(&mut args, "dirs");
    push_arg(&mut args, verb);
    push_opt(&mut args, "--runner-id", runner_id);
    args
}

/// `amp runner dirs list`.
pub fn dirs_list_args(runner_id: Option<&str>) -> (r: Vec<String>)
    ensures
        text::strings(r@) == dirs_args("list"@, text::opt_str(runner_id)),
{
    dirs_command("list", runner_id)
}

/// `amp runner dirs add`.
pub fn dirs_add_args(runner_id: Option<&str>, path: &str) -> (r: Vec<String>)
    ensures
        text::strings(r@) == dirs_args("add"@, text::opt_str(runner_id)).push(path@),
{
    let mut args = dirs_command("add", runner_id);
    push_arg(&mut args, path);
    args
}

/// `amp runner dirs remove`.
pub fn dirs_remove_args(runner_id: Option<&str>, path: &str) -> (r: Vec<String>)
    ensures
        text::strings(r@) == dirs_args("remove"@, text::opt_str(runner_id)).push(path@),
{
    let mut args = dirs_command("remove", runner_id);
    push_arg(&mut args, path);
    args
}

/// `amp update`.
pub fn update_args() -> (r: Vec<String>)
    ensures
        text::strings(r@) == seq!["update"@],
{
    let mut args: Vec<String> = Vec::new();
    push_arg(&mut args, "update");
    args
}

/// `amp version`.
pub fn version_args() -> (r: Vec<String>)
    ensures
        text::strings(r@) == seq!["version"@],
{
    let mut args: Vec<String> = Vec::new();
    push_arg(&mut args, "version");
    args
}

/// The arguments of `runner list`.
pub open spec fn list_args(json: bool) -> Seq<Seq<char>> {
    seq!["runner"@, "list"@] + switch("--json"@, json)
}

/// `amp runner list`.
pub fn list_runners_args(json: bool) -> (r: Vec<String>)
    ensures
        text::strings(r@) == list_args(json),
{
    let mut args: Vec<String> = Vec::new();
    push_arg(&mut args, "runner");
    push_arg(&mut args, "list");
    push_switch(&mut args, "--json", json);
    args
}

/// Whether a flag stands in an argument vector directly before a value.
pub open spec fn gives(args: Seq<Seq<char>>, flag: Seq<char>, value: Seq<char>) -> bool {
    exists|i: int| 0 <= i < args.len() - 1 && #[trigger] args[i] == flag && args[i + 1] == value
}

/// Whether a flag with a value stands in an argument vector with the trimmed value directly behind
/// it, where there is one that is not blank.
pub open spec fn told_flag(
    args: Seq<Seq<char>>,
    flag: Seq<char>,
    value: Option<Seq<char>>,
) -> bool {
    match value {
        Some(v) => !text::blank(v) ==> gives(args, flag, text::trim(v)),
        None => true,
    }
}

proof fn lemma_gives_add(a: Seq<Seq<char>>, b: Seq<Seq<char>>, flag: Seq<char>, v: Seq<char>)
    ensures
        gives(a, flag, v) ==> gives(a + b, flag, v),
        gives(b, flag, v) ==> gives(a + b, flag, v),
{
    if gives(a, flag, v) {
        let i = choose|i: int| 0 <= i < a.len() - 1 && #[trigger] a[i] == flag && a[i + 1] == v;
        assert((a + b)[i] == flag && (a + b)[i + 1] == v);
    }
    if gives(b, flag, v) {
        let i = choose|i: int| 0 <= i < b.len() - 1 && #[trigger] b[i] == flag && b[i + 1] == v;
        let j = a.len() + i;
        assert((a + b)[j] == flag && (a + b)[j + 1] == v);
    }
}

proof fn lemma_told_add(
    a: Seq<Seq<char>>,
    b: Seq<Seq<char>>,
    flag: Seq<char>,
    value: Option<Seq<char>>,
)
    requires
        told_flag(a, flag, value) || told_flag(b, flag, value),
    ensures
        told_flag(a + b, flag, value),
{
    if value is Some {
        lemma_gives_add(a, b, flag, text::trim(value->0));
    }
}

proof fn lemma_told(flag: Seq<char>, value: Option<Seq<char>>)
    ensures
        told_flag(valued(flag, value), flag, value),
{
    text::blank_values_are_none(value);
    if value is Some && !text::blank(value->0) {
        let s = valued(flag, value);
        assert(s[0] == flag && s[1] == text::trim(value->0));
    }
}

proof fn lemma_dir_gives(dirs: Seq<Seq<char>>, k: int)
    requires
        0 <= k < dirs.len(),
    ensures
        gives(dir_args(dirs), "--dir"@, dirs[k]),
    decreases dirs.len(),
{
    let front = dir_args(dirs.drop_last());
    let s = dir_args(dirs);
    assert(s =~= front + seq!["--dir"@, dirs.last()]);
    if k == dirs.len() - 1 {
        let pair = seq!["--dir"@, dirs.last()];
        assert(pair[0] == "--dir"@ && pair[1] == dirs.last());
        assert(gives(pair, "--dir"@, dirs[k]));
    } else {
        lemma_dir_gives(dirs.drop_last(), k);
    }
    lemma_gives_add(front, seq!["--dir"@, dirs.last()], "--dir"@, dirs[k]);
}

proof fn lemma_dir_len(dirs: Seq<Seq<char>>)
    ensures
        dir_args(dirs).len() == 2 * dirs.len(),
    decreases dirs.len(),
{
    if dirs.len() > 0 {
        lemma_dir_len(dirs.drop_last());
    }
}

proof fn lemma_dir_pairs(dirs: Seq<Seq<char>>, k: int)
    requires
        0 <= k < dirs.len(),
    ensures
        dir_args(dirs)[2 * k] == "--dir"@,
        dir_args(dirs)[2 * k + 1] == dirs[k],
    decreases dirs.len(),
{
    lemma_dir_len(dirs);
    lemma_dir_len(dirs.drop_last());
    if k < dirs.len() - 1 {
        lemma_dir_pairs(dirs.drop_last(), k);
    }
}

/// The start of a runner is told each option by the flag of its name, with its trimmed value
/// directly behind the flag, where it has one; and each directory behind a `--dir`.
pub proof fn options_follow_their_flags(o: OptionsView)
    ensures
        told_flag(start_args(o), "--runner-id"@, o.runner_id),
        told_flag(start_args(o), "--mode"@, o.mode),
        told_flag(start_args(o), "--log-level"@, o.log_level),
        told_flag(start_args(o), "--settings-file"@, o.settings_file),
        told_flag(start_args(o), "--mcp-config"@, o.mcp_config),
        told_flag(start_args(o), "--visibility"@, o.visibility),
        forall|k: int|
            0 <= k < o.extra_dirs.len() ==> gives(
                start_args(o),
                "--dir"@,
                #[trigger] o.extra_dirs[k],
            ),
        o.remote_control_terminal ==> start_args(o).contains("--remote-control-terminal"@),
        o.discover_dirs ==> start_args(o).contains("--discover-dirs"@),
        o.amp_env ==> start_args(o).contains("--amp-env"@),
        start_args(o)[0] == "--no-tui"@,
{
    let p0 = seq!["--no-tui"@];
    let v1 = valued("--runner-id"@, o.runner_id);
    let v2 = valued("--mode"@, o.mode);
    let v3 = valued("--log-level"@, o.log_level);
    let v4 = valued("--settings-file"@, o.settings_file);
    let v5 = valued("--mcp-config"@, o.mcp_config);
    let v6 = valued("--visibility"@, o.visibility);
    let s1 = switch("--remote-control-terminal"@, o.remote_control_terminal);
    let s2 = switch("--discover-dirs"@, o.discover_dirs);
    let s3 = switch("--amp-env"@, o.amp_env);
    let ds = dir_args(o.extra_dirs);
    let p1 = p0 + v1;
    let p2 = p1 + v2;
    let p3 = p2 + v3;
    let p4 = p3 + v4;
    let p5 = p4 + v5;
    let p6 = p5 + v6;
    let tail = s1 + s2 + s3 + ds;
    assert(start_args(o) =~= p6 + tail);
    lemma_told("--runner-id"@, o.runner_id);
    lemma_told("--mode"@, o.mode);
    lemma_told("--log-level"@, o.log_level);
    lemma_told("--settings-file"@, o.settings_file);
    lemma_told("--mcp-config"@, o.mcp_config);
    lemma_told("--visibility"@, o.visibility);
    lemma_told_add(p0, v1, "--runner-id"@, o.runner_id);
    lemma_told_add(p1, v2, "--runner-id"@, o.runner_id);
    lemma_told_add(p2, v3, "--runner-id"@, o.runner_id);
    lemma_told_add(p3, v4, "--runner-id"@, o.runner_id);
    lemma_told_add(p4, v5, "--runner-id"@, o.runner_id);
    lemma_told_add(p5, v6, "--runner-id"@, o.runner_id);
    lemma_told_add(p6, tail, "--runner-id"@, o.runner_id);
    lemma_told_add(p1, v2, "--mode"@, o.mode);
    lemma_told_add(p2, v3, "--mode"@, o.mode);
    lemma_told_add(p3, v4, "--mode"@, o.mode);
    lemma_told_add(p4, v5, "--mode"@, o.mode);
    lemma_told_add(p5, v6, "--mode"@, o.mode);
    lemma_told_add(p6, tail, "--mode"@, o.mode);
    lemma_told_add(p2, v3, "--log-level"@, o.log_level);
    lemma_told_add(p3, v4, "--log-level"@, o.log_level);
    lemma_told_add(p4, v5, "--log-level"@, o.log_level);
    lemma_told_add(p5, v6, "--log-level"@, o.log_level);
    lemma_told_add(p6, tail, "--log-level"@, o.log_level);
    lemma_told_add(p3, v4, "--settings-file"@, o.settings_file);
    lemma_told_add(p4, v5, "--settings-file"@, o.settings_file);
    lemma_told_add(p5, v6, "--settings-file"@, o.settings_file);
    lemma_told_add(p6, tail, "--settings-file"@, o.settings_file);
    lemma_told_add(p4, v5, "--mcp-config"@, o.mcp_config);
    lemma_told_add(p5, v6, "--mcp-config"@, o.mcp_config);
    lemma_told_add(p6, tail, "--mcp-config"@, o.mcp_config);
    lemma_told_add(p5, v6, "--visibility"@, o.visibility);
    lemma_told_add(p6, tail, "--visibility"@, o.visibility);
    assert forall|k: int| 0 <= k < o.extra_dirs.len() implies gives(
        start_args(o),
        "--dir"@,
        #[trigger] o.extra_dirs[k],
    ) by {
        lemma_dir_gives(o.extra_dirs, k);
        lemma_gives_add(s1 + s2 + s3, ds, "--dir"@, o.extra_dirs[k]);
        lemma_gives_add(p6, tail, "--dir"@, o.extra_dirs[k]);
    }
    let all = start_args(o);
    let n = p6.len() as int;
    if o.remote_control_terminal {
        assert(all[n] == "--remote-control-terminal"@);
    }
    if o.discover_dirs {
        assert(all[n + s1.len()] == "--discover-dirs"@);
    }
    if o.amp_env {
        assert(all[n + s1.len() + s2.len()] == "--amp-env"@);
    }
    assert(all[0] == p0[0]);
}

/// How many arguments a value takes: none where it is missing or blank.
pub open spec fn taken(value: Option<Seq<char>>) -> int {
    if value is None || text::blank(value->0) {
        0
    } else {
        2
    }
}

/// How many arguments a switch takes.
pub open spec fn set_flag(on: bool) -> int {
    if on {
        1
    } else {
        0
    }
}

/// The start of a runner is told nothing but its options and its directories, which come last and in
/// their order.
pub proof fn start_tells_nothing_else(o: OptionsView)
    ensures
        start_args(o).len() == 1 + taken(o.runner_id) + taken(o.mode) + taken(o.log_level) + taken(
            o.settings_file,
        ) + taken(o.mcp_config) + taken(o.visibility) + set_flag(o.remote_control_terminal)
            + set_flag(o.discover_dirs) + set_flag(o.amp_env) + 2 * o.extra_dirs.len(),
        forall|k: int|
            0 <= k < o.extra_dirs.len() ==> #[trigger] o.extra_dirs[k] == start_args(
                o,
            )[start_args(o).len() - 2 * (o.extra_dirs.len() - k) + 1],
{
    text::blank_values_are_none(o.runner_id);
    text::blank_values_are_none(o.mode);
    text::blank_values_are_none(o.log_level);
    text::blank_values_are_none(o.settings_file);
    text::blank_values_are_none(o.mcp_config);
    text::blank_values_are_none(o.visibility);
    lemma_dir_len(o.extra_dirs);
    let all = start_args(o);
    let n = all.len() - 2 * o.extra_dirs.len();
    assert forall|k: int| 0 <= k < o.extra_dirs.len() implies #[trigger] o.extra_dirs[k] == all[
        all.len() - 2 * (o.extra_dirs.len() - k) + 1
    ] by {
        lemma_dir_pairs(o.extra_dirs, k);
        assert(all[n + 2 * k + 1] == dir_args(o.extra_dirs)[2 * k + 1]);
    }
}

/// A `runner dirs` command names its verb third, and the runner's trimmed id directly behind
/// `--runner-id` where there is one that is not blank; there is nothing else in it.
pub proof fn dirs_commands_name_their_runner(verb: Seq<char>, runner_id: Option<Seq<char>>)
    ensures
        dirs_args(verb, runner_id)[0] == "runner"@,
        dirs_args(verb, runner_id)[1] == "dirs"@,
        dirs_args(verb, runner_id)[2] == verb,
        told_flag(dirs_args(verb, runner_id), "--runner-id"@, runner_id),
        dirs_args(verb, runner_id).len() == 3 + taken(runner_id),
{
    text::blank_values_are_none(runner_id);
    lemma_told("--runner-id"@, runner_id);
    lemma_told_add(
        seq!["runner"@, "dirs"@, verb],
        valued("--runner-id"@, runner_id),
        "--runner-id"@,
        runner_id,
    );
}

/// The list is asked for by `runner list`, and as JSON with `--json` behind it.
pub proof fn lists_are_asked_for(json: bool)
    ensures
        list_args(json)[0] == "runner"@,
        list_args(json)[1] == "list"@,
        json ==> list_args(json).len() == 3 && list_args(json)[2] == "--json"@,
        !json ==> list_args(json).len() == 2,
{
}

} // verus!
