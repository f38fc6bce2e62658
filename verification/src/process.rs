//! Local `amp --no-tui` processes: what a command line says, and the merge of the listed runners
//! with the processes of this machine.
use vstd::prelude::*;
use vstd::slice::slice_subrange;
use crate::args;
use crate::listing;
use crate::listing::push_unique_dirs;
use crate::listing::push_unique_dir;
use crate::order;
use crate::order::in_order;
use crate::path;
use crate::path::file_name;
use crate::runner;
use crate::runner::{LocalProcess, OptionsView, ProcessView, Runner, RunnerView};
use crate::text;
use crate::text::{
    chars_of, keep_nonempty, lines, parse_u32, same_ignoring_case, same_str, split, string_of,
    strings_of, strip_prefix, text_from_utf8_lossy, trimmed, Class,
};

verus! {

/// The value of a flag among the arguments from `i` on: the argument after the first one that is
/// the flag, unless it is empty, or what follows `flag=` in one that has anything there.
pub open spec fn flag_value_from(args: Seq<Seq<char>>, flag: Seq<char>, i: int) -> Option<Seq<char>>
    decreases args.len() - i,
{
    if i < 0 || i >= args.len() {
        None
    } else if args[i] == flag {
        if i + 1 < args.len() && args[i + 1].len() > 0 {
            Some(args[i + 1])
        } else {
            None
        }
    } else {
        match text::without_prefix(args[i], flag.push('=')) {
            Some(rest) => if rest.len() > 0 {
                Some(rest)
            } else {
                flag_value_from(args, flag, i + 1)
            },
            None => flag_value_from(args, flag, i + 1),
        }
    }
}

/// All values of a flag among the arguments from `i` on.
pub open spec fn flag_values_from(args: Seq<Seq<char>>, flag: Seq<char>, i: int) -> Seq<Seq<char>>
    decreases args.len() - i,
{
    if i < 0 || i >= args.len() {
        Seq::empty()
    } else if args[i] == flag {
        if i + 1 < args.len() {
            seq![args[i + 1]] + flag_values_from(args, flag, i + 2)
        } else {
            Seq::empty()
        }
    } else {
        match text::without_prefix(args[i], flag.push('=')) {
            Some(rest) => seq![rest] + flag_values_from(args, flag, i + 1),
            None => flag_values_from(args, flag, i + 1),
        }
    }
}

fn flag_prefix(flag: &str) -> (r: Vec<char>)
    ensures
        r@ == flag@.push('='),
{
    let mut p = chars_of(flag);
    p.push('=');
    p
}

fn flag_value(args: &Vec<String>, flag: &str) -> (r: Option<String>)
    ensures
        text::opt_text(r) == flag_value_from(text::strings(args@), flag@, 0),
{
    let ghost all = text::strings(args@);
    let prefix = flag_prefix(flag);
    for i in 0..args.len()
        invariant
            all == text::strings(args@),
            prefix@ == flag@.push('='),
            flag_value_from(all, flag@, 0) == flag_value_from(all, flag@, i as int),
    {
        assert(all[i as int] == args@[i as int]@);
        if same_str(args[i].as_str(), flag) {
            if args.len() - i > 1 && !args[i + 1].as_str().is_empty() {
                assert(all[i + 1] == args@[i + 1]@);
                return Some(args[i + 1].clone());
            }
            return None;
        }
        match strip_prefix(&chars_of(args[i].as_str()), &prefix) {
            Some(rest) => {
                if rest.len() > 0 {
                    return Some(string_of(rest));
                }
            },
            None => {},
        }
    }
    None
}

fn flag_values(args: &Vec<String>, flag: &str) -> (r: Vec<String>)
    ensures
        text::strings(r@) == flag_values_from(text::strings(args@), flag@, 0),
{
    let ghost all = text::strings(args@);
    let prefix = flag_prefix(flag);
    let mut out: Vec<String> = Vec::new();
    let mut i: usize = 0;
    assert(text::strings(out@) == Seq::<Seq<char>>::empty());
    while i < args.len()
        invariant
            i <= args@.len(),
            all == text::strings(args@),
            prefix@ == flag@.push('='),
            flag_values_from(all, flag@, 0) == text::strings(out@) + flag_values_from(
                all,
                flag@,
                i as int,
            ),
        decreases args@.len() - i,
    {
        let ghost before = text::strings(out@);
        assert(all[i as int] == args@[i as int]@);
        if same_str(args[i].as_str(), flag) {
            if args.len() - i > 1 {
                assert(all[i + 1] == args@[i + 1]@);
                out.push(args[i + 1].clone());
                assert(text::strings(out@) == before.push(all[i + 1]));
                assert(before + (seq![all[i + 1]] + flag_values_from(all, flag@, i + 2)) == before.push(
                    all[i + 1],
                ) + flag_values_from(all, flag@, i + 2));
                i += 2;
            } else {
                assert(before + Seq::<Seq<char>>::empty() == before);
                return out;
            }
        } else {
            match strip_prefix(&chars_of(args[i].as_str()), &prefix) {
                Some(rest) => {
                    out.push(string_of(rest));
                    assert(text::strings(out@) == before.push(rest@));
                    assert(before + (seq![rest@] + flag_values_from(all, flag@, i + 1))
                        == before.push(rest@) + flag_values_from(all, flag@, i + 1));
                },
                None => {},
            }
            i += 1;
        }
    }
    assert(text::strings(out@) + Seq::<Seq<char>>::empty() == text::strings(out@));
    out
}

/// Whether a path names the Amp binary.
pub open spec fn names_amp(bin: Seq<char>) -> bool {
    path::file_name_text(bin) == Some("amp"@) || path::file_name_text(bin) == Some("amp.exe"@)
}

/// Whether a path names the Amp binary.
pub fn is_amp_binary(bin: &str) -> (r: bool)
    ensures
        r == names_amp(bin@),
{
    match file_name(bin) {
        Some(name) => same_str(name.as_str(), "amp") || same_str(name.as_str(), "amp.exe"),
        None => false,
    }
}

/// The process that a command line starts, where it is `amp` with `--no-tui`. The process id and
/// the working directory are not in the command line.
pub open spec fn amp_process(args: Seq<Seq<char>>) -> Option<ProcessView> {
    if args.len() > 0 && names_amp(args[0]) && args.contains("--no-tui"@) {
        Some(
            ProcessView {
                pid: 0,
                runner_id: flag_value_from(args, "--runner-id"@, 0),
                cwd: None,
                extra_dirs: flag_values_from(args, "--dir"@, 0),
            },
        )
    } else {
        None
    }
}

fn has_arg(args: &Vec<String>, arg: &str) -> (r: bool)
    ensures
        r == text::strings(args@).contains(arg@),
{
    let ghost all = text::strings(args@);
    for i in 0..args.len()
        invariant
            all == text::strings(args@),
            forall|j: int| 0 <= j < i ==> #[trigger] all[j] != arg@,
    {
        assert(all[i as int] == args@[i as int]@);
        if same_str(args[i].as_str(), arg) {
            return true;
        }
    }
    false
}

/// Parse a process cmdline; returns info if it looks like `amp --no-tui`.
pub fn parse_amp_cmdline(args: &Vec<String>) -> (r: Option<LocalProcess>)
    ensures
        match r {
            Some(p) => amp_process(text::strings(args@)) == Some(p@),
            None => amp_process(text::strings(args@)) is None,
        },
{
    if args.len() == 0 {
        return None;
    }
    assert(text::strings(args@)[0] == args@[0]@);
    if !is_amp_binary(args[0].as_str()) || !has_arg(args, "--no-tui") {
        return None;
    }
    Some(
        LocalProcess {
            pid: 0,
            runner_id: flag_value(args, "--runner-id"),
            cwd: None,
            extra_dirs: flag_values(args, "--dir"),
        },
    )
}

/// The pieces between zero bytes.
pub open spec fn zero_split(bytes: Seq<u8>) -> Seq<Seq<u8>>
    decreases bytes.len(),
{
    if bytes.len() == 0 {
        seq![Seq::empty()]
    } else {
        let before = zero_split(bytes.drop_last());
        if bytes.last() == 0 {
            before.push(Seq::empty())
        } else {
            before.drop_last().push(before.last().push(bytes.last()))
        }
    }
}

/// The texts of the pieces that are not empty.
pub open spec fn piece_texts(pieces: Seq<Seq<u8>>) -> Seq<Seq<char>>
    decreases pieces.len(),
{
    if pieces.len() == 0 {
        Seq::empty()
    } else if pieces.last().len() == 0 {
        piece_texts(pieces.drop_last())
    } else {
        piece_texts(pieces.drop_last()).push(text::utf8_lossy(pieces.last()))
    }
}

/// The arguments of a null-separated command line.
pub open spec fn cmdline_args(bytes: Seq<u8>) -> Seq<Seq<char>> {
    piece_texts(zero_split(bytes))
}

/// The arguments of a null-separated command line.
pub fn split_cmdline(bytes: &[u8]) -> (r: Vec<String>)
    ensures
        text::strings(r@) == cmdline_args(bytes@),
{
    let mut out: Vec<String> = Vec::new();
    let mut start: usize = 0;
    let ghost mut done: Seq<Seq<u8>> = Seq::empty();
    let n: usize = bytes.len();
    assert(text::strings(out@) == piece_texts(done));
    assert(bytes@.take(0) == Seq::<u8>::empty());
    assert(bytes@.subrange(0, 0) == Seq::<u8>::empty());
    for i in 0..n
        invariant
            n == bytes@.len(),
            start <= i,
            zero_split(bytes@.take(i as int)) == done.push(
                bytes@.subrange(start as int, i as int),
            ),
            text::strings(out@) == piece_texts(done),
    {
        let ghost piece = bytes@.subrange(start as int, i as int);
        proof {
            assert(bytes@.take(i + 1).drop_last() == bytes@.take(i as int));
            assert(done.push(piece).drop_last() == done);
        }
        if bytes[i] == 0 {
            if start < i {
                let ghost before = text::strings(out@);
                out.push(text_from_utf8_lossy(slice_subrange(bytes, start, i)));
                assert(text::strings(out@) == before.push(text::utf8_lossy(piece)));
            }
            proof {
                done = done.push(piece);
            }
            start = i + 1;
            assert(bytes@.subrange(start as int, i + 1) == Seq::<u8>::empty());
        } else {
            assert(bytes@.subrange(start as int, i + 1) == piece.push(bytes@[i as int]));
        }
    }
    assert(bytes@.take(n as int) == bytes@);
    let ghost piece = bytes@.subrange(start as int, n as int);
    assert(done.push(piece).drop_last() == done);
    if start < n {
        let ghost before = text::strings(out@);
        out.push(text_from_utf8_lossy(slice_subrange(bytes, start, n)));
        assert(text::strings(out@) == before.push(text::utf8_lossy(piece)));
    }
    out
}

/// What the process table says of one process.
#[derive(Debug)]
pub struct ProcessEntry {
    /// The name of the entry: a process id, or another name.
    pub name: String,
    /// The null-separated command line, where it could be read.
    pub cmdline: Option<Vec<u8>>,
    /// The working directory, where it could be read.
    pub cwd: Option<String>,
}

/// The local runner that an entry is.
pub open spec fn entry_process(e: ProcessEntry) -> Option<ProcessView> {
    match (text::u32_of(e.name@), e.cmdline) {
        (Some(pid), Some(bytes)) => match amp_process(cmdline_args(bytes@)) {
            Some(p) => Some(ProcessView { pid, cwd: text::opt_text(e.cwd), ..p }),
            None => None,
        },
        _ => None,
    }
}

/// The local runners among the entries.
pub open spec fn entry_processes(entries: Seq<ProcessEntry>) -> Seq<ProcessView>
    decreases entries.len(),
{
    if entries.len() == 0 {
        Seq::empty()
    } else {
        match entry_process(entries.last()) {
            Some(p) => entry_processes(entries.drop_last()).push(p),
            None => entry_processes(entries.drop_last()),
        }
    }
}

fn process_of_entry(e: &ProcessEntry) -> (r: Option<LocalProcess>)
    ensures
        match r {
            Some(p) => entry_process(*e) == Some(p@),
            None => entry_process(*e) is None,
        },
{
    let pid: u32 = match parse_u32(&chars_of(e.name.as_str())) {
        Some(n) => n,
        None => {
            return None;
        },
    };
    match &e.cmdline {
        Some(bytes) => match parse_amp_cmdline(&split_cmdline(bytes)) {
            Some(p) => Some(
                LocalProcess {
                    pid,
                    runner_id: p.runner_id,
                    cwd: e.cwd.clone(),
                    extra_dirs: p.extra_dirs,
                },
            ),
            None => None,
        },
        None => None,
    }
}

/// The `amp --no-tui` processes among the entries of the process table.
pub fn scan_local_amp_processes(entries: &Vec<ProcessEntry>) -> (r: Vec<LocalProcess>)
    ensures
        runner::processes(r@) == entry_processes(entries@),
{
    let mut out: Vec<LocalProcess> = Vec::new();
    for i in 0..entries.len()
        invariant
            runner::processes(out@) == entry_processes(entries@.take(i as int)),
    {
        assert(entries@.take(i + 1).drop_last() == entries@.take(i as int));
        match process_of_entry(&entries[i]) {
            Some(p) => {
                let ghost before = runner::processes(out@);
                let ghost pv = p@;
                out.push(p);
                assert(runner::processes(out@) == before.push(pv));
            },
            None => {},
        }
    }
    assert(entries@.take(entries@.len() as int) == entries@);
    out
}

/// The local runner that a line of `ps` is: a process id, then the command line.
pub open spec fn ps_process(line: Seq<char>) -> Option<ProcessView> {
    let pieces = text::split_by(text::trim(line), Class::Space);
    if pieces.len() < 2 {
        None
    } else {
        match (
            text::u32_of(pieces[0]),
            amp_process(text::nonempty_texts(pieces.skip(1))),
        ) {
            (Some(pid), Some(p)) => Some(ProcessView { pid, ..p }),
            _ => None,
        }
    }
}

/// The local runner that a line of `ps` is.
pub fn parse_ps_line(line: &[char]) -> (r: Option<LocalProcess>)
    ensures
        match r {
            Some(p) => ps_process(line@) == Some(p@),
            None => ps_process(line@) is None,
        },
{
    let mut pieces = split(trimmed(line), Class::Space);
    let ghost all = text::texts(pieces@);
    if pieces.len() < 2 {
        return None;
    }
    assert(all[0] == pieces@[0]@);
    let first = pieces.remove(0);
    assert(text::texts(pieces@) == all.skip(1));
    let pid: u32 = match parse_u32(&first) {
        Some(n) => n,
        None => {
            return None;
        },
    };
    match parse_amp_cmdline(&strings_of(&keep_nonempty(&pieces))) {
        Some(p) => Some(
            LocalProcess { pid, runner_id: p.runner_id, cwd: p.cwd, extra_dirs: p.extra_dirs },
        ),
        None => None,
    }
}

/// The local runners among lines of `ps`.
pub open spec fn ps_processes(lines: Seq<Seq<char>>) -> Seq<ProcessView>
    decreases lines.len(),
{
    if lines.len() == 0 {
        Seq::empty()
    } else {
        match ps_process(lines.last()) {
            Some(p) => ps_processes(lines.drop_last()).push(p),
            None => ps_processes(lines.drop_last()),
        }
    }
}

/// The `amp --no-tui` processes that the output of `ps` lists.
pub fn scan_ps_output(stdout: &[u8]) -> (r: Vec<LocalProcess>)
    ensures
        runner::processes(r@) == ps_processes(text::lines_of(text::utf8_lossy(stdout@))),
{
    let ls = lines(&chars_of(text_from_utf8_lossy(stdout).as_str()));
    let ghost all = text::texts(ls@);
    let mut out: Vec<LocalProcess> = Vec::new();
    for i in 0..ls.len()
        invariant
            all == text::texts(ls@),
            runner::processes(out@) == ps_processes(all.take(i as int)),
    {
        assert(all.take(i + 1).drop_last() == all.take(i as int));
        match parse_ps_line(&ls[i]) {
            Some(p) => {
                let ghost before = runner::processes(out@);
                let ghost pv = p@;
                out.push(p);
                assert(runner::processes(out@) == before.push(pv));
            },
            None => {},
        }
    }
    assert(all.take(all.len() as int) == all);
    out
}

// ---------------------------------------------------------------------------------------------
// Merge

/// The first runner from `i` on with the id, in any case of letters.
pub open spec fn with_id_from(rs: Seq<RunnerView>, id: Seq<char>, i: int) -> Option<int>
    decreases rs.len() - i,
{
    if i < 0 || i >= rs.len() {
        None
    } else if text::same_but_case(rs[i].id, id) {
        Some(i)
    } else {
        with_id_from(rs, id, i + 1)
    }
}

/// The first runner from `i` on with the process id.
pub open spec fn with_pid_from(rs: Seq<RunnerView>, pid: u32, i: int) -> Option<int>
    decreases rs.len() - i,
{
    if i < 0 || i >= rs.len() {
        None
    } else if rs[i].pid == Some(pid) {
        Some(i)
    } else {
        with_pid_from(rs, pid, i + 1)
    }
}

/// The runner that a process is: by the runner id, else by the exact process id.
pub open spec fn match_of(rs: Seq<RunnerView>, p: ProcessView) -> Option<int> {
    match p.runner_id {
        Some(id) => match with_id_from(rs, id, 0) {
            Some(i) => Some(i),
            None => with_pid_from(rs, p.pid, 0),
        },
        None => with_pid_from(rs, p.pid, 0),
    }
}

/// The directories of a process at the end, each unless it is there, the working directory last.
pub open spec fn with_process_dirs(dirs: Seq<Seq<char>>, p: ProcessView) -> Seq<Seq<char>> {
    let more = listing::with_dirs(dirs, p.extra_dirs);
    match p.cwd {
        Some(cwd) => listing::with_dir(more, cwd),
        None => more,
    }
}

/// A runner with what a process of it adds.
pub open spec fn attached(r: RunnerView, p: ProcessView) -> RunnerView {
    RunnerView {
        pid: if r.pid is None {
            Some(p.pid)
        } else {
            r.pid
        },
        cwd: if r.cwd is None {
            p.cwd
        } else {
            r.cwd
        },
        dirs: with_process_dirs(r.dirs, p),
        from_local_scan: true,
        ..r
    }
}

/// The runner that a process is where Amp lists none.
pub open spec fn local_runner(p: ProcessView) -> RunnerView {
    RunnerView {
        id: match p.runner_id {
            Some(id) => id,
            None => Seq::empty(),
        },
        pid: Some(p.pid),
        cwd: p.cwd,
        dirs: match p.cwd {
            Some(cwd) => listing::with_dir(p.extra_dirs, cwd),
            None => p.extra_dirs,
        },
        from_amp_list: false,
        from_local_scan: true,
    }
}

/// The runners with one process more.
pub open spec fn absorbed(rs: Seq<RunnerView>, p: ProcessView) -> Seq<RunnerView> {
    match match_of(rs, p) {
        Some(i) => rs.update(i, attached(rs[i], p)),
        None => rs.push(local_runner(p)),
    }
}

/// The runners with the processes, one after the other.
pub open spec fn absorbed_all(rs: Seq<RunnerView>, ps: Seq<ProcessView>) -> Seq<RunnerView>
    decreases ps.len(),
{
    if ps.len() == 0 {
        rs
    } else {
        absorbed(absorbed_all(rs, ps.drop_last()), ps.last())
    }
}

/// The shown ids of the runners.
pub open spec fn names(rs: Seq<RunnerView>) -> Seq<Seq<char>> {
    Seq::new(rs.len(), |i: int| runner::shown_id(rs[i].id))
}

/// A runner put behind those whose shown id does not come after its own.
pub open spec fn put_by_name(rs: Seq<RunnerView>, r: RunnerView) -> Seq<RunnerView> {
    rs.insert(order::rank(names(rs), runner::shown_id(r.id)), r)
}

/// The runners by their shown ids; those with the same one stay as they were.
pub open spec fn by_name(rs: Seq<RunnerView>) -> Seq<RunnerView>
    decreases rs.len(),
{
    if rs.len() == 0 {
        Seq::empty()
    } else {
        put_by_name(by_name(rs.drop_last()), rs.last())
    }
}

/// The listed runners, the processes of this machine and those that were started from here.
pub open spec fn merged(
    listed: Seq<RunnerView>,
    local: Seq<ProcessView>,
    spawned: Seq<ProcessView>,
) -> Seq<RunnerView> {
    by_name(absorbed_all(absorbed_all(listed, local), spawned))
}

/// The first runner with the id, in any case of letters.
pub fn find_by_id(rs: &Vec<Runner>, id: &str) -> (r: Option<usize>)
    ensures
        match r {
            Some(i) => i < rs@.len() && with_id_from(runner::runners(rs@), id@, 0) == Some(i as int),
            None => with_id_from(runner::runners(rs@), id@, 0) is None,
        },
{
    let ghost all = runner::runners(rs@);
    let key = chars_of(id);
    for i in 0..rs.len()
        invariant
            all == runner::runners(rs@),
            key@ == id@,
            with_id_from(all, id@, 0) == with_id_from(all, id@, i as int),
    {
        assert(all[i as int] == rs@[i as int]@);
        if same_ignoring_case(&chars_of(rs[i].id.as_str()), &key) {
            return Some(i);
        }
    }
    None
}

/// The first runner with the process id.
pub fn find_by_pid(rs: &Vec<Runner>, pid: u32) -> (r: Option<usize>)
    ensures
        match r {
            Some(i) => i < rs@.len() && with_pid_from(runner::runners(rs@), pid, 0) == Some(
                i as int,
            ),
            None => with_pid_from(runner::runners(rs@), pid, 0) is None,
        },
{
    let ghost all = runner::runners(rs@);
    for i in 0..rs.len()
        invariant
            all == runner::runners(rs@),
            with_pid_from(all, pid, 0) == with_pid_from(all, pid, i as int),
    {
        assert(all[i as int] == rs@[i as int]@);
        match rs[i].pid {
            Some(n) => {
                if n == pid {
                    return Some(i);
                }
            },
            None => {},
        }
    }
    None
}

fn find_match(rs: &Vec<Runner>, p: &LocalProcess) -> (r: Option<usize>)
    ensures
        match r {
            Some(i) => i < rs@.len() && match_of(runner::runners(rs@), p@) == Some(i as int),
            None => match_of(runner::runners(rs@), p@) is None,
        },
{
    match &p.runner_id {
        Some(id) => match find_by_id(rs, id.as_str()) {
            Some(i) => {
                return Some(i);
            },
            None => {},
        },
        None => {},
    }
    find_by_pid(rs, p.pid)
}

fn attach(r: &mut Runner, p: &LocalProcess)
    ensures
        final(r)@ == attached(old(r)@, p@),
{
    if r.pid.is_none() {
        r.pid = Some(p.pid);
    }
    if r.cwd.is_none() {
        r.cwd = p.cwd.clone();
    }
    push_unique_dirs(&mut r.dirs, &p.extra_dirs);
    match &p.cwd {
        Some(cwd) => {
            push_unique_dir(&mut r.dirs, cwd.as_str());
        },
        None => {},
    }
    r.from_local_scan = true;
}

fn runner_of_process(p: &LocalProcess) -> (r: Runner)
    ensures
        r@ == local_runner(p@),
{
    let mut dirs = p.extra_dirs.clone();
    match &p.cwd {
        Some(cwd) => {
            push_unique_dir(&mut dirs, cwd.as_str());
        },
        None => {},
    }
    let id = match &p.runner_id {
        Some(id) => id.clone(),
        None => String::new(),
    };
    Runner {
        id,
        pid: Some(p.pid),
        cwd: p.cwd.clone(),
        dirs,
        from_amp_list: false,
        from_local_scan: true,
    }
}

fn absorb(rs: &mut Vec<Runner>, p: &LocalProcess)
    ensures
        runner::runners(final(rs)@) == absorbed(runner::runners(old(rs)@), p@),
{
    let ghost before = runner::runners(rs@);
    match find_match(rs, p) {
        Some(i) => {
            let mut r = rs[i].duplicate();
            assert(r@ == before[i as int]);
            attach(&mut r, p);
            let ghost rv = r@;
            rs.set(i, r);
            assert(runner::runners(rs@) == before.update(i as int, rv));
        },
        None => {
            let r = runner_of_process(p);
            let ghost rv = r@;
            rs.push(r);
            assert(runner::runners(rs@) == before.push(rv));
        },
    }
}

fn absorb_all(rs: &mut Vec<Runner>, ps: &Vec<LocalProcess>)
    ensures
        runner::runners(final(rs)@) == absorbed_all(
            runner::runners(old(rs)@),
            runner::processes(ps@),
        ),
{
    let ghost before = runner::runners(rs@);
    let ghost all = runner::processes(ps@);
    for i in 0..ps.len()
        invariant
            all == runner::processes(ps@),
            runner::runners(rs@) == absorbed_all(before, all.take(i as int)),
    {
        assert(all.take(i + 1).drop_last() == all.take(i as int));
        absorb(rs, &ps[i]);
    }
    assert(all.take(all.len() as int) == all);
}

fn place_by_name(rs: &Vec<Runner>, r: &Runner) -> (n: usize)
    ensures
        n <= rs@.len(),
        n == order::rank(names(runner::runners(rs@)), runner::shown_id(r.id@)),
{
    let ghost keys = names(runner::runners(rs@));
    let ghost key = runner::shown_id(r.id@);
    let mut n: usize = rs.len();
    assert(keys.take(n as int) == keys);
    while n > 0
        invariant
            n <= rs@.len(),
            keys == names(runner::runners(rs@)),
            key == runner::shown_id(r.id@),
            order::rank(keys, key) == order::rank(keys.take(n as int), key),
        decreases n,
    {
        assert(keys.take(n as int).last() == keys[n - 1]);
        if in_order(rs[n - 1].display_id(), r.display_id()) {
            return n;
        }
        assert(keys.take(n as int).drop_last() == keys.take(n - 1));
        n -= 1;
    }
    0
}

fn sort_by_name(rs: &Vec<Runner>) -> (r: Vec<Runner>)
    ensures
        runner::runners(r@) == by_name(runner::runners(rs@)),
{
    let ghost all = runner::runners(rs@);
    let mut out: Vec<Runner> = Vec::new();
    for i in 0..rs.len()
        invariant
            all == runner::runners(rs@),
            runner::runners(out@) == by_name(all.take(i as int)),
    {
        assert(all.take(i + 1).drop_last() == all.take(i as int));
        let ghost before = runner::runners(out@);
        let x = rs[i].duplicate();
        assert(x@ == all[i as int]);
        let n: usize = place_by_name(&out, &x);
        let ghost xv = x@;
        out.insert(n, x);
        assert(runner::runners(out@) == before.insert(n as int, xv));
    }
    assert(all.take(all.len() as int) == all);
    out
}

/// Merge Amp's list with local PIDs. Amp list wins for IDs/dirs; local scan fills PIDs.
pub fn merge_runners(
    listed: Vec<Runner>,
    local: &Vec<LocalProcess>,
    spawned: &Vec<LocalProcess>,
) -> (r: Vec<Runner>)
    ensures
        runner::runners(r@) == merged(
            runner::runners(listed@),
            runner::processes(local@),
            runner::processes(spawned@),
        ),
{
    let mut rs = listed;
    absorb_all(&mut rs, local);
    absorb_all(&mut rs, spawned);
    sort_by_name(&rs)
}

// ---------------------------------------------------------------------------------------------
// Laws of the merge

/// What the search for an id finds.
pub proof fn lemma_with_id(rs: Seq<RunnerView>, id: Seq<char>, i: int)
    requires
        0 <= i,
    ensures
        match with_id_from(rs, id, i) {
            Some(k) => i <= k < rs.len() && text::same_but_case(rs[k].id, id),
            None => forall|j: int|
                i <= j < rs.len() ==> !text::same_but_case(#[trigger] rs[j].id, id),
        },
    decreases rs.len() - i,
{
    if i < rs.len() && !text::same_but_case(rs[i].id, id) {
        lemma_with_id(rs, id, i + 1);
    }
}

proof fn lemma_with_pid(rs: Seq<RunnerView>, pid: u32, i: int)
    requires
        0 <= i,
    ensures
        match with_pid_from(rs, pid, i) {
            Some(k) => i <= k < rs.len() && rs[k].pid == Some(pid),
            None => forall|j: int| i <= j < rs.len() ==> #[trigger] rs[j].pid != Some(pid),
        },
    decreases rs.len() - i,
{
    if i < rs.len() && rs[i].pid != Some(pid) {
        lemma_with_pid(rs, pid, i + 1);
    }
}

proof fn lemma_match(rs: Seq<RunnerView>, p: ProcessView)
    ensures
        match match_of(rs, p) {
            Some(k) => 0 <= k < rs.len() && is_of(rs[k], p),
            None => forall|j: int| 0 <= j < rs.len() ==> !is_of(#[trigger] rs[j], p),
        },
{
    match p.runner_id {
        Some(id) => {
            lemma_with_id(rs, id, 0);
        },
        None => {},
    }
    lemma_with_pid(rs, p.pid, 0);
}

/// Whether a runner has the runner id, in any case of letters, or the exact process id of a
/// process.
pub open spec fn is_of(r: RunnerView, p: ProcessView) -> bool {
    ||| p.runner_id is Some && text::same_but_case(r.id, p.runner_id->0)
    ||| r.pid == Some(p.pid)
}

/// What stays of a runner when processes are attached to it: the id and its origin, the process
/// id and the working directory where they were known, and its directories, in their order.
pub open spec fn kept(before: RunnerView, after: RunnerView) -> bool {
    &&& after.id == before.id
    &&& after.from_amp_list == before.from_amp_list
    &&& before.pid is Some ==> after.pid == before.pid
    &&& before.cwd is Some ==> after.cwd == before.cwd
    &&& before.dirs.is_prefix_of(after.dirs)
    &&& before.from_local_scan ==> after.from_local_scan
}

proof fn lemma_with_dirs_prefix(dirs: Seq<Seq<char>>, more: Seq<Seq<char>>)
    ensures
        dirs.is_prefix_of(listing::with_dirs(dirs, more)),
    decreases more.len(),
{
    if more.len() > 0 {
        lemma_with_dirs_prefix(dirs, more.drop_last());
    }
}

proof fn lemma_attached(r: RunnerView, p: ProcessView)
    ensures
        kept(r, attached(r, p)),
{
    lemma_with_dirs_prefix(r.dirs, p.extra_dirs);
}

proof fn lemma_absorbed_all(rs: Seq<RunnerView>, ps: Seq<ProcessView>)
    ensures
        rs.len() <= absorbed_all(rs, ps).len() <= rs.len() + ps.len(),
        forall|i: int|
            0 <= i < rs.len() ==> kept(#[trigger] rs[i], absorbed_all(rs, ps)[i]),
    decreases ps.len(),
{
    if ps.len() > 0 {
        let mid = absorbed_all(rs, ps.drop_last());
        lemma_absorbed_all(rs, ps.drop_last());
        lemma_match(mid, ps.last());
        assert forall|i: int| 0 <= i < rs.len() implies kept(
            #[trigger] rs[i],
            absorbed_all(rs, ps)[i],
        ) by {
            lemma_attached(mid[i], ps.last());
        }
    }
}

/// Whether a process is shown: as a runner of its id or its process id, found by the scan and with
/// a process id to stop it by.
pub open spec fn shown(rs: Seq<RunnerView>, p: ProcessView) -> bool {
    exists|j: int|
        0 <= j < rs.len() && is_of(#[trigger] rs[j], p) && rs[j].from_local_scan && rs[j].pid is Some
}

proof fn lemma_absorbed_shows(rs: Seq<RunnerView>, ps: Seq<ProcessView>)
    ensures
        forall|i: int| 0 <= i < ps.len() ==> shown(absorbed_all(rs, ps), #[trigger] ps[i]),
    decreases ps.len(),
{
    if ps.len() > 0 {
        let front = ps.drop_last();
        let mid = absorbed_all(rs, front);
        let out = absorbed_all(rs, ps);
        lemma_absorbed_shows(rs, front);
        lemma_match(mid, ps.last());
        assert forall|i: int| 0 <= i < ps.len() implies shown(out, #[trigger] ps[i]) by {
            if i < front.len() {
                assert(shown(mid, front[i]));
                let j = choose|j: int|
                    0 <= j < mid.len() && is_of(#[trigger] mid[j], front[i])
                        && mid[j].from_local_scan && mid[j].pid is Some;
                lemma_attached(mid[j], ps.last());
                assert(is_of(out[j], ps[i]) && out[j].from_local_scan && out[j].pid is Some);
            } else {
                match match_of(mid, ps.last()) {
                    Some(k) => {
                        assert(is_of(out[k], ps[i]));
                    },
                    None => {
                        let k = mid.len() as int;
                        assert(out[k] == local_runner(ps.last()));
                        assert(is_of(out[k], ps[i]));
                    },
                }
            }
        }
    }
}

proof fn lemma_by_name(rs: Seq<RunnerView>)
    ensures
        by_name(rs).len() == rs.len(),
        by_name(rs).to_multiset() == rs.to_multiset(),
        order::ordered(names(by_name(rs))),
    decreases rs.len(),
{
    if rs.len() > 0 {
        let front = by_name(rs.drop_last());
        let last = rs.last();
        lemma_by_name(rs.drop_last());
        let n = order::rank(names(front), runner::shown_id(last.id));
        order::lemma_rank(names(front), runner::shown_id(last.id));
        order::lemma_rank_keeps_order(names(front), runner::shown_id(last.id));
        assert(names(by_name(rs)) == names(front).insert(n, runner::shown_id(last.id)));
        vstd::seq_lib::to_multiset_insert(front, n, last);
        assert(rs == rs.drop_last().push(last));
        vstd::seq_lib::to_multiset_build(rs.drop_last(), last);
    } else {
        assert(by_name(rs) == rs);
    }
}

proof fn lemma_by_name_contains(rs: Seq<RunnerView>, x: RunnerView)
    ensures
        by_name(rs).contains(x) == rs.contains(x),
{
    lemma_by_name(rs);
    by_name(rs).to_multiset_ensures();
    rs.to_multiset_ensures();
    assert(by_name(rs).to_multiset().count(x) == rs.to_multiset().count(x));
}

/// A merged list is in the order of the shown ids.
pub proof fn merge_is_ordered(
    listed: Seq<RunnerView>,
    local: Seq<ProcessView>,
    spawned: Seq<ProcessView>,
)
    ensures
        order::ordered(names(merged(listed, local, spawned))),
{
    lemma_by_name(absorbed_all(absorbed_all(listed, local), spawned));
}

/// Sorting changes the order alone, and nothing where the runners are in order.
pub proof fn sorting_keeps_runners(rs: Seq<RunnerView>)
    ensures
        by_name(rs).to_multiset() == rs.to_multiset(),
        order::ordered(names(rs)) ==> by_name(rs) == rs,
    decreases rs.len(),
{
    lemma_by_name(rs);
    if order::ordered(names(rs)) && rs.len() > 0 {
        let front = rs.drop_last();
        assert(names(front) == names(rs).drop_last());
        assert(order::ordered(names(front))) by {
            assert forall|i: int, j: int| 0 <= i <= j < names(front).len() implies order::text_le(
                #[trigger] names(front)[i],
                #[trigger] names(front)[j],
            ) by {
                assert(names(front)[i] == names(rs)[i]);
                assert(names(front)[j] == names(rs)[j]);
            }
        }
        sorting_keeps_runners(front);
        let key = runner::shown_id(rs.last().id);
        assert(order::rank(names(front), key) == front.len()) by {
            if front.len() > 0 {
                assert(names(rs)[front.len() - 1] == names(front).last());
                assert(names(rs)[front.len() as int] == key);
                assert(order::text_le(names(rs)[front.len() - 1], names(rs)[front.len() as int]));
            }
        }
        assert(front.insert(front.len() as int, rs.last()) == rs);
    } else if rs.len() == 0 {
        assert(by_name(rs) == rs);
    }
}

/// Whether `at` gives each of the runners a place of its own in a list of `n`.
pub open spec fn places(at: Seq<int>, rs: Seq<RunnerView>, n: nat) -> bool {
    &&& at.len() == rs.len()
    &&& at.no_duplicates()
    &&& forall|i: int| 0 <= i < at.len() ==> 0 <= #[trigger] at[i] < n
}

/// Whether runners of one shown id have their places in the order in which they stand.
pub open spec fn stable(at: Seq<int>, rs: Seq<RunnerView>) -> bool {
    forall|i: int, j: int|
        0 <= i < j < rs.len() && runner::shown_id((#[trigger] rs[i]).id) == runner::shown_id(
            (#[trigger] rs[j]).id,
        ) ==> at[i] < at[j]
}

/// Where sorting puts the runners.
proof fn places_by_name(rs: Seq<RunnerView>) -> (at: Seq<int>)
    ensures
        places(at, rs, by_name(rs).len()),
        stable(at, rs),
        forall|i: int| 0 <= i < rs.len() ==> by_name(rs)[at[i]] == #[trigger] rs[i],
    decreases rs.len(),
{
    if rs.len() == 0 {
        Seq::empty()
    } else {
        let front = rs.drop_last();
        let before = by_name(front);
        let out = by_name(rs);
        let last = rs[rs.len() - 1];
        let key = runner::shown_id(last.id);
        let n = order::rank(names(before), key);
        let old_at = places_by_name(front);
        order::lemma_rank(names(before), key);
        order::text_order_total(key, key);
        assert(rs.last() == last);
        assert(out == before.insert(n, last));
        let at = Seq::new(
            rs.len(),
            |i: int|
                if i == rs.len() - 1 {
                    n
                } else if old_at[i] < n {
                    old_at[i]
                } else {
                    old_at[i] + 1
                },
        );
        assert forall|i: int| 0 <= i < rs.len() implies out[at[i]] == #[trigger] rs[i] by {
            if i < front.len() {
                assert(front[i] == rs[i]);
                assert(before[old_at[i]] == front[i]);
                assert(0 <= old_at[i] < before.len());
            }
        }
        assert forall|i: int| 0 <= i < at.len() implies 0 <= #[trigger] at[i] < out.len() by {
            if i < front.len() {
                assert(0 <= old_at[i] < before.len());
            }
        }
        assert forall|i: int, j: int| 0 <= i < j < at.len() implies at[i] != at[j] by {
            assert(0 <= old_at[i] < before.len());
            if j < front.len() {
                assert(old_at[i] != old_at[j]);
            }
        }
        assert forall|i: int, j: int|
            0 <= i < j < rs.len() && runner::shown_id((#[trigger] rs[i]).id) == runner::shown_id(
                (#[trigger] rs[j]).id,
            ) implies at[i] < at[j] by {
            assert(front[i] == rs[i]);
            if j < front.len() {
                assert(front[j] == rs[j]);
            } else {
                let k = old_at[i];
                assert(0 <= k < before.len());
                assert(before[k] == front[i]);
                assert(names(before)[k] == key);
                if k >= n {
                    assert(!order::text_le(names(before)[k], key));
                }
            }
        }
        at
    }
}

/// Whether the places in a merged list are those of the listed runners: each has one of its own,
/// with its id and its origin, with its process id and working directory where the list had them,
/// and with its directories first; and runners of one shown id stay in their order.
pub open spec fn rows_of(
    at: Seq<int>,
    listed: Seq<RunnerView>,
    merged_list: Seq<RunnerView>,
) -> bool {
    &&& places(at, listed, merged_list.len())
    &&& stable(at, listed)
    &&& forall|i: int| 0 <= i < listed.len() ==> kept(#[trigger] listed[i], merged_list[at[i]])
}

/// Every listed runner has a row of its own in a merged list, and keeps what was listed of it;
/// runners of one shown id stay in their order.
pub proof fn merge_keeps_listed(
    listed: Seq<RunnerView>,
    local: Seq<ProcessView>,
    spawned: Seq<ProcessView>,
)
    ensures
        exists|at: Seq<int>| #[trigger] rows_of(at, listed, merged(listed, local, spawned)),
{
    let mid = absorbed_all(listed, local);
    let all = absorbed_all(mid, spawned);
    lemma_absorbed_all(listed, local);
    lemma_absorbed_all(mid, spawned);
    let every = places_by_name(all);
    let at = every.take(listed.len() as int);
    assert forall|i: int| 0 <= i < listed.len() implies kept(
        #[trigger] listed[i],
        by_name(all)[at[i]],
    ) && all[i].id == listed[i].id && at[i] == every[i] by {
        assert(kept(listed[i], mid[i]));
        assert(kept(mid[i], all[i]));
        assert(by_name(all)[every[i]] == all[i]);
    }
    assert forall|i: int| 0 <= i < at.len() implies 0 <= #[trigger] at[i] < by_name(all).len() by {
        assert(at[i] == every[i]);
    }
    assert forall|i: int, j: int| 0 <= i < j < at.len() implies at[i] != at[j] by {
        assert(every[i] != every[j]);
    }
    assert forall|i: int, j: int|
        0 <= i < j < listed.len() && runner::shown_id((#[trigger] listed[i]).id)
            == runner::shown_id((#[trigger] listed[j]).id) implies at[i] < at[j] by {
        assert(all[i].id == listed[i].id);
        assert(all[j].id == listed[j].id);
        assert(every[i] < every[j]);
    }
    assert(rows_of(at, listed, merged(listed, local, spawned)));
}

proof fn lemma_shown_by_name(rs: Seq<RunnerView>, p: ProcessView)
    requires
        shown(rs, p),
    ensures
        shown(by_name(rs), p),
{
    let k = choose|j: int|
        0 <= j < rs.len() && is_of(#[trigger] rs[j], p) && rs[j].from_local_scan
            && rs[j].pid is Some;
    assert(rs.contains(rs[k]));
    lemma_by_name_contains(rs, rs[k]);
    let j = choose|j: int| 0 <= j < by_name(rs).len() && by_name(rs)[j] == rs[k];
    assert(is_of(by_name(rs)[j], p));
}

/// Every process of this machine is in a merged list, under its runner id or its process id, and
/// with a process id.
pub proof fn merge_shows_processes(
    listed: Seq<RunnerView>,
    local: Seq<ProcessView>,
    spawned: Seq<ProcessView>,
    p: ProcessView,
)
    requires
        local.contains(p) || spawned.contains(p),
    ensures
        shown(merged(listed, local, spawned), p),
{
    let mid = absorbed_all(listed, local);
    let all = absorbed_all(mid, spawned);
    lemma_absorbed_shows(listed, local);
    lemma_absorbed_shows(mid, spawned);
    lemma_absorbed_all(mid, spawned);
    if spawned.contains(p) {
        let i = choose|i: int| 0 <= i < spawned.len() && spawned[i] == p;
        assert(shown(all, spawned[i]));
    } else {
        let i = choose|i: int| 0 <= i < local.len() && local[i] == p;
        assert(shown(mid, local[i]));
        let j = choose|j: int|
            0 <= j < mid.len() && is_of(#[trigger] mid[j], p) && mid[j].from_local_scan
            && mid[j].pid is Some;
        assert(kept(mid[j], all[j]));
        assert(is_of(all[j], p));
    }
    lemma_shown_by_name(all, p);
}

/// A merge drops no listed runner and invents none: there are at least as many as listed, and
/// at most one more for each process.
pub proof fn merge_counts(
    listed: Seq<RunnerView>,
    local: Seq<ProcessView>,
    spawned: Seq<ProcessView>,
)
    ensures
        listed.len() <= merged(listed, local, spawned).len() <= listed.len() + local.len()
            + spawned.len(),
{
    let mid = absorbed_all(listed, local);
    lemma_absorbed_all(listed, local);
    lemma_absorbed_all(mid, spawned);
    lemma_by_name(absorbed_all(mid, spawned));
}

/// A process of another runner id and another process id is a runner of its own, whatever
/// directories it shares.
pub proof fn shared_directory_does_not_merge(rs: Seq<RunnerView>, p: ProcessView)
    requires
        forall|i: int| 0 <= i < rs.len() ==> !is_of(#[trigger] rs[i], p),
    ensures
        absorbed(rs, p) == rs.push(local_runner(p)),
{
    lemma_match(rs, p);
}

// ---------------------------------------------------------------------------------------------
// What a start writes, a scan reads

/// Whether an argument is read as a flag: it is the flag, or the flag and a value in one.
pub open spec fn reads_as(arg: Seq<char>, flag: Seq<char>) -> bool {
    arg == flag || text::has_prefix(arg, flag.push('='))
}

/// Whether no argument is read as the flag.
pub open spec fn free_of(args: Seq<Seq<char>>, flag: Seq<char>) -> bool {
    forall|i: int| 0 <= i < args.len() ==> !reads_as(#[trigger] args[i], flag)
}

/// Whether the value that is written, if one is, does not read as the flag.
pub open spec fn value_free_of(value: Option<Seq<char>>, flag: Seq<char>) -> bool {
    text::nonblank(value) is Some ==> !reads_as(text::nonblank(value)->0, flag)
}

/// Whether no value that the options give reads as the flag.
pub open spec fn values_free_of(o: OptionsView, flag: Seq<char>) -> bool {
    &&& value_free_of(o.mode, flag)
    &&& value_free_of(o.log_level, flag)
    &&& value_free_of(o.settings_file, flag)
    &&& value_free_of(o.mcp_config, flag)
    &&& value_free_of(o.visibility, flag)
}

proof fn lemma_differs(arg: Seq<char>, flag: Seq<char>, k: int)
    requires
        0 <= k < arg.len(),
        k < flag.len(),
        arg[k] != flag[k],
    ensures
        !reads_as(arg, flag),
{
    if text::has_prefix(arg, flag.push('=')) {
        assert(arg.take(flag.push('=').len() as int)[k] == flag.push('=')[k]);
    }
}

proof fn lemma_valued_free(name: Seq<char>, value: Option<Seq<char>>, flag: Seq<char>)
    requires
        !reads_as(name, flag),
        value_free_of(value, flag),
    ensures
        free_of(args::valued(name, value), flag),
{
}

proof fn lemma_free_add(a: Seq<Seq<char>>, b: Seq<Seq<char>>, flag: Seq<char>)
    requires
        free_of(a, flag),
        free_of(b, flag),
    ensures
        free_of(a + b, flag),
{
    assert forall|i: int| 0 <= i < (a + b).len() implies !reads_as(
        #[trigger] (a + b)[i],
        flag,
    ) by {
        if i < a.len() {
            assert((a + b)[i] == a[i]);
        } else {
            assert((a + b)[i] == b[i - a.len()]);
        }
    }
}

proof fn lemma_value_skips(args: Seq<Seq<char>>, flag: Seq<char>, i: int, n: int)
    requires
        0 <= i <= n <= args.len(),
        forall|k: int| i <= k < n ==> !reads_as(#[trigger] args[k], flag),
    ensures
        flag_value_from(args, flag, i) == flag_value_from(args, flag, n),
        flag_values_from(args, flag, i) == flag_values_from(args, flag, n),
    decreases n - i,
{
    if i < n {
        assert(!reads_as(args[i], flag));
        lemma_value_skips(args, flag, i + 1, n);
    }
}

spec fn dir_pair(out: Seq<Seq<char>>, dirs: Seq<Seq<char>>, k: int) -> bool {
    out[2 * k] == "--dir"@ && out[2 * k + 1] == dirs[k]
}

/// Whether the arguments are a `--dir` for each directory, in order.
spec fn dir_pairs(out: Seq<Seq<char>>, dirs: Seq<Seq<char>>) -> bool {
    &&& out.len() == 2 * dirs.len()
    &&& forall|k: int| 0 <= k < dirs.len() ==> #[trigger] dir_pair(out, dirs, k)
}

proof fn lemma_dir_args(dirs: Seq<Seq<char>>)
    ensures
        dir_pairs(args::dir_args(dirs), dirs),
    decreases dirs.len(),
{
    if dirs.len() > 0 {
        let last = dirs.drop_last();
        lemma_dir_args(last);
        let out = args::dir_args(dirs);
        let front = args::dir_args(last);
        assert(out == front.push("--dir"@).push(dirs.last()));
        assert forall|k: int| 0 <= k < dirs.len() implies #[trigger] dir_pair(out, dirs, k) by {
            if k < last.len() {
                assert(dir_pair(front, last, k));
            }
        }
    }
}

proof fn lemma_dirs_read_back(pre: Seq<Seq<char>>, dirs: Seq<Seq<char>>, k: int)
    requires
        0 <= k <= dirs.len(),
    ensures
        flag_values_from(pre + args::dir_args(dirs), "--dir"@, pre.len() + 2 * k) == dirs.skip(k),
    decreases dirs.len() - k,
{
    lemma_dir_args(dirs);
    let all = pre + args::dir_args(dirs);
    if k < dirs.len() {
        lemma_dirs_read_back(pre, dirs, k + 1);
        assert(dir_pair(args::dir_args(dirs), dirs, k));
        assert(all[pre.len() + 2 * k] == args::dir_args(dirs)[2 * k]);
        assert(all[pre.len() + 2 * k + 1] == args::dir_args(dirs)[2 * k + 1]);
        assert(dirs.skip(k) == seq![dirs[k]] + dirs.skip(k + 1));
    } else {
        assert(dirs.skip(k) == Seq::<Seq<char>>::empty());
    }
}

/// The first arguments of a start, and those between the runner id and the directories.
spec fn start_front(o: OptionsView, head: Seq<Seq<char>>) -> Seq<Seq<char>> {
    head + args::valued("--mode"@, o.mode) + args::valued("--log-level"@, o.log_level)
        + args::valued("--settings-file"@, o.settings_file) + args::valued(
        "--mcp-config"@,
        o.mcp_config,
    ) + args::valued("--visibility"@, o.visibility) + args::switch(
        "--remote-control-terminal"@,
        o.remote_control_terminal,
    ) + args::switch("--discover-dirs"@, o.discover_dirs) + args::switch("--amp-env"@, o.amp_env)
}

proof fn lemma_prefix_add(p: Seq<Seq<char>>, a: Seq<Seq<char>>, b: Seq<Seq<char>>)
    requires
        p.is_prefix_of(a),
    ensures
        p.is_prefix_of(a + b),
{
    assert forall|i: int| 0 <= i < p.len() implies p[i] == #[trigger] (a + b)[i] by {
        assert(a.subrange(0, p.len() as int)[i] == p[i]);
    }
    assert((a + b).subrange(0, p.len() as int) == p);
}

proof fn lemma_front_begins(o: OptionsView, head: Seq<Seq<char>>)
    ensures
        head.is_prefix_of(start_front(o, head)),
{
    assert(head.subrange(0, head.len() as int) == head);
    let s1 = head + args::valued("--mode"@, o.mode);
    lemma_prefix_add(head, head, args::valued("--mode"@, o.mode));
    let s2 = s1 + args::valued("--log-level"@, o.log_level);
    lemma_prefix_add(head, s1, args::valued("--log-level"@, o.log_level));
    let s3 = s2 + args::valued("--settings-file"@, o.settings_file);
    lemma_prefix_add(head, s2, args::valued("--settings-file"@, o.settings_file));
    let s4 = s3 + args::valued("--mcp-config"@, o.mcp_config);
    lemma_prefix_add(head, s3, args::valued("--mcp-config"@, o.mcp_config));
    let s5 = s4 + args::valued("--visibility"@, o.visibility);
    lemma_prefix_add(head, s4, args::valued("--visibility"@, o.visibility));
    let s6 = s5 + args::switch("--remote-control-terminal"@, o.remote_control_terminal);
    lemma_prefix_add(
        head,
        s5,
        args::switch("--remote-control-terminal"@, o.remote_control_terminal),
    );
    let s7 = s6 + args::switch("--discover-dirs"@, o.discover_dirs);
    lemma_prefix_add(head, s6, args::switch("--discover-dirs"@, o.discover_dirs));
    lemma_prefix_add(head, s7, args::switch("--amp-env"@, o.amp_env));
}

proof fn lemma_rest_free(o: OptionsView, flag: Seq<char>, front: Seq<Seq<char>>)
    requires
        flag == "--runner-id"@ || flag == "--dir"@,
        values_free_of(o, flag),
        free_of(front, flag),
    ensures
        free_of(start_front(o, front), flag),
{
    reveal_strlit("--runner-id");
    reveal_strlit("--dir");
    reveal_strlit("--mode");
    reveal_strlit("--log-level");
    reveal_strlit("--settings-file");
    reveal_strlit("--mcp-config");
    reveal_strlit("--visibility");
    reveal_strlit("--remote-control-terminal");
    reveal_strlit("--discover-dirs");
    reveal_strlit("--amp-env");
    lemma_differs("--mode"@, flag, 2);
    lemma_differs("--log-level"@, flag, 2);
    lemma_differs("--settings-file"@, flag, 2);
    lemma_differs("--mcp-config"@, flag, 2);
    lemma_differs("--visibility"@, flag, 2);
    if flag == "--dir"@ {
        lemma_differs("--remote-control-terminal"@, flag, 2);
        lemma_differs("--discover-dirs"@, flag, 4);
    } else {
        lemma_differs("--remote-control-terminal"@, flag, 3);
        lemma_differs("--discover-dirs"@, flag, 2);
    }
    lemma_differs("--amp-env"@, flag, 2);
    lemma_valued_free("--mode"@, o.mode, flag);
    lemma_valued_free("--log-level"@, o.log_level, flag);
    lemma_valued_free("--settings-file"@, o.settings_file, flag);
    lemma_valued_free("--mcp-config"@, o.mcp_config, flag);
    lemma_valued_free("--visibility"@, o.visibility, flag);
    let s1 = front + args::valued("--mode"@, o.mode);
    lemma_free_add(front, args::valued("--mode"@, o.mode), flag);
    let s2 = s1 + args::valued("--log-level"@, o.log_level);
    lemma_free_add(s1, args::valued("--log-level"@, o.log_level), flag);
    let s3 = s2 + args::valued("--settings-file"@, o.settings_file);
    lemma_free_add(s2, args::valued("--settings-file"@, o.settings_file), flag);
    let s4 = s3 + args::valued("--mcp-config"@, o.mcp_config);
    lemma_free_add(s3, args::valued("--mcp-config"@, o.mcp_config), flag);
    let s5 = s4 + args::valued("--visibility"@, o.visibility);
    lemma_free_add(s4, args::valued("--visibility"@, o.visibility), flag);
    let s6 = s5 + args::switch("--remote-control-terminal"@, o.remote_control_terminal);
    lemma_free_add(s5, args::switch("--remote-control-terminal"@, o.remote_control_terminal), flag);
    let s7 = s6 + args::switch("--discover-dirs"@, o.discover_dirs);
    lemma_free_add(s6, args::switch("--discover-dirs"@, o.discover_dirs), flag);
    lemma_free_add(s7, args::switch("--amp-env"@, o.amp_env), flag);
}

proof fn lemma_front_free(bin: Seq<char>, o: OptionsView, head: Seq<Seq<char>>, flag: Seq<char>)
    requires
        flag == "--runner-id"@ || flag == "--dir"@,
        !reads_as(bin, flag),
        values_free_of(o, flag),
        free_of(head, flag),
    ensures
        free_of(seq![bin] + start_front(o, head), flag),
{
    lemma_rest_free(o, flag, head);
    lemma_free_add(seq![bin], start_front(o, head), flag);
}

proof fn lemma_dirs_of_start(bin: Seq<char>, o: OptionsView)
    requires
        !reads_as(bin, "--dir"@),
        values_free_of(o, "--dir"@),
        value_free_of(o.runner_id, "--dir"@),
    ensures
        flag_values_from(seq![bin] + args::start_args(o), "--dir"@, 0) == o.extra_dirs,
{
    reveal_strlit("--runner-id");
    reveal_strlit("--dir");
    reveal_strlit("--no-tui");
    let rid = args::valued("--runner-id"@, o.runner_id);
    let head = seq!["--no-tui"@] + rid;
    let pre = seq![bin] + start_front(o, head);
    let dirs = args::dir_args(o.extra_dirs);
    let line = seq![bin] + args::start_args(o);
    assert(args::start_args(o) == start_front(o, head) + dirs);
    assert(line == pre + dirs);
    lemma_differs("--no-tui"@, "--dir"@, 2);
    lemma_differs("--runner-id"@, "--dir"@, 2);
    lemma_valued_free("--runner-id"@, o.runner_id, "--dir"@);
    lemma_free_add(seq!["--no-tui"@], rid, "--dir"@);
    lemma_front_free(bin, o, head, "--dir"@);
    assert forall|k: int| 0 <= k < pre.len() implies !reads_as(#[trigger] line[k], "--dir"@) by {
        assert(line[k] == pre[k]);
    }
    lemma_value_skips(line, "--dir"@, 0, pre.len() as int);
    lemma_dirs_read_back(pre, o.extra_dirs, 0);
    assert(o.extra_dirs.skip(0) == o.extra_dirs);
}

proof fn lemma_id_of_start(bin: Seq<char>, o: OptionsView)
    requires
        !reads_as(bin, "--runner-id"@),
        text::nonblank(o.runner_id) is None ==> values_free_of(o, "--runner-id"@) && free_of(
            o.extra_dirs,
            "--runner-id"@,
        ),
    ensures
        flag_value_from(seq![bin] + args::start_args(o), "--runner-id"@, 0) == text::nonblank(
            o.runner_id,
        ),
        (seq![bin] + args::start_args(o)).contains("--no-tui"@),
{
    reveal_strlit("--runner-id");
    reveal_strlit("--dir");
    reveal_strlit("--no-tui");
    let rid = args::valued("--runner-id"@, o.runner_id);
    let head = seq!["--no-tui"@] + rid;
    let front = start_front(o, head);
    let dirs = args::dir_args(o.extra_dirs);
    let line = seq![bin] + args::start_args(o);
    assert(args::start_args(o) == front + dirs);
    assert(line == seq![bin] + front + dirs);
    lemma_front_begins(o, head);
    assert forall|k: int| 0 <= k < head.len() implies #[trigger] head[k] == line[k + 1] by {
        assert(front.subrange(0, head.len() as int)[k] == head[k]);
    }
    assert(line[1] == head[0]);
    assert(line.contains("--no-tui"@));
    lemma_differs("--no-tui"@, "--runner-id"@, 2);
    match text::nonblank(o.runner_id) {
        Some(v) => {
            assert(rid == seq!["--runner-id"@, v]);
            assert(head[1] == rid[0] && head[2] == rid[1]);
            assert(line[2] == head[1] && line[3] == head[2]);
            assert(line[0] == bin);
            lemma_value_skips(line, "--runner-id"@, 0, 2);
        },
        None => {
            assert(rid == Seq::<Seq<char>>::empty());
            assert(free_of(head, "--runner-id"@));
            lemma_front_free(bin, o, head, "--runner-id"@);
            lemma_dir_args(o.extra_dirs);
            lemma_differs("--dir"@, "--runner-id"@, 2);
            assert forall|i: int| 0 <= i < dirs.len() implies !reads_as(
                #[trigger] dirs[i],
                "--runner-id"@,
            ) by {
                let k = i / 2;
                assert(dir_pair(dirs, o.extra_dirs, k));
                assert(i == 2 * k || i == 2 * k + 1);
            }
            lemma_free_add(seq![bin] + front, dirs, "--runner-id"@);
            lemma_value_skips(line, "--runner-id"@, 0, line.len() as int);
        },
    }
}

/// A started runner is recognised: from the command line that a start with some options writes,
/// a scan reads the runner id and the served directories of these options. Left out are values
/// that themselves read as `--dir` and, where no runner id is given, those that read as
/// `--runner-id`.
pub proof fn started_runner_is_recognised(bin: Seq<char>, o: OptionsView)
    requires
        names_amp(bin),
        !reads_as(bin, "--runner-id"@),
        !reads_as(bin, "--dir"@),
        values_free_of(o, "--dir"@),
        value_free_of(o.runner_id, "--dir"@),
        text::nonblank(o.runner_id) is None ==> values_free_of(o, "--runner-id"@) && free_of(
            o.extra_dirs,
            "--runner-id"@,
        ),
    ensures
        amp_process(seq![bin] + args::start_args(o)) == Some(
            ProcessView {
                pid: 0,
                runner_id: text::nonblank(o.runner_id),
                cwd: None,
                extra_dirs: o.extra_dirs,
            },
        ),
{
    lemma_dirs_of_start(bin, o);
    lemma_id_of_start(bin, o);
    assert((seq![bin] + args::start_args(o))[0] == bin);
}

// ---------------------------------------------------------------------------------------------
// Directories of processes

/// Whether a runner serves the directories of a process: those that it was started with and its
/// working directory, each as the same path.
pub open spec fn serves(r: RunnerView, p: ProcessView) -> bool {
    &&& forall|k: int|
        0 <= k < p.extra_dirs.len() ==> listing::has_dir(r.dirs, #[trigger] p.extra_dirs[k])
    &&& p.cwd is Some ==> listing::has_dir(r.dirs, p.cwd->0)
}

/// Whether a process has a row: one of its id or its process id, found by the scan, with a process
/// id, and with every directory of the process.
pub open spec fn has_row(rs: Seq<RunnerView>, p: ProcessView) -> bool {
    exists|j: int|
        0 <= j < rs.len() && is_of(#[trigger] rs[j], p) && rs[j].from_local_scan && rs[j].pid is Some
            && serves(rs[j], p)
}

proof fn lemma_has_dir_grows(dirs: Seq<Seq<char>>, more: Seq<Seq<char>>, dir: Seq<char>)
    requires
        dirs.is_prefix_of(more),
        listing::has_dir(dirs, dir),
    ensures
        listing::has_dir(more, dir),
{
    let i = choose|i: int| 0 <= i < dirs.len() && path::same_path_text(#[trigger] dirs[i], dir);
    assert(more[i] == dirs[i]);
}

proof fn lemma_serves_kept(before: RunnerView, after: RunnerView, p: ProcessView)
    requires
        kept(before, after),
        serves(before, p),
    ensures
        serves(after, p),
{
    assert forall|k: int| 0 <= k < p.extra_dirs.len() implies listing::has_dir(
        after.dirs,
        #[trigger] p.extra_dirs[k],
    ) by {
        lemma_has_dir_grows(before.dirs, after.dirs, p.extra_dirs[k]);
    }
    if p.cwd is Some {
        lemma_has_dir_grows(before.dirs, after.dirs, p.cwd->0);
    }
}

/// A process that belongs to a runner gives it its process id and its working directory where the
/// runner had none, and its directories on top of the runner's own; nothing else changes but that
/// the scan has found it.
pub proof fn attaching_fills_in(r: RunnerView, p: ProcessView)
    ensures
        ({
            let a = attached(r, p);
            &&& a == (RunnerView {
                pid: a.pid,
                cwd: a.cwd,
                dirs: a.dirs,
                from_local_scan: true,
                ..r
            })
            &&& a.pid == if r.pid is Some {
                r.pid
            } else {
                Some(p.pid)
            }
            &&& a.cwd == if r.cwd is Some {
                r.cwd
            } else {
                p.cwd
            }
            &&& r.dirs.is_prefix_of(a.dirs)
            &&& serves(a, p)
            &&& forall|m: int|
                r.dirs.len() <= m < a.dirs.len() ==> p.extra_dirs.contains(#[trigger] a.dirs[m])
                    || p.cwd == Some(a.dirs[m])
        }),
{
    let a = attached(r, p);
    let mid = listing::with_dirs(r.dirs, p.extra_dirs);
    listing::adding_dirs_adds_each(r.dirs, p.extra_dirs);
    lemma_cwd_added(mid, p.cwd, a.dirs);
    assert forall|k: int| 0 <= k < p.extra_dirs.len() implies listing::has_dir(
        a.dirs,
        #[trigger] p.extra_dirs[k],
    ) by {
        lemma_has_dir_grows(mid, a.dirs, p.extra_dirs[k]);
    }
    assert(r.dirs =~= a.dirs.take(r.dirs.len() as int));
    assert forall|m: int| r.dirs.len() <= m < a.dirs.len() implies p.extra_dirs.contains(
        #[trigger] a.dirs[m],
    ) || p.cwd == Some(a.dirs[m]) by {
        if m < mid.len() {
            assert(a.dirs[m] == mid[m]);
        }
    }
}

proof fn lemma_cwd_added(dirs: Seq<Seq<char>>, cwd: Option<Seq<char>>, all: Seq<Seq<char>>)
    requires
        all == match cwd {
            Some(c) => listing::with_dir(dirs, c),
            None => dirs,
        },
    ensures
        dirs.is_prefix_of(all),
        cwd is Some ==> listing::has_dir(all, cwd->0),
        forall|m: int| dirs.len() <= m < all.len() ==> cwd == Some(#[trigger] all[m]),
{
    assert(dirs =~= all.take(dirs.len() as int));
    if cwd is Some && !listing::has_dir(dirs, cwd->0) {
        assert(all[dirs.len() as int] == cwd->0);
    }
}

/// Whether a row is that of a process that nothing else is known of: it has the id and the process
/// id of the process and its working directory, its directories are those that it was started with
/// and then its working directory, where that is another one, and the scan has found it.
pub open spec fn own_row(r: RunnerView, p: ProcessView) -> bool {
    &&& r.id == match p.runner_id {
        Some(id) => id,
        None => Seq::empty(),
    }
    &&& r.pid == Some(p.pid)
    &&& r.cwd == p.cwd
    &&& p.extra_dirs.is_prefix_of(r.dirs)
    &&& serves(r, p)
    &&& forall|m: int|
        p.extra_dirs.len() <= m < r.dirs.len() ==> p.cwd == Some(#[trigger] r.dirs[m])
    &&& !r.from_amp_list
    &&& r.from_local_scan
}

/// A process that no runner is of gets a row of its own behind the others, which stay as they are.
pub proof fn unknown_processes_get_their_own_row(rs: Seq<RunnerView>, p: ProcessView)
    requires
        forall|i: int| 0 <= i < rs.len() ==> !is_of(#[trigger] rs[i], p),
    ensures
        absorbed(rs, p).len() == rs.len() + 1,
        absorbed(rs, p).drop_last() == rs,
        own_row(absorbed(rs, p).last(), p),
{
    shared_directory_does_not_merge(rs, p);
    assert(absorbed(rs, p).drop_last() =~= rs);
    let r = local_runner(p);
    lemma_cwd_added(p.extra_dirs, p.cwd, r.dirs);
    assert forall|k: int| 0 <= k < p.extra_dirs.len() implies listing::has_dir(
        r.dirs,
        #[trigger] p.extra_dirs[k],
    ) by {
        assert(r.dirs[k] == p.extra_dirs[k]);
        assert(path::same_path_text(r.dirs[k], p.extra_dirs[k]));
    }
}

/// A process belongs to the runner of its id where there is one, and else to the one of its process
/// id; the other runners stay as they are.
pub proof fn processes_go_by_id_first(rs: Seq<RunnerView>, p: ProcessView, i: int)
    requires
        0 <= i < rs.len(),
        is_of(rs[i], p),
    ensures
        exists|k: int|
            {
                &&& 0 <= k < rs.len()
                &&& is_of(#[trigger] rs[k], p)
                &&& p.runner_id is Some && text::same_but_case(rs[i].id, p.runner_id->0)
                    ==> text::same_but_case(rs[k].id, p.runner_id->0) && k <= i
                &&& absorbed(rs, p) == rs.update(k, attached(rs[k], p))
            },
{
    lemma_match(rs, p);
    let k = match_of(rs, p)->0;
    if p.runner_id is Some {
        lemma_with_id(rs, p.runner_id->0, 0);
        if text::same_but_case(rs[i].id, p.runner_id->0) {
            lemma_with_id_least(rs, p.runner_id->0, 0, i);
        }
    }
    assert(is_of(rs[k], p));
}

proof fn lemma_with_id_least(rs: Seq<RunnerView>, id: Seq<char>, from: int, i: int)
    requires
        0 <= from <= i < rs.len(),
        text::same_but_case(rs[i].id, id),
    ensures
        with_id_from(rs, id, from) is Some,
        with_id_from(rs, id, from)->0 <= i,
    decreases rs.len() - from,
{
    if !text::same_but_case(rs[from].id, id) {
        lemma_with_id_least(rs, id, from + 1, i);
    }
}

proof fn lemma_absorbed_rows(rs: Seq<RunnerView>, ps: Seq<ProcessView>)
    ensures
        forall|i: int| 0 <= i < ps.len() ==> has_row(absorbed_all(rs, ps), #[trigger] ps[i]),
    decreases ps.len(),
{
    if ps.len() > 0 {
        let front = ps.drop_last();
        let mid = absorbed_all(rs, front);
        let out = absorbed_all(rs, ps);
        let p = ps.last();
        lemma_absorbed_rows(rs, front);
        lemma_match(mid, p);
        assert forall|i: int| 0 <= i < ps.len() implies has_row(out, #[trigger] ps[i]) by {
            if i < front.len() {
                assert(has_row(mid, front[i]));
                let j = choose|j: int|
                    0 <= j < mid.len() && is_of(#[trigger] mid[j], front[i])
                        && mid[j].from_local_scan && mid[j].pid is Some && serves(mid[j], front[i]);
                lemma_attached(mid[j], p);
                lemma_serves_kept(mid[j], attached(mid[j], p), front[i]);
                assert(is_of(out[j], ps[i]) && serves(out[j], ps[i]));
            } else {
                match match_of(mid, p) {
                    Some(k) => {
                        attaching_fills_in(mid[k], p);
                        assert(is_of(out[k], ps[i]) && serves(out[k], ps[i]));
                    },
                    None => {
                        unknown_processes_get_their_own_row(mid, p);
                        let k = mid.len() as int;
                        assert(out[k] == absorbed(mid, p).last());
                        assert(is_of(out[k], ps[i]) && serves(out[k], ps[i]));
                    },
                }
            }
        }
    }
}

proof fn lemma_row_by_name(rs: Seq<RunnerView>, p: ProcessView)
    requires
        has_row(rs, p),
    ensures
        has_row(by_name(rs), p),
{
    let k = choose|j: int|
        0 <= j < rs.len() && is_of(#[trigger] rs[j], p) && rs[j].from_local_scan && rs[j].pid is Some
            && serves(rs[j], p);
    assert(rs.contains(rs[k]));
    lemma_by_name_contains(rs, rs[k]);
    let j = choose|j: int| 0 <= j < by_name(rs).len() && by_name(rs)[j] == rs[k];
    assert(is_of(by_name(rs)[j], p));
}

/// Every process of this machine has a row in a merged list, of its runner id or its process id,
/// with every directory that it was started with and with its working directory.
pub proof fn merge_serves_processes(
    listed: Seq<RunnerView>,
    local: Seq<ProcessView>,
    spawned: Seq<ProcessView>,
    p: ProcessView,
)
    requires
        local.contains(p) || spawned.contains(p),
    ensures
        has_row(merged(listed, local, spawned), p),
{
    let mid = absorbed_all(listed, local);
    let all = absorbed_all(mid, spawned);
    lemma_absorbed_rows(listed, local);
    lemma_absorbed_rows(mid, spawned);
    lemma_absorbed_all(mid, spawned);
    if spawned.contains(p) {
        let i = choose|i: int| 0 <= i < spawned.len() && spawned[i] == p;
        assert(has_row(all, spawned[i]));
    } else {
        let i = choose|i: int| 0 <= i < local.len() && local[i] == p;
        assert(has_row(mid, local[i]));
        let j = choose|j: int|
            0 <= j < mid.len() && is_of(#[trigger] mid[j], p) && mid[j].from_local_scan
                && mid[j].pid is Some && serves(mid[j], p);
        assert(kept(mid[j], all[j]));
        lemma_serves_kept(mid[j], all[j], p);
        assert(is_of(all[j], p) && serves(all[j], p));
    }
    lemma_row_by_name(all, p);
}

/// Whether two processes have nothing to do with each other: their process ids differ, and so do
/// their runner ids.
pub open spec fn unrelated(p: ProcessView, q: ProcessView) -> bool {
    let id = match p.runner_id {
        Some(id) => id,
        None => Seq::empty(),
    };
    &&& p.pid != q.pid
    &&& q.runner_id is Some ==> !text::same_but_case(id, q.runner_id->0)
}

/// Whether a process has nothing to do with any of the others.
pub open spec fn alone(p: ProcessView, others: Seq<ProcessView>) -> bool {
    forall|i: int|
        0 <= i < others.len() ==> unrelated(p, #[trigger] others[i]) && unrelated(others[i], p)
}

proof fn lemma_none_is_of(rs: Seq<RunnerView>, ps: Seq<ProcessView>, p: ProcessView)
    requires
        forall|i: int| 0 <= i < rs.len() ==> !is_of(#[trigger] rs[i], p),
        alone(p, ps),
    ensures
        forall|i: int|
            0 <= i < absorbed_all(rs, ps).len() ==> !is_of(#[trigger] absorbed_all(rs, ps)[i], p),
    decreases ps.len(),
{
    if ps.len() > 0 {
        let front = ps.drop_last();
        let mid = absorbed_all(rs, front);
        let out = absorbed_all(rs, ps);
        let q = ps.last();
        assert(alone(p, front)) by {
            assert forall|i: int| 0 <= i < front.len() implies unrelated(p, #[trigger] front[i])
                && unrelated(front[i], p) by {
                assert(front[i] == ps[i]);
            }
        }
        lemma_none_is_of(rs, front, p);
        lemma_match(mid, q);
        assert(q == ps[ps.len() - 1]);
        assert(unrelated(p, q) && unrelated(q, p));
        assert forall|i: int| 0 <= i < out.len() implies !is_of(#[trigger] out[i], p) by {
            match match_of(mid, q) {
                Some(k) => {
                    assert(!is_of(mid[i], p));
                    attaching_fills_in(mid[k], q);
                },
                None => {
                    if i < mid.len() {
                        assert(!is_of(mid[i], p));
                    }
                },
            }
        }
    }
}

proof fn lemma_own_row_stays(rs: Seq<RunnerView>, ps: Seq<ProcessView>, p: ProcessView, j: int)
    requires
        0 <= j < rs.len(),
        own_row(rs[j], p),
        alone(p, ps),
    ensures
        j < absorbed_all(rs, ps).len(),
        absorbed_all(rs, ps)[j] == rs[j],
    decreases ps.len(),
{
    if ps.len() > 0 {
        let front = ps.drop_last();
        let q = ps.last();
        assert(alone(p, front)) by {
            assert forall|i: int| 0 <= i < front.len() implies unrelated(p, #[trigger] front[i])
                && unrelated(front[i], p) by {
                assert(front[i] == ps[i]);
            }
        }
        lemma_own_row_stays(rs, front, p, j);
        let mid = absorbed_all(rs, front);
        lemma_match(mid, q);
        assert(q == ps[ps.len() - 1]);
        assert(unrelated(p, q));
        assert(!is_of(mid[j], q));
    }
}

proof fn lemma_own_row(
    rs: Seq<RunnerView>,
    before: Seq<ProcessView>,
    p: ProcessView,
    after: Seq<ProcessView>,
) -> (j: int)
    requires
        forall|i: int| 0 <= i < rs.len() ==> !is_of(#[trigger] rs[i], p),
        alone(p, before),
        alone(p, after),
    ensures
        0 <= j < absorbed_all(rs, before.push(p) + after).len(),
        own_row(absorbed_all(rs, before.push(p) + after)[j], p),
{
    lemma_none_is_of(rs, before, p);
    let mid = absorbed_all(rs, before);
    let next = absorbed_all(rs, before.push(p));
    assert(before.push(p).drop_last() =~= before);
    assert(next == absorbed(mid, p));
    unknown_processes_get_their_own_row(mid, p);
    let j = mid.len() as int;
    lemma_absorbed_all_add(rs, before.push(p), after);
    lemma_own_row_stays(next, after, p, j);
    j
}

proof fn lemma_absorbed_all_add(rs: Seq<RunnerView>, a: Seq<ProcessView>, b: Seq<ProcessView>)
    ensures
        absorbed_all(rs, a + b) == absorbed_all(absorbed_all(rs, a), b),
    decreases b.len(),
{
    if b.len() == 0 {
        assert(a + b =~= a);
    } else {
        assert((a + b).drop_last() =~= a + b.drop_last());
        lemma_absorbed_all_add(rs, a, b.drop_last());
    }
}

/// A process that Amp does not list, and that no other process has to do with, has a row in a merged
/// list that shows what the process is and nothing else.
pub proof fn unlisted_processes_show_themselves(
    listed: Seq<RunnerView>,
    local: Seq<ProcessView>,
    spawned: Seq<ProcessView>,
    n: int,
)
    requires
        0 <= n < local.len() + spawned.len(),
        forall|i: int|
            0 <= i < listed.len() ==> !is_of(#[trigger] listed[i], (local + spawned)[n]),
        alone((local + spawned)[n], (local + spawned).take(n)),
        alone((local + spawned)[n], (local + spawned).skip(n + 1)),
    ensures
        exists|j: int|
            0 <= j < merged(listed, local, spawned).len() && own_row(
                #[trigger] merged(listed, local, spawned)[j],
                (local + spawned)[n],
            ),
{
    let ps = local + spawned;
    let p = ps[n];
    let all = absorbed_all(listed, ps);
    assert(ps =~= ps.take(n).push(p) + ps.skip(n + 1));
    let j = lemma_own_row(listed, ps.take(n), p, ps.skip(n + 1));
    lemma_absorbed_all_add(listed, local, spawned);
    assert(all.contains(all[j]));
    lemma_by_name_contains(all, all[j]);
    let m = choose|m: int| 0 <= m < by_name(all).len() && by_name(all)[m] == all[j];
    assert(own_row(merged(listed, local, spawned)[m], p));
}

/// Whether a directory is one of a process: one that it was started with, or its working directory.
pub open spec fn dir_of(p: ProcessView, dir: Seq<char>) -> bool {
    p.extra_dirs.contains(dir) || p.cwd == Some(dir)
}

/// Whether a directory comes from a list or from a process.
pub open spec fn known_dir(
    listed: Seq<RunnerView>,
    ps: Seq<ProcessView>,
    dir: Seq<char>,
) -> bool {
    ||| exists|i: int| 0 <= i < listed.len() && (#[trigger] listed[i]).dirs.contains(dir)
    ||| exists|i: int| 0 <= i < ps.len() && dir_of(#[trigger] ps[i], dir)
}

proof fn lemma_known_dirs(listed: Seq<RunnerView>, ps: Seq<ProcessView>, j: int, m: int)
    requires
        0 <= j < absorbed_all(listed, ps).len(),
        0 <= m < absorbed_all(listed, ps)[j].dirs.len(),
    ensures
        known_dir(listed, ps, absorbed_all(listed, ps)[j].dirs[m]),
    decreases ps.len(),
{
    let out = absorbed_all(listed, ps);
    let dir = out[j].dirs[m];
    if ps.len() == 0 {
        assert(listed[j].dirs.contains(dir));
    } else {
        let front = ps.drop_last();
        let mid = absorbed_all(listed, front);
        let p = ps.last();
        assert(ps[ps.len() - 1] == p);
        lemma_match(mid, p);
        if j < mid.len() && m < mid[j].dirs.len() {
            lemma_attached(mid[j], p);
            assert(mid[j].dirs[m] == dir);
            lemma_known_dirs(listed, front, j, m);
            if !(exists|i: int| 0 <= i < listed.len() && (#[trigger] listed[i]).dirs.contains(dir)) {
                let i = choose|i: int| 0 <= i < front.len() && dir_of(#[trigger] front[i], dir);
                assert(dir_of(ps[i], dir));
            }
        } else if j < mid.len() {
            attaching_fills_in(mid[j], p);
            assert(dir_of(ps[ps.len() - 1], dir));
        } else {
            unknown_processes_get_their_own_row(mid, p);
            assert(out[j] == absorbed(mid, p).last());
            if m < p.extra_dirs.len() {
                assert(p.extra_dirs[m] == dir);
            }
            assert(dir_of(ps[ps.len() - 1], dir));
        }
    }
}

/// A merge invents no directory: each one in it was listed or is one of a process.
pub proof fn merge_invents_no_directory(
    listed: Seq<RunnerView>,
    local: Seq<ProcessView>,
    spawned: Seq<ProcessView>,
    j: int,
    m: int,
)
    requires
        0 <= j < merged(listed, local, spawned).len(),
        0 <= m < merged(listed, local, spawned)[j].dirs.len(),
    ensures
        known_dir(listed, local + spawned, merged(listed, local, spawned)[j].dirs[m]),
{
    let all = absorbed_all(listed, local + spawned);
    lemma_absorbed_all_add(listed, local, spawned);
    let r = by_name(all)[j];
    assert(by_name(all).contains(r));
    lemma_by_name_contains(all, r);
    let k = choose|k: int| 0 <= k < all.len() && all[k] == r;
    lemma_known_dirs(listed, local + spawned, k, m);
}

// ---------------------------------------------------------------------------------------------
// What a scan reads

/// A process is a runner where its first argument is the path of a binary named `amp` and `--no-tui`
/// is among its arguments, and only then.
pub proof fn runners_are_amp_without_a_screen(args: Seq<Seq<char>>)
    ensures
        amp_process(args) is Some ==> args.len() > 0 && args.contains("--no-tui"@),
        amp_process(args) is Some ==> path::file_name_text(args[0]) == Some("amp"@)
            || path::file_name_text(args[0]) == Some("amp.exe"@),
        args.len() > 0 && args.contains("--no-tui"@) && path::file_name_text(args[0]) == Some(
            "amp"@,
        ) ==> amp_process(args) is Some,
        args.len() > 0 && args.contains("--no-tui"@) && path::file_name_text(args[0]) == Some(
            "amp.exe"@,
        ) ==> amp_process(args) is Some,
        amp_process(args) is Some ==> amp_process(args)->0.cwd is None,
{
}

proof fn lemma_value_behind(
    pre: Seq<Seq<char>>,
    arg: Seq<char>,
    rest: Seq<Seq<char>>,
    flag: Seq<char>,
    i: int,
)
    requires
        free_of(pre, flag),
        0 <= i <= pre.len(),
    ensures
        flag_value_from(pre.push(arg) + rest, flag, i) == flag_value_from(
            pre.push(arg) + rest,
            flag,
            pre.len() as int,
        ),
        flag_values_from(pre.push(arg) + rest, flag, i) == flag_values_from(
            pre.push(arg) + rest,
            flag,
            pre.len() as int,
        ),
    decreases pre.len() - i,
{
    let all = pre.push(arg) + rest;
    if i < pre.len() {
        assert(all[i] == pre[i]);
        assert(!reads_as(pre[i], flag));
        lemma_value_behind(pre, arg, rest, flag, i + 1);
    }
}

/// The value of a flag is the argument behind its first place, or what stands behind the equals sign
/// there; a flag that no argument reads as has none.
pub proof fn flags_give_their_first_value(
    pre: Seq<Seq<char>>,
    flag: Seq<char>,
    value: Seq<char>,
    rest: Seq<Seq<char>>,
)
    requires
        free_of(pre, flag),
        value.len() > 0,
    ensures
        flag_value_from(pre.push(flag) + (seq![value] + rest), flag, 0) == Some(value),
        flag_value_from(pre.push(flag.push('=') + value) + rest, flag, 0) == Some(value),
        flag_value_from(pre, flag, 0) is None,
        flag_values_from(pre, flag, 0).len() == 0,
{
    let n = pre.len() as int;
    let behind = pre.push(flag) + (seq![value] + rest);
    lemma_value_behind(pre, flag, seq![value] + rest, flag, 0);
    assert(behind[n] == flag && behind[n + 1] == value);
    let inside = flag.push('=') + value;
    let one = pre.push(inside) + rest;
    lemma_value_behind(pre, inside, rest, flag, 0);
    assert(one[n] == inside);
    assert(inside.len() > flag.len());
    text::prefixes_and_rests(flag.push('='), value, inside);
    lemma_no_value(pre, flag, 0);
}

proof fn lemma_no_value(pre: Seq<Seq<char>>, flag: Seq<char>, i: int)
    requires
        free_of(pre, flag),
        0 <= i <= pre.len(),
    ensures
        flag_value_from(pre, flag, i) is None,
        flag_values_from(pre, flag, i).len() == 0,
    decreases pre.len() - i,
{
    if i < pre.len() {
        assert(!reads_as(pre[i], flag));
        lemma_no_value(pre, flag, i + 1);
    }
}

proof fn lemma_zero_split(a: Seq<u8>, rest: Seq<u8>)
    requires
        forall|i: int| 0 <= i < a.len() ==> #[trigger] a[i] != 0,
    ensures
        zero_split(a.push(0) + rest) == seq![a] + zero_split(rest),
        zero_split(a) == seq![a],
        zero_split(rest).len() >= 1,
    decreases a.len() + rest.len(),
{
    let s = a.push(0) + rest;
    if a.len() == 0 {
        assert(a =~= Seq::empty());
    } else {
        let front = a.drop_last();
        assert forall|i: int| 0 <= i < front.len() implies #[trigger] front[i] != 0 by {
            assert(front[i] == a[i]);
        }
        lemma_zero_split(front, Seq::empty());
        assert(a[a.len() - 1] != 0);
        assert(seq![front].drop_last() =~= Seq::<Seq<u8>>::empty());
        assert(front.push(a.last()) =~= a);
        assert(Seq::<Seq<u8>>::empty().push(a) =~= seq![a]);
    }
    if rest.len() == 0 {
        assert(s =~= a.push(0));
        assert(s.drop_last() =~= a);
        assert(s.last() == 0);
        let none = Seq::<u8>::empty();
        assert(rest =~= none);
        assert(zero_split(a) == seq![a]);
        assert(zero_split(s) == seq![a].push(none));
        assert(seq![a].push(none) =~= seq![a] + seq![none]);
    } else {
        let front = rest.drop_last();
        lemma_zero_split(a, front);
        assert(s.drop_last() =~= a.push(0) + front);
        assert(s.last() == rest.last());
        let before = zero_split(front);
        let all = seq![a] + before;
        assert(all.last() == before.last());
        assert(all.drop_last() =~= seq![a] + before.drop_last());
        assert(zero_split(s) =~= seq![a] + zero_split(rest));
    }
}

proof fn lemma_piece_front(a: Seq<u8>, v: Seq<Seq<u8>>)
    ensures
        a.len() > 0 ==> piece_texts(seq![a] + v) == seq![text::utf8_lossy(a)] + piece_texts(v),
        a.len() == 0 ==> piece_texts(seq![a] + v) == piece_texts(v),
    decreases v.len(),
{
    let s = seq![a] + v;
    if v.len() == 0 {
        let none = Seq::<Seq<u8>>::empty();
        assert(s.drop_last() =~= none);
        assert(v =~= none);
        assert(piece_texts(none) =~= Seq::<Seq<char>>::empty());
        if a.len() > 0 {
            assert(piece_texts(s) =~= seq![text::utf8_lossy(a)] + piece_texts(v));
        }
    } else {
        assert(s.drop_last() =~= seq![a] + v.drop_last());
        assert(s.last() == v.last());
        lemma_piece_front(a, v.drop_last());
        if a.len() > 0 {
            assert(piece_texts(s) =~= seq![text::utf8_lossy(a)] + piece_texts(v));
        }
    }
}

/// The arguments of a process are what stands between the zero bytes of its command line, in their
/// order, without the empty ones.
pub proof fn arguments_end_at_zeros(a: Seq<u8>, rest: Seq<u8>)
    requires
        forall|i: int| 0 <= i < a.len() ==> #[trigger] a[i] != 0,
    ensures
        a.len() > 0 ==> cmdline_args(a.push(0) + rest) == seq![text::utf8_lossy(a)] + cmdline_args(
            rest,
        ),
        a.len() == 0 ==> cmdline_args(a.push(0) + rest) == cmdline_args(rest),
        a.len() > 0 ==> cmdline_args(a) == seq![text::utf8_lossy(a)],
{
    lemma_zero_split(a, rest);
    lemma_piece_front(a, zero_split(rest));
    let none = Seq::<Seq<u8>>::empty();
    lemma_piece_front(a, none);
    assert(seq![a] + none =~= seq![a]);
    assert(piece_texts(none) =~= Seq::<Seq<char>>::empty());
    if a.len() > 0 {
        assert(cmdline_args(a) =~= seq![text::utf8_lossy(a)]);
    }
}

/// An entry of the process table is a runner where its name is a number and its command line is that
/// of one: then it has that number as its process id, its own working directory, and the id and the
/// directories of its command line. The runners among the entries stay in their order.
pub proof fn entries_are_read(entries: Seq<ProcessEntry>, e: ProcessEntry)
    ensures
        ({
            let pid = text::u32_of(e.name@);
            let p = entry_process(e);
            &&& p is Some ==> pid is Some && e.cmdline is Some && amp_process(
                cmdline_args(e.cmdline->0@),
            ) is Some
            &&& pid is Some && e.cmdline is Some && amp_process(cmdline_args(e.cmdline->0@)) is Some
                ==> p is Some
            &&& p is Some ==> p->0.pid == pid->0 && p->0.cwd == text::opt_text(e.cwd)
                && p->0.runner_id == flag_value_from(
                cmdline_args(e.cmdline->0@),
                "--runner-id"@,
                0,
            ) && p->0.extra_dirs == flag_values_from(cmdline_args(e.cmdline->0@), "--dir"@, 0)
        }),
        entry_process(e) is Some ==> entry_processes(entries.push(e)) == entry_processes(
            entries,
        ).push(entry_process(e)->0),
        entry_process(e) is None ==> entry_processes(entries.push(e)) == entry_processes(entries),
        entry_processes(Seq::empty()).len() == 0,
{
    assert(entries.push(e).drop_last() =~= entries);
}

/// A line of a process list is a runner where its first word is a number and the words behind it are
/// the arguments of one: it has that number as its process id, and the id and the directories of the
/// arguments.
pub proof fn process_lines_are_read(pid: u32, command: Seq<char>, lines: Seq<Seq<char>>)
    requires
        command.len() > 0,
        !text::is_space(command.last()),
    ensures
        ({
            let line = text::decimal(pid as nat).push(' ') + command;
            let p = amp_process(text::words(command));
            &&& p is None ==> ps_process(line) is None
            &&& p is Some ==> ps_process(line) == Some(ProcessView { pid, ..p->0 })
            &&& p is Some ==> ps_processes(lines.push(line)) == ps_processes(lines).push(
                ps_process(line)->0,
            )
            &&& p is None ==> ps_processes(lines.push(line)) == ps_processes(lines)
        }),
        ps_processes(Seq::empty()).len() == 0,
{
    let n = text::decimal(pid as nat);
    let line = n.push(' ') + command;
    text::decimal_reads_back(pid as nat);
    text::numbers_read_back(pid, n);
    assert forall|i: int| 0 <= i < n.len() implies !text::is_space(#[trigger] n[i]) by {
        assert(text::is_digit(n[i]));
    }
    let none = Seq::<char>::empty();
    assert(line[0] == n[0]);
    assert(line.last() == command.last());
    text::trimming_ignores_spaces_around(none, line, none);
    assert(none + line + none =~= line);
    text::lemma_split_front(n, ' ', command, Class::Space);
    text::lemma_split_nonempty(command, Class::Space);
    let pieces = text::split_by(line, Class::Space);
    assert(pieces[0] == n);
    assert(pieces.skip(1) =~= text::split_by(command, Class::Space));
    assert(lines.push(line).drop_last() =~= lines);
}

proof fn lemma_values_shift(pre: Seq<Seq<char>>, rest: Seq<Seq<char>>, flag: Seq<char>, i: int)
    requires
        0 <= i <= rest.len() + 1,
    ensures
        flag_values_from(pre + rest, flag, pre.len() + i) == flag_values_from(rest, flag, i),
    decreases rest.len() + 1 - i,
{
    let all = pre + rest;
    if i < rest.len() {
        assert(all[pre.len() + i] == rest[i]);
        if i + 1 < rest.len() {
            assert(all[pre.len() + i + 1] == rest[i + 1]);
        }
        lemma_values_shift(pre, rest, flag, i + 1);
        if i + 2 <= rest.len() + 1 {
            lemma_values_shift(pre, rest, flag, i + 2);
        }
    }
}

/// The values of a flag are those behind each of its places, or behind the equals signs there, in their
/// order.
pub proof fn flags_give_all_their_values(
    pre: Seq<Seq<char>>,
    flag: Seq<char>,
    value: Seq<char>,
    rest: Seq<Seq<char>>,
)
    requires
        free_of(pre, flag),
    ensures
        flag_values_from(pre.push(flag).push(value) + rest, flag, 0) == seq![value]
            + flag_values_from(rest, flag, 0),
        flag_values_from(pre.push(flag.push('=') + value) + rest, flag, 0) == seq![value]
            + flag_values_from(rest, flag, 0),
{
    let n = pre.len() as int;
    let two = pre.push(flag).push(value);
    let apart = two + rest;
    assert(apart =~= pre.push(flag) + (seq![value] + rest));
    lemma_value_behind(pre, flag, seq![value] + rest, flag, 0);
    assert(apart[n] == flag && apart[n + 1] == value);
    lemma_values_shift(two, rest, flag, 0);
    let inside = flag.push('=') + value;
    let one = pre.push(inside);
    lemma_value_behind(pre, inside, rest, flag, 0);
    assert((one + rest)[n] == inside);
    assert(inside.len() > flag.len());
    text::prefixes_and_rests(flag.push('='), value, inside);
    lemma_values_shift(one, rest, flag, 0);
}

} // verus!
