//! What the command line tool prepares for a Nyx share directory: the commands
//! it runs, the directories it copies and the start-up script of the VM.
use vstd::prelude::*;

use crate::text::push_char;

verus! {

/// The view of every string in a sequence.
pub open spec fn views(v: Seq<String>) -> Seq<Seq<char>> {
    v.map_values(|s: String| s@)
}

/// The view of an optional string slice.
pub open spec fn opt_view(o: Option<&str>) -> Option<Seq<char>> {
    match o {
        Some(s) => Some(s@),
        None => None,
    }
}

/// Joining a relative or absolute path onto a base, as a Unix `PathBuf::push`
/// does: an absolute path replaces the base; otherwise a separator is put
/// between them unless the base is empty or already ends in one.
pub open spec fn path_join(base: Seq<char>, rel: Seq<char>) -> Seq<char> {
    if rel.len() > 0 && rel[0] == '/' {
        rel
    } else if base.len() > 0 && base.last() != '/' {
        base + seq!['/'] + rel
    } else {
        base + rel
    }
}

/// Joins `rel` onto `base` (see [`path_join`]).
pub fn join_path(base: &str, rel: &str) -> (r: String)
    ensures
        r@ == path_join(base@, rel@),
{
    let rel_len = rel.unicode_len();
    if rel_len > 0 && rel.get_char(0) == '/' {
        return String::from_str(rel);
    }
    let base_len = base.unicode_len();
    let mut r = String::from_str(base);
    if base_len > 0 && base.get_char(base_len - 1) != '/' {
        push_char(&mut r, '/');
    }
    r.append(rel);
    r
}

/// A command to run: the program, its arguments and its working directory.
pub struct CommandSpec {
    pub program: String,
    pub args: Vec<String>,
    pub working_dir: String,
}

/// A directory whose contents are copied into another.
pub struct DirCopy {
    pub source: String,
    pub destination: String,
}

pub open spec fn packer_dir(nyx_path: Seq<char>) -> Seq<char> {
    path_join(nyx_path, "packer/packer/"@)
}

pub open spec fn userspace_dir(nyx_path: Seq<char>) -> Seq<char> {
    path_join(packer_dir(nyx_path), "linux_x86_64-userspace"@)
}

/// The command that compiles the Nyx packer binaries: `bash compile_64.sh`
/// in the packer's userspace directory.
pub fn compile_packer_binaries(nyx_path: &str) -> (r: CommandSpec)
    ensures
        r.program@ == "bash"@,
        views(r.args@) == seq!["compile_64.sh"@],
        r.working_dir@ == userspace_dir(nyx_path@),
{
    let packer_path = join_path(nyx_path, "packer/packer/");
    let userspace_path = join_path(packer_path.as_str(), "linux_x86_64-userspace");
    let mut args: Vec<String> = Vec::new();
    args.push(String::from_str("compile_64.sh"));
    assert(views(args@) =~= seq!["compile_64.sh"@]);
    CommandSpec { program: String::from_str("bash"), args, working_dir: userspace_path }
}

/// The copy of the compiled packer binaries (`bin64` in the packer's
/// userspace directory) into `dst_dir`.
pub fn copy_packer_binaries(nyx_path: &str, dst_dir: &str) -> (r: DirCopy)
    ensures
        r.source@ == path_join(userspace_dir(nyx_path@), "bin64"@),
        r.destination@ == dst_dir@,
{
    let packer_path = join_path(nyx_path, "packer/packer/");
    let userspace_path = join_path(packer_path.as_str(), "linux_x86_64-userspace");
    let binaries_path = join_path(userspace_path.as_str(), "bin64");
    DirCopy { source: binaries_path, destination: String::from_str(dst_dir) }
}

/// The command that generates the Nyx configuration of `sharedir`:
/// `python3 nyx_config_gen.py <sharedir> Kernel -m 4096` in the packer directory.
pub fn generate_nyx_config(nyx_path: &str, sharedir: &str) -> (r: CommandSpec)
    ensures
        r.program@ == "python3"@,
        views(r.args@) == seq!["nyx_config_gen.py"@, sharedir@, "Kernel"@, "-m"@, "4096"@],
        r.working_dir@ == packer_dir(nyx_path@),
{
    let packer_path = join_path(nyx_path, "packer/packer/");
    let mut args: Vec<String> = Vec::new();
    args.push(String::from_str("nyx_config_gen.py"));
    args.push(String::from_str(sharedir));
    args.push(String::from_str("Kernel"));
    args.push(String::from_str("-m"));
    args.push(String::from_str("4096"));
    assert(views(args@) =~= seq!["nyx_config_gen.py"@, sharedir@, "Kernel"@, "-m"@, "4096"@]);
    CommandSpec { program: String::from_str("python3"), args, working_dir: packer_path }
}

/// Optional parts of the start-up script.
#[derive(Copy, Clone)]
pub struct NyxScriptConfig<'a> {
    pub secondary_bitcoind: Option<&'a str>,
    pub rpc_path: Option<&'a str>,
    pub seedprogram: Option<&'a str>,
}

/// The start-up script and where it goes.
pub struct ScriptFile {
    pub path: String,
    pub content: String,
}

pub open spec fn hget_line(name: Seq<char>) -> Seq<char> {
    "./hget "@ + name + " "@ + name
}

pub open spec fn chmod_line(name: Seq<char>) -> Seq<char> {
    "chmod +x "@ + name
}

pub open spec fn optional_hget(name: Option<Seq<char>>) -> Seq<Seq<char>> {
    match name {
        Some(n) => seq![hget_line(n)],
        None => Seq::empty(),
    }
}

pub open spec fn asan_env() -> Seq<char> {
    "ASAN_OPTIONS=detect_leaks=1:detect_stack_use_after_return=1:check_initialization_order=1:strict_init_order=1:log_path=/tmp/asan.log:abort_on_error=1:handle_abort=1"@
}

/// The line that starts `binary` with the sanitizer options and the crash
/// handler preloaded, passing on the arguments and appending `log`.
pub open spec fn launch_line(crash_handler: Seq<char>, binary: Seq<char>, log: Seq<char>) -> Seq<char> {
    asan_env() + " LD_LIBRARY_PATH=/tmp LD_BIND_NOW=1 "@ + "LD_PRELOAD=./"@ + crash_handler + " ./"@
        + binary + " \\$@"@ + log
}

pub open spec fn primary_log(nyx_log: bool) -> Seq<char> {
    if nyx_log {
        " > /tmp/primary.log 2>&1"@
    } else {
        ""@
    }
}

pub open spec fn secondary_log(nyx_log: bool) -> Seq<char> {
    if nyx_log {
        " > /tmp/secondary.log 2>&1"@
    } else {
        ""@
    }
}

pub open spec fn secondary_proxy_lines(
    secondary: Option<Seq<char>>,
    crash_handler: Seq<char>,
    nyx_log: bool,
) -> Seq<Seq<char>> {
    match secondary {
        Some(b) => seq![
            "echo \"#!/bin/sh\" > ./bitcoind2_proxy"@,
            "echo \""@ + launch_line(crash_handler, b, secondary_log(nyx_log)) + "\" >> ./bitcoind2_proxy"@,
            "chmod +x ./bitcoind2_proxy"@,
        ],
        None => Seq::empty(),
    }
}

pub open spec fn run_line(
    scenario: Seq<char>,
    rpc: Option<Seq<char>>,
    secondary: Option<Seq<char>>,
    seed: Option<Seq<char>>,
) -> Seq<char> {
    let rpc_arg = match rpc {
        Some(r) => r,
        None => ""@,
    };
    let secondary_arg = match secondary {
        Some(_) => "./bitcoind2_proxy"@,
        None => ""@,
    };
    let seed_arg = match seed {
        Some(s) => "--seedprogram /tmp/"@ + s,
        None => ""@,
    };
    "RUST_LOG=debug LD_LIBRARY_PATH=/tmp LD_BIND_NOW=1 ./"@ + scenario + " ./bitcoind_proxy "@ + rpc_arg
        + " "@ + secondary_arg + " "@ + seed_arg + " > log.txt 2>&1"@
}

pub open spec fn prologue_lines() -> Seq<Seq<char>> {
    seq![
        "chmod +x hget"@,
        "cp hget /tmp"@,
        "cd /tmp"@,
        "echo 0 > /proc/sys/kernel/randomize_va_space"@,
        "echo 0 > /proc/sys/kernel/printk"@,
        "./hget hcat_no_pt hcat"@,
        "./hget habort_no_pt habort"@,
    ]
}

pub open spec fn executable_lines(crash_handler: Seq<char>, binary_names: Seq<Seq<char>>) -> Seq<
    Seq<char>,
> {
    seq![
        chmod_line("habort"@),
        chmod_line("hcat"@),
        chmod_line("ld-linux-x86-64.so.2"@),
        chmod_line(crash_handler),
    ] + binary_names.map_values(|b: Seq<char>| chmod_line(b))
}

pub open spec fn proxy_lines(crash_handler: Seq<char>, nyx_log: bool) -> Seq<Seq<char>> {
    seq![
        "export __AFL_DEFER_FORKSRV=1"@,
        "ip addr add 127.0.0.1/8 dev lo"@,
        "ip link set lo up"@,
        "ip a | ./hcat"@,
        "echo \"#!/bin/sh\" > ./bitcoind_proxy"@,
        "echo \""@ + launch_line(crash_handler, "bitcoind"@, primary_log(nyx_log)) + "\" >> ./bitcoind_proxy"@,
        "chmod +x ./bitcoind_proxy"@,
    ]
}

pub open spec fn epilogue_lines(
    scenario: Seq<char>,
    rpc: Option<Seq<char>>,
    secondary: Option<Seq<char>>,
    seed: Option<Seq<char>>,
) -> Seq<Seq<char>> {
    seq![
        run_line(scenario, rpc, secondary, seed),
        "cat log.txt | ./hcat"@,
        "./habort \"target has terminated without initializing the fuzzing agent ...\""@,
    ]
}

/// The lines of the start-up script, in order.
pub open spec fn script_lines(
    all_deps: Seq<Seq<char>>,
    binary_names: Seq<Seq<char>>,
    crash_handler: Seq<char>,
    scenario: Seq<char>,
    secondary: Option<Seq<char>>,
    rpc: Option<Seq<char>>,
    seed: Option<Seq<char>>,
    nyx_log: bool,
) -> Seq<Seq<char>> {
    prologue_lines() + all_deps.map_values(|d: Seq<char>| hget_line(d)) + optional_hget(rpc)
        + optional_hget(seed) + executable_lines(crash_handler, binary_names) + proxy_lines(
        crash_handler,
        nyx_log,
    ) + secondary_proxy_lines(secondary, crash_handler, nyx_log) + epilogue_lines(
        scenario,
        rpc,
        secondary,
        seed,
    )
}

/// Lines joined with a newline between consecutive ones.
pub open spec fn join_lines(lines: Seq<Seq<char>>) -> Seq<char>
    decreases lines.len(),
{
    if lines.len() == 0 {
        Seq::empty()
    } else if lines.len() == 1 {
        lines[0]
    } else {
        join_lines(lines.drop_last()) + seq!['\n'] + lines.last()
    }
}

fn push_line(lines: &mut Vec<String>, line: String)
    ensures
        views(final(lines)@) == views(old(lines)@).push(line@),
{
    let ghost before = lines@;
    lines.push(line);
    assert(views(lines@) =~= views(before).push(line@));
}

fn line_of(text: &str) -> (r: String)
    ensures
        r@ == text@,
{
    String::from_str(text)
}

fn hget(name: &str) -> (r: String)
    ensures
        r@ == hget_line(name@),
{
    let mut s = String::from_str("./hget ");
    s.append(name);
    s.append(" ");
    s.append(name);
    s
}

fn chmod(name: &str) -> (r: String)
    ensures
        r@ == chmod_line(name@),
{
    let mut s = String::from_str("chmod +x ");
    s.append(name);
    s
}

fn launch(crash_handler: &str, binary: &str, log: &str) -> (r: String)
    ensures
        r@ == launch_line(crash_handler@, binary@, log@),
{
    let mut s = String::from_str(
        "ASAN_OPTIONS=detect_leaks=1:detect_stack_use_after_return=1:check_initialization_order=1:strict_init_order=1:log_path=/tmp/asan.log:abort_on_error=1:handle_abort=1",
    );
    s.append(" LD_LIBRARY_PATH=/tmp LD_BIND_NOW=1 ");
    s.append("LD_PRELOAD=./");
    s.append(crash_handler);
    s.append(" ./");
    s.append(binary);
    s.append(" \\$@");
    s.append(log);
    s
}

fn echo_into(body: String, target_suffix: &str) -> (r: String)
    ensures
        r@ == "echo \""@ + body@ + target_suffix@,
{
    let mut s = String::from_str("echo \"");
    s.append(body.as_str());
    s.append(target_suffix);
    s
}

/// Joins lines with newlines.
pub fn join_with_newlines(lines: &Vec<String>) -> (r: String)
    ensures
        r@ == join_lines(views(lines@)),
{
    let mut r = String::new();
    let mut i: usize = 0;
    while i < lines.len()
        invariant
            i <= lines@.len(),
            r@ == join_lines(views(lines@.take(i as int))),
        decreases lines@.len() - i,
    {
        assert(views(lines@.take(i + 1)).drop_last() =~= views(lines@.take(i as int)));
        if i > 0 {
            push_char(&mut r, '\n');
        } else {
            assert(views(lines@.take(0)) =~= Seq::<Seq<char>>::empty());
        }
        r.append(lines[i].as_str());
        i = i + 1;
    }
    assert(lines@.take(lines@.len() as int) =~= lines@);
    r
}

fn push_prologue(script: &mut Vec<String>)
    ensures
        views(final(script)@) == views(old(script)@) + prologue_lines(),
{
    let ghost before = views(script@);
    push_line(script, line_of("chmod +x hget"));
    push_line(script, line_of("cp hget /tmp"));
    push_line(script, line_of("cd /tmp"));
    push_line(script, line_of("echo 0 > /proc/sys/kernel/randomize_va_space"));
    push_line(script, line_of("echo 0 > /proc/sys/kernel/printk"));
    push_line(script, line_of("./hget hcat_no_pt hcat"));
    push_line(script, line_of("./hget habort_no_pt habort"));
    assert(views(script@) =~= before + prologue_lines());
}

fn push_dependencies(script: &mut Vec<String>, all_deps: &[String])
    ensures
        views(final(script)@) == views(old(script)@) + views(all_deps@).map_values(
            |d: Seq<char>| hget_line(d),
        ),
{
    let ghost head = views(script@);
    let mut i: usize = 0;
    while i < all_deps.len()
        invariant
            i <= all_deps@.len(),
            views(script@) == head + views(all_deps@).take(i as int).map_values(
                |d: Seq<char>| hget_line(d),
            ),
        decreases all_deps@.len() - i,
    {
        push_line(script, hget(all_deps[i].as_str()));
        assert(views(all_deps@).take(i + 1).map_values(|d: Seq<char>| hget_line(d)) =~= views(
            all_deps@,
        ).take(i as int).map_values(|d: Seq<char>| hget_line(d)).push(hget_line(all_deps@[i as int]@)));
        i = i + 1;
    }
    assert(views(all_deps@).take(all_deps@.len() as int) =~= views(all_deps@));
}

fn push_optional_hget(script: &mut Vec<String>, name: Option<&str>)
    ensures
        views(final(script)@) == views(old(script)@) + optional_hget(opt_view(name)),
{
    let ghost before = views(script@);
    if let Some(n) = name {
        push_line(script, hget(n));
    }
    assert(views(script@) =~= before + optional_hget(opt_view(name)));
}

fn push_executables(script: &mut Vec<String>, crash_handler_name: &str, binary_names: &[String])
    ensures
        views(final(script)@) == views(old(script)@) + executable_lines(
            crash_handler_name@,
            views(binary_names@),
        ),
{
    let ghost before = views(script@);
    push_line(script, chmod("habort"));
    push_line(script, chmod("hcat"));
    push_line(script, chmod("ld-linux-x86-64.so.2"));
    push_line(script, chmod(crash_handler_name));
    let ghost with_exes = views(script@);
    let mut j: usize = 0;
    while j < binary_names.len()
        invariant
            j <= binary_names@.len(),
            views(script@) == with_exes + views(binary_names@).take(j as int).map_values(
                |b: Seq<char>| chmod_line(b),
            ),
        decreases binary_names@.len() - j,
    {
        push_line(script, chmod(binary_names[j].as_str()));
        assert(views(binary_names@).take(j + 1).map_values(|b: Seq<char>| chmod_line(b)) =~= views(
            binary_names@,
        ).take(j as int).map_values(|b: Seq<char>| chmod_line(b)).push(
            chmod_line(binary_names@[j as int]@),
        ));
        j = j + 1;
    }
    assert(views(binary_names@).take(binary_names@.len() as int) =~= views(binary_names@));
    assert(views(script@) =~= before + executable_lines(crash_handler_name@, views(binary_names@)));
}

fn push_proxy(script: &mut Vec<String>, crash_handler_name: &str, nyx_log: bool)
    ensures
        views(final(script)@) == views(old(script)@) + proxy_lines(crash_handler_name@, nyx_log),
{
    let ghost before = views(script@);
    push_line(script, line_of("export __AFL_DEFER_FORKSRV=1"));
    push_line(script, line_of("ip addr add 127.0.0.1/8 dev lo"));
    push_line(script, line_of("ip link set lo up"));
    push_line(script, line_of("ip a | ./hcat"));
    let primary = if nyx_log {
        " > /tmp/primary.log 2>&1"
    } else {
        ""
    };
    push_line(script, line_of("echo \"#!/bin/sh\" > ./bitcoind_proxy"));
    push_line(
        script,
        echo_into(launch(crash_handler_name, "bitcoind", primary), "\" >> ./bitcoind_proxy"),
    );
    push_line(script, line_of("chmod +x ./bitcoind_proxy"));
    assert(views(script@) =~= before + proxy_lines(crash_handler_name@, nyx_log));
}

fn push_secondary_proxy(
    script: &mut Vec<String>,
    crash_handler_name: &str,
    secondary: Option<&str>,
    nyx_log: bool,
)
    ensures
        views(final(script)@) == views(old(script)@) + secondary_proxy_lines(
            opt_view(secondary),
            crash_handler_name@,
            nyx_log,
        ),
{
    let ghost before = views(script@);
    if let Some(secondary_bitcoind) = secondary {
        let secondary_log_text = if nyx_log {
            " > /tmp/secondary.log 2>&1"
        } else {
            ""
        };
        push_line(script, line_of("echo \"#!/bin/sh\" > ./bitcoind2_proxy"));
        push_line(
            script,
            echo_into(
                launch(crash_handler_name, secondary_bitcoind, secondary_log_text),
                "\" >> ./bitcoind2_proxy",
            ),
        );
        push_line(script, line_of("chmod +x ./bitcoind2_proxy"));
    }
    assert(views(script@) =~= before + secondary_proxy_lines(
        opt_view(secondary),
        crash_handler_name@,
        nyx_log,
    ));
}

fn run_command(scenario_name: &str, config: NyxScriptConfig<'_>) -> (r: String)
    ensures
        r@ == run_line(
            scenario_name@,
            opt_view(config.rpc_path),
            opt_view(config.secondary_bitcoind),
            opt_view(config.seedprogram),
        ),
{
    let secondary_arg = if config.secondary_bitcoind.is_some() {
        "./bitcoind2_proxy"
    } else {
        ""
    };
    let mut run = String::from_str("RUST_LOG=debug LD_LIBRARY_PATH=/tmp LD_BIND_NOW=1 ./");
    run.append(scenario_name);
    run.append(" ./bitcoind_proxy ");
    match config.rpc_path {
        Some(r) => run.append(r),
        None => run.append(""),
    }
    run.append(" ");
    run.append(secondary_arg);
    run.append(" ");
    match config.seedprogram {
        Some(s) => {
            run.append("--seedprogram /tmp/");
            run.append(s);
        },
        None => run.append(""),
    }
    run.append(" > log.txt 2>&1");
    assert(run@ =~= run_line(
        scenario_name@,
        opt_view(config.rpc_path),
        opt_view(config.secondary_bitcoind),
        opt_view(config.seedprogram),
    ));
    run
}

fn push_epilogue(script: &mut Vec<String>, scenario_name: &str, config: NyxScriptConfig<'_>)
    ensures
        views(final(script)@) == views(old(script)@) + epilogue_lines(
            scenario_name@,
            opt_view(config.rpc_path),
            opt_view(config.secondary_bitcoind),
            opt_view(config.seedprogram),
        ),
{
    let ghost before = views(script@);
    push_line(script, run_command(scenario_name, config));
    push_line(script, line_of("cat log.txt | ./hcat"));
    push_line(
        script,
        line_of("./habort \"target has terminated without initializing the fuzzing agent ...\""),
    );
    assert(views(script@) =~= before + epilogue_lines(
        scenario_name@,
        opt_view(config.rpc_path),
        opt_view(config.secondary_bitcoind),
        opt_view(config.seedprogram),
    ));
}

/// The Nyx start-up script `fuzz_no_pt.sh` for the share directory `sharedir`.
///
/// It fetches the dependencies into the VM, makes the binaries executable,
/// sets up the loopback interface, writes proxy scripts that start the nodes
/// under the sanitizer options with the crash handler preloaded, and runs the
/// scenario. With `nyx_log` the nodes' output goes to log files in `/tmp`.
pub fn create_nyx_script(
    sharedir: &str,
    all_deps: &[String],
    binary_names: &[String],
    crash_handler_name: &str,
    scenario_name: &str,
    config: NyxScriptConfig<'_>,
    nyx_log: bool,
) -> (r: ScriptFile)
    ensures
        r.path@ == path_join(sharedir@, "fuzz_no_pt.sh"@),
        r.content@ == join_lines(
            script_lines(
                views(all_deps@),
                views(binary_names@),
                crash_handler_name@,
                scenario_name@,
                opt_view(config.secondary_bitcoind),
                opt_view(config.rpc_path),
                opt_view(config.seedprogram),
                nyx_log,
            ),
        ),
{
    let mut script: Vec<String> = Vec::new();
    assert(views(script@) =~= Seq::<Seq<char>>::empty());
    push_prologue(&mut script);
    push_dependencies(&mut script, all_deps);
    push_optional_hget(&mut script, config.rpc_path);
    push_optional_hget(&mut script, config.seedprogram);
    push_executables(&mut script, crash_handler_name, binary_names);
    push_proxy(&mut script, crash_handler_name, nyx_log);
    push_secondary_proxy(&mut script, crash_handler_name, config.secondary_bitcoind, nyx_log);
    push_epilogue(&mut script, scenario_name, config);
    assert(views(script@) =~= script_lines(
        views(all_deps@),
        views(binary_names@),
        crash_handler_name@,
        scenario_name@,
        opt_view(config.secondary_bitcoind),
        opt_view(config.rpc_path),
        opt_view(config.seedprogram),
        nyx_log,
    ));
    let content = join_with_newlines(&script);
    ScriptFile { path: join_path(sharedir, "fuzz_no_pt.sh"), content }
}

} // verus!

verus! {

/// The sanitizer the fuzzed node is built with.
#[derive(Debug, Clone, Copy, PartialEq, Eq)]
pub enum Sanitizer {
    Asan,
    Tsan,
    Ubsan,
    Msan,
}

impl Default for Sanitizer {
    fn default() -> (r: Self)
        ensures
            r == Sanitizer::Asan,
    {
        Sanitizer::Asan
    }
}

/// The `init` command: prepares a Nyx share directory.
pub struct InitCommand;

} // verus!
