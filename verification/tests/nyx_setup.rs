use fuzzamoto::nyx::{
    compile_packer_binaries, copy_packer_binaries, create_nyx_script, generate_nyx_config,
    join_path, NyxScriptConfig, Sanitizer,
};

#[test]
fn path_joining() {
    assert_eq!(join_path("a", "b"), "a/b");
    assert_eq!(join_path("a/", "b"), "a/b");
    assert_eq!(join_path("", "b"), "b");
    assert_eq!(join_path("a", "/b"), "/b");
    assert_eq!(join_path("/nyx", "packer/packer/"), "/nyx/packer/packer/");
}

#[test]
fn packer_commands() {
    let c = compile_packer_binaries("/nyx");
    assert_eq!(c.program, "bash");
    assert_eq!(c.args, vec!["compile_64.sh".to_string()]);
    assert_eq!(c.working_dir, "/nyx/packer/packer/linux_x86_64-userspace");
    let c = copy_packer_binaries("/nyx/", "/share");
    assert_eq!(c.source, "/nyx/packer/packer/linux_x86_64-userspace/bin64");
    assert_eq!(c.destination, "/share");
    let c = generate_nyx_config("nyx", "/share");
    assert_eq!(c.program, "python3");
    assert_eq!(
        c.args,
        vec!["nyx_config_gen.py", "/share", "Kernel", "-m", "4096"]
            .into_iter()
            .map(String::from)
            .collect::<Vec<_>>()
    );
    assert_eq!(c.working_dir, "nyx/packer/packer/");
}

#[test]
fn default_sanitizer_is_asan() {
    assert_eq!(Sanitizer::default(), Sanitizer::Asan);
}

/// The script as the shell-script generator of the command line tool writes it.
fn expected_script(
    all_deps: &[String],
    binary_names: &[String],
    crash_handler_name: &str,
    scenario_name: &str,
    secondary_bitcoind: Option<&str>,
    rpc_path: Option<&str>,
    seedprogram: Option<&str>,
    nyx_log: bool,
) -> String {
    let mut script = vec![
        "chmod +x hget".to_string(),
        "cp hget /tmp".to_string(),
        "cd /tmp".to_string(),
        "echo 0 > /proc/sys/kernel/randomize_va_space".to_string(),
        "echo 0 > /proc/sys/kernel/printk".to_string(),
        "./hget hcat_no_pt hcat".to_string(),
        "./hget habort_no_pt habort".to_string(),
    ];
    for dep in all_deps {
        script.push(format!("./hget {dep} {dep}"));
    }
    if let Some(rpc_path) = rpc_path {
        script.push(format!("./hget {rpc_path} {rpc_path}"));
    }
    if let Some(seed) = seedprogram {
        script.push(format!("./hget {seed} {seed}"));
    }
    for exe in &["habort", "hcat", "ld-linux-x86-64.so.2", crash_handler_name] {
        script.push(format!("chmod +x {exe}"));
    }
    for binary_name in binary_names {
        script.push(format!("chmod +x {binary_name}"));
    }
    script.push("export __AFL_DEFER_FORKSRV=1".to_string());
    script.push("ip addr add 127.0.0.1/8 dev lo".to_string());
    script.push("ip link set lo up".to_string());
    script.push("ip a | ./hcat".to_string());
    let asan_options = [
        "detect_leaks=1",
        "detect_stack_use_after_return=1",
        "check_initialization_order=1",
        "strict_init_order=1",
        "log_path=/tmp/asan.log",
        "abort_on_error=1",
        "handle_abort=1",
    ]
    .join(":");
    let primary_log = if nyx_log { " > /tmp/primary.log 2>&1" } else { "" };
    let secondary_log = if nyx_log { " > /tmp/secondary.log 2>&1" } else { "" };
    let asan_options = format!("ASAN_OPTIONS={asan_options}");
    let crash_handler_preload = format!("LD_PRELOAD=./{crash_handler_name}");
    let proxy_script = format!(
        "{asan_options} LD_LIBRARY_PATH=/tmp LD_BIND_NOW=1 {crash_handler_preload} ./bitcoind \\$@{primary_log}",
    );
    script.push("echo \"#!/bin/sh\" > ./bitcoind_proxy".to_string());
    script.push(format!("echo \"{proxy_script}\" >> ./bitcoind_proxy"));
    script.push("chmod +x ./bitcoind_proxy".to_string());
    let secondary_arg = if let Some(secondary_bitcoind) = secondary_bitcoind {
        let secondary_proxy_script = format!(
            "{asan_options} LD_LIBRARY_PATH=/tmp LD_BIND_NOW=1 {crash_handler_preload} ./{secondary_bitcoind} \\$@{secondary_log}",
        );
        script.push("echo \"#!/bin/sh\" > ./bitcoind2_proxy".to_string());
        script.push(format!("echo \"{secondary_proxy_script}\" >> ./bitcoind2_proxy"));
        script.push("chmod +x ./bitcoind2_proxy".to_string());
        "./bitcoind2_proxy"
    } else {
        ""
    };
    let seedprogram_arg = seedprogram
        .map(|s| format!("--seedprogram /tmp/{s}"))
        .unwrap_or_default();
    script.push(format!(
        "RUST_LOG=debug LD_LIBRARY_PATH=/tmp LD_BIND_NOW=1 ./{} ./bitcoind_proxy {} {} {} > log.txt 2>&1",
        scenario_name,
        rpc_path.unwrap_or(""),
        secondary_arg,
        seedprogram_arg,
    ));
    script.push("cat log.txt | ./hcat".to_string());
    script.push(
        "./habort \"target has terminated without initializing the fuzzing agent ...\"".to_string(),
    );
    script.join("\n")
}

#[test]
fn minimal_script() {
    let deps = vec!["bitcoind".to_string(), "libc.so.6".to_string()];
    let bins = vec!["bitcoind".to_string(), "scenario".to_string()];
    let config = NyxScriptConfig { secondary_bitcoind: None, rpc_path: None, seedprogram: None };
    let file = create_nyx_script("/share", &deps, &bins, "crash.so", "scenario", config, false);
    assert_eq!(file.path, "/share/fuzz_no_pt.sh");
    assert_eq!(
        file.content,
        expected_script(&deps, &bins, "crash.so", "scenario", None, None, None, false)
    );
    assert!(file.content.starts_with("chmod +x hget\ncp hget /tmp\ncd /tmp\n"));
    assert!(file.content.contains(
        "RUST_LOG=debug LD_LIBRARY_PATH=/tmp LD_BIND_NOW=1 ./scenario ./bitcoind_proxy    > log.txt 2>&1"
    ));
    assert!(!file.content.ends_with('\n'));
}

#[test]
fn full_script() {
    let deps = vec!["a".to_string(), "b".to_string(), "c".to_string()];
    let bins = vec!["bitcoind".to_string(), "bitcoind2".to_string()];
    let config = NyxScriptConfig {
        secondary_bitcoind: Some("bitcoind2"),
        rpc_path: Some("rpc.txt"),
        seedprogram: Some("seed.bin"),
    };
    for nyx_log in [false, true] {
        let file = create_nyx_script("share/", &deps, &bins, "ch.so", "scen", config, nyx_log);
        assert_eq!(file.path, "share/fuzz_no_pt.sh");
        assert_eq!(
            file.content,
            expected_script(
                &deps,
                &bins,
                "ch.so",
                "scen",
                Some("bitcoind2"),
                Some("rpc.txt"),
                Some("seed.bin"),
                nyx_log
            )
        );
    }
    let file = create_nyx_script("share", &deps, &bins, "ch.so", "scen", config, true);
    assert!(file.content.contains("./bitcoind \\$@ > /tmp/primary.log 2>&1\" >> ./bitcoind_proxy"));
    assert!(file.content.contains(
        "./scen ./bitcoind_proxy rpc.txt ./bitcoind2_proxy --seedprogram /tmp/seed.bin > log.txt 2>&1"
    ));
}
