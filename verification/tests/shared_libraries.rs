use fuzzamoto::deps::{lddtree_dependencies, share_file_names, sorted_unique, Dependency};

#[test]
fn lddtree_lines() {
    let out = b"bitcoind (interpreter => /lib64/ld-linux-x86-64.so.2)\n    libc.so.6 => /lib/x86_64-linux-gnu/libc.so.6\n    weird => a => b\n    nolink\n  libm.so.6=>/lib/libm.so.6  \n";
    let deps = lddtree_dependencies(out);
    let pairs: Vec<(String, String)> = deps.into_iter().map(|d| (d.name, d.path)).collect();
    assert_eq!(
        pairs,
        vec![
            ("libc.so.6".to_string(), "/lib/x86_64-linux-gnu/libc.so.6".to_string()),
            ("libm.so.6".to_string(), "/lib/libm.so.6".to_string()),
        ]
    );
    assert!(lddtree_dependencies(b"").is_empty());
    assert!(lddtree_dependencies(b"only => first line").is_empty());
    let deps = lddtree_dependencies(b"x\n=>\n");
    assert_eq!(deps.len(), 1);
    assert_eq!((deps[0].name.as_str(), deps[0].path.as_str()), ("", ""));
}

#[test]
fn dependency_names_sorted_once() {
    let names: Vec<String> = ["b", "a", "b", "c", "a"].iter().map(|s| s.to_string()).collect();
    assert_eq!(sorted_unique(&names), vec!["a", "b", "c"]);
    let names: Vec<String> = ["é", "z", "abc", "ab", "B"].iter().map(|s| s.to_string()).collect();
    let mut expected = names.clone();
    expected.sort();
    expected.dedup();
    assert_eq!(sorted_unique(&names), expected);
    assert!(sorted_unique(&[]).is_empty());
}

#[test]
fn share_directory_file_list() {
    let binaries = vec!["bitcoind".to_string(), "scenario".to_string()];
    let libraries = vec![
        Dependency { name: "libc.so.6".to_string(), path: "/lib/libc.so.6".to_string() },
        Dependency { name: "libm.so.6".to_string(), path: "/lib/libm.so.6".to_string() },
        Dependency { name: "libc.so.6".to_string(), path: "/lib/libc.so.6".to_string() },
    ];
    let names = share_file_names(&binaries, &libraries, &"crash_handler.so".to_string());
    assert_eq!(
        names,
        vec!["bitcoind", "crash_handler.so", "libc.so.6", "libm.so.6", "scenario"]
            .into_iter()
            .map(String::from)
            .collect::<Vec<_>>()
    );
}
