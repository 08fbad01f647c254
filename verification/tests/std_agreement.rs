use fuzzamoto::assertions::stdout_message_lines;
use fuzzamoto::deps::{lddtree_dependencies, sorted_unique};
use rand::rngs::StdRng;
use rand::{RngExt, SeedableRng};

/// The same framing written directly with std's string methods.
fn std_lines(buffer: &[u8]) -> Vec<String> {
    String::from_utf8_lossy(buffer)
        .lines()
        .map(|l| l.trim().trim_matches(|c| c == '\0').to_string())
        .collect()
}

fn std_lddtree(output: &[u8]) -> Vec<(String, String)> {
    String::from_utf8_lossy(output)
        .lines()
        .skip(1)
        .filter_map(|line| {
            let parts: Vec<&str> = line.split("=>").collect();
            if parts.len() == 2 {
                Some((parts[0].trim().to_string(), parts[1].trim().to_string()))
            } else {
                None
            }
        })
        .collect()
}

#[test]
fn trimming_agrees_with_std_for_all_characters() {
    for code in 0u32..0x3100 {
        let Some(c) = char::from_u32(code) else { continue };
        let text = format!("{c}{c}x{c}y{c}\0{c}");
        assert_eq!(stdout_message_lines(text.as_bytes()), std_lines(text.as_bytes()), "{code:#x}");
    }
}

#[test]
fn framing_agrees_with_std_on_random_output() {
    let alphabet: &[u8] = b"ab \t\r\n\0=>\xff\xc3\xa9";
    let mut rng = StdRng::seed_from_u64(42);
    for _ in 0..2000 {
        let len = rng.random_range(0..40);
        let bytes: Vec<u8> = (0..len).map(|_| alphabet[rng.random_range(0..alphabet.len())]).collect();
        assert_eq!(stdout_message_lines(&bytes), std_lines(&bytes), "{bytes:?}");
        let deps: Vec<(String, String)> =
            lddtree_dependencies(&bytes).into_iter().map(|d| (d.name, d.path)).collect();
        assert_eq!(deps, std_lddtree(&bytes), "{bytes:?}");
    }
}

#[test]
fn sorting_agrees_with_std() {
    let words = ["a", "b", "ab", "ba", "", "é", "z", "Z", "aé", "\u{10000}", "\u{ffff}"];
    let mut rng = StdRng::seed_from_u64(7);
    for _ in 0..500 {
        let len = rng.random_range(0..12);
        let names: Vec<String> =
            (0..len).map(|_| words[rng.random_range(0..words.len())].to_string()).collect();
        let mut expected = names.clone();
        expected.sort();
        expected.dedup();
        assert_eq!(sorted_unique(&names), expected);
    }
}
