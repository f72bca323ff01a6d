use host_bridge::naming::{candidate_name, extension_start, resolve_download_name, sanitize_filename};

fn listing(names: &[&str]) -> Vec<String> {
    names.iter().map(|s| s.to_string()).collect()
}

#[test]
fn collision_sequence() {
    let mut dir: Vec<String> = Vec::new();
    let first = resolve_download_name("a.txt", &dir);
    assert_eq!(first, "a.txt");
    dir.push(first);
    let second = resolve_download_name("a.txt", &dir);
    assert_eq!(second, "a (1).txt");
    dir.push(second);
    let third = resolve_download_name("a.txt", &dir);
    assert_eq!(third, "a (2).txt");
}

#[test]
fn first_free_suffix_is_chosen() {
    let dir = listing(&["a.txt", "a (1).txt", "a (3).txt"]);
    assert_eq!(resolve_download_name("a.txt", &dir), "a (2).txt");
    let dir = listing(&["b.txt", "a (1).txt"]);
    assert_eq!(resolve_download_name("a.txt", &dir), "a.txt");
}

#[test]
fn many_collisions_give_two_digit_suffix() {
    let mut dir = listing(&["r.pdf"]);
    for n in 1..=11 {
        dir.push(format!("r ({n}).pdf"));
    }
    assert_eq!(resolve_download_name("r.pdf", &dir), "r (12).pdf");
}

#[test]
fn separators_and_nul_are_replaced() {
    assert_eq!(sanitize_filename("../etc/passwd"), ".._etc_passwd");
    assert_eq!(sanitize_filename("a\\b\0c"), "a_b_c");
    assert_eq!(sanitize_filename("plain.txt"), "plain.txt");
    assert_eq!(sanitize_filename(""), "");
}

#[test]
fn stored_name_is_sanitized() {
    let dir: Vec<String> = Vec::new();
    let name = resolve_download_name("../../x/y\\z\0.bin", &dir);
    assert_eq!(name, ".._.._x_y_z_.bin");
    assert!(!name.contains('/') && !name.contains('\\') && !name.contains('\0'));
}

#[test]
fn names_that_are_not_files_get_a_suffix() {
    let dir: Vec<String> = Vec::new();
    assert_eq!(resolve_download_name("", &dir), " (1)");
    assert_eq!(resolve_download_name(".", &dir), ". (1)");
    assert_eq!(resolve_download_name("..", &dir), ". (1).");
    assert_eq!(resolve_download_name("/", &dir), "_");
}

#[test]
fn candidates_split_at_the_last_dot() {
    assert_eq!(candidate_name("a.txt", 0), "a.txt");
    assert_eq!(candidate_name("a.txt", 1), "a (1).txt");
    assert_eq!(candidate_name("archive.tar.gz", 2), "archive.tar (2).gz");
    assert_eq!(candidate_name(".bashrc", 1), ".bashrc (1)");
    assert_eq!(candidate_name("noext", 10), "noext (10)");
    assert_eq!(candidate_name("trailing.", 1), "trailing (1).");
    assert_eq!(candidate_name("x", 1234567890), "x (1234567890)");
}

#[test]
fn extension_start_positions() {
    assert_eq!(extension_start(&"a.txt".chars().collect::<Vec<char>>()), 1);
    assert_eq!(extension_start(&".bashrc".chars().collect::<Vec<char>>()), 7);
    assert_eq!(extension_start(&"a.b.c".chars().collect::<Vec<char>>()), 3);
    assert_eq!(extension_start(&"".chars().collect::<Vec<char>>()), 0);
}
