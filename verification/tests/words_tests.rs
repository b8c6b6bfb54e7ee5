use achilles::tally::{count_equal, distinct_in_order, tally, tally_get};
use achilles::words::{
    concat_files, count_words, count_words_in_file, get_output, ports_line, validate_target,
};

fn count_of(t: &Vec<(String, usize)>, key: &str) -> usize {
    tally_get(t, key)
}

#[test]
fn canned_scan_output() {
    assert_eq!(get_output(), "PORT   STATE SERVICE\n22/tcp open  ssh");
}

#[test]
fn counts_words_of_a_literal() {
    let counts = count_words("hello world hello");
    assert_eq!(counts.len(), 2);
    assert_eq!(count_of(&counts, "hello"), 2);
    assert_eq!(count_of(&counts, "world"), 1);
    assert_eq!(count_of(&counts, "missing"), 0);
}

#[test]
fn counts_words_of_scan_output_ignoring_case() {
    let text = "PORT STATE SERVICE\n22/tcp open ssh\n80/tcp open http\n443/tcp open https\n8080/tcp open http\n22/tcp filtered ssh";
    let counts = count_words(text);
    assert_eq!(count_of(&counts, "port"), 1);
    assert_eq!(count_of(&counts, "PORT"), 0);
    assert_eq!(count_of(&counts, "open"), 4);
    assert_eq!(count_of(&counts, "http"), 2);
    assert_eq!(count_of(&counts, "22/tcp"), 2);
    assert_eq!(count_of(&counts, "filtered"), 1);
    // every word is counted once
    let total: usize = counts.iter().map(|(_, c)| *c).sum();
    assert_eq!(total, text.split_whitespace().count());
}

#[test]
fn counting_folds_upper_case() {
    let counts = count_words("Open OPEN open");
    assert_eq!(counts, vec![("open".to_string(), 3)]);
}

#[test]
fn count_words_in_file_propagates_errors() {
    let ok: Result<String, String> = Ok("a b a".to_string());
    let counts = count_words_in_file(ok).unwrap();
    assert_eq!(count_of(&counts, "a"), 2);
    let err: Result<String, String> = Err("missing".to_string());
    assert_eq!(count_words_in_file(err).unwrap_err(), "missing");
}

#[test]
fn concat_files_reports_first_error() {
    let a = || -> Result<String, String> { Ok("Hey Phantom\n".to_string()) };
    let b = || -> Result<String, String> { Ok("Bye Phantom".to_string()) };
    let e1 = || -> Result<String, String> { Err("first".to_string()) };
    let e2 = || -> Result<String, String> { Err("second".to_string()) };
    assert_eq!(concat_files(a(), b).unwrap(), "Hey Phantom\nBye Phantom");
    assert_eq!(concat_files(a(), e2).unwrap_err(), "second");
    assert_eq!(concat_files(e1(), b).unwrap_err(), "first");
    assert_eq!(concat_files(e1(), e2).unwrap_err(), "first");
}

#[test]
fn concat_files_skips_second_read_after_first_error() {
    let read = std::cell::Cell::new(false);
    let second = || -> Result<String, String> {
        read.set(true);
        Ok("never".to_string())
    };
    assert_eq!(concat_files(Err::<String, String>("first".to_string()), second).unwrap_err(), "first");
    assert!(!read.get());
}

#[test]
fn target_validation_messages() {
    assert_eq!(validate_target(""), "ERROR: empty target");
    assert_eq!(validate_target("10.10.10.100"), "Target '10.10.10.100' is valid (12 chars)");
    assert_eq!(validate_target("é"), "Target 'é' is valid (2 chars)");
}

#[test]
fn port_line() {
    assert_eq!(ports_line(&[22, 80, 443, 8080, 8443]), "Ports: 22 80 443 8080 8443 ");
    assert_eq!(ports_line(&[]), "Ports: ");
}

#[test]
fn tally_helpers() {
    let items: Vec<String> = ["b", "a", "b", "c", "b"].iter().map(|s| s.to_string()).collect();
    let t = tally(&items);
    assert_eq!(t, vec![("b".to_string(), 3), ("a".to_string(), 1), ("c".to_string(), 1)]);
    assert_eq!(count_equal(&items, "b"), 3);
    assert_eq!(count_equal(&items, "z"), 0);
    assert_eq!(distinct_in_order(&items), vec!["b".to_string(), "a".to_string(), "c".to_string()]);
}
