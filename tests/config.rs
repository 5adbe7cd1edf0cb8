use rvasm::config::{keyvals, read_config_keyvals};

fn pairs(text: &str) -> Vec<(String, String)> {
    keyvals(text)
}

fn p(k: &str, v: &str) -> (String, String) {
    (k.to_string(), v.to_string())
}

#[test]
fn pairs_line_by_line() {
    assert_eq!(pairs("a=b\nmode=dev\n"), vec![p("a", "b"), p("mode", "dev")]);
    assert_eq!(pairs("a=b\r\nc=d"), vec![p("a", "b"), p("c", "d")]);
}

#[test]
fn key_and_value_must_be_non_empty() {
    assert!(pairs("=b").is_empty());
    assert!(pairs("a=").is_empty());
    assert!(pairs("a=\r\n").is_empty());
    assert!(pairs("a==b").is_empty());
    assert!(pairs("plain line\n\n").is_empty());
    assert!(pairs("").is_empty());
}

#[test]
fn value_stops_at_second_equals() {
    assert_eq!(pairs("a=b=c"), vec![p("a", "b")]);
    assert_eq!(pairs("x\nk = v \n"), vec![p("k ", " v ")]);
}

#[test]
fn any_pair_makes_the_buffer_valid() {
    assert!(read_config_keyvals("junk\nk=v"));
    assert!(!read_config_keyvals("junk\n=v\nk="));
    assert!(!read_config_keyvals(""));
}
