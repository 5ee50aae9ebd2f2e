//! The character-level helpers agree with the std behaviour they stand for.

use consign::text::{
    display_name_exec, from_chars, lines_exec, parse_u32_exec, path_file_name_exec, split_chars,
    to_chars, trim_chars,
};

const SAMPLES: &[&str] = &[
    "",
    "a",
    "a\n",
    "a\nb",
    "a\r\nb\r\n",
    "a\r",
    "\n\n",
    "  x  \n\ty\u{3000}",
    "\u{a0}lead and trail\u{2029}",
    "one\n\ntwo\n",
    "\r\n",
    "é\n漢字 \n",
];

fn s_of(v: &Vec<char>) -> String {
    from_chars(v)
}

#[test]
fn lines_match_std() {
    for s in SAMPLES {
        let ours: Vec<String> = lines_exec(&to_chars(s)).iter().map(s_of).collect();
        let std: Vec<String> = s.lines().map(|l| l.to_string()).collect();
        assert_eq!(ours, std, "lines of {:?}", s);
    }
}

#[test]
fn trim_matches_std() {
    for s in SAMPLES {
        assert_eq!(s_of(&trim_chars(&to_chars(s))), s.trim(), "trim of {:?}", s);
    }
}

#[test]
fn split_matches_std() {
    for s in ["", ",", "a,b", ",a,,b,", "no commas"] {
        let ours: Vec<String> = split_chars(&to_chars(s), ',').iter().map(s_of).collect();
        let std: Vec<String> = s.split(',').map(|x| x.to_string()).collect();
        assert_eq!(ours, std, "split of {:?}", s);
    }
}

#[test]
fn parse_matches_std() {
    for s in ["0", "42", "+7", "+", "", "-1", "4294967295", "4294967296", "007", "1 ", "x1", "99999999999999999999"] {
        assert_eq!(parse_u32_exec(&to_chars(s)), s.parse::<u32>().ok(), "parse of {:?}", s);
    }
}

#[test]
fn file_name_matches_std() {
    for p in [
        "/tmp/fleet/myrepo",
        "/tmp/fleet/myrepo/",
        "myrepo",
        "/",
        "",
        ".",
        "..",
        "/tmp/..",
        "/tmp/x/.",
        "./a",
        "a//b",
        "/tmp/fleet/dotted.repo",
    ] {
        let ours = path_file_name_exec(p).map(|v| s_of(&v));
        let std = std::path::Path::new(p).file_name().map(|n| n.to_string_lossy().into_owned());
        assert_eq!(ours, std, "file name of {:?}", p);
    }
    assert_eq!(display_name_exec("/tmp/.."), "/tmp/..");
    assert_eq!(display_name_exec("/tmp/fleet/myrepo"), "myrepo");
}
