use secure_classifier::decimal::{format_i32, parse_i32};
use secure_classifier::path::{join, segment};
use secure_classifier::text::{drop_last_line, split, split_lines};
use std::path::Path;

fn strings(v: Vec<Vec<u8>>) -> Vec<String> {
    v.into_iter().map(|x| String::from_utf8(x).unwrap()).collect()
}

#[test]
fn parse_i32_accepts_what_from_str_accepts() {
    assert_eq!(parse_i32(b"42"), Some(42));
    assert_eq!(parse_i32(b"-7"), Some(-7));
    assert_eq!(parse_i32(b"+5"), Some(5));
    assert_eq!(parse_i32(b"007"), Some(7));
    assert_eq!(parse_i32(b"0"), Some(0));
    assert_eq!(parse_i32(b"-0"), Some(0));
    assert_eq!(parse_i32(b"2147483647"), Some(i32::MAX));
    assert_eq!(parse_i32(b"-2147483648"), Some(i32::MIN));
}

#[test]
fn parse_i32_rejects_what_from_str_rejects() {
    assert_eq!(parse_i32(b""), None);
    assert_eq!(parse_i32(b"-"), None);
    assert_eq!(parse_i32(b"+"), None);
    assert_eq!(parse_i32(b"12a"), None);
    assert_eq!(parse_i32(b" 5"), None);
    assert_eq!(parse_i32(b"5 "), None);
    assert_eq!(parse_i32(b"--5"), None);
    assert_eq!(parse_i32(b"2147483648"), None);
    assert_eq!(parse_i32(b"-2147483649"), None);
    assert_eq!(parse_i32(b"99999999999999999999"), None);
    assert_eq!(parse_i32(b"99999999999x"), None);
}

#[test]
fn parse_i32_agrees_with_std() {
    let samples = ["1", "-1", "+0", "123456", "-999", "2147483647", "2147483648", "x", "1x", "", "-", "0012"];
    for s in samples.iter() {
        assert_eq!(parse_i32(s.as_bytes()), s.parse::<i32>().ok(), "{}", s);
    }
}

#[test]
fn format_i32_prints_decimal() {
    assert_eq!(format_i32(0), b"0".to_vec());
    assert_eq!(format_i32(123), b"123".to_vec());
    assert_eq!(format_i32(-5), b"-5".to_vec());
    assert_eq!(format_i32(i32::MAX), b"2147483647".to_vec());
    assert_eq!(format_i32(i32::MIN), b"-2147483648".to_vec());
}

#[test]
fn format_then_parse_gives_the_number_back() {
    for n in [0, 1, -1, 9, 10, -10, 4096, -65536, i32::MAX, i32::MIN, 1234567890] {
        assert_eq!(parse_i32(&format_i32(n)), Some(n));
        assert_eq!(format_i32(n), n.to_string().into_bytes());
    }
}

#[test]
fn split_gives_pieces_between_separators() {
    assert_eq!(strings(split(b"a:b:c", b':')), vec!["a", "b", "c"]);
    assert_eq!(strings(split(b"", b':')), vec![""]);
    assert_eq!(strings(split(b":", b':')), vec!["", ""]);
    assert_eq!(strings(split(b"a::", b':')), vec!["a", "", ""]);
    assert_eq!(strings(split(b"abc", b':')), vec!["abc"]);
}

#[test]
fn split_lines_follows_lines() {
    let samples = ["a\nb", "a\r\nb\r\n", "", "\n", "a\r", "a\n\nb", "a\r\r\nb", "\r\n", "x\n"];
    for s in samples.iter() {
        let expected: Vec<String> = s.lines().map(|l| l.to_string()).collect();
        assert_eq!(strings(split_lines(s.as_bytes())), expected, "{:?}", s);
    }
}

#[test]
fn drop_last_line_keeps_all_lines_but_the_last() {
    assert_eq!(drop_last_line(b"one\ntwo\nthree\n"), b"one\ntwo\n".to_vec());
    assert_eq!(drop_last_line(b"one\ntwo\nthree"), b"one\ntwo\n".to_vec());
    assert_eq!(drop_last_line(b"one\r\ntwo\r\n"), b"one\n".to_vec());
    assert_eq!(drop_last_line(b"only"), b"".to_vec());
    assert_eq!(drop_last_line(b""), b"".to_vec());
    assert_eq!(drop_last_line(b"\n\n"), b"\n".to_vec());
}

#[test]
fn drop_last_line_read_back_loses_only_the_last_line() {
    let content = b"[chris:dog.jpg:5]\nresult a\n[kyle:eagle.jpg:3]\nresult b\n";
    let before = split_lines(content);
    let after = split_lines(&drop_last_line(content));
    assert_eq!(after, before[..before.len() - 1].to_vec());
}

#[test]
fn join_follows_path_join() {
    let cases = [("data", "chris"), ("data/", "x"), ("", "x"), ("data", "/etc/passwd"), ("data", ""), ("/mnt", "put_old")];
    for (a, b) in cases.iter() {
        let expected = Path::new(a).join(b).to_str().unwrap().to_string();
        assert_eq!(String::from_utf8(join(a.as_bytes(), b.as_bytes())).unwrap(), expected);
    }
}

#[test]
fn segment_follows_split_nth() {
    let cases = ["data/chris/dog.jpg", "dog.jpg", "/x", "", "a//b"];
    for s in cases.iter() {
        for k in 0..4usize {
            let expected = s.split('/').nth(k).map(|x| x.as_bytes().to_vec());
            assert_eq!(segment(s.as_bytes(), k), expected);
        }
    }
}
