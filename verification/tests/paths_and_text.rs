use swine::path::{join, parent, same_bytes, same_path, starts_with, strip_prefix};
use swine::text::{
    bytes, chars, decimal_string, find, find_lines, same_text, signed_decimal_string, trim_leading,
    trim_range, trim_trailing,
};

fn b(s: &str) -> Vec<u8> {
    s.as_bytes().to_vec()
}

const SAMPLES: [&str; 14] = [
    "", "/", "a", "a/b", "/a/b", "/a//b/", "./a", ".", "/.", "/a/./b", "a/..", "../a", "/usr/lib", "a/",
];

#[test]
fn join_agrees_with_std() {
    for base in SAMPLES {
        for rel in SAMPLES {
            let want = std::path::Path::new(base).join(rel);
            assert_eq!(join(&b(base), &b(rel)), b(want.to_str().unwrap()), "{base} {rel}");
        }
    }
}

#[test]
fn starts_with_agrees_with_std() {
    for p in SAMPLES {
        for base in SAMPLES {
            let want = std::path::Path::new(p).starts_with(base);
            assert_eq!(starts_with(&b(p), &b(base)), want, "{p} {base}");
        }
    }
    assert!(starts_with(&b("/usr/lib/x"), &b("/usr")));
    assert!(!starts_with(&b("/usrlocal"), &b("/usr")));
}

#[test]
fn strip_prefix_agrees_with_std() {
    for p in SAMPLES {
        for base in SAMPLES {
            let want = std::path::Path::new(p)
                .strip_prefix(base)
                .ok()
                .map(|r| b(r.to_str().unwrap()));
            assert_eq!(strip_prefix(&b(p), &b(base)), want, "{p} {base}");
        }
    }
}

#[test]
fn parent_agrees_with_std() {
    for p in SAMPLES {
        let want = std::path::Path::new(p).parent().map(|r| b(r.to_str().unwrap()));
        assert_eq!(parent(&b(p)), want, "{p}");
    }
}

#[test]
fn same_path_agrees_with_std() {
    for p in SAMPLES {
        for q in SAMPLES {
            let want = std::path::Path::new(p) == std::path::Path::new(q);
            assert_eq!(same_path(&b(p), &b(q)), want, "{p} {q}");
        }
    }
    assert!(!same_bytes(&b("/a/"), &b("/a")));
    assert!(same_bytes(&b("/a"), &b("/a")));
}

#[test]
fn stripping_and_joining_gives_the_path_back() {
    let rest = strip_prefix(&b("/home/me/games/a.exe"), &b("/home/me/")).unwrap();
    assert_eq!(rest, b("games/a.exe"));
    assert!(same_path(&join(&b("/home/me/"), &rest), &b("/home/me/games/a.exe")));
}

#[test]
fn parent_drops_the_last_component() {
    assert_eq!(parent(&b("/home/me/a.exe")), Some(b("/home/me")));
    assert_eq!(parent(&b("a.exe")), Some(b("")));
    assert_eq!(parent(&b("/")), None);
}

#[test]
fn join_stays_within_the_base() {
    assert!(starts_with(&join(&b("/data"), &b("x/y")), &b("/data")));
    assert_eq!(join(&b("/data"), &b("/x")), b("/x"));
}

#[test]
fn decimals_are_those_of_std() {
    for n in [0u64, 7, 10, 99, 100, 4294967296, u64::MAX] {
        assert_eq!(decimal_string(n), n.to_string());
    }
    for n in [0i64, -1, 42, i64::MAX, i64::MIN + 1] {
        assert_eq!(signed_decimal_string(n), n.to_string());
    }
    assert_ne!(decimal_string(12), decimal_string(21));
}

#[test]
fn texts_and_bytes() {
    assert_eq!(bytes("aé"), vec![0x61, 0xc3, 0xa9]);
    assert_eq!(chars("aé"), vec!['a', 'é']);
    assert!(same_text("abc", "abc"));
    assert!(!same_text("abc", "abd"));
    assert!(!same_text("abc", "ab"));
}

#[test]
fn lines_are_those_of_std() {
    for text in ["", "\n", "a", "a\n", "a\nb", "a\r\nb\r\n", "a\n\nb", "\r", "a\r"] {
        let c = chars(text);
        let found: Vec<String> = find_lines(&c)
            .iter()
            .map(|(i, e)| c[*i..*e].iter().collect::<String>())
            .collect();
        let want: Vec<String> = text.lines().map(|l| l.to_owned()).collect();
        assert_eq!(found, want, "{text:?}");
    }
}

#[test]
fn trimming_is_that_of_std() {
    for text in ["", "  a ", "\u{3000}x\u{a0}\t", "a b", "   ", "\u{200b}a"] {
        let c = chars(text);
        let (i, e) = trim_range(&c, 0, c.len());
        assert_eq!(c[i..e].iter().collect::<String>(), text.trim(), "{text:?}");
    }
    let c = chars("0::0::/x\"\"");
    assert_eq!(trim_leading(&c, 0, c.len(), &chars("0::")), 6);
    assert_eq!(trim_trailing(&c, 0, c.len(), '"'), 8);
}

#[test]
fn find_finds_the_first() {
    let c = chars("a=\"$HOME/b=\"$HOME/c");
    assert_eq!(find(&c, c.len(), &chars("=\"$HOME/"), 0), Some(1));
    assert_eq!(find(&c, c.len(), &chars("=\"$HOME/"), 2), Some(10));
    assert_eq!(find(&c, c.len(), &chars("zz"), 0), None);
}
