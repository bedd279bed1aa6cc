//! Paths, texts and numbers.

use pulci_core::numbers::{hex_text, push_decimal, push_padded, read_number};
use pulci_core::pathmap::PathMap;
use pulci_core::paths::{contains_path, FilePath, Rank};
use pulci_core::text::{
    chars_of, cut, lines_of, replaced, split_char, string_of, stripped, trimmed, without_colons,
};
use std::path::Path;

fn p(s: &str) -> FilePath {
    FilePath::new(s)
}

const SAMPLES: [&str; 22] = [
    "", "/", ".", "..", "a", "a/b", "/a/b", "a//b", "a/./b", "./a", "a/", "a/.", "a/..", "../a", "a.py", ".py",
    "a.tar.gz", "a.", "/a/b.py/", "b", "a/b.c/d", "é/ü.py",
];

fn rank(a: &FilePath, b: &FilePath) -> i32 {
    match a.rank(b) {
        Rank::Before => -1,
        Rank::Same => 0,
        Rank::After => 1,
    }
}

#[test]
fn directories_and_extensions_are_those_of_standard_paths() {
    let more = ["//a", "/a//b//", "a/./b/.", "./.", "/.", "./", "...", "a/.b", "/a", "..//b", "a/b./c"];
    for a in SAMPLES.iter().chain(&more) {
        let theirs = Path::new(a);
        assert_eq!(
            p(a).parent().map(|d| d.as_str().to_owned()),
            theirs.parent().map(|d| d.to_str().unwrap().to_owned()),
            "parent of {a:?}"
        );
        assert_eq!(
            p(a).with_extension("json.tmp").as_str(),
            theirs.with_extension("json.tmp").to_str().unwrap(),
            "extension of {a:?}"
        );
    }
}

#[test]
fn windows_texts_become_paths() {
    let path = FilePath::from_windows("C:\\p/src\\a.py");
    assert_eq!(path.as_str(), "/C:/p/src/a.py");
    assert_eq!(path.to_windows(), "C:\\p\\src\\a.py");
    assert!(path == FilePath::from_windows("C:/p/src/a.py"));
    assert!(path.starts_with(&FilePath::from_windows("C:\\p").join(&FilePath::from_windows("src\\").text)));
    let elsewhere = FilePath::from_windows("D:/x");
    assert!(FilePath::from_windows("C:\\p").join(elsewhere.as_str()) == elsewhere);
    let verbatim = FilePath::from_windows("\\\\?\\C:\\p");
    assert_eq!(verbatim.as_str(), "//?/C:/p");
    assert_eq!(verbatim.to_windows(), "\\\\?\\C:\\p");
    assert_eq!(FilePath::from_windows("build\\gen").as_str(), "build/gen");
    assert_eq!(FilePath::from_windows("c:\\p").as_str(), "/C:/p");
    assert_eq!(FilePath::from_windows("\\\\?\\c:\\p").as_str(), "//?/C:/p");
    assert_eq!(FilePath::from_windows("c").as_str(), "c");
    let root = FilePath::from_windows("d:\\p");
    assert_eq!(root.read_windows("\\x\\y").as_str(), "/D:/x/y");
    assert_eq!(verbatim.read_windows("/x").as_str(), "//?/C:/x");
    assert_eq!(root.read_windows("x").as_str(), "x");
    assert_eq!(root.read_windows("E:/x").as_str(), "/E:/x");
    assert_eq!(root.read_windows("\\\\server\\share").as_str(), "//server/share");
}

#[test]
fn paths_compare_like_standard_paths() {
    for a in SAMPLES {
        for b in SAMPLES {
            let ours = rank(&p(a), &p(b));
            let theirs = Path::new(a).cmp(Path::new(b)) as i32;
            assert_eq!(ours, theirs, "{a:?} and {b:?}");
            assert_eq!(p(a) == p(b), Path::new(a) == Path::new(b), "{a:?} and {b:?}");
            assert_eq!(
                p(a).starts_with(&p(b)),
                Path::new(a).starts_with(Path::new(b)),
                "{a:?} under {b:?}"
            );
            assert_eq!(p(a).join(b).as_str(), Path::new(a).join(b).to_str().unwrap());
        }
    }
}

#[test]
fn paths_are_taken_apart_like_standard_paths() {
    for a in SAMPLES {
        let ext = p(a).extension().map(|e| e.into_iter().collect::<String>());
        assert_eq!(ext.as_deref(), Path::new(a).extension().and_then(|e| e.to_str()), "{a:?}");
        let stem = p(a).file_stem().map(|e| e.into_iter().collect::<String>());
        assert_eq!(stem.as_deref(), Path::new(a).file_stem().and_then(|e| e.to_str()), "{a:?}");
        assert_eq!(p(a).is_absolute(), Path::new(a).is_absolute(), "{a:?}");
        let parts: Vec<String> =
            p(a).parts().into_iter().map(|c| c.into_iter().collect()).collect();
        let theirs: Vec<String> = Path::new(a)
            .components()
            .map(|c| c.as_os_str().to_str().unwrap().to_string())
            .collect();
        assert_eq!(parts, theirs, "{a:?}");
    }
}

#[test]
fn joined_paths_are_under_their_base() {
    assert!(p("/project").join("src/a.py").starts_with(&p("/project/")));
    assert!(contains_path(&vec![p("a"), p("b/c")], &p("b//c")));
    assert!(!contains_path(&vec![p("a")], &p("b")));
}

#[test]
fn path_map_keeps_one_value_per_path() {
    let mut m: PathMap<Vec<u8>> = PathMap::new();
    m.put(p("a"), vec![1]);
    m.put(p("b"), vec![2]);
    m.put(p("./a"), vec![3]);
    assert_eq!(m.count(), 3);
    m.put(p("a/"), vec![4]);
    assert_eq!(m.count(), 3);
    assert_eq!(m.get(&p("a")), Some(&vec![4]));
    assert_eq!(m.take(&p("b")), Some(vec![2]));
    assert_eq!(m.take(&p("b")), None);
    m.keep_only(&vec![p("a")]);
    assert_eq!(m.count(), 1);
    let mut other: PathMap<Vec<u8>> = PathMap::new();
    other.put(p("a"), vec![9]);
    other.put(p("z"), vec![8]);
    m.merge(other);
    assert_eq!(m.count(), 2);
    assert_eq!(m.get(&p("a")), Some(&vec![9]));
}

fn chars(s: &str) -> Vec<char> {
    s.chars().collect()
}

fn strings(v: Vec<Vec<char>>) -> Vec<String> {
    v.into_iter().map(|c| c.into_iter().collect()).collect()
}

const TEXTS: [&str; 12] = [
    "", "\n", "a", "a\n", "a\r\nb", "a\n\nb\n", "\r\n", "a\rb\n", "a\r", "  x  ", "\u{a0}x\u{3000}", "a,b,,c",
];

#[test]
fn texts_are_split_like_standard_strings() {
    for t in TEXTS {
        let lines: Vec<String> = t.lines().map(String::from).collect();
        assert_eq!(strings(lines_of(&chars(t))), lines, "{t:?}");
        let parts: Vec<String> = t.split(',').map(String::from).collect();
        assert_eq!(strings(split_char(&chars(t), ',')), parts, "{t:?}");
        assert_eq!(trimmed(&chars(t)).iter().collect::<String>(), t.trim(), "{t:?}");
        assert_eq!(string_of(&chars_of(t)), t);
    }
}

#[test]
fn texts_are_searched_like_standard_strings() {
    assert_eq!(stripped(&chars("FAILED x"), "FAILED "), Some(chars("x").as_slice()));
    assert_eq!(stripped(&chars("FAIL"), "FAILED "), None);
    let s = chars("a - b - c");
    let (a, b) = cut(&s, " - ").unwrap();
    assert_eq!((a, b), (chars("a").as_slice(), chars("b - c").as_slice()));
    assert!(cut(&s, "::").is_none());
    assert_eq!(without_colons(&chars(":: x:")), chars(" x:").as_slice());
    let r = replaced(&chars("aXXbXXXc"), &chars("XX"), &chars("y"));
    assert_eq!(r.into_iter().collect::<String>(), "aXXbXXXc".replace("XX", "y"));
}

#[test]
fn numbers_are_written_and_read() {
    let mut s = String::new();
    push_decimal(&mut s, 0);
    push_decimal(&mut s, 1234567890);
    push_padded(&mut s, 7, 3);
    push_padded(&mut s, 12345, 4);
    assert_eq!(s, "0123456789000712345");
    for t in ["0", "007", "+5", "4294967295", "4294967296", "", "+", "-1", "1a", "٣", "99999999999999999999"] {
        assert_eq!(read_number(&chars(t)), t.parse::<u32>().ok(), "{t:?}");
    }
    assert_eq!(hex_text(&[0, 1, 15, 16, 171, 255]), "00010f10abff");
}

#[test]
fn decimals_read_back() {
    for n in [0u32, 9, 10, 99, 100, 4294967295] {
        let mut s = String::new();
        push_decimal(&mut s, n as u64);
        assert_eq!(s, n.to_string());
        assert_eq!(read_number(&chars(&s)), Some(n));
    }
}
