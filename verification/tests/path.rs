use cdn_log_ingest::path::{extension, parse_path};

#[test]
fn parse_strips_one_slash_at_each_end() {
    assert_eq!(parse_path("foo/bar").unwrap(), "foo/bar");
    assert_eq!(parse_path("/foo/bar").unwrap(), "foo/bar");
    assert_eq!(parse_path("foo/bar/").unwrap(), "foo/bar");
    assert_eq!(parse_path("/foo/bar/").unwrap(), "foo/bar");
    assert_eq!(parse_path("/foo/foo%2Fbar").unwrap(), "foo/foo%2Fbar");
    assert_eq!(parse_path("").unwrap(), "");
    assert_eq!(parse_path("/").unwrap(), "");
    assert_eq!(
        parse_path("cloudfront/static.crates.io/E35K556QRQDZXW.2024-01-16-16.d01d5f13.gz")
            .unwrap(),
        "cloudfront/static.crates.io/E35K556QRQDZXW.2024-01-16-16.d01d5f13.gz"
    );
}

#[test]
fn parse_refuses_what_is_no_path() {
    for raw in [
        "..", ".", "/foo//", "//", "//foo", "foo//bar", "\x00", "foo/\x1f", "foo\x7f/bar",
        "a/./b", "a/../b", "a/..", "./a", "foo/bar//", "\n",
    ] {
        let error = parse_path(raw).unwrap_err();
        assert_eq!(error.path, raw);
    }
}

#[test]
fn parse_accepts_dots_inside_names_and_other_characters() {
    for raw in ["...", "a/.b", "a/b.", "a/..b", "a b/c", "ä/ö", "a\u{80}", "a%00b", "a\\b"] {
        assert_eq!(parse_path(raw).unwrap(), raw);
    }
}

#[test]
fn parse_agrees_with_the_object_store() {
    let pieces = ["", "/", "a", ".", "..", "b.gz", "\x01", "//", "a/", "/a", "ä", " "];
    for x in pieces {
        for y in pieces {
            for z in pieces {
                let raw = format!("{x}{y}{z}");
                let theirs = object_store::path::Path::parse(&raw);
                match parse_path(&raw) {
                    Ok(path) => assert_eq!(path, theirs.unwrap().as_ref()),
                    Err(error) => {
                        assert!(theirs.is_err());
                        assert_eq!(error.path, raw);
                    }
                }
            }
        }
    }
}

#[test]
fn extension_is_what_follows_the_last_dot_of_the_file_name() {
    assert_eq!(extension("a/b.gz"), Some("gz".to_string()));
    assert_eq!(extension("a/b.tar.gz"), Some("gz".to_string()));
    assert_eq!(extension("b.zst"), Some("zst".to_string()));
    assert_eq!(extension("a/.gz"), Some("gz".to_string()));
    assert_eq!(extension("a/b.ö"), Some("ö".to_string()));
    assert_eq!(
        extension("cloudfront/static.crates.io/E35K556QRQDZXW.2024-01-16-16.d01d5f13.gz"),
        Some("gz".to_string())
    );
}

#[test]
fn extension_is_missing() {
    assert_eq!(extension(""), None);
    assert_eq!(extension("a"), None);
    assert_eq!(extension("a/b"), None);
    assert_eq!(extension("a.gz/b"), None);
    assert_eq!(extension("a/b."), None);
    assert_eq!(extension("a.b/"), None);
    assert_eq!(extension("."), None);
}

#[test]
fn extension_agrees_with_the_object_store() {
    let pieces = ["a", ".", "b", "/", "gz", "ö", ".."];
    for w in pieces {
        for x in pieces {
            for y in pieces {
                for z in pieces {
                    let raw = format!("{w}{x}{y}{z}");
                    if let Ok(path) = object_store::path::Path::parse(&raw) {
                        assert_eq!(
                            extension(path.as_ref()),
                            path.extension().map(|e| e.to_string())
                        );
                    }
                }
            }
        }
    }
}

fn without_leading_slash(text: &[char]) -> &[char] {
    if !text.is_empty() && text[0] == '/' {
        &text[1..]
    } else {
        text
    }
}

fn without_trailing_slash(text: &[char]) -> &[char] {
    if !text.is_empty() && text[text.len() - 1] == '/' {
        &text[..text.len() - 1]
    } else {
        text
    }
}

fn spans_segments(text: &[char], i: usize, j: usize) -> bool {
    i <= j
        && j <= text.len()
        && (i == 0 || text[i - 1] == '/')
        && (j == text.len() || text[j] == '/')
}

fn segments_are_names(text: &[char]) -> bool {
    let no_control = text.iter().all(|c| !(*c as u32 <= 0x1f || *c as u32 == 0x7f));
    let mut names = true;
    for i in 0..=text.len() {
        for j in i..=text.len() {
            if spans_segments(text, i, j) {
                names = names && i < j && text[i..j] != ['.'] && text[i..j] != ['.', '.'];
            }
        }
    }
    no_control && names
}

#[test]
fn parse_accepts_names_separated_by_slashes_and_nothing_else() {
    let pieces = ["", "/", "a", ".", "..", "b.gz", "\x01", "\x7f", "//", "a/", "/a", "ä", " "];
    for w in pieces {
        for x in pieces {
            for y in pieces {
                for z in pieces {
                    let raw = format!("{w}{x}{y}{z}");
                    let chars: Vec<char> = raw.chars().collect();
                    let inner = without_leading_slash(&chars);
                    let canonical = without_trailing_slash(inner);
                    let is_path = inner.is_empty() || segments_are_names(canonical);
                    match parse_path(&raw) {
                        Ok(path) => {
                            assert!(is_path, "{raw:?} was accepted");
                            assert_eq!(path, canonical.iter().collect::<String>());
                        }
                        Err(_) => assert!(!is_path, "{raw:?} was refused"),
                    }
                }
            }
        }
    }
}
