use clarity::sequences::{dedup, sort};
use clarity::ordered::Table;
use clarity::paths::PathStyle;
use clarity::protocol::{ArtifactKind, ArtifactRef};
use clarity::resources::{normalize_resources, path_overlaps, resources_overlap};
use clarity::text;

#[test]
fn white_space_is_that_of_unicode() {
    for n in 0..=0x10ffff_u32 {
        if let Some(c) = char::from_u32(n) {
            assert_eq!(text::is_whitespace(c), c.is_whitespace(), "{n:x}");
        }
    }
}

const SAMPLES: [&str; 22] = [
    "",
    " ",
    "a",
    " a ",
    "\u{3000}a b\u{85}",
    "ab",
    "abc",
    "b",
    "Z",
    "é",
    "\u{10000}",
    "\u{ffff}",
    "a/b",
    "a//b",
    "/a/",
    "a/b/c",
    "git.git.git",
    ".git",
    "http://x",
    "x://y/z",
    "-",
    "\t\n",
];

#[test]
fn texts_are_trimmed_compared_and_split_as_in_std() {
    for a in SAMPLES {
        assert_eq!(text::trim(a), a.trim());
        assert_eq!(text::blank(a), a.trim().is_empty());
        assert_eq!(text::characters(a), a.chars().collect::<Vec<_>>());
        assert_eq!(
            text::split(a, '/'),
            a.split('/').map(|piece| piece.to_owned()).collect::<Vec<_>>()
        );
        assert_eq!(text::trim_suffixes(a, ".git"), a.trim_end_matches(".git"));
        assert_eq!(text::trim_suffixes(a, "/"), a.trim_end_matches('/'));
        for b in SAMPLES {
            assert_eq!(text::precedes(a, b), a < b, "{a:?} {b:?}");
            assert_eq!(text::same(a, b), a == b);
            assert_eq!(text::concat(a, b), format!("{a}{b}"));
            assert_eq!(
                text::strip_prefix(a, b),
                a.strip_prefix(b).map(|rest| rest.to_owned())
            );
            assert_eq!(
                text::split_once(a, b),
                a.split_once(b).map(|(x, y)| (x.to_owned(), y.to_owned())),
                "{a:?} {b:?}"
            );
        }
    }
    let parts = vec!["a".to_owned(), String::new(), "c".into()];
    assert_eq!(text::join(&parts, ", "), parts.join(", "));
    assert_eq!(text::join(&Vec::new(), ", "), "");
}

#[test]
fn numbers_are_written_as_in_std() {
    for n in [0, 1, 9, 10, 15, 16, 99, 100, 255, 4096, u64::MAX - 1, u64::MAX] {
        assert_eq!(text::decimal(n), format!("{n}"));
        assert_eq!(text::hex(n, 16), format!("{n:016x}"));
    }
    for n in [i64::MIN, i64::MIN + 1, -10, -1, 0, 1, i64::MAX] {
        assert_eq!(text::signed_decimal(n), format!("{n}"));
    }
    assert_eq!(text::hex(0xabc, 2), "bc");
    assert_eq!(text::hex(0xabc, 0), "");
}

#[test]
fn tables_agree_with_ordered_maps() {
    let mut table: Table<String, u64> = Table::new();
    let mut map = std::collections::BTreeMap::new();
    let mut seed: u64 = 42;
    for step in 0..400_u64 {
        seed = seed.wrapping_mul(6364136223846793005).wrapping_add(1442695040888963407);
        let key = format!("k{}", (seed >> 33) % 23);
        if (seed >> 60) % 3 == 0 {
            table.remove(&key);
            map.remove(&key);
        } else {
            table.insert(key.clone(), step);
            map.insert(key.clone(), step);
        }
        assert_eq!(table.contains(&key), map.contains_key(&key));
        assert_eq!(table.get(&key), map.get(&key));
        assert_eq!(table.len(), map.len());
        for (i, (k, v)) in map.iter().enumerate() {
            assert_eq!(table.key_at(i), k);
            assert_eq!(table.value_at(i), v);
        }
    }
}

fn artifact(kind: ArtifactKind, uri: &str, digest: &str) -> ArtifactRef {
    ArtifactRef { kind, uri: uri.into(), digest: Some(digest.into()) }
}

#[test]
fn artifacts_are_sorted_stably_and_repeats_dropped() {
    let items = vec![
        artifact(ArtifactKind::Url, "a", "1"),
        artifact(ArtifactKind::File, "b", "2"),
        artifact(ArtifactKind::File, "a", "3"),
        artifact(ArtifactKind::TestReceipt, "x", "4"),
        artifact(ArtifactKind::File, "b", "5"),
        artifact(ArtifactKind::Patch, "p", "6"),
        artifact(ArtifactKind::File, "b", "5"),
        artifact(ArtifactKind::Revision, "r", "7"),
    ];
    let sorted = sort(items);
    let order = sorted
        .iter()
        .map(|item| item.digest.clone().unwrap())
        .collect::<Vec<_>>();
    assert_eq!(order, ["3", "2", "5", "5", "6", "7", "4", "1"]);
    let kept = dedup(sorted)
        .iter()
        .map(|item| item.digest.clone().unwrap())
        .collect::<Vec<_>>();
    assert_eq!(kept, ["3", "2", "5", "6", "7", "4", "1"]);
    assert!(dedup(Vec::<ArtifactRef>::new()).is_empty());
}

fn by_components(resources: &[&str]) -> Result<Vec<String>, String> {
    let mut normalized = Vec::new();
    for resource in resources {
        let mut parts = Vec::new();
        for component in std::path::Path::new(resource.trim()).components() {
            match component {
                std::path::Component::Normal(part) => {
                    parts.push(part.to_string_lossy().into_owned());
                }
                std::path::Component::CurDir => {}
                std::path::Component::ParentDir => {
                    if parts.pop().is_none() {
                        return Err("resource must not escape the repository root".into());
                    }
                }
                std::path::Component::RootDir | std::path::Component::Prefix(_) => {
                    return Err("resource must be a repository-relative path".into());
                }
            }
        }
        if !parts.is_empty() {
            normalized.push(parts.join("/"));
        }
    }
    normalized.sort();
    normalized.dedup();
    Ok(normalized)
}

#[test]
fn resources_are_normalized_as_paths() {
    let cases: [&[&str]; 20] = [
        &[],
        &["src/lib.rs"],
        &["./src/", "src"],
        &["src/../src/coordination.rs", "src//coordination.rs"],
        &["b", "a", "b"],
        &[""],
        &["."],
        &["a/.."],
        &[".."],
        &["a/../.."],
        &["/etc"],
        &["/.."],
        &[" a b / c "],
        &["a", "../x", "/y"],
        &["a", "/y", "../x"],
        &["./ a"],
        &["...", "..a", "a.."],
        &["a/./b/./c"],
        &["a/b/../c", "a/c/d"],
        &["é/ü", "z", "Z"],
    ];
    for case in cases {
        let resources = case.iter().map(|resource| resource.to_string()).collect::<Vec<_>>();
        assert_eq!(normalize_resources(resources, PathStyle::Slash), by_components(case), "{case:?}");
    }
}

#[test]
fn resources_are_read_in_the_style_of_the_machine() {
    let style = PathStyle::Backslash;
    let normalized = |resource: &str| normalize_resources(vec![resource.into()], style);
    assert_eq!(normalized("src\\a/b\\..\\c").unwrap(), ["src/a/c"]);
    assert_eq!(normalized(".\\src\\").unwrap(), ["src"]);
    assert_eq!(normalized("ab:c").unwrap(), ["ab:c"]);
    assert_eq!(normalized("1:c").unwrap(), ["1:c"]);
    for rooted in ["\\src", "/src", "\\\\server\\share", "C:", "c:src", "C:\\src"] {
        assert_eq!(
            normalized(rooted).unwrap_err(),
            "resource must be a repository-relative path",
            "{rooted}"
        );
    }
    assert_eq!(
        normalized("src\\..\\..").unwrap_err(),
        "resource must not escape the repository root"
    );
    assert_eq!(
        normalize_resources(vec!["C:\\src".into(), "a:b".into()], PathStyle::Slash).unwrap(),
        ["C:\\src", "a:b"]
    );
    for case in ["src/a", "a\\b", "C:x", "/x", "..\\y"] {
        assert_eq!(
            normalize_resources(vec![case.into()], PathStyle::of_this_machine()),
            by_components(&[case])
        );
    }
}

#[test]
fn paths_overlap_where_one_holds_the_other() {
    let cases = [
        ("src", "src", true),
        ("src", "src/lib.rs", true),
        ("src/lib.rs", "src", true),
        ("src", "srcs", false),
        ("src/a", "src/b", false),
        ("a", "a/", true),
        ("", "a", false),
        ("", "/a", true),
    ];
    for (left, right, expected) in cases {
        assert_eq!(path_overlaps(left, right), expected, "{left} {right}");
        assert_eq!(path_overlaps(right, left), expected);
    }
    let left = vec!["a".to_owned(), "b/c".into()];
    assert!(resources_overlap(&left, &vec!["x".into(), "b".into()]));
    assert!(resources_overlap(&left, &left));
    assert!(!resources_overlap(&left, &vec!["bc".into()]));
    assert!(!resources_overlap(&Vec::new(), &left));
}
