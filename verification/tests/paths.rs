use std::path::{Path, PathBuf};

use rdsd2pcm::path_order::{rank_keys, sorted_unique, Rank};

fn key(path: &str) -> Vec<Vec<u8>> {
    Path::new(path)
        .components()
        .map(|c| c.as_os_str().as_encoded_bytes().to_vec())
        .collect()
}

fn positions(paths: &[&str]) -> Vec<usize> {
    sorted_unique(&paths.iter().map(|p| key(p)).collect())
}

fn sorted<'a>(paths: &[&'a str]) -> Vec<&'a str> {
    positions(paths).into_iter().map(|i| paths[i]).collect()
}

#[test]
fn paths_are_ranked_by_their_components() {
    assert_eq!(rank_keys(&key("/a/b"), &key("/a/c")), Rank::Before);
    assert_eq!(rank_keys(&key("/a/c"), &key("/a/b")), Rank::After);
    assert_eq!(rank_keys(&key("/a/b"), &key("/a/b")), Rank::Same);
    assert_eq!(rank_keys(&key("/a"), &key("/a/b")), Rank::Before);
    assert_eq!(rank_keys(&key("/ab"), &key("/a/b")), Rank::After);
    // A hyphen is less than a slash, but what is in `a` comes before `a-b`.
    assert_eq!(rank_keys(&key("/a/z"), &key("/a-b")), Rank::Before);
    assert_eq!(rank_keys(&vec![], &vec![]), Rank::Same);
    assert_eq!(rank_keys(&vec![], &key("a")), Rank::Before);
}

#[test]
fn found_paths_are_sorted_once_each() {
    assert_eq!(positions(&["/m/b", "/m/a", "/m/b", "/e", "/m/a"]), [3, 1, 0]);
    assert_eq!(positions(&["/a", "/a", "/a"]), [0]);
    assert!(positions(&[]).is_empty());
    assert_eq!(
        sorted(&["/m/n/b.dff", "/m-1.dsf", "/m/a.dsf", "/M/a.dsf", "/m"]),
        ["/M/a.dsf", "/m", "/m/a.dsf", "/m/n/b.dff", "/m-1.dsf"]
    );
}

#[test]
fn sorted_paths_are_in_the_order_of_paths() {
    let paths = ["/z", "/a/b/c", "/a-b/c", "/a/b", "/a b", "/A", "/a/b", "/\u{e9}", "/a.b/x"];
    let mut expected: Vec<PathBuf> = paths.iter().map(PathBuf::from).collect();
    expected.sort();
    expected.dedup();
    let found: Vec<PathBuf> = sorted(&paths).iter().map(PathBuf::from).collect();
    assert_eq!(found, expected);
}

#[test]
fn sorted_paths_depend_on_the_set_of_paths() {
    let one = sorted(&["/m/b", "/m/a", "/e", "/m/a"]);
    assert_eq!(one, ["/e", "/m/a", "/m/b"]);
    assert_eq!(one, sorted(&["/e", "/m/b", "/e", "/m/a"]));
    assert_eq!(one, sorted(&["/m/a", "/m/b", "/e"]));
}
