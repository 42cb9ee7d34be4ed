use disk_maint::path::{components, file_name, join, path_less, paths_equal, starts_with};
use disk_maint::rust::discover::{workspace_roots, ManifestFile};
use disk_maint::sort::{sort_paths, sort_strings};

fn texts(p: &str) -> Vec<String> {
    components(p).into_iter().map(|c| c.into_iter().collect()).collect()
}

#[test]
fn splits_paths_into_components() {
    assert_eq!(texts("/a//b/./c/"), vec!["/", "a", "b", "c"]);
    assert_eq!(texts("./a/../b"), vec![".", "a", "..", "b"]);
    assert_eq!(texts("a/."), vec!["a"]);
    assert_eq!(texts("."), vec!["."]);
    assert_eq!(texts(""), Vec::<String>::new());
}

#[test]
fn matches_std_path_semantics() {
    let samples = ["/", "/a", "/a/", "a//b", "./a", ".", "..", "a/..", "", "/tmp/x/target", "b", "a-b", "a/b", "a b"];
    for a in samples {
        for b in samples {
            let pa = std::path::Path::new(a);
            let pb = std::path::Path::new(b);
            assert_eq!(paths_equal(a, b), pa == pb, "{a:?} == {b:?}");
            assert_eq!(starts_with(a, b), pa.starts_with(pb), "{a:?} starts with {b:?}");
            assert_eq!(path_less(a, b), pa < pb, "{a:?} < {b:?}");
            assert_eq!(join(a, b), pa.join(pb).to_string_lossy(), "{a:?} join {b:?}");
        }
        let expected = std::path::Path::new(a).file_name().map(|n| n.to_string_lossy().into_owned());
        assert_eq!(file_name(a).map(|v| v.into_iter().collect::<String>()), expected, "{a:?}");
        let manifest = ManifestFile { path: a.to_string(), contents: "[workspace]\n".to_string() };
        let expected = match std::path::Path::new(a).parent() {
            Some(dir) => Ok(vec![dir.to_string_lossy().into_owned()]),
            None => Err(format!("manifest has no parent: {a}")),
        };
        assert_eq!(workspace_roots(&[manifest]), expected, "{a:?}");
    }
}

#[test]
fn sorts_paths_by_components_and_strings_by_code_points() {
    let paths = vec!["a-b".to_string(), "a/b".to_string(), "/z".to_string(), "a".to_string()];
    assert_eq!(
        sort_paths(&paths),
        vec!["/z".to_string(), "a".to_string(), "a/b".to_string(), "a-b".to_string()]
    );
    assert_eq!(
        sort_strings(&paths),
        vec!["/z".to_string(), "a".to_string(), "a-b".to_string(), "a/b".to_string()]
    );
}

#[test]
fn sort_keeps_the_order_of_equal_paths() {
    let paths = vec!["b".to_string(), "a/".to_string(), "./x".to_string(), "a".to_string(), "a//".to_string()];
    assert_eq!(
        sort_paths(&paths),
        vec!["./x".to_string(), "a/".to_string(), "a".to_string(), "a//".to_string(), "b".to_string()]
    );
}
