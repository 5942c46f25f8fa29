use std::path::Path;

use tutanak::paths::path_join;

#[test]
fn joins_like_std_path_join() {
    let cases = [("a", "b"), ("a/", "b"), ("a", "/b"), ("", "b"), ("a", ""), ("/x/y", "z/w"), ("~", ".cache")];
    for (base, part) in cases {
        let expected = Path::new(base).join(part).to_string_lossy().into_owned();
        assert_eq!(path_join(base, part), expected, "{base:?} + {part:?}");
    }
    assert_eq!(path_join("a", "b"), "a/b");
    assert_eq!(path_join("a", "/b"), "/b");
    assert_eq!(path_join("a", ""), "a/");
}
