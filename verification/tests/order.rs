use exsync::order::{depth_order, path_order, text_order};

fn strings(v: &[&str]) -> Vec<String> {
    v.iter().map(|s| s.to_string()).collect()
}

#[test]
fn paths_order_by_component() {
    let p = strings(&["b", "a/z", "a.txt", "a", "a/b"]);
    // Component order: "a" < "a/b" < "a/z" < "a.txt" < "b" ('/' is no character of a component).
    assert_eq!(path_order(&p), vec![3, 4, 1, 2, 0]);
}

#[test]
fn texts_order_by_character() {
    let t = strings(&["b", "a/z", "a.txt", "a", "a/b"]);
    // '.' (0x2e) sorts before '/' (0x2f).
    assert_eq!(text_order(&t), vec![3, 2, 4, 1, 0]);
}

#[test]
fn equal_keys_keep_their_order() {
    assert_eq!(path_order(&strings(&["x/./y", "x/y", "x//y"])), vec![0, 1, 2]);
    assert_eq!(text_order(&strings(&["same", "same", "a"])), vec![2, 0, 1]);
    assert_eq!(path_order(&strings(&[])), Vec::<usize>::new());
}

#[test]
fn non_ascii_sorts_after_ascii() {
    assert_eq!(text_order(&strings(&["é", "z", "Z"])), vec![2, 1, 0]);
}

#[test]
fn deeper_paths_come_first() {
    let p = strings(&["/d", "/d/a/b", "/d/a", "/d/c/e", "/d/./a/"]);
    assert_eq!(depth_order(&p), vec![1, 3, 2, 4, 0]);
    assert_eq!(depth_order(&strings(&[])), Vec::<usize>::new());
}
