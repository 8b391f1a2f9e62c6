use cqx::vfs::Vfs;

#[test]
fn a_path_is_found_however_it_is_spelled() {
    let mut vfs = Vfs::new("test");
    vfs.insert("./src\\lib.rs", "x");
    assert_eq!(vfs.read("/src/lib.rs").map(|s| s.as_str()), Some("x"));
}
