use neosurv::models::material_libraries;

#[test]
fn material_libraries_are_read_from_mtllib_lines() {
    let source = "# exported\nmtllib weapon.mtl\nv 0 0 0\nmtllib   hands.mtl  \r\nmtllib \nusemtl steel\n  mtllib indented.mtl\nmtllib last.mtl";
    assert_eq!(material_libraries(source), vec!["weapon.mtl", "hands.mtl", "last.mtl"]);
    assert!(material_libraries("").is_empty());
    assert!(material_libraries("mtllib\n").is_empty());
}
