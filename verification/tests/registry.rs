use nuklear_backend_gfx::textures::TextureRegistry;

#[test]
fn registry_starts_empty() {
    let reg = TextureRegistry::new();
    assert_eq!(reg.len(), 0);
    assert_eq!(reg.find_res(1), None);
}

#[test]
fn registry_ids_are_one_based() {
    let mut reg = TextureRegistry::new();
    assert_eq!(reg.add_texture(), 1);
    assert_eq!(reg.add_texture(), 2);
    assert_eq!(reg.add_texture(), 3);
    assert_eq!(reg.len(), 3);
}

#[test]
fn find_res_resolves_only_registered_ids() {
    let mut reg = TextureRegistry::new();
    reg.add_texture();
    reg.add_texture();
    assert_eq!(reg.find_res(-1), None);
    assert_eq!(reg.find_res(0), None);
    assert_eq!(reg.find_res(1), Some(0));
    assert_eq!(reg.find_res(2), Some(1));
    assert_eq!(reg.find_res(3), None);
}

#[test]
fn new_id_resolves_to_newest_slot() {
    let mut reg = TextureRegistry::new();
    for _ in 0..5 {
        let id = reg.add_texture();
        assert_eq!(reg.find_res(id), Some(reg.len() - 1));
    }
}
