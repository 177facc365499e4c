use nuklear_backend_gfx::commands::{
    commands_fit, plan_command, plan_draws, CommandError, DrawCall, DrawCommand,
};
use nuklear_backend_gfx::textures::TextureRegistry;
use nuklear_backend_gfx::GfxBackend;

fn registry_with(count: usize) -> TextureRegistry {
    let mut reg = TextureRegistry::new();
    for _ in 0..count {
        reg.add_texture();
    }
    reg
}

#[test]
fn plan_command_skips_empty_commands() {
    let reg = registry_with(1);
    let cmd = DrawCommand { elem_count: 0, texture_id: Some(9) };
    assert_eq!(plan_command(7, &cmd, &reg), Ok(None));
}

#[test]
fn plan_command_issues_resolved_range() {
    let reg = registry_with(2);
    let cmd = DrawCommand { elem_count: 6, texture_id: Some(2) };
    assert_eq!(
        plan_command(10, &cmd, &reg),
        Ok(Some(DrawCall { start: 10, end: 16, tex_index: 1 }))
    );
}

#[test]
fn plan_command_rejects_missing_id() {
    let reg = registry_with(2);
    let cmd = DrawCommand { elem_count: 3, texture_id: None };
    assert_eq!(plan_command(0, &cmd, &reg), Err(CommandError::MissingTextureId));
}

#[test]
fn plan_command_rejects_unknown_id() {
    let reg = registry_with(2);
    let cmd = DrawCommand { elem_count: 3, texture_id: Some(3) };
    assert_eq!(plan_command(0, &cmd, &reg), Err(CommandError::UnknownTextureId));
    let cmd = DrawCommand { elem_count: 3, texture_id: Some(0) };
    assert_eq!(plan_command(0, &cmd, &reg), Err(CommandError::UnknownTextureId));
}

#[test]
fn plan_draws_empty_list_is_empty() {
    let reg = registry_with(1);
    let cmds: Vec<DrawCommand> = Vec::new();
    assert_eq!(plan_draws(&cmds, &reg), Ok(Vec::new()));
}

#[test]
fn plan_draws_tiles_the_element_buffer() {
    let reg = registry_with(2);
    let cmds = vec![
        DrawCommand { elem_count: 0, texture_id: None },
        DrawCommand { elem_count: 6, texture_id: Some(1) },
        DrawCommand { elem_count: 0, texture_id: Some(2) },
        DrawCommand { elem_count: 3, texture_id: Some(2) },
    ];
    assert!(commands_fit(&cmds));
    assert_eq!(
        plan_draws(&cmds, &reg),
        Ok(vec![
            DrawCall { start: 0, end: 6, tex_index: 0 },
            DrawCall { start: 6, end: 9, tex_index: 1 },
        ])
    );
}

#[test]
fn plan_draws_reports_first_failure() {
    let reg = registry_with(1);
    let cmds = vec![
        DrawCommand { elem_count: 1, texture_id: None },
        DrawCommand { elem_count: 1, texture_id: Some(99) },
    ];
    assert_eq!(plan_draws(&cmds, &reg), Err(CommandError::MissingTextureId));
    let cmds = vec![
        DrawCommand { elem_count: 1, texture_id: Some(99) },
        DrawCommand { elem_count: 1, texture_id: None },
    ];
    assert_eq!(plan_draws(&cmds, &reg), Err(CommandError::UnknownTextureId));
}

#[test]
fn commands_fit_checks_the_element_budget() {
    let cmds = vec![
        DrawCommand { elem_count: u32::MAX - 1, texture_id: Some(1) },
        DrawCommand { elem_count: 1, texture_id: Some(1) },
    ];
    assert!(commands_fit(&cmds));
    let cmds = vec![
        DrawCommand { elem_count: u32::MAX, texture_id: Some(1) },
        DrawCommand { elem_count: 1, texture_id: Some(1) },
    ];
    assert!(!commands_fit(&cmds));
}

#[test]
fn backend_variants_are_distinct() {
    let gl = GfxBackend::OpenGlsl150;
    let dx = GfxBackend::DX11Hlsl;
    assert!(matches!(gl, GfxBackend::OpenGlsl150));
    assert!(matches!(dx, GfxBackend::DX11Hlsl));
}
