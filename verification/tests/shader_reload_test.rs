use rts_engine::shader_reload::{pipelines_to_reload, Pipeline};

fn names(v: &[&str]) -> Vec<String> {
    v.iter().map(|s| s.to_string()).collect()
}

#[test]
fn shared_vertex_shader_reloads_both_post_pipelines() {
    assert_eq!(pipelines_to_reload(&names(&["post.vert"])), vec![Pipeline::PostUi, Pipeline::PostFxaa]);
}

#[test]
fn each_pipeline_once_in_reload_order() {
    let r = pipelines_to_reload(&names(&["water.frag", "heightmap.vert", "water.vert", "heightmap.frag", "post_fxaa.frag"]));
    assert_eq!(r, vec![Pipeline::PostFxaa, Pipeline::Heightmap, Pipeline::Water]);
}

#[test]
fn unrelated_files_reload_nothing() {
    assert!(pipelines_to_reload(&names(&["readme.md", "heightmap.frag.spirv"])).is_empty());
    assert!(pipelines_to_reload(&vec![]).is_empty());
}

#[test]
fn every_shader_file_names_its_pipeline() {
    let all = names(&[
        "post_ui.frag", "post_fxaa.frag", "heightmap.vert", "cube_instanced.frag", "arrow.vert",
        "health_bar.frag", "unit_icon.vert", "explosion.frag", "line.vert", "water.frag",
    ]);
    assert_eq!(pipelines_to_reload(&all).len(), 10);
    assert_eq!(pipelines_to_reload(&names(&["unit_icon.frag"])), vec![Pipeline::UnitIcon]);
    assert_eq!(pipelines_to_reload(&names(&["line.frag"])), vec![Pipeline::Line]);
}
