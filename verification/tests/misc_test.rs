use rts_engine::glsl_compiler::{spirv_bytes, ShaderCompilationError, ShaderStage};
use rts_engine::botdef::BotDefTag;
use rts_engine::moddef::ModDef;
use rts_engine::uitool::UiTool;
use rts_engine::utils::Id;
use rts_engine::EventLoopMsg;

#[test]
fn shader_error_text() {
    let e = ShaderCompilationError { msg: "line 3: bad token".to_string() };
    assert_eq!(e.to_string(), "shader compilation error line 3: bad token");
}

#[test]
fn shader_stages_differ() {
    assert!(ShaderStage::Vertex != ShaderStage::Fragment);
    assert!(ShaderStage::Compute == ShaderStage::Compute);
    assert!(rts_engine::framework::ShaderStage::Vertex != rts_engine::framework::ShaderStage::Compute);
}

#[test]
fn event_loop_stop() {
    assert!(EventLoopMsg::Stop == EventLoopMsg::Stop);
}

#[test]
fn spirv_words_become_little_endian_bytes() {
    let bytes = spirv_bytes(&vec![0x0403_0201, 0xAABB_CCDD]);
    assert_eq!(bytes, vec![1, 2, 3, 4, 0xDD, 0xCC, 0xBB, 0xAA]);
    assert!(spirv_bytes(&vec![]).is_empty());
}

#[test]
fn ui_tools_compare_by_kind_and_bot() {
    let a: Id<BotDefTag> = Id::new(3);
    let b: Id<BotDefTag> = Id::new(4);
    assert!(UiTool::Spawn(a) == UiTool::Spawn(Id::new(3)));
    assert!(UiTool::Spawn(a) != UiTool::Spawn(b));
    assert!(UiTool::Move != UiTool::NoTool);
}

#[test]
fn new_mod_offers_nothing() {
    let m = ModDef::new();
    assert!(m.units_id.is_empty());
    assert!(m.con_map.is_empty());
}
