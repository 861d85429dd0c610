use qfind::shaders::{shader_sources, FRAGMENT_BODY, VERTEX_BODY};

#[test]
fn desktop_and_es_shader_headers() {
    let (v, f) = shader_sources(false);
    assert_eq!(v, format!("#version 130\n{VERTEX_BODY}"));
    assert_eq!(f, format!("#version 130\n{FRAGMENT_BODY}"));
    let (v, f) = shader_sources(true);
    assert!(v.starts_with("#version 300 es\n\nin vec2 a_pos;"));
    assert_eq!(f, format!("#version 300 es\nprecision mediump float;\n{FRAGMENT_BODY}"));
    assert!(VERTEX_BODY.contains("gl_Position"));
}
