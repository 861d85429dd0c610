//! The shader sources of the storage chart's GPU renderer.  Both bodies
//! compile as desktop GLSL 1.30 and as GLSL ES 3.00; the ES fragment
//! shader also needs a default float precision.

use vstd::prelude::*;

use crate::text::{owned, push_text};

verus! {

/// The vertex shader body, without its version line.
pub const VERTEX_BODY: &'static str = "
in vec2 a_pos;
in vec3 a_color;
in float a_id;
out vec3 v_color;
out float v_id;
uniform vec2 u_center;
uniform float u_scale;
uniform vec2 u_viewport;
void main() {
    v_color = a_color;
    v_id = a_id;
    vec2 px = a_pos * u_scale + u_center;
    gl_Position = vec4(
        px.x / u_viewport.x * 2.0 - 1.0,
        1.0 - px.y / u_viewport.y * 2.0,
        0.0,
        1.0
    );
}";

/// The fragment shader body, without its version line.
pub const FRAGMENT_BODY: &'static str = "
in vec3 v_color;
in float v_id;
out vec4 f_color;
void main() {
    f_color = vec4(v_color, 1.0);
}";

/// The vertex and fragment shader sources for an ES (`es`) or a desktop
/// context.
pub fn shader_sources(es: bool) -> (r: (String, String))
    ensures
        es ==> r.0@ == "#version 300 es\n"@ + VERTEX_BODY@,
        es ==> r.1@ == "#version 300 es\nprecision mediump float;\n"@ + FRAGMENT_BODY@,
        !es ==> r.0@ == "#version 130\n"@ + VERTEX_BODY@,
        !es ==> r.1@ == "#version 130\n"@ + FRAGMENT_BODY@,
{
    if es {
        let mut vertex = owned("#version 300 es\n");
        push_text(&mut vertex, VERTEX_BODY);
        let mut fragment = owned("#version 300 es\nprecision mediump float;\n");
        push_text(&mut fragment, FRAGMENT_BODY);
        (vertex, fragment)
    } else {
        let mut vertex = owned("#version 130\n");
        push_text(&mut vertex, VERTEX_BODY);
        let mut fragment = owned("#version 130\n");
        push_text(&mut fragment, FRAGMENT_BODY);
        (vertex, fragment)
    }
}

} // verus!
