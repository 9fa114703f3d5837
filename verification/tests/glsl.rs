use touchhle::glsl::{strip_precision_qualifiers, translate_glsl_es_300_to_330, translate_glsl_es_to_120};

#[test]
fn rewrites_version_directive() {
    let src = "#version 100\nvoid main() {}\n";
    let out = translate_glsl_es_to_120(src);
    assert!(out.starts_with("#version 120\n"));
    assert!(out.contains("void main()"));
}

#[test]
fn strips_precision_lines() {
    let src = "precision mediump float;\nprecision highp int;\nvoid main(){}\n";
    let out = translate_glsl_es_to_120(src);
    assert!(!out.contains("precision mediump"));
    assert!(!out.contains("precision highp"));
}

#[test]
fn strips_inline_qualifiers() {
    let src = "varying lowp vec4 DestinationColor;\n";
    let out = translate_glsl_es_to_120(src);
    assert!(out.contains("varying vec4 DestinationColor;"));
    assert!(!out.contains("lowp"));
}

#[test]
fn preserves_non_qualifier_identifiers() {
    let src = "uniform float highpassCutoff;\n";
    let out = translate_glsl_es_to_120(src);
    assert!(out.contains("highpassCutoff"));
}

#[test]
fn glsl_exact_output_for_small_shader() {
    let src = "precision mediump float;\r\nvarying lowp vec4 c;\nvoid main() { gl_FragColor = c; }";
    let out = translate_glsl_es_to_120(src);
    assert_eq!(
        out,
        "#version 120\nvarying vec4 c;\nvoid main() { gl_FragColor = c; }\n"
    );
}

#[test]
fn glsl_330_replaces_es_directive() {
    let out = translate_glsl_es_300_to_330("#version 300 es\nout highp vec4 color;\n");
    assert_eq!(out, "#version 330 core\nout vec4 color;\n");
}

#[test]
fn glsl_empty_source_gets_directive() {
    assert_eq!(translate_glsl_es_to_120(""), "#version 120\n");
}

#[test]
fn glsl_directive_precedes_leading_comment() {
    let out = translate_glsl_es_to_120("// hi\nvoid main(){}\n");
    assert_eq!(out, "#version 120\n// hi\nvoid main(){}\n");
    let out = translate_glsl_es_to_120("// c\n#version 100\nf();");
    assert_eq!(out, "#version 120\n// c\nf();\n");
    assert!(translate_glsl_es_to_120("// c\nf();").starts_with("#version 120\n"));
}

#[test]
fn glsl_qualifier_at_line_end_leaves_no_space() {
    let out = translate_glsl_es_to_120("a lowp\nx mediump  y\n");
    assert_eq!(out, "#version 120\na \nx y\n");
}

#[test]
fn glsl_non_ascii_text_is_kept() {
    assert_eq!(strip_precision_qualifiers("// é lowp x"), "// é x");
    assert_eq!(strip_precision_qualifiers("// café"), "// café");
    let out = translate_glsl_es_to_120("void main() {} // naïve highp\n");
    assert_eq!(out, "#version 120\nvoid main() {} // naïve \n");
}
