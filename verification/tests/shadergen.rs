use jc3vrs::shadergen::{
    block_range, canonicalize_index, compile_pass_args, decimal_string, is_blob_header,
    lift_dxbc_text, split_lines,
};

const INDEX: &str = "#include \"b.h\"\n#include \"a.h\"\n\nstatic const uint32_t g_x_IndirectionTable[] = {\n    1,\n    0,\n    1,\n};\nstatic const X g_x_PermutationInfo[] = {\n    { g_x_zzz, 1 },\n    { g_x_aaa, 2 },\n};\n";

#[test]
fn canonical_index_sorts_and_remaps() {
    let out = canonicalize_index(INDEX).expect("canonicalizes");
    let expected = "#include \"a.h\"\n#include \"b.h\"\n\nstatic const uint32_t g_x_IndirectionTable[] = {\n    0,\n    1,\n    0,\n};\nstatic const X g_x_PermutationInfo[] = {\n    { g_x_aaa, 2 },\n    { g_x_zzz, 1 },\n};\n";
    assert_eq!(out, expected);
    // Canonical text is left as it is.
    assert_eq!(canonicalize_index(&out).expect("canonicalizes"), out);
}

#[test]
fn canonical_index_keeps_a_missing_final_newline_missing() {
    let text = INDEX.trim_end_matches('\n');
    let out = canonicalize_index(text).expect("canonicalizes");
    assert!(!out.ends_with('\n'));
    assert!(out.ends_with("};"));
}

#[test]
fn canonical_index_errors() {
    assert_eq!(
        canonicalize_index("nothing here\n"),
        Err("missing a `_IndirectionTable[] = {` declaration".to_string())
    );
    assert_eq!(
        canonicalize_index("a_IndirectionTable[] = {\n    0,\n"),
        Err("unterminated `_IndirectionTable[] = {` array".to_string())
    );
    let bad = INDEX.replace("    0,\n", "    zero,\n");
    assert_eq!(
        canonicalize_index(&bad),
        Err("non-numeric IndirectionTable entry `zero`".to_string())
    );
    let far = INDEX.replace("    0,\n", "    5,\n");
    assert_eq!(canonicalize_index(&far), Err("IndirectionTable entry 5 is out of range".to_string()));
}

#[test]
fn lines_and_blocks() {
    let lines = split_lines("a\r\nb\n\nc");
    assert_eq!(lines, vec!["a", "b", "", "c"]);
    assert_eq!(split_lines("x\n"), vec!["x"]);
    assert!(split_lines("").is_empty());
    let lines: Vec<String> = ["int t[] = {", "1,", "};"].iter().map(|s| s.to_string()).collect();
    assert_eq!(block_range(&lines, "t[] = {"), Ok(1..2));
    assert_eq!(decimal_string(0), "0");
    assert_eq!(decimal_string(1907), "1907");
}

#[test]
fn dxbc_is_lifted_from_the_blob_header() {
    let header = "// generated\nstatic const unsigned char g_abc_data[] = {\n0x44, 0x58, 0x42, 0x43,0x01, junk, 0x1ff,\n};\n";
    assert_eq!(lift_dxbc_text(header, "abc"), Ok(vec![0x44, 0x58, 0x42, 0x43, 0x01]));
    assert_eq!(
        lift_dxbc_text("g_data[] = { 0x00, 0x01 };", "abc"),
        Err("abc: lifted bytes are not a DXBC blob".to_string())
    );
    assert_eq!(
        lift_dxbc_text("no array", "abc"),
        Err("could not find the data array in the blob header".to_string())
    );
    assert_eq!(
        lift_dxbc_text("x_data[] = { 0x44", "abc"),
        Err("unterminated data array in the blob header".to_string())
    );
}

#[test]
fn blob_header_file_names() {
    assert!(is_blob_header("capture_vs_1a2b.h", "capture_vs"));
    assert!(!is_blob_header("capture_vs_permutations.h", "capture_vs"));
    assert!(!is_blob_header("capture_ps_1a2b.h", "capture_vs"));
    assert!(!is_blob_header("capture_vs_1a2b.d", "capture_vs"));
}

#[test]
fn pass_arguments() {
    let args = compile_pass_args("ffx_fsr2_rcas_pass", true, "src", "out", "src/rcas.hlsl");
    assert_eq!(args.len(), 29);
    assert_eq!(args[0], "-reflection");
    assert_eq!(args[20], "-name=ffx_fsr2_rcas_pass_16bit");
    assert_eq!(args[21], "-DFFX_HALF=1");
    assert_eq!(args[24], "-Od");
    assert_eq!(args[26], "src");
    assert_eq!(args[27], "-output=out");
    assert_eq!(args[28], "src/rcas.hlsl");
    let args = compile_pass_args("ffx_fsr2_lock_pass", false, "s", "o", "s/lock.hlsl");
    assert_eq!(args.len(), 28);
    assert_eq!(args[20], "-name=ffx_fsr2_lock_pass");
    assert_eq!(args[21], "-DFFX_HALF=0");
    assert_eq!(args[14], "-DFFX_FSR2_OPTION_REPROJECT_USE_LANCZOS_TYPE={0,1}");
}

#[test]
fn canonical_index_ignores_the_compilers_numbering() {
    // The same three blobs, numbered in another order, with every key naming the same blob.
    let first = "#include \"c.h\"\n#include \"a.h\"\n#include \"b.h\"\nstatic const uint32_t g_x_IndirectionTable[] = {\n    2,\n    0,\n    1,\n    2,\n};\nstatic const X g_x_PermutationInfo[] = {\n    { g_x_mmm, 1 },\n    { g_x_zzz, 2 },\n    { g_x_aaa, 3 },\n};\n";
    let second = "#include \"a.h\"\n#include \"b.h\"\n#include \"c.h\"\nstatic const uint32_t g_x_IndirectionTable[] = {\n    0,\n    2,\n    1,\n    0,\n};\nstatic const X g_x_PermutationInfo[] = {\n    { g_x_aaa, 3 },\n    { g_x_zzz, 2 },\n    { g_x_mmm, 1 },\n};\n";
    let a = canonicalize_index(first).expect("canonicalizes");
    let b = canonicalize_index(second).expect("canonicalizes");
    assert_eq!(a, b);
    assert!(a.contains("= {\n    0,\n    1,\n    2,\n    0,\n};"));
}

#[test]
fn canonical_index_is_left_as_it_is() {
    let crlf = INDEX.replace('\n', "\r\n");
    let once = canonicalize_index(&crlf).expect("canonicalizes");
    assert!(!once.contains('\r'));
    assert_eq!(canonicalize_index(&once).expect("canonicalizes"), once);
    let unterminated = INDEX.trim_end_matches('\n');
    let once = canonicalize_index(unterminated).expect("canonicalizes");
    assert_eq!(canonicalize_index(&once).expect("canonicalizes"), once);
}
