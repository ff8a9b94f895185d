use jc3vrs::dxbc::{cstring_check, diagnostics_text, parse_command, Command, ToolError};

fn args(v: &[&str]) -> Vec<String> {
    v.iter().map(|s| s.to_string()).collect()
}

#[test]
fn command_lines() {
    match parse_command(&args(&["compile", "a.hlsl", "main", "ps_5_0"])) {
        Ok(Command::Compile { file, entry, target }) => {
            assert_eq!((file.as_str(), entry.as_str(), target.as_str()), ("a.hlsl", "main", "ps_5_0"));
        }
        _ => panic!("expected compile"),
    }
    match parse_command(&args(&["disasm", "x.dxbc"])) {
        Ok(Command::Disasm { file }) => assert_eq!(file, "x.dxbc"),
        _ => panic!("expected disasm"),
    }
    for bad in [vec![], vec!["compile", "a"], vec!["disasm"], vec!["other", "x"]] {
        assert!(matches!(parse_command(&args(&bad)), Err(ToolError::Usage)));
    }
}

#[test]
fn exit_codes() {
    assert_eq!(ToolError::Usage.exit_code(), 2);
    assert_eq!(ToolError::Stdout("x".into()).exit_code(), 2);
    assert_eq!(ToolError::Read { path: "p".into(), source: "s".into() }.exit_code(), 2);
    assert_eq!(ToolError::Disassemble { hr: 1 }.exit_code(), 4);
    assert_eq!(ToolError::EmptyOutput { op: "D3DCompile" }.exit_code(), 4);
    assert_eq!(ToolError::InteriorNul { path: "p".into() }.exit_code(), 4);
    assert_eq!(ToolError::Compile { hr: 1, diagnostics: String::new() }.exit_code(), 4);
}

#[test]
fn messages() {
    let hr = 0x8000_4005u32 as i32;
    assert_eq!(
        ToolError::Compile { hr, diagnostics: String::new() }.message(),
        "dxbc-tool: compile: D3DCompile failed (hr=0x80004005)"
    );
    assert_eq!(
        ToolError::Compile { hr, diagnostics: "error X3000".into() }.message(),
        "dxbc-tool: compile: D3DCompile failed (hr=0x80004005):\nerror X3000"
    );
    assert_eq!(
        ToolError::Disassemble { hr: 5 }.message(),
        "dxbc-tool: disasm: D3DDisassemble failed (hr=0x00000005)"
    );
    assert_eq!(
        ToolError::EmptyOutput { op: "D3DCompile" }.message(),
        "dxbc-tool: D3DCompile succeeded but produced no output blob"
    );
    assert_eq!(
        ToolError::Read { path: "a.hlsl".into(), source: "not found".into() }.message(),
        "dxbc-tool: cannot read a.hlsl: not found"
    );
    assert_eq!(
        ToolError::Stdout("broken pipe".into()).message(),
        "dxbc-tool: writing to stdout failed: broken pipe"
    );
    assert_eq!(
        ToolError::InteriorNul { path: "a.hlsl".into() }.message(),
        "dxbc-tool: the shader source at a.hlsl contains a NUL byte"
    );
    assert_eq!(
        ToolError::Usage.message(),
        "dxbc-tool: usage: compile <file.hlsl> <entry> <target> | disasm <file.dxbc>"
    );
}

#[test]
fn c_strings_and_diagnostics() {
    assert!(cstring_check("main", "a.hlsl").is_ok());
    match cstring_check("ma\0in", "a.hlsl") {
        Err(ToolError::InteriorNul { path }) => assert_eq!(path, "a.hlsl"),
        _ => panic!("expected an interior NUL"),
    }
    assert_eq!(diagnostics_text(b"error X\r\n\0"), "error X");
    assert_eq!(diagnostics_text(b"\0\n"), "");
    assert_eq!(diagnostics_text(b"a\0b\0"), "a\0b");
}
