//! The DXBC compile/disassemble harness's logic: the command line it accepts, its errors with their
//! exit codes and messages, the C-string check on its arguments and the cleanup of a compiler's
//! diagnostics. The compiler calls and the file and stdout I/O live with the caller.
use crate::text::{chars_of, push_char, same_text, texts};
use vstd::prelude::*;
use vstd::string::StringExecFns;

verus! {

/// A tool error, carrying the exit code its category maps to.
pub enum ToolError {
    Usage,
    Read { path: String, source: String },
    Stdout(String),
    Compile { hr: i32, diagnostics: String },
    Disassemble { hr: i32 },
    EmptyOutput { op: &'static str },
    InteriorNul { path: String },
}

/// What the command line asks for.
pub enum Command {
    /// Compile an HLSL file's entry point for a target profile.
    Compile { file: String, entry: String, target: String },
    /// Disassemble a DXBC file.
    Disasm { file: String },
}

/// The exit code of an error: 2 for usage and I/O errors, 4 for compiler errors.
pub open spec fn exit_code_of(e: ToolError) -> u8 {
    match e {
        ToolError::Usage => 2,
        ToolError::Read { .. } => 2,
        ToolError::Stdout(_) => 2,
        _ => 4,
    }
}

/// The lowercase hexadecimal digit for `d` (below 16).
pub open spec fn hex_char(d: int) -> char {
    if d < 10 {
        (48 + d) as char
    } else {
        (87 + d) as char
    }
}

/// The last `n` hexadecimal digits of `x`, most significant first, zero-padded.
pub open spec fn hex_tail(x: nat, n: nat) -> Seq<char>
    decreases n,
{
    if n == 0 {
        Seq::empty()
    } else {
        hex_tail(x / 16, (n - 1) as nat).push(hex_char((x % 16) as int))
    }
}

/// A 32-bit value as eight lowercase hexadecimal digits (a negative result code as its two's
/// complement).
pub open spec fn hex8(hr: i32) -> Seq<char> {
    hex_tail((hr as u32) as nat, 8)
}

/// The message an error prints.
pub open spec fn message_of(e: ToolError) -> Seq<char> {
    match e {
        ToolError::Usage => "dxbc-tool: usage: compile <file.hlsl> <entry> <target> | disasm <file.dxbc>"@,
        ToolError::Read { path, source } => "dxbc-tool: cannot read "@ + path@ + ": "@ + source@,
        ToolError::Stdout(source) => "dxbc-tool: writing to stdout failed: "@ + source@,
        ToolError::Compile { hr, diagnostics } => if diagnostics@.len() == 0 {
            "dxbc-tool: compile: D3DCompile failed (hr=0x"@ + hex8(hr) + ")"@
        } else {
            "dxbc-tool: compile: D3DCompile failed (hr=0x"@ + hex8(hr) + "):\n"@ + diagnostics@
        },
        ToolError::Disassemble { hr } => "dxbc-tool: disasm: D3DDisassemble failed (hr=0x"@ + hex8(
            hr,
        ) + ")"@,
        ToolError::EmptyOutput { op } => "dxbc-tool: "@ + op@ + " succeeded but produced no output blob"@,
        ToolError::InteriorNul { path } => "dxbc-tool: the shader source at "@ + path@
            + " contains a NUL byte"@,
    }
}

/// Eight lowercase hexadecimal digits of a result code (see `hex8`).
fn hex8_string(hr: i32) -> (s: String)
    ensures
        s@ == hex8(hr),
{
    let v: u32 = hr as u32;
    let mut x: u32 = v;
    let mut digits: Vec<char> = Vec::new();
    let mut i: usize = 0;
    while i < 8
        invariant
            i <= 8,
            v == hr as u32,
            hex_tail(v as nat, 8) == hex_tail(x as nat, (8 - i) as nat) + digits@,
        decreases 8 - i,
    {
        let d = (x % 16) as u8;
        let c: char = if d < 10 {
            (48u8 + d) as char
        } else {
            (87u8 + d) as char
        };
        proof {
            assert(c == hex_char((x % 16) as int));
            assert(hex_tail(x as nat, (8 - i) as nat) == hex_tail((x / 16) as nat, (8 - i - 1) as nat).push(
                c,
            ));
            assert(hex_tail((x / 16) as nat, (8 - i - 1) as nat).push(c) + digits@ =~= hex_tail(
                (x / 16) as nat,
                (8 - i - 1) as nat,
            ) + (seq![c] + digits@));
        }
        digits.insert(0, c);
        x = x / 16;
        i = i + 1;
    }
    proof {
        assert(hex_tail(x as nat, 0) + digits@ =~= digits@);
    }
    crate::text::string_from_chars(&digits)
}

impl ToolError {
    /// The exit code this error maps to (see `exit_code_of`).
    pub fn exit_code(&self) -> (c: u8)
        ensures
            c == exit_code_of(*self),
    {
        match self {
            ToolError::Usage | ToolError::Read { .. } | ToolError::Stdout(_) => 2,
            ToolError::Compile { .. }
            | ToolError::Disassemble { .. }
            | ToolError::EmptyOutput { .. }
            | ToolError::InteriorNul { .. } => 4,
        }
    }

    /// The message this error prints (see `message_of`).
    pub fn message(&self) -> (m: String)
        ensures
            m@ == message_of(*self),
    {
        match self {
            ToolError::Usage => String::from_str(
                "dxbc-tool: usage: compile <file.hlsl> <entry> <target> | disasm <file.dxbc>",
            ),
            ToolError::Read { path, source } => {
                let mut m = String::from_str("dxbc-tool: cannot read ");
                m.append(path.as_str());
                m.append(": ");
                m.append(source.as_str());
                m
            },
            ToolError::Stdout(source) => {
                let mut m = String::from_str("dxbc-tool: writing to stdout failed: ");
                m.append(source.as_str());
                m
            },
            ToolError::Compile { hr, diagnostics } => {
                let mut m = String::from_str("dxbc-tool: compile: D3DCompile failed (hr=0x");
                let h = hex8_string(*hr);
                m.append(h.as_str());
                let d = chars_of(diagnostics.as_str());
                if d.len() == 0 {
                    m.append(")");
                } else {
                    m.append("):\n");
                    m.append(diagnostics.as_str());
                }
                m
            },
            ToolError::Disassemble { hr } => {
                let mut m = String::from_str("dxbc-tool: disasm: D3DDisassemble failed (hr=0x");
                let h = hex8_string(*hr);
                m.append(h.as_str());
                m.append(")");
                m
            },
            ToolError::EmptyOutput { op } => {
                let mut m = String::from_str("dxbc-tool: ");
                m.append(op);
                m.append(" succeeded but produced no output blob");
                m
            },
            ToolError::InteriorNul { path } => {
                let mut m = String::from_str("dxbc-tool: the shader source at ");
                m.append(path.as_str());
                m.append(" contains a NUL byte");
                m
            },
        }
    }
}

/// What a command line (the arguments after the program name) asks for: `compile` with exactly
/// three more arguments, or `disasm` with exactly one; anything else is a usage error.
pub fn parse_command(args: &Vec<String>) -> (r: Result<Command, ToolError>)
    ensures
        match r {
            Ok(Command::Compile { file, entry, target }) => texts(args@).len() == 4 && texts(
                args@,
            )[0] == "compile"@ && file@ == texts(args@)[1] && entry@ == texts(args@)[2]
                && target@ == texts(args@)[3],
            Ok(Command::Disasm { file }) => texts(args@).len() == 2 && texts(args@)[0]
                == "disasm"@ && file@ == texts(args@)[1],
            Err(e) => e is Usage && !(texts(args@).len() == 4 && texts(args@)[0] == "compile"@)
                && !(texts(args@).len() == 2 && texts(args@)[0] == "disasm"@),
        },
{
    if args.len() == 0 {
        return Err(ToolError::Usage);
    }
    let first = chars_of(args[0].as_str());
    let is_compile = same_text(&first, &chars_of("compile"));
    let is_disasm = same_text(&first, &chars_of("disasm"));
    if is_compile && args.len() == 4 {
        Ok(
            Command::Compile {
                file: args[1].clone(),
                entry: args[2].clone(),
                target: args[3].clone(),
            },
        )
    } else if is_disasm && args.len() == 2 {
        Ok(Command::Disasm { file: args[1].clone() })
    } else {
        Err(ToolError::Usage)
    }
}

/// Check that an argument can be handed to the compiler as a C string: an interior NUL byte is
/// refused (reported against `path`) rather than silently cutting the string short.
pub fn cstring_check(s: &str, path: &str) -> (r: Result<(), ToolError>)
    ensures
        match r {
            Ok(()) => !s@.contains('\0'),
            Err(ToolError::InteriorNul { path: p }) => s@.contains('\0') && p@ == path@,
            Err(_) => false,
        },
{
    let cs = chars_of(s);
    let mut i: usize = 0;
    while i < cs.len()
        invariant
            i <= cs@.len(),
            cs@ == s@,
            forall|k: int| 0 <= k < i ==> cs@[k] != '\0',
        decreases cs@.len() - i,
    {
        if cs[i] == '\0' {
            proof {
                assert(s@[i as int] == '\0');
            }
            return Err(ToolError::InteriorNul { path: String::from_str(path) });
        }
        i = i + 1;
    }
    Ok(())
}

/// Whether a character is trimmed off the end of a diagnostics text.
pub open spec fn trailing_junk(c: char) -> bool {
    c == '\0' || c == '\n' || c == '\r'
}

/// A text with its trailing NULs and line breaks trimmed off.
pub open spec fn trim_trailing(s: Seq<char>) -> Seq<char>
    decreases s.len(),
{
    if s.len() > 0 && trailing_junk(s.last()) {
        trim_trailing(s.drop_last())
    } else {
        s
    }
}

/// A compiler's diagnostics blob as text: decoded as UTF-8 (invalid sequences replaced), with the
/// C string's trailing NUL and any trailing line breaks trimmed off.
pub fn diagnostics_text(bytes: &[u8]) -> (s: String)
    ensures
        s@ == trim_trailing(crate::gfx::utf8_lossy(bytes@)),
{
    let full = crate::gfx::lossy_string(bytes);
    let cs = chars_of(full.as_str());
    let mut n: usize = cs.len();
    proof {
        assert(cs@.take(n as int) =~= cs@);
    }
    while n > 0 && (cs[n - 1] == '\0' || cs[n - 1] == '\n' || cs[n - 1] == '\r')
        invariant
            n <= cs@.len(),
            trim_trailing(cs@) == trim_trailing(cs@.take(n as int)),
        decreases n,
    {
        proof {
            assert(cs@.take(n as int).drop_last() =~= cs@.take(n - 1));
        }
        n = n - 1;
    }
    let mut out = String::new();
    let mut i: usize = 0;
    while i < n
        invariant
            i <= n <= cs@.len(),
            out@ == cs@.take(i as int),
        decreases n - i,
    {
        push_char(&mut out, cs[i]);
        proof {
            assert(cs@.take(i + 1) =~= cs@.take(i as int).push(cs@[i as int]));
        }
        i = i + 1;
    }
    proof {
        assert(trim_trailing(cs@.take(n as int)) == cs@.take(n as int));
    }
    out
}

} // verus!
