# jc3vrs

The decision logic of a VR mod for Just Cause 3 and of its build tools, written in Verus with
its contracts proved.

- `src/` is the verified library:
  - `gfx`, `tags`: reading Scaleform GFX/SWF files (header, zlib body, tag stream) and decoding
    the tags the examiner understands, ABC constant pools included.
  - `shadergen`, `index_laws`, `dxbc`: making the shader compiler's permutation index
    reproducible (and idempotent), lifting a DXBC blob out of a generated header, and the argument
    handling of the DXBC tool.
  - `eye_resolution`, `resolution`, `back_buffer`: the per-eye render size, the native-resolution
    driver with its deferred resizes and restores, and the ownership of the back buffer.
  - `vr_state`, `pose_control`, `foveation`, `persist`, `previews`, `ui`, `config`: the runtime's
    bring-up and teardown state machine, pose freezing and latching, the foveation stencil test,
    the stored form of runtime handles, and the debug UI's own decisions (tabs, the single-pass
    toggle, sharpening, render traces).
  - `text`: character-level helpers shared by the above (ordering, Unicode whitespace).
- `tests/` runs the library on concrete values.
- `app/` holds what stays outside the proofs: command lines, files, processes, the tar archive,
  the environment, serde forms of the configuration, and the floating-point steps.
