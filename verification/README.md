# six

The toolchain of the `.six` language, with its logic proved correct by Verus.

- `src/` is the verified library:
  - `lexer`, `parser`, `ast`: source text to tokens to syntax tree, each step
    proved equal to a specification of the grammar;
  - `compiler`, `interface`, `obfuscate`: bytecode generation, the library
    header, and the renaming of symbols to generated codes;
  - `vm`, `num`: the bytecode machine, one instruction at a time, on
    arbitrary-size integers (`num-bigint`);
  - `binary`: the `SIX!` container of `.siz` files;
  - `package`, `report`, `text`: the installer's checks (package file
    names, signature checks, `six.toml` dependencies), error-report texts
    and lines, and string helpers;
  - `parse_end`: the proof that parsing reads nothing past the first
    end-of-input token.
- `tests/` exercises the library on concrete programs.
- `app/` is the command line (`tokens`, `build`, `lib`, `run`, `install`,
  `load-libs`): file and network I/O, JSON, the native security core, and
  the loop that runs the machine and performs what each step asks for.
