# parse_pdms_db

Verified decoding of PDMS / E3D database material, written in Verus.

- `src/` is the verified library: the attribute dictionary (`dict`), name hashes
  (`db_tool`), reference numbers (`pdms_types`), the byte-level record helpers
  (`parser::combinator`), implicit and expression attribute decoding
  (`parser::attribute`, `parse_explict_tools`, which also holds the expression
  byte code: a scanner into tokens and the stack machine that prints them), the
  parameter contexts of catalogue expressions (`get_attr`, `param_parse`, `get_attr_tool`, `helper`), incremental
  record classification (`parse_increment_data`) and small data types. Every
  function carries a `requires`/`ensures` contract; the laws that relate several
  functions are public proof functions next to them.
- `tests/` exercises the library on concrete values.
- `app/` is the command-line program and everything that touches files, JSON,
  the command line, file watching, or floating-point numbers.
