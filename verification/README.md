# builtin_cast

The value rules of the SQL `CAST` builtins, verified with Verus.

- `src/` — the verified library:
  - `field_type` — column type description (`FieldType`), type codes, the
    unsigned flag, UTF-8 character sets, the length/decimal target of numeric
    fitting;
  - `context` — how truncation is treated (`StatementContext`);
  - `text` — fitting a text to a column (`produce_str_with_specified_tp`), with
    the laws that fitting is idempotent, bounded by the column length, and only
    fails when truncation is an error;
  - `utf8_check` — checking that bytes are valid UTF-8;
  - `utf8_scan` — counting characters and finding where a character starts in
    UTF-8 bytes, proved against the UTF-8 model of `vstd`;
  - `int_text` — decimal text of integers, with the law that it reads back;
  - `res` — what a truncated or overflowed conversion yields;
  - `cast` — the casts whose work is all rules: integer and string to string,
    string to JSON, integer to JSON, the sign test of string-to-integer, the JSON
    precision of times.
- `app/` — the casts on the expression evaluator: argument evaluation, decimal,
  time, duration and JSON arithmetic and floating point, calling the library for
  every decision.
- `tests/` — tests of the library on concrete values.
