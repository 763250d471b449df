# bondrewd_derive

The layout engine of a bitfield derive, verified with Verus.

Given the fields of a structure or of the variants of an enum (their types, the bit
lengths and ranges their attributes ask for, endianness, fill and size rules), the
library decides where each field lives in the byte array, checks that fields do not
collide, gives enum variants their ids and sizes, and computes the masks, shifts and
byte indices that move a value in and out of place (`access`):

- big endian fields and nested bitfields take their bits most significant first
  (`field_access_plan`); packed little endian fields take their value's bytes, the least
  significant first (`field_access_plan_le`); the elements of an array, walked as element
  or block arrays, each get their own plan, dimension by dimension (`gen_array_plans`);
- writing a value through a plan and reading it back gives the value cut to the field's
  width (`law_plan_write_then_read`, `law_le_plan_write_then_read`); writing one field
  leaves what another field with no bit in common reads (`law_write_keeps_other_fields`),
  so writing every field in turn and reading each back gives each value
  (`law_write_fields_then_read`);
- an enum's id is read through the id field's plan and selects the variant with that id,
  or the default variant (`variant_of_id`); writing a variant's id and reading it back
  selects that variant again (`law_variant_id_round_trip`).

## Layout

- `src/` — the verified library. Each public function states in its contract what it
  returns for every input; the `law_*` proof functions state properties that span
  functions (for example that the fields of a solved structure hold disjoint bits, so
  writing one field leaves every other field's value as it was).
- `tests/` — ordinary Rust tests of the library on concrete inputs.
- `app/` — the derive front end: reads `#[bondrewd(..)]` attributes with `syn` and
  `darling`, hands the library plain values, and turns its errors into compile errors.
  From the library's byte plans it generates, with `quote`, `BYTE_SIZE`, `from_bytes`,
  `into_bytes` and the `read_*`/`write_*` functions of structures and enums
  (`derive_bitfields`).
