# cwpack_rs

A MessagePack packer and unpacker built around contexts: a packing context
writes encodings into a byte buffer, an unpacking context decodes one item at
a time; both keep a sticky return code, so that a sequence of calls can be
checked once at the end. A packing context may carry an overflow handler (to
grow or drain the buffer) and a flush handler; an unpacking context may carry
an underflow handler (to bring in more input).

The library in `src/` is verified with Verus:

- `types.rs` – return codes, item type codes, `Blob`, `Container`,
  `TimeSpec`, `ItemValue`, `Item`.
- `bytes.rs` – big-endian byte order, specified and implemented.
- `format.rs` – the encodings the packer produces, as specifications
  (`enc_unsigned`, `enc_str`, `enc_time`, ...) and as executable writers that
  put them in place in the buffer (no allocation per call).
- `pack.rs` – `PackContext`; every operation states, through `packed`/`wrote`,
  the bytes it writes at the cursor, or the error it records. A str, bin or
  ext payload longer than `u32::MAX` bytes cannot have its length recorded and
  is refused as one that does not fit (`RC_BUFFER_OVERFLOW`).
- `decode.rs` – what the unpacker reads: `decode_at` (one item),
  `skip_step`/`skip_run` (skipping), `peek_at` (looking ahead).
- `unpack.rs` – `UnpackContext`; `unpack_next`, `skip_items` and `look_ahead`
  follow those specifications exactly unless the input runs out and an
  underflow handler decides.
- `laws.rs` – proofs that every value the packer writes is unpacked as that
  value (payloads up to `u32::MAX` bytes; larger ones are refused), that
  skipping agrees with unpacking, that looking ahead at a packed item gives
  the type that unpacking it gives, that `pack_signed` of a non-negative value,
  `pack_bin` in compatibility mode and `pack_boolean` write what
  `pack_unsigned`, `pack_str` and `pack_true`/`pack_false` write, and facts
  about which form an encoding takes.

An unpacking context keeps its own copy of the input (so that an underflow
handler can extend it); a decoded str, bin or ext item is a `Blob`, an offset
and a length into that copy, read with `blob_bytes`.

Floating-point values travel through the library as their bit patterns;
`app/` converts them, and holds a throughput benchmark against `rmp`.
