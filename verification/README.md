# logos_blockchain

The rules of a blockchain's channels, service declarations, leadership and
message blending, with their behaviour stated in contracts and proved by Verus.

- `src/utils`: collections with a cap, and hexadecimal text.
- `src/mantle`: notes, channels and the operations on them, their encoding, and
  the laws that the operations keep.
- `src/sdp`: declarations of service providers and the notes locked for them.
- `src/blend`: messages, proofs of leadership quota, epochs and edge nodes of the
  Blend network.
- `src/leader`: which notes and slots a node checks, and what becomes of a win.
- `app`: the tasks around the library, and serialized forms of its types.
- `tests`: the library on concrete values.
