# assembler

An assembler for a small 16-bit CPU, with its own hash map and linked list,
written in Verus and proved against its specification.

- `src/semantics.rs` states what a program assembles to, over sequences of
  characters; `src/assembler.rs` is proved to compute exactly that.
- `src/machine_code.rs`: every instruction assembles to one 16-bit word, and a
  word converts to hex without error and keeps its value.
- `src/expansion.rs`: the lines that a large immediate expands into load exactly
  that immediate, and never expand again.
- `src/util.rs`, `src/text.rs`: reading lines, words, registers and numbers.
- `src/binary_to_hex.rs`: the Logisim hex image of the machine code.
- `src/hash_map.rs`, `src/hash.rs`, `src/pair.rs`: a chained hash map whose view
  is a `Map`; `src/linked_list.rs`, `src/node.rs`: a singly linked list whose view
  is a `Seq`.
- `app/main.rs`: the program around the library (files, printing).
