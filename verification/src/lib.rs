use vstd::prelude::*;

pub mod assembler;
pub mod binary_to_hex;
pub mod encoding;
pub mod expansion;
pub mod hash;
pub mod hash_map;
pub mod linked_list;
pub mod machine_code;
pub mod node;
pub mod reading;
pub mod pair;
pub mod semantics;
pub mod text;
pub mod util;

verus! {
}
