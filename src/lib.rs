//! Confidential-asset cloaking and the virtual machine items around it.
//!
//! - `value`, `ct`, `mix`: values (a signed quantity and a flavor scalar), the
//!   constant-time comparisons and selections over them, the oblivious sorter
//!   that groups values by flavor, the merge chain that feeds the pairwise cloak
//!   gates, the wiring of those gates, the relation each gate enforces and the
//!   coefficients of its constraint (`gate`).
//! - `points`, `types`, `encoding`, `program`: data items of the machine's
//!   stack, programs and their bytecode.
//! - `path`: Merkle paths of the utreexo forest and their encoding.

pub mod value;
pub mod ct;
pub mod mix;
pub mod gate;
pub mod encoding;
pub mod points;
pub mod types;
pub mod program;
pub mod path;
