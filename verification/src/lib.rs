//! A chunked object-storage engine.
//!
//! Clients upload large binary objects in bounded-size pieces (chunks),
//! commit them into immutable assets after an ownership and integrity
//! check, and read them back block by block over a streaming protocol
//! with an explicit continuation token.  All tables are backed by named
//! durable memory regions so that the stores survive a full process
//! restart; transient counters are serialized into a reserved region
//! before shutdown and restored on startup.

pub mod codec;
pub mod commit;
pub mod crc;
pub mod http;
pub mod laws;
pub mod sort;
pub mod stable;
pub mod state;
pub mod types;
pub mod upgrade;
pub mod url;

use vstd::prelude::*;

verus! {

/// The modulus of the order-independent aggregate checksum: a batch's
/// aggregate is the sum of its chunks' CRC-32 values modulo this constant.
pub const CHECKSUM_MODULO: u32 = 400_000_000;

/// How long an uncommitted chunk lives before garbage collection may
/// remove it, in nanoseconds (ten minutes).
pub const CHUNK_TTL_NANOS: u64 = 600_000_000_000;

} // verus!
