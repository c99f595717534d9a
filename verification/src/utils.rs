//! Identifiers: stable UUIDs for stored objects and MAC addresses for new ports.
use vstd::prelude::*;
use vstd::string::StringExecFns;
use crate::mac::{format_mac, spec_format_mac};

verus! {

/// The name-based (version 5, SHA-1) UUID of `name` in the OID namespace, as bytes.
pub uninterp spec fn spec_uuid_v5_oid(name: Seq<u8>) -> Seq<u8>;

/// Calls `uuid::Uuid::new_v5` with the OID namespace. The result is a function
/// of `name` alone; the uuid crate's builder sets the version nibble to 5 and
/// the RFC 4122 variant bits, which is all that is stated of its bytes.
#[verifier::external_body]
fn uuid_v5_oid(name: &[u8]) -> (r: [u8; 16])
    ensures
        r@ == spec_uuid_v5_oid(name@),
        r@[6] / 16 == 5,
        r@[8] / 64 == 2,
{
    uuid::Uuid::new_v5(&uuid::Uuid::NAMESPACE_OID, name).into_bytes()
}

/// One random byte from the thread-local generator of the rand crate.
#[verifier::external_body]
fn random_byte() -> u8 {
    rand::random::<u8>()
}

/// The key a stable UUID is derived from: `hull:<kind>:<value>:<value>...`.
pub open spec fn stable_key(kind: Seq<char>, values: Seq<Seq<char>>) -> Seq<char>
    decreases values.len(),
{
    if values.len() == 0 {
        "hull:"@ + kind
    } else {
        stable_key(kind, values.drop_last()) + ":"@ + values.last()
    }
}

/// The views of a list of string slices.
pub open spec fn str_views(values: Seq<&str>) -> Seq<Seq<char>> {
    values.map_values(|v: &str| v@)
}

/// The UUID Hull gives an object of `kind` identified by `values`: the same
/// inputs always give the same UUID.
pub fn stable_uuid(kind: &str, values: &[&str]) -> (r: [u8; 16])
    ensures
        r@ == spec_uuid_v5_oid(vstd::utf8::encode_utf8(stable_key(kind@, str_views(values@)))),
        r@[6] / 16 == 5,
        r@[8] / 64 == 2,
{
    let mut key = String::from_str("hull:");
    key.append(kind);
    let mut i: usize = 0;
    while i < values.len()
        invariant
            i <= values@.len(),
            key@ == stable_key(kind@, str_views(values@.take(i as int))),
        decreases values@.len() - i,
    {
        key.append(":");
        key.append(values[i]);
        proof {
            assert(str_views(values@.take(i + 1)).drop_last() =~= str_views(values@.take(i as int)));
        }
        i = i + 1;
    }
    assert(values@.take(values@.len() as int) =~= values@);
    uuid_v5_oid(key.as_str().as_bytes())
}

/// A random locally administered MAC address in the `52:54:00` range.
pub fn generate_random_mac() -> (r: String)
    ensures
        exists|a: u8, b: u8, c: u8| r@ == spec_format_mac(seq![0x52u8, 0x54u8, 0x00u8, a, b, c]),
{
    let a = random_byte();
    let b = random_byte();
    let c = random_byte();
    let bytes: [u8; 6] = [0x52, 0x54, 0x00, a, b, c];
    let r = format_mac(bytes);
    assert(bytes@ =~= seq![0x52u8, 0x54u8, 0x00u8, a, b, c]);
    r
}

} // verus!
