//! The base image as raw bytes, the integrity gate that admits it, and the
//! patch handle that edits it in place.

use vstd::prelude::*;

use crate::patch::{apply_upto, fit_prefix_len, spec_parse_ips, Ips, PatchError};

verus! {

/// The hash value of a byte buffer, a function of the bytes alone.
pub uninterp spec fn sha1_of(b: Seq<u8>) -> Seq<u8>;

/// Relies on the one-shot `sha1::Sha1` digest (via the `Digest` trait): a
/// 20-byte value that is a function of the input bytes alone.
#[verifier::external_body]
fn sha1_digest(b: &Vec<u8>) -> (r: Vec<u8>)
    ensures
        r@ == sha1_of(b@),
        r@.len() == 20,
{
    let mut hasher = Sha1::new();
    hasher.update(b.as_slice());
    hasher.finalize().to_vec()
}

/// The known-good digest of the supported base image; fixed at build time,
/// not user-configurable.
pub open spec fn spec_reference_digest() -> Seq<u8> {
    seq![
        0xa9u8, 0xac, 0x85, 0x5c, 0x4e, 0xe8, 0xb4, 0x1b, 0x66, 0x1c, 0x35, 0x78, 0xc9, 0x59,
        0xc0, 0x24, 0xf1, 0x06, 0x8c, 0x47,
    ]
}

fn reference_digest() -> (r: Vec<u8>)
    ensures
        r@ == spec_reference_digest(),
{
    let mut v: Vec<u8> = Vec::new();
    v.push(0xa9);
    v.push(0xac);
    v.push(0x85);
    v.push(0x5c);
    v.push(0x4e);
    v.push(0xe8);
    v.push(0xb4);
    v.push(0x1b);
    v.push(0x66);
    v.push(0x1c);
    v.push(0x35);
    v.push(0x78);
    v.push(0xc9);
    v.push(0x59);
    v.push(0xc0);
    v.push(0x24);
    v.push(0xf1);
    v.push(0x06);
    v.push(0x8c);
    v.push(0x47);
    proof {
        assert(v@ =~= spec_reference_digest());
    }
    v
}

/// Compare two byte buffers for equality.
fn bytes_eq(a: &Vec<u8>, b: &Vec<u8>) -> (r: bool)
    ensures
        r == (a@ == b@),
{
    if a.len() != b.len() {
        return false;
    }
    let mut i: usize = 0;
    while i < a.len()
        invariant
            a@.len() == b@.len(),
            i <= a@.len(),
            forall|j: int| 0 <= j < i ==> a@[j] == b@[j],
        decreases a@.len() - i,
    {
        if a[i] != b[i] {
            return false;
        }
        i = i + 1;
    }
    proof {
        assert(a@ =~= b@);
    }
    true
}

/// The raw bytes of the base executable image.
#[derive(Debug, Clone)]
pub struct Rom {
    pub bytes: Vec<u8>,
}

impl Rom {
    /// The integrity gate: accept exactly when the digest of `bytes` equals
    /// the known-good reference value.
    pub fn verify_hash(bytes: &Vec<u8>) -> (r: bool)
        ensures
            r == (sha1_of(bytes@) == spec_reference_digest()),
    {
        let d = sha1_digest(bytes);
        let reference = reference_digest();
        bytes_eq(&d, &reference)
    }
}

/// A patch file bound to the engine that applies it to a base image.
#[derive(Debug, Clone)]
pub struct Patch {
    ips_file: Ips,
}

impl View for Patch {
    type V = Seq<u8>;

    /// The raw bytes of the held patch file.
    closed spec fn view(&self) -> Seq<u8> {
        self.ips_file.bytes@
    }
}

impl Patch {
    pub fn new(bytes: Vec<u8>) -> (s: Self)
        ensures
            s@ == bytes@,
    {
        Patch { ips_file: Ips::new(bytes) }
    }

    /// Decode the held patch file and apply its records, in order, to the
    /// image bytes of `rom`.
    pub fn apply_to(&mut self, rom: &mut Rom) -> (r: Result<(), PatchError>)
        ensures
            final(self)@ == old(self)@,
            final(rom).bytes@.len() == old(rom).bytes@.len(),
            spec_parse_ips(old(self)@) is None ==> r == Err::<(), PatchError>(
                PatchError::MalformedPatch,
            ) && final(rom).bytes@ == old(rom).bytes@,
            spec_parse_ips(old(self)@) matches Some(rs) ==> {
                &&& final(rom).bytes@ == apply_upto(
                    old(rom).bytes@,
                    rs,
                    fit_prefix_len(old(rom).bytes@.len() as int, rs),
                )
                &&& (r is Ok <==> fit_prefix_len(old(rom).bytes@.len() as int, rs) == rs.len())
                &&& (r is Err ==> r == Err::<(), PatchError>(PatchError::PatchOutOfBounds))
            },
    {
        self.ips_file.apply_to(&mut rom.bytes)
    }
}

} // verus!

use sha1::{Digest, Sha1};
