//! Zeroizing byte storage for password material.
//!
//! The bytes live in a `zeroize::Zeroizing<Vec<u8>>`, which overwrites its
//! contents with zeros when dropped. Every access goes through the small
//! trusted functions below; their contracts describe the stored bytes through
//! [`secret_bytes`].

use vstd::prelude::*;
use zeroize::{Zeroize, Zeroizing};

verus! {

/// A `zeroize::Zeroizing<Vec<u8>>`, held in a private field: Verus cannot declare
/// `Zeroizing` itself, whose type parameter carries a `Zeroize` bound.
#[verifier::external_body]
pub struct SecretBytes {
    bytes: Zeroizing<Vec<u8>>,
}

/// The bytes currently held by a zeroizing vector.
pub uninterp spec fn secret_bytes(secret: SecretBytes) -> Seq<u8>;

/// Calls `Zeroizing::new` on an empty vector; the result holds no bytes.
#[verifier::external_body]
pub(crate) fn new_secret() -> (secret: SecretBytes)
    ensures
        secret_bytes(secret) == Seq::<u8>::empty(),
{
    SecretBytes { bytes: Zeroizing::new(Vec::new()) }
}

/// Appends one byte through `Zeroizing`'s `DerefMut` and `Vec::push`.
#[verifier::external_body]
pub(crate) fn secret_push(secret: &mut SecretBytes, byte: u8)
    requires
        secret_bytes(*old(secret)).len() < isize::MAX,
    ensures
        secret_bytes(*final(secret)) == secret_bytes(*old(secret)).push(byte),
{
    secret.bytes.push(byte);
}

/// The number of bytes held, through `Zeroizing`'s `Deref` and `Vec::len`.
#[verifier::external_body]
pub(crate) fn secret_len(secret: &SecretBytes) -> (length: usize)
    ensures
        length == secret_bytes(*secret).len(),
{
    secret.bytes.len()
}

/// The byte at `index`, through `Zeroizing`'s `Deref` and slice indexing.
#[verifier::external_body]
pub(crate) fn secret_byte(secret: &SecretBytes, index: usize) -> (byte: u8)
    requires
        index < secret_bytes(*secret).len(),
    ensures
        byte == secret_bytes(*secret)[index as int],
{
    secret.bytes[index]
}

/// Overwrites the bytes from `start` on with zeros, through `Zeroizing`'s
/// `DerefMut` and `Zeroize` for `[u8]`; the length is unchanged.
#[verifier::external_body]
fn secret_zeroize_from(secret: &mut SecretBytes, start: usize)
    requires
        start <= secret_bytes(*old(secret)).len(),
    ensures
        secret_bytes(*final(secret)) == secret_bytes(*old(secret)).take(start as int) + Seq::new(
            (secret_bytes(*old(secret)).len() - start) as nat,
            |i: int| 0u8,
        ),
{
    secret.bytes[start..].zeroize();
}

/// Shortens the vector to `length` bytes with `Vec::truncate`, through
/// `Zeroizing`'s `DerefMut`.
#[verifier::external_body]
fn secret_truncate(secret: &mut SecretBytes, length: usize)
    requires
        length <= secret_bytes(*old(secret)).len(),
    ensures
        secret_bytes(*final(secret)) == secret_bytes(*old(secret)).take(length as int),
{
    secret.bytes.truncate(length);
}

/// Overwrites the bytes from `start` on with zeros, then drops them; the first
/// `start` bytes remain.
pub(crate) fn secret_wipe_from(secret: &mut SecretBytes, start: usize)
    requires
        start <= secret_bytes(*old(secret)).len(),
    ensures
        secret_bytes(*final(secret)) == secret_bytes(*old(secret)).take(start as int),
{
    let ghost kept = secret_bytes(*secret).take(start as int);
    secret_zeroize_from(secret, start);
    assert(secret_bytes(*secret).take(start as int) =~= kept);
    secret_truncate(secret, start);
}

/// Calls `Zeroize::zeroize` on the zeroizing vector, which overwrites every byte
/// and the spare capacity with zeros and clears the vector.
#[verifier::external_body]
pub(crate) fn secret_wipe(secret: &mut SecretBytes)
    ensures
        secret_bytes(*final(secret)) == Seq::<u8>::empty(),
{
    secret.bytes.zeroize();
}

/// Borrows the held bytes as a slice, through `Zeroizing`'s `Deref`.
#[verifier::external_body]
pub(crate) fn secret_as_slice(secret: &SecretBytes) -> (bytes: &[u8])
    ensures
        bytes@ == secret_bytes(*secret),
{
    secret.bytes.as_slice()
}

} // verus!
