//! The algorithms that a channel can be announced with.

use vstd::prelude::*;
use crate::error::{Error, Res};

verus! {

/// A cipher suite of the TLS registry that packets can be protected with.
#[derive(Clone, Copy, Debug, PartialEq, Eq, Structural)]
pub enum Cipher {
    /// `TLS_AES_128_GCM_SHA256`
    Aes128GcmSha256,
    /// `TLS_AES_256_GCM_SHA384`
    Aes256GcmSha384,
    /// `TLS_CHACHA20_POLY1305_SHA256`
    ChaCha20Poly1305Sha256,
}

/// A hash function.
#[derive(Clone, Copy, Debug, PartialEq, Eq, Structural)]
pub enum HashAlgorithm {
    /// SHA-256, with 32 bytes of output.
    Sha256,
    /// SHA-384, with 48 bytes of output.
    Sha384,
    /// SHA-512, with 64 bytes of output.
    Sha512,
}

/// A hash function, and how much of its output is kept.
#[derive(Clone, Copy, Debug, PartialEq, Eq, Structural)]
pub enum IntegrityHashAlgorithm {
    /// The first bytes of SHA-256.
    Sha256 {
        /// How many bytes are kept.
        output_len: usize,
    },
    /// SHA-384 in full.
    Sha384,
    /// SHA-512 in full.
    Sha512,
}

/// Whether `id` is the number of a cipher suite that packets can be protected
/// with.
pub open spec fn encryption_supported(id: u16) -> bool {
    id == 0x1301 || id == 0x1302 || id == 0x1303
}

/// The cipher suite with the number `id`.
pub open spec fn cipher_of(id: u16) -> Result<Cipher, Error> {
    if id == 0x1301 {
        Ok(Cipher::Aes128GcmSha256)
    } else if id == 0x1302 {
        Ok(Cipher::Aes256GcmSha384)
    } else if id == 0x1303 {
        Ok(Cipher::ChaCha20Poly1305Sha256)
    } else {
        Err(Error::NotAvailable)
    }
}

/// The packet hash with the number `id`.
pub open spec fn integrity_hash_of(id: u16) -> Result<IntegrityHashAlgorithm, Error> {
    if id == 1 {
        Ok(IntegrityHashAlgorithm::Sha256 { output_len: 32 })
    } else if id == 2 {
        Ok(IntegrityHashAlgorithm::Sha256 { output_len: 16 })
    } else if id == 3 {
        Ok(IntegrityHashAlgorithm::Sha256 { output_len: 15 })
    } else if id == 4 {
        Ok(IntegrityHashAlgorithm::Sha256 { output_len: 12 })
    } else if id == 5 {
        Ok(IntegrityHashAlgorithm::Sha256 { output_len: 8 })
    } else if id == 6 {
        Ok(IntegrityHashAlgorithm::Sha256 { output_len: 4 })
    } else if id == 7 {
        Ok(IntegrityHashAlgorithm::Sha384)
    } else if id == 8 {
        Ok(IntegrityHashAlgorithm::Sha512)
    } else {
        Err(Error::NotAvailable)
    }
}

/// The bytes in `s` up to the `len`th.
pub open spec fn truncated(s: Seq<u8>, len: nat) -> Seq<u8> {
    if s.len() <= len {
        s
    } else {
        s.take(len as int)
    }
}

impl IntegrityHashAlgorithm {
    /// The hash function.
    pub open spec fn function(self) -> HashAlgorithm {
        match self {
            IntegrityHashAlgorithm::Sha256 { output_len: _ } => HashAlgorithm::Sha256,
            IntegrityHashAlgorithm::Sha384 => HashAlgorithm::Sha384,
            IntegrityHashAlgorithm::Sha512 => HashAlgorithm::Sha512,
        }
    }

    /// The length of a packet hash.
    pub open spec fn len(self) -> usize {
        match self {
            IntegrityHashAlgorithm::Sha256 { output_len } => output_len,
            IntegrityHashAlgorithm::Sha384 => 48,
            IntegrityHashAlgorithm::Sha512 => 64,
        }
    }

    /// The packet hash with the number `id`.
    pub fn from_id(id: u16) -> (out: Res<Self>)
        ensures
            out == integrity_hash_of(id),
    {
        match id {
            1 => Ok(IntegrityHashAlgorithm::Sha256 { output_len: 32 }),
            2 => Ok(IntegrityHashAlgorithm::Sha256 { output_len: 16 }),
            3 => Ok(IntegrityHashAlgorithm::Sha256 { output_len: 15 }),
            4 => Ok(IntegrityHashAlgorithm::Sha256 { output_len: 12 }),
            5 => Ok(IntegrityHashAlgorithm::Sha256 { output_len: 8 }),
            6 => Ok(IntegrityHashAlgorithm::Sha256 { output_len: 4 }),
            7 => Ok(IntegrityHashAlgorithm::Sha384),
            8 => Ok(IntegrityHashAlgorithm::Sha512),
            _ => Err(Error::NotAvailable),
        }
    }

    /// The length of a packet hash.
    pub fn output_len(self) -> (len: usize)
        ensures
            len == self.len(),
    {
        match self {
            IntegrityHashAlgorithm::Sha256 { output_len } => output_len,
            IntegrityHashAlgorithm::Sha384 => 48,
            IntegrityHashAlgorithm::Sha512 => 64,
        }
    }

    /// The hash function whose output [`Self::hash`] takes.
    pub fn algorithm(self) -> (algorithm: HashAlgorithm)
        ensures
            algorithm == self.function(),
    {
        match self {
            IntegrityHashAlgorithm::Sha256 { output_len: _ } => HashAlgorithm::Sha256,
            IntegrityHashAlgorithm::Sha384 => HashAlgorithm::Sha384,
            IntegrityHashAlgorithm::Sha512 => HashAlgorithm::Sha512,
        }
    }

    /// The packet hash, given what the hash function made of the packet.
    pub fn hash(self, digest: Vec<u8>) -> (out: Vec<u8>)
        ensures
            out@ == truncated(digest@, self.len() as nat),
    {
        let mut digest = digest;
        let output_len = self.output_len();
        if digest.len() > output_len {
            digest.truncate(output_len);
        }
        digest
    }
}

/// The length of the packet hash with the number `id`.
pub fn integrity_hash_len_from_id(id: u16) -> (out: Res<usize>)
    ensures
        out == match integrity_hash_of(id) {
            Ok(algorithm) => Ok::<usize, Error>(algorithm.len()),
            Err(e) => Err(e),
        },
{
    Ok(IntegrityHashAlgorithm::from_id(id)?.output_len())
}

/// Whether packets can be protected with the cipher suite with the number `id`.
pub fn encryption_algorithm_supported(id: u16) -> (supported: bool)
    ensures
        supported == encryption_supported(id),
{
    matches!(id, 0x1301 | 0x1302 | 0x1303)
}

/// Checks that packets can be protected with the cipher suite with the number
/// `id`.
pub fn validate_encryption_algorithm(id: u16) -> (result: Res<()>)
    ensures
        result == if encryption_supported(id) {
            Ok::<(), Error>(())
        } else {
            Err(Error::NotAvailable)
        },
{
    if encryption_algorithm_supported(id) {
        Ok(())
    } else {
        Err(Error::NotAvailable)
    }
}

/// The cipher suite with the number `id`.
pub fn cipher_from_id(id: u16) -> (out: Res<Cipher>)
    ensures
        out == cipher_of(id),
{
    match id {
        0x1301 => Ok(Cipher::Aes128GcmSha256),
        0x1302 => Ok(Cipher::Aes256GcmSha384),
        0x1303 => Ok(Cipher::ChaCha20Poly1305Sha256),
        _ => Err(Error::NotAvailable),
    }
}

/// A cipher suite is supported exactly if there is a cipher for it.
pub proof fn law_supported_has_cipher(id: u16)
    ensures
        encryption_supported(id) <==> cipher_of(id) is Ok,
{
}

/// No packet hash is longer than what its hash function puts out, nor empty.
pub proof fn law_hash_len(id: u16)
    ensures
        integrity_hash_of(id) matches Ok(algorithm) ==> 4 <= algorithm.len()
            && algorithm.len() <= match algorithm.function() {
            HashAlgorithm::Sha256 => 32int,
            HashAlgorithm::Sha384 => 48int,
            HashAlgorithm::Sha512 => 64int,
        },
{
}

} // verus!
