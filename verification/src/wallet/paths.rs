//! Where a wallet keeps its files.
//!
//! Each passphrase has its own pair of files, named after a digest of the
//! passphrase so that the name gives nothing of it away.

use crate::crypto::{sha256, sha256_digest};
use crate::encoding::{hex_encode, hex_lower};
use vstd::prelude::*;
use vstd::slice::slice_subrange;
use vstd::string::*;
use vstd::utf8::encode_utf8;

verus! {

/// The files of one wallet, relative to the working directory, with `/`
/// between directory and file.
#[derive(Debug)]
pub struct WalletPaths {
    /// The sealed mnemonic.
    pub mnemonic_path: String,
    /// The address ledger.
    pub wallet_path: String,
}

/// The directory that holds every wallet's files.
pub open spec fn persistence_dir() -> Seq<char> {
    "pers"@
}

/// The tag that names the files of a passphrase: the first 16 bytes of its
/// SHA-256 digest in lowercase hexadecimal.
pub open spec fn password_tag(password: Seq<char>) -> Seq<char> {
    hex_lower(sha256(encode_utf8(password)).subrange(0, 16))
}

impl WalletPaths {
    /// The files of the wallet with this passphrase. The directory that is
    /// to hold them is `persistence_directory()`.
    pub fn from_password(password: &str) -> (paths: Self)
        ensures
            paths.mnemonic_path@ == "pers/mnemonic_"@ + password_tag(password@) + ".dat"@,
            paths.wallet_path@ == "pers/wallet_"@ + password_tag(password@) + ".sqlite"@,
    {
        let digest = sha256_digest(password.as_bytes());
        let hash = hex_encode(slice_subrange(digest.as_slice(), 0, 16));
        let mnemonic_path = String::from_str("pers/mnemonic_").concat(hash.as_str()).concat(".dat");
        let wallet_path = String::from_str("pers/wallet_").concat(hash.as_str()).concat(".sqlite");
        WalletPaths { mnemonic_path, wallet_path }
    }
}

/// The directory that holds every wallet's files.
pub fn persistence_directory() -> (dir: &'static str)
    ensures
        dir@ == persistence_dir(),
{
    "pers"
}

} // verus!
