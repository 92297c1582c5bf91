//! The command line: its parsed form and the decisions the commands make
//! before any input or output (authentication mode, passphrase policy,
//! where the Ethereum key comes from, default output names).

use vstd::prelude::*;
use vstd::utf8::encode_utf8;
use crate::encoding::string_from_chars;
use crate::hybrid::AuthMode;
use crate::text::{spec_after_last, after_last, spec_ends_with, str_chars, chars_end_with,
    push_str_chars, push_chars};

verus! {

/// Global options and the chosen command. Paths are carried as text.
pub struct Cli {
    /// Gateway override for IPFS downloads: a URL, or a tag to look up.
    pub ipfs_gateway: Option<String>,
    /// Pinata API token; when given, uploads go to IPFS.
    pub ipfs_pinata_jwt: Option<String>,
    /// Ethereum signing key (hex or a path to it); when given, uploads go to Arweave.
    pub arweave_eth_key: Option<String>,
    /// Derive the Ethereum signing key from the hardware token.
    pub yubikey_ethkey_useslot2: bool,
    /// Salt phrase for that derivation.
    pub yubikey_ethkey_salt: Option<String>,
    /// The command to run.
    pub command: Commands,
}

/// The commands and their options.
#[allow(inconsistent_fields)]
pub enum Commands {
    /// Generate an ML-KEM key pair.
    Keygen {
        pass: Option<String>,
        nopemhead: bool,
        stego: Option<String>,
        yubikey: bool,
        yubikey_and_pass: bool,
    },
    /// Generate an Ethereum signing key.
    KeygenEth {
        tgt_loc: Option<String>,
        deterministic: bool,
        salt: Option<String>,
        passphrase: Option<String>,
        yubikey: bool,
    },
    /// Sign and upload a file to Irys.
    TestIrys { file: String },
    /// Encrypt a payload.
    Encrypt {
        file: Option<String>,
        src_net: Option<String>,
        src_loc: Option<String>,
        src_ipfs: Option<String>,
        pubkey_net: Option<String>,
        pubkey_loc: Option<String>,
        pubkey_ipfs: Option<String>,
        tgt_loc: Option<String>,
    },
    /// Decrypt an archive.
    Decrypt {
        file: Option<String>,
        src_net: Option<String>,
        src_loc: Option<String>,
        src_ipfs: Option<String>,
        privkey_net: Option<String>,
        privkey_loc: Option<String>,
        privkey_ipfs: Option<String>,
        tgt_loc: Option<String>,
        pass: Option<String>,
        stego: bool,
        yubikey: bool,
        yubikey_and_pass: bool,
    },
    /// Scan an archive, or regenerate a public key.
    Forensic {
        file: Option<String>,
        keygen_pub: bool,
        privkey_net: Option<String>,
        privkey_loc: Option<String>,
        privkey_ipfs: Option<String>,
        tgt_loc: Option<String>,
        pass: Option<String>,
        yubikey: bool,
        yubikey_and_pass: bool,
        stego: bool,
        nopemhead: bool,
    },
    /// Launch the graphical interface.
    Gui,
    /// Hide a key in, or recover it from, a carrier image.
    Stego {
        inject: bool,
        extract: bool,
        tgt_loc: Option<String>,
        src_loc: Option<String>,
        privkey_loc: Option<String>,
    },
    /// Hardware-token provisioning.
    Yubikey {
        genhmacsha1: bool,
        pass: Option<String>,
        tgt_loc: Option<String>,
        yubikey_direct: bool,
        yubikey_direct_touch: bool,
    },
}

/// The authentication mode selected by the two token flags: both factors
/// win over the token alone, which wins over the passphrase.
pub open spec fn spec_auth_mode(yubikey: bool, yubikey_and_pass: bool) -> AuthMode {
    if yubikey_and_pass {
        AuthMode::HardwareAndPassphrase
    } else if yubikey {
        AuthMode::HardwareOnly
    } else {
        AuthMode::Passphrase
    }
}

/// Executable form of [`spec_auth_mode`].
pub fn auth_mode_from_flags(yubikey: bool, yubikey_and_pass: bool) -> (m: AuthMode)
    ensures
        m == spec_auth_mode(yubikey, yubikey_and_pass),
{
    if yubikey_and_pass {
        AuthMode::HardwareAndPassphrase
    } else if yubikey {
        AuthMode::HardwareOnly
    } else {
        AuthMode::Passphrase
    }
}

/// The rejection of a short passphrase at key generation.
pub open spec fn keygen_passphrase_error() -> Seq<char> {
    "Passphrase rejected: Must be at least 16 characters to mathematically defeat cloud GPU clusters. Aborting."@
}

/// A new key's passphrase must have at least 16 characters, unless the key is
/// locked by the hardware token alone.
pub fn check_keygen_passphrase(mode: AuthMode, pass: &str) -> (r: Result<(), &'static str>)
    ensures
        r is Err <==> (mode != AuthMode::HardwareOnly && pass@.len() < 16),
        r matches Err(e) ==> e@ == keygen_passphrase_error(),
{
    let short = str_chars(pass).len() < 16;
    match mode {
        AuthMode::HardwareOnly => Ok(()),
        _ => if short {
            Err(
                "Passphrase rejected: Must be at least 16 characters to mathematically defeat cloud GPU clusters. Aborting.",
            )
        } else {
            Ok(())
        },
    }
}

/// Where the Ethereum signing key for Arweave uploads comes from.
pub enum EthKeySource {
    /// Derived from the hardware token with this salt phrase.
    Token(String),
    /// Given as hex text or as a path to a file holding it.
    Given(String),
    /// The token was asked for without a salt phrase.
    MissingSalt,
    /// No key: uploads do not go to Arweave.
    Absent,
}

/// Chooses the Ethereum key source: the hardware token when asked for (a
/// salt phrase is then required), else the given key, else none.
pub fn eth_key_source(useslot2: bool, salt: Option<&str>, eth_key: Option<&str>) -> (r: EthKeySource)
    ensures
        useslot2 ==> match salt {
            Some(s) => r matches EthKeySource::Token(t) && t@ == s@,
            None => r is MissingSalt,
        },
        !useslot2 ==> match eth_key {
            Some(k) => r matches EthKeySource::Given(g) && g@ == k@,
            None => r is Absent,
        },
{
    if useslot2 {
        match salt {
            Some(s) => EthKeySource::Token(copy_string(s)),
            None => EthKeySource::MissingSalt,
        }
    } else {
        match eth_key {
            Some(k) => EthKeySource::Given(copy_string(k)),
            None => EthKeySource::Absent,
        }
    }
}

fn copy_string(s: &str) -> (r: String)
    ensures
        r@ == s@,
{
    let c = str_chars(s);
    string_from_chars(c.as_slice())
}

/// Largest upload, in bytes, that Irys accepts without a prepaid balance.
pub const IRYS_FREE_LIMIT: usize = 102400;

/// An upload of `len` bytes needs a prepaid Irys balance.
pub fn exceeds_irys_free_tier(len: usize) -> (b: bool)
    ensures
        b == (len > 100 * 1024),
{
    len > IRYS_FREE_LIMIT
}

/// The last '/'-separated segment of a URL: the name a download is saved under.
pub open spec fn url_file_name(url: Seq<char>) -> Seq<char> {
    spec_after_last(url, "/"@)
}

fn file_name_of_url(url: &str) -> (r: Vec<char>)
    ensures
        r@ == url_file_name(url@),
{
    let chars = str_chars(url);
    let slash = str_chars("/");
    proof {
        reveal_strlit("/");
    }
    after_last(chars.as_slice(), slash.as_slice())
}

/// Default name of the archive of a payload fetched from a URL: the URL's
/// last segment with ".enc" added.
pub fn encrypt_output_for_url(url: &str) -> (r: String)
    ensures
        r@ == url_file_name(url@) + ".enc"@,
{
    let mut name = file_name_of_url(url);
    push_str_chars(&mut name, ".enc");
    string_from_chars(name.as_slice())
}

/// Default name of the archive of a local file or an IPFS object: the path
/// or CID with ".enc" added.
pub fn encrypt_output_for_name(name: &str) -> (r: String)
    ensures
        r@ == name@ + ".enc"@,
{
    let mut out = str_chars(name);
    push_str_chars(&mut out, ".enc");
    string_from_chars(out.as_slice())
}

/// Default name of the plaintext of an archive fetched from a URL: the
/// URL's last segment without its ".enc", or with ".dec" added when it has
/// no ".enc".
pub fn decrypt_output_for_url(url: &str) -> (r: String)
    ensures
        spec_ends_with(url_file_name(url@), ".enc"@) ==> r@ == url_file_name(url@).take(
            url_file_name(url@).len() - 4,
        ),
        !spec_ends_with(url_file_name(url@), ".enc"@) ==> r@ == url_file_name(url@) + ".dec"@,
{
    let name = file_name_of_url(url);
    let enc = str_chars(".enc");
    proof {
        reveal_strlit(".enc");
    }
    if chars_end_with(name.as_slice(), enc.as_slice()) {
        let k = name.len() - 4;
        let mut out: Vec<char> = Vec::new();
        let mut i: usize = 0;
        while i < k
            invariant
                k == name@.len() - 4,
                i <= k,
                out@ =~= name@.take(i as int),
            decreases k - i,
        {
            out.push(name[i]);
            i = i + 1;
        }
        string_from_chars(out.as_slice())
    } else {
        let mut out = name;
        push_str_chars(&mut out, ".dec");
        string_from_chars(out.as_slice())
    }
}

/// Default name of the plaintext of an IPFS archive: the CID with ".dec" added.
pub fn decrypt_output_for_cid(cid: &str) -> (r: String)
    ensures
        r@ == cid@ + ".dec"@,
{
    let mut out = str_chars(cid);
    push_str_chars(&mut out, ".dec");
    string_from_chars(out.as_slice())
}

} // verus!
