//! The identity of an entry: a token that stays the same while the entry is
//! renamed or moved, made from what the filesystem says of it.

use vstd::prelude::*;
use crate::text::{decimal, from_chars, push_decimal, push_str};
use sha1::{Digest, Sha1};

verus! {

/// What is known of an entry to tell it from all others.
#[derive(Debug, PartialEq, Eq)]
pub enum IdentitySource {
    /// The numbers of the device and of the file on it, from the entry's
    /// metadata. They stay with the entry through a rename.
    Inode { dev: u64, ino: u64 },
    /// The canonical path of the entry, for want of metadata. An identity
    /// made from it does not outlast a rename.
    CanonicalPath(String),
}

/// The mathematical value of an [`IdentitySource`].
pub enum IdentityView {
    Inode { dev: u64, ino: u64 },
    CanonicalPath(Seq<char>),
}

impl View for IdentitySource {
    type V = IdentityView;

    open spec fn view(&self) -> IdentityView {
        match *self {
            IdentitySource::Inode { dev, ino } => IdentityView::Inode { dev, ino },
            IdentitySource::CanonicalPath(p) => IdentityView::CanonicalPath(p@),
        }
    }
}

impl Clone for IdentitySource {
    fn clone(&self) -> (r: Self)
        ensures
            r@ == self@,
    {
        match self {
            IdentitySource::Inode { dev, ino } => IdentitySource::Inode { dev: *dev, ino: *ino },
            IdentitySource::CanonicalPath(p) => IdentitySource::CanonicalPath(p.clone()),
        }
    }
}

/// The SHA-1 digest of `data`, written as forty lower-case hexadecimal
/// digits.
pub uninterp spec fn sha1_hex(data: Seq<u8>) -> Seq<char>;

/// Hashes `data` with `Sha1::new`, `update` and `finalize` of the `sha1`
/// crate and writes the digest with its `LowerHex` format. The digest
/// depends on the data alone.
#[verifier::external_body]
fn sha1_hex_of(data: &[u8]) -> (r: String)
    ensures
        r@ == sha1_hex(data@),
{
    let mut hasher = Sha1::new();
    hasher.update(data);
    format!("{:x}", hasher.finalize())
}

/// The identity token: `ino:` with the device and file numbers in decimal
/// and a colon between them, or `sha1:` with the digest of the canonical
/// path's bytes.
pub open spec fn make_id_spec(src: IdentityView) -> Seq<char> {
    match src {
        IdentityView::Inode { dev, ino } => "ino:"@ + decimal(dev as nat) + ":"@ + decimal(
            ino as nat,
        ),
        IdentityView::CanonicalPath(p) => "sha1:"@ + sha1_hex(vstd::utf8::encode_utf8(p)),
    }
}

/// The token for the digest `hex` of a canonical path.
pub open spec fn hashed_id_spec(hex: Seq<char>) -> Seq<char> {
    "sha1:"@ + hex
}

/// The identity token that is made from a path's digest.
pub fn hashed_id(hex: &str) -> (r: String)
    ensures
        r@ == hashed_id_spec(hex@),
{
    let mut v: Vec<char> = Vec::new();
    push_str(&mut v, "sha1:");
    push_str(&mut v, hex);
    assert(v@ =~= "sha1:"@ + hex@);
    from_chars(&v)
}

/// The identity token of an entry.
pub fn make_id(src: &IdentitySource) -> (r: String)
    ensures
        r@ == make_id_spec(src@),
{
    match src {
        IdentitySource::Inode { dev, ino } => {
            let mut v: Vec<char> = Vec::new();
            push_str(&mut v, "ino:");
            push_decimal(&mut v, *dev);
            push_str(&mut v, ":");
            push_decimal(&mut v, *ino);
            assert(v@ =~= "ino:"@ + decimal(*dev as nat) + ":"@ + decimal(*ino as nat));
            from_chars(&v)
        },
        IdentitySource::CanonicalPath(p) => {
            let hex = sha1_hex_of(p.as_str().as_bytes());
            hashed_id(hex.as_str())
        },
    }
}

} // verus!
