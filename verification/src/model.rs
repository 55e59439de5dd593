//! The data model: PKI objects, their locators, and the error values.

use vstd::prelude::*;

verus! {

/// The kind of object a PEM block holds.
#[derive(Clone, Copy, Debug, PartialEq, Eq, Structural)]
pub enum PEMKind {
    Cert,
    PrivKey,
}

/// Where the armored text of one PKI object sits: the file it was read from
/// and the half-open byte range `[start, end)` of the whole block, header
/// line through footer line.
#[derive(Clone, Debug)]
pub struct PEMLocator {
    pub path: String,
    pub kind: PEMKind,
    pub start: usize,
    pub end: usize,
}

/// A decoded certificate, held as the plain values the library reads:
/// the subject common name, the PEM serialization, and the DER encoding of
/// the public key (absent when no public key could be extracted).
#[derive(Clone, Debug)]
pub struct Cert {
    pub common_name: String,
    pub pem: Vec<u8>,
    pub public_key: Option<Vec<u8>>,
    pub locator: PEMLocator,
}

/// A decoded private key: its PKCS#8 PEM serialization and the DER encoding
/// of its public component.
#[derive(Clone, Debug)]
pub struct PrivKey {
    pub pem: Vec<u8>,
    pub public_key: Vec<u8>,
    pub locator: PEMLocator,
}

/// A certificate or a private key recovered from a file.
#[derive(Clone, Debug)]
pub enum PKIObject {
    Cert(Cert),
    PrivKey(PrivKey),
}

/// Malformed armor or an undecodable payload.
#[derive(Clone, Debug)]
pub struct ParseError {
    pub msg: String,
}

/// Why no unique object could be chosen.
#[derive(Clone, Debug)]
pub enum MatchError {
    /// `found` candidates matched where exactly one is required.
    Ambiguous { found: usize, msg: String },
    /// The reference certificate carries no public key.
    NoPublicKey { msg: String },
}

/// The command-line arguments.
#[derive(Clone, Debug)]
pub struct Cli {
    /// Path to search in.
    pub path: String,
    /// Common name to match in target certificates.
    pub common_name: Option<String>,
    /// Path to a file with the certificate to use as replacement.
    pub certificate: Option<String>,
    /// Path to a file with the private key to use as replacement.
    pub private_key: Option<String>,
}

impl PEMLocator {
    /// The number of bytes the block covers.
    pub open spec fn span(self) -> int {
        self.end - self.start
    }

    /// A copy of the locator.
    pub fn duplicate(&self) -> (r: PEMLocator)
        ensures
            r == *self,
    {
        PEMLocator { path: self.path.clone(), kind: self.kind, start: self.start, end: self.end }
    }
}

impl PKIObject {
    /// The locator of the object, whichever kind it is.
    pub open spec fn spec_locator(self) -> PEMLocator {
        match self {
            PKIObject::Cert(c) => c.locator,
            PKIObject::PrivKey(k) => k.locator,
        }
    }

    /// The kind of the object.
    pub open spec fn spec_kind(self) -> PEMKind {
        match self {
            PKIObject::Cert(_) => PEMKind::Cert,
            PKIObject::PrivKey(_) => PEMKind::PrivKey,
        }
    }

    /// The kind of the object.
    pub fn kind(&self) -> (k: PEMKind)
        ensures
            k == self.spec_kind(),
    {
        match self {
            PKIObject::Cert(_) => PEMKind::Cert,
            PKIObject::PrivKey(_) => PEMKind::PrivKey,
        }
    }
}

/// The function that takes an object to its locator.
pub open spec fn locator_fn() -> spec_fn(PKIObject) -> PEMLocator {
    |o: PKIObject| o.spec_locator()
}

/// The locators of a sequence of objects.
pub open spec fn locators_of(objs: Seq<PKIObject>) -> Seq<PEMLocator> {
    objs.map_values(locator_fn())
}

impl MatchError {
    /// The text of the error.
    pub open spec fn spec_message(self) -> Seq<char> {
        match self {
            MatchError::Ambiguous { found: _, msg } => msg@,
            MatchError::NoPublicKey { msg } => msg@,
        }
    }

    /// The descriptive message the error carries.
    pub fn message(&self) -> (s: String)
        ensures
            s@ == self.spec_message(),
    {
        match self {
            MatchError::Ambiguous { found: _, msg } => msg.clone(),
            MatchError::NoPublicKey { msg } => msg.clone(),
        }
    }
}

} // verus!
