//! What a run is asked to do, decided from the command-line arguments.

use vstd::prelude::*;
use crate::model::Cli;

verus! {

/// The two things a run can do.
#[derive(Clone, Debug)]
pub enum Mode {
    /// List the locations of the objects that belong to a common name.
    Find { cn: String },
    /// Replace the objects of a certificate's common name by the
    /// certificate read from `cert_path` and, where given, the key read from
    /// `key_path`. `cn` selects the certificate where its file holds several.
    Replace { cert_path: String, key_path: Option<String>, cn: Option<String> },
}

impl Cli {
    /// The mode that the arguments ask for: a replacement where a
    /// certificate file is named, else a search where a common name is
    /// given. Neither given, there is nothing to do.
    pub open spec fn spec_mode(self) -> Option<Mode> {
        match self.certificate {
            Some(cert_path) => Some(
                Mode::Replace { cert_path, key_path: self.private_key, cn: self.common_name },
            ),
            None => match self.common_name {
                Some(cn) => Some(Mode::Find { cn }),
                None => None,
            },
        }
    }

    /// Decides the mode of the run.
    pub fn mode(&self) -> (r: Option<Mode>)
        ensures
            r == self.spec_mode(),
    {
        match &self.certificate {
            Some(cert_path) => {
                let key_path = match &self.private_key {
                    Some(p) => Some(p.clone()),
                    None => None,
                };
                let cn = match &self.common_name {
                    Some(n) => Some(n.clone()),
                    None => None,
                };
                Some(Mode::Replace { cert_path: cert_path.clone(), key_path, cn })
            },
            None => match &self.common_name {
                Some(cn) => Some(Mode::Find { cn: cn.clone() }),
                None => None,
            },
        }
    }
}

} // verus!
