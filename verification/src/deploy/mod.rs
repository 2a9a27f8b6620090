//! Deploy seam: where the year's PDFs go once they are written.
use vstd::prelude::*;
use crate::text::{chars_of, trim_bounds, trim_ws};

pub mod local;
pub mod rmapi;

verus! {

/// Why a deploy step failed.
#[derive(Debug, Clone, PartialEq, Eq)]
pub enum DeployError {
    /// The rmapi runner reported a failure (its message).
    Runner(String),
    /// A PDF path has no file stem to name the cloud document after.
    NoFileStem(String),
    /// The rmapi backend was chosen without a `deploy.base_folder`.
    MissingBaseFolder,
    /// `deploy.backend` named no known backend (the value given).
    UnsupportedBackend(String),
}

/// Uploads a year's PDFs (given as path strings) somewhere.
pub trait Deployer {
    /// First upload of the PDFs.
    fn deploy(&mut self, pdfs: &[String]) -> Result<(), DeployError>;
    /// Re-upload the PDFs' content in place.
    fn refresh(&mut self, pdfs: &[String]) -> Result<(), DeployError>;
}

/// Which deployer a config selects.
#[derive(Debug, Clone, PartialEq, Eq)]
pub enum Backend {
    /// Backend `"none"`: the PDFs stay on disk.
    Local,
    /// Backend `"rmapi"`, uploading into the given cloud folder.
    Rmapi { target_folder: String },
}

/// Whether two strings hold the same characters.
pub fn str_is(s: &str, lit: &str) -> (b: bool)
    ensures
        b == (s@ == lit@),
{
    let a = chars_of(s);
    let l = chars_of(lit);
    if a.len() != l.len() {
        return false;
    }
    let mut i: usize = 0;
    while i < a.len()
        invariant
            a@ == s@,
            l@ == lit@,
            a@.len() == l@.len(),
            i <= a@.len(),
            forall|k: int| 0 <= k < i ==> a@[k] == l@[k],
        decreases a@.len() - i,
    {
        if a[i] != l[i] {
            return false;
        }
        i = i + 1;
    }
    assert(a@ == l@);
    true
}

/// Select the deploy backend a config names: `"none"` keeps the PDFs local;
/// `"rmapi"` uploads into `cloud_target(base_folder, year)` and needs a
/// non-blank `base_folder`; anything else is unsupported.
pub fn route_backend(backend: &str, base_folder: &str, year: i32) -> (r: Result<Backend, DeployError>)
    ensures
        backend@ == "none"@ ==> r == Ok::<Backend, DeployError>(Backend::Local),
        backend@ == "rmapi"@ && trim_ws(base_folder@).len() == 0 ==> r == Err::<Backend, DeployError>(
            DeployError::MissingBaseFolder,
        ),
        backend@ == "rmapi"@ && trim_ws(base_folder@).len() > 0 ==> (r matches Ok(
            Backend::Rmapi { target_folder },
        ) && target_folder@ == rmapi::cloud_target_spec(base_folder@, year as int)),
        backend@ != "none"@ && backend@ != "rmapi"@ ==> (r matches Err(
            DeployError::UnsupportedBackend(b),
        ) && b@ == backend@),
{
    proof {
        reveal_strlit("none");
        reveal_strlit("rmapi");
        assert("none"@.len() == 4);
        assert("rmapi"@.len() == 5);
        assert("none"@ != "rmapi"@);
    }
    if str_is(backend, "none") {
        Ok(Backend::Local)
    } else if str_is(backend, "rmapi") {
        let v = chars_of(base_folder);
        let (lo, hi) = trim_bounds(&v);
        if lo == hi {
            Err(DeployError::MissingBaseFolder)
        } else {
            Ok(Backend::Rmapi { target_folder: rmapi::cloud_target(base_folder, year) })
        }
    } else {
        Err(DeployError::UnsupportedBackend(backend.to_string()))
    }
}

/// The cloud folder a regenerate uploads into: the `--target` override when
/// given, else the year's folder under `base_folder`.
pub fn upload_folder(target: Option<&str>, base_folder: &str, year: i32) -> (r: String)
    ensures
        r@ == match target {
            Some(t) => t@,
            None => rmapi::cloud_target_spec(base_folder@, year as int),
        },
{
    match target {
        Some(t) => t.to_string(),
        None => rmapi::cloud_target(base_folder, year),
    }
}

} // verus!
