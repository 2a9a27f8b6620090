//! Local backend "none": PDFs are already on disk; deploy/refresh are no-ops.
use vstd::prelude::*;
use super::{DeployError, Deployer};

verus! {

/// The `"none"` backend.
pub struct LocalDeployer;

impl Deployer for LocalDeployer {
    fn deploy(&mut self, _pdfs: &[String]) -> (r: Result<(), DeployError>)
        ensures
            r == Ok::<(), DeployError>(()),
    {
        Ok(())
    }

    fn refresh(&mut self, _pdfs: &[String]) -> (r: Result<(), DeployError>)
        ensures
            r == Ok::<(), DeployError>(()),
    {
        Ok(())
    }
}

} // verus!
