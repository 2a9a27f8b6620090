use std::cell::RefCell;
use std::collections::HashSet;
use std::rc::Rc;

use rmbujo::deploy::local::LocalDeployer;
use rmbujo::deploy::rmapi::{after_failed_run, cloud_target, folder_chain, is_blank_conf, AfterFailedRun, RmapiDeployer, RmapiRunner};
use rmbujo::deploy::{route_backend, upload_folder, Backend, DeployError, Deployer};

/// Records the args of every rmapi call so tests can assert the sequence.
#[derive(Clone, Default, Debug)]
struct Recorder {
    calls: Rc<RefCell<Vec<Vec<String>>>>,
    /// Cloud paths that the probe should report as already existing.
    existing: Rc<RefCell<HashSet<String>>>,
}

impl RmapiRunner for Recorder {
    fn run(&mut self, args: &[&str]) -> Result<(), DeployError> {
        self.calls
            .borrow_mut()
            .push(args.iter().map(|s| s.to_string()).collect());
        Ok(())
    }
    fn doc_exists(&mut self, path: &str) -> Result<bool, DeployError> {
        Ok(self.existing.borrow().contains(path))
    }
}

/// Fails every call after recording it.
#[derive(Clone, Default, Debug)]
struct Failing {
    calls: Rc<RefCell<usize>>,
}

impl RmapiRunner for Failing {
    fn run(&mut self, _args: &[&str]) -> Result<(), DeployError> {
        *self.calls.borrow_mut() += 1;
        Err(DeployError::Runner("boom".into()))
    }
    fn doc_exists(&mut self, _path: &str) -> Result<bool, DeployError> {
        Ok(false)
    }
}

fn paths(ps: &[&str]) -> Vec<String> {
    ps.iter().map(|s| s.to_string()).collect()
}

#[test]
fn deploy_mkdirs_then_puts_each_pdf() {
    let rec = Recorder::default();
    let mut d = RmapiDeployer::new("/2026".into(), rec.clone());
    d.deploy(&paths(&["/out/2026.05 May.pdf", "/out/2026 Reference.pdf"]))
        .unwrap();
    let c = rec.calls.borrow();
    assert_eq!(c[0], vec!["-ni", "mkdir", "/2026"]);
    assert_eq!(c[1], vec!["-ni", "put", "/out/2026.05 May.pdf", "/2026"]);
    assert_eq!(c[2], vec!["-ni", "put", "/out/2026 Reference.pdf", "/2026"]);
    assert_eq!(c.len(), 3);
}

#[test]
fn deploy_creates_each_ancestor_folder() {
    let rec = Recorder::default();
    let mut d = RmapiDeployer::new("/rmbujo/2027".into(), rec.clone());
    d.deploy(&paths(&["/out/a.pdf"])).unwrap();
    let c = rec.calls.borrow();
    assert_eq!(c[0], vec!["-ni", "mkdir", "/rmbujo"]);
    assert_eq!(c[1], vec!["-ni", "mkdir", "/rmbujo/2027"]);
    assert_eq!(c[2], vec!["-ni", "put", "/out/a.pdf", "/rmbujo/2027"]);
    assert_eq!(c.len(), 3);
}

#[test]
fn refresh_uses_content_only() {
    let rec = Recorder::default();
    let mut d = RmapiDeployer::new("/2026".into(), rec.clone());
    d.refresh(&paths(&["/out/2026.05 May.pdf"])).unwrap();
    let c = rec.calls.borrow();
    assert_eq!(
        c[0],
        vec![
            "-ni",
            "put",
            "--content-only",
            "/out/2026.05 May.pdf",
            "/2026"
        ]
    );
    assert_eq!(c.len(), 1);
}

#[test]
fn every_call_is_non_interactive() {
    let rec = Recorder::default();
    let mut d = RmapiDeployer::new("/2026".into(), rec.clone());
    d.deploy(&paths(&["/out/a.pdf"])).unwrap();
    d.refresh(&paths(&["/out/a.pdf"])).unwrap();
    for call in rec.calls.borrow().iter() {
        assert_eq!(call[0], "-ni", "every rmapi call must pass -ni");
    }
}

#[test]
fn get_deployer_routes_backends() {
    // none → ok
    assert_eq!(route_backend("none", "/rmbujo", 2026), Ok(Backend::Local));
    // unknown → err
    assert_eq!(
        route_backend("bogus", "/rmbujo", 2026),
        Err(DeployError::UnsupportedBackend("bogus".into()))
    );
    // rmapi with empty base_folder → err before any rmapi preflight
    assert_eq!(
        route_backend("rmapi", "  ", 2026),
        Err(DeployError::MissingBaseFolder)
    );
    assert_eq!(
        route_backend("rmapi", "/rmbujo", 2026),
        Ok(Backend::Rmapi {
            target_folder: "/rmbujo/2026".into()
        })
    );
}

#[test]
fn upsert_creates_when_missing() {
    let rec = Recorder::default();
    let mut d = RmapiDeployer::new("/".into(), rec.clone());
    d.upsert(&paths(&["/out/2026.05 May.pdf"])).unwrap();
    let c = rec.calls.borrow();
    // No mkdir for "/" (folder_chain is empty), then a plain put.
    assert_eq!(c[0], vec!["-ni", "put", "/out/2026.05 May.pdf", "/"]);
    assert_eq!(c.len(), 1);
}

#[test]
fn upsert_refreshes_when_present() {
    let rec = Recorder::default();
    rec.existing.borrow_mut().insert("/2026.05 May".to_string());
    let mut d = RmapiDeployer::new("/".into(), rec.clone());
    d.upsert(&paths(&["/out/2026.05 May.pdf"])).unwrap();
    let c = rec.calls.borrow();
    assert_eq!(
        c[0],
        vec!["-ni", "put", "--content-only", "/out/2026.05 May.pdf", "/"]
    );
    assert_eq!(c.len(), 1, "mkdir must not run when refreshing");
}

#[test]
fn upsert_nested_target_mkdir_then_put_when_missing() {
    let rec = Recorder::default();
    let mut d = RmapiDeployer::new("/rmbujo/2026".into(), rec.clone());
    d.upsert(&paths(&["/out/2026.05 May.pdf"])).unwrap();
    let c = rec.calls.borrow();
    assert_eq!(c[0], vec!["-ni", "mkdir", "/rmbujo"]);
    assert_eq!(c[1], vec!["-ni", "mkdir", "/rmbujo/2026"]);
    assert_eq!(
        c[2],
        vec!["-ni", "put", "/out/2026.05 May.pdf", "/rmbujo/2026"]
    );
    assert_eq!(c.len(), 3);
}

#[test]
fn upsert_mkdir_runs_only_once_across_mixed_paths() {
    let rec = Recorder::default();
    // First doc exists (refresh, no mkdir), second doesn't (mkdir, then put).
    rec.existing
        .borrow_mut()
        .insert("/rmbujo/2026/2026.05 May".to_string());
    let mut d = RmapiDeployer::new("/rmbujo/2026".into(), rec.clone());
    d.upsert(&paths(&["/out/2026.05 May.pdf", "/out/2026.06 June.pdf"]))
        .unwrap();
    let c = rec.calls.borrow();
    assert_eq!(
        c[0],
        vec![
            "-ni",
            "put",
            "--content-only",
            "/out/2026.05 May.pdf",
            "/rmbujo/2026"
        ]
    );
    assert_eq!(c[1], vec!["-ni", "mkdir", "/rmbujo"]);
    assert_eq!(c[2], vec!["-ni", "mkdir", "/rmbujo/2026"]);
    assert_eq!(
        c[3],
        vec!["-ni", "put", "/out/2026.06 June.pdf", "/rmbujo/2026"]
    );
    assert_eq!(c.len(), 4);
}

#[test]
fn create_if_missing_skips_existing_and_puts_only_absent() {
    let rec = Recorder::default();
    rec.existing
        .borrow_mut()
        .insert("/2026/2026.05 May".to_string());
    let mut d = RmapiDeployer::new("/2026".into(), rec.clone());
    d.create_if_missing(&paths(&[
        "/out/2026.05 May.pdf",
        "/out/2026 Future Log.pdf",
        "/out/2026 Reference.pdf",
    ]))
    .unwrap();
    let c = rec.calls.borrow();
    let puts: Vec<&Vec<String>> = c
        .iter()
        .filter(|a| a.contains(&"put".to_string()))
        .collect();
    assert_eq!(puts.len(), 2, "calls: {c:?}");
    assert!(puts
        .iter()
        .all(|a| !a.contains(&"--content-only".to_string())));
    assert!(puts
        .iter()
        .any(|a| a.iter().any(|s| s.contains("Future Log"))));
    assert!(puts
        .iter()
        .any(|a| a.iter().any(|s| s.contains("Reference"))));
    assert!(
        !c.iter()
            .any(|a| a.contains(&"put".to_string()) && a.iter().any(|s| s.contains("2026.05 May"))),
        "existing May must not be re-pushed; calls: {c:?}"
    );
}

#[test]
fn create_if_missing_all_present_does_nothing() {
    let rec = Recorder::default();
    rec.existing
        .borrow_mut()
        .insert("/2026/2026 Future Log".to_string());
    let mut d = RmapiDeployer::new("/2026".into(), rec.clone());
    d.create_if_missing(&paths(&["/out/2026 Future Log.pdf"]))
        .unwrap();
    assert!(
        rec.calls.borrow().is_empty(),
        "calls: {:?}",
        rec.calls.borrow()
    );
}

#[test]
fn cloud_target_normalizes_base() {
    assert_eq!(cloud_target("/rmbujo", 2026), "/rmbujo/2026");
    assert_eq!(cloud_target("rmbujo", 2026), "/rmbujo/2026"); // no leading slash
    assert_eq!(cloud_target("rmbujo/", 2026), "/rmbujo/2026"); // trailing slash
    assert_eq!(cloud_target("  /rmbujo  ", 2026), "/rmbujo/2026"); // whitespace
    assert_eq!(cloud_target("/journals/bujo", 2026), "/journals/bujo/2026"); // nested
    assert_eq!(cloud_target("/", 2026), "/2026");
}

#[test]
fn folder_chain_lists_each_ancestor() {
    assert_eq!(folder_chain("/a/b/c"), vec!["/a", "/a/b", "/a/b/c"]);
    assert_eq!(folder_chain("/"), Vec::<String>::new());
    assert_eq!(folder_chain("//a//b/"), vec!["/a", "/a/b"]);
    assert_eq!(folder_chain("x"), vec!["/x"]);
}

#[test]
fn runner_failure_stops_the_deploy() {
    let f = Failing::default();
    let mut d = RmapiDeployer::new("/2026".into(), f.clone());
    let err = d.deploy(&paths(&["/out/a.pdf", "/out/b.pdf"])).unwrap_err();
    assert_eq!(err, DeployError::Runner("boom".into()));
    // The mkdir failure is ignored; the first failing put ends the deploy.
    assert_eq!(*f.calls.borrow(), 2);
}

#[test]
fn path_without_stem_is_refused_by_upsert() {
    let rec = Recorder::default();
    let mut d = RmapiDeployer::new("/2026".into(), rec.clone());
    let err = d.upsert(&paths(&["/"])).unwrap_err();
    assert_eq!(err, DeployError::NoFileStem("/".into()));
    assert!(rec.calls.borrow().is_empty());
}

#[test]
fn local_deployer_does_nothing() {
    assert!(LocalDeployer.deploy(&paths(&["/out/a.pdf"])).is_ok());
    assert!(LocalDeployer.refresh(&paths(&["/out/a.pdf"])).is_ok());
}

#[test]
fn blank_conf_detection() {
    assert!(!is_blank_conf(b"devicetoken: \"dev-abc\"\nusertoken: \"usr-xyz\"\n"));
    assert!(is_blank_conf(b"devicetoken: \"\"\nusertoken: \"\"\n"));
    assert!(is_blank_conf(b""));
    assert!(is_blank_conf(b"devicetoken: \"dev\"\n"));
    assert!(!is_blank_conf(b"  usertoken:u\ndevicetoken:: d \n"));
}

#[test]
fn target_override_wins() {
    assert_eq!(upload_folder(Some("/2026"), "/rmbujo", 2026), "/2026");
    assert_eq!(upload_folder(None, "/rmbujo", 2026), "/rmbujo/2026");
    assert_eq!(upload_folder(None, "", 2027), "/2027");
}

#[test]
fn deploying_no_pdfs_succeeds_though_mkdir_fails() {
    let f = Failing::default();
    let mut d = RmapiDeployer::new("/rmbujo/2026".into(), f.clone());
    assert!(d.deploy(&paths(&[])).is_ok());
    // Only the two folder calls were made, and their failures were ignored.
    assert_eq!(*f.calls.borrow(), 2);
    assert!(d.refresh(&paths(&[])).is_ok());
    assert_eq!(*f.calls.borrow(), 2);
}

#[test]
fn upserting_no_pdfs_makes_no_calls() {
    let f = Failing::default();
    let mut d = RmapiDeployer::new("/2026".into(), f.clone());
    assert!(d.upsert(&paths(&[])).is_ok());
    assert!(d.create_if_missing(&paths(&[])).is_ok());
    assert_eq!(*f.calls.borrow(), 0);
}

#[test]
fn absent_probe_then_stemless_path_fails_before_any_call() {
    let mut f = Failing::default();
    assert_eq!(f.doc_exists("/2026/a"), Ok(false));
    let mut d = RmapiDeployer::new("/2026".into(), f.clone());
    let err = d.create_if_missing(&paths(&["/"])).unwrap_err();
    assert_eq!(err, DeployError::NoFileStem("/".into()));
    assert_eq!(*f.calls.borrow(), 0);
}

#[test]
fn blanked_conf_is_restored_and_retried_once() {
    assert_eq!(after_failed_run(true, false), AfterFailedRun::RestoreAndRetry);
    assert_eq!(after_failed_run(true, true), AfterFailedRun::Fail);
    assert_eq!(after_failed_run(false, false), AfterFailedRun::Fail);
}
