use rmbujo::generate::notebook_file_names;
use rmbujo::notebooks::collection::collection_fragments;
use rmbujo::notebooks::future_log::future_log_fragments;
use rmbujo::notebooks::reference::reference_fragments;

/// Pages a notebook's fragments make: each page helper opens one page.
fn pages(fragments: &[String]) -> usize {
    fragments
        .iter()
        .map(|f| f.matches("#cover-page[").count() + f.matches("#plain-page[").count() + f.matches("#dot-page[").count())
        .sum()
}

#[test]
fn future_log_pages() {
    let f = future_log_fragments(2026);
    assert_eq!(pages(&f), 5);
    assert!(f[0].contains("Future Log"));
    assert!(f[1].contains("January") && f[1].contains("March"));
    assert!(f[4].contains("December"));
}

#[test]
fn collection_pages() {
    let f = collection_fragments(2026, 4);
    assert_eq!(pages(&f), 1 + 4);
    assert!(f[0].contains("#box(width: 70%"));
}

#[test]
fn reference_pages() {
    let f = reference_fragments(2026);
    assert_eq!(pages(&f), 3);
    assert!(f[0].contains("Reference"));
}

#[test]
fn year_notebooks_are_fifteen_named_files() {
    let names = notebook_file_names(2026);
    assert_eq!(names.len(), 15);
    assert_eq!(names[0], "2026 Future Log.pdf");
    assert_eq!(names[5], "2026.05 May.pdf");
    assert_eq!(names[12], "2026.12 December.pdf");
    assert_eq!(names[13], "2026 Collection Template.pdf");
    assert_eq!(names[14], "2026 Reference.pdf");
    assert_eq!(notebook_file_names(-7)[1], "-7.01 January.pdf");
}
