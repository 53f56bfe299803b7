use norgolith::timings::BuildTimings;

#[test]
fn new_timings_are_zero() {
    let t = BuildTimings::new();
    assert_eq!(t.config_ms, 0);
    assert_eq!(t.page_count, 0);
    assert_eq!(t.overhead(100), 100);
    assert_eq!(t.page_sum(), 0);
}

#[test]
fn overhead_saturates() {
    let mut t = BuildTimings::new();
    t.config_ms = 30;
    t.content_ms = 50;
    assert_eq!(t.overhead(100), 20);
    assert_eq!(t.overhead(60), 0);
}

#[test]
fn rows_and_gap() {
    let mut t = BuildTimings::new();
    t.content_ms = 40;
    t.page_render_ms = 10;
    t.page_write_ms = 5;
    let rows = t.phase_rows(100);
    assert_eq!(rows.len(), 15);
    assert_eq!(rows[0].0, "Config load+validate");
    assert_eq!(rows[7], ("Content build (all pages)", 40));
    assert_eq!(rows[14], ("Overhead/other", 60));
    let pages = t.page_rows();
    assert_eq!(pages.len(), 10);
    assert_eq!(pages[9], ("File write", 5));
    assert_eq!(t.page_sum(), 15);
    assert_eq!(t.scheduling_gap(), 25);
}

#[test]
fn page_section_only_when_pages_were_built() {
    let mut t = BuildTimings::new();
    t.config_ms = 10;
    assert!(t.page_section().is_none());
    let rows = t.phase_rows(5);
    assert_eq!(rows[0], ("Config load+validate", 10));
    assert_eq!(rows[rows.len() - 1], ("Overhead/other", 0));
    t.page_count = 2;
    t.content_ms = 30;
    t.page_file_ms = 4;
    t.page_write_ms = 6;
    let sec = t.page_section().unwrap();
    assert_eq!(sec.rows.len(), 10);
    assert_eq!(sec.rows[0], ("File read (I/O)", 4));
    assert_eq!(sec.rows[9], ("File write", 6));
    assert_eq!(sec.sum, 10);
    assert_eq!(sec.gap, 20);
}
