use nu_plugin_junit::junit_xml::TestStatus;
use nu_plugin_junit::xlsx_report::{
    build_report, capitalize, case_from_columns, format_hhmmss, format_mmss, status_color,
    write_report, CaseDuration, ReportCase, ReportError, ReportMeta,
};
use rust_xlsxwriter::Workbook;

fn case(suite: &str, name: &str, status: TestStatus, secs: i64) -> ReportCase {
    ReportCase {
        suite: suite.to_string(),
        name: name.to_string(),
        status,
        duration: CaseDuration { within_one_second: secs <= 1, whole_seconds: secs },
    }
}

fn meta() -> ReportMeta {
    ReportMeta {
        project_name: "demo".to_string(),
        branch: "main".to_string(),
        generator_version: "0.3.0".to_string(),
    }
}

#[test]
fn mmss_formats_minutes_and_seconds() {
    assert_eq!(format_mmss(0), "00:00");
    assert_eq!(format_mmss(2), "00:02");
    assert_eq!(format_mmss(75), "01:15");
    assert_eq!(format_mmss(3600), "60:00");
    assert_eq!(format_mmss(-61), "-1:-1");
    assert_eq!(format_mmss(-5), "00:-5");
}

#[test]
fn hhmmss_formats_hours_minutes_and_seconds() {
    assert_eq!(format_hhmmss(0), "00:00:00");
    assert_eq!(format_hhmmss(3725), "01:02:05");
    assert_eq!(format_hhmmss(360000), "100:00:00");
    assert_eq!(format_hhmmss(-3725), "-1:-2:-5");
    assert_eq!(format_hhmmss(i64::MIN), "-2562047788015215:-30:-8");
}

#[test]
fn capitalize_uppercases_the_first_character() {
    assert_eq!(capitalize("passed"), "Passed");
    assert_eq!(capitalize("skipped"), "Skipped");
    assert_eq!(capitalize(""), "");
    assert_eq!(capitalize("ßa"), "SSa");
    assert_eq!(capitalize("Éé"), "Éé");
}

#[test]
fn status_colors() {
    assert_eq!(status_color(TestStatus::Passed), 0x00CC66);
    assert_eq!(status_color(TestStatus::Failed), 0xFF3333);
    assert_eq!(status_color(TestStatus::Skipped), 0xFFA500);
}

#[test]
fn columns_take_defaults() {
    let d = CaseDuration { within_one_second: false, whole_seconds: 3 };
    let c = case_from_columns(None, Some("t"), Some("failed"), d);
    assert_eq!(c.suite, "");
    assert_eq!(c.name, "t");
    assert_eq!(c.status, TestStatus::Failed);
    let c = case_from_columns(Some("s"), None, None, d);
    assert_eq!(c.status, TestStatus::Passed);
    let c = case_from_columns(Some("s"), None, Some("skipped"), d);
    assert_eq!(c.status, TestStatus::Skipped);
    let c = case_from_columns(Some("s"), None, Some("weird"), d);
    assert_eq!(c.status, TestStatus::Passed);
}

#[test]
fn report_is_written_and_saves() {
    let cases = vec![
        case("A", "a1", TestStatus::Passed, 0),
        case("A", "a2", TestStatus::Failed, 75),
        case("B", "b1", TestStatus::Skipped, 2),
        case("A", "a3", TestStatus::Passed, 1),
    ];
    let sheet = write_report(&cases, &meta(), 78).unwrap();
    let mut workbook = Workbook::new();
    workbook.push_worksheet(sheet);
    let bytes = workbook.save_to_buffer().unwrap();
    assert!(bytes.len() > 0);
}

#[test]
fn empty_table_is_refused() {
    let cases: Vec<ReportCase> = Vec::new();
    assert!(matches!(build_report(&cases, &meta(), 0), Err(ReportError::EmptyInput)));
    assert!(write_report(&cases, &meta(), 0).is_ok());
}

#[test]
fn too_long_text_does_not_fit() {
    let long = "x".repeat(32_768);
    let cases = vec![case(&long, "a", TestStatus::Passed, 0)];
    assert!(matches!(build_report(&cases, &meta(), 0), Err(ReportError::Xlsx(_))));
    let cases = vec![case("A", "a", TestStatus::Passed, 0)];
    let mut m = meta();
    m.branch = "y".repeat(32_767);
    assert!(write_report(&cases, &m, 0).is_ok());
    m.branch = "y".repeat(32_768);
    assert!(write_report(&cases, &m, 0).is_err());
}

#[test]
fn wide_characters_count_twice() {
    let cases = vec![case(&"😀".repeat(16_384), "a", TestStatus::Passed, 0)];
    assert!(write_report(&cases, &meta(), 0).is_err());
    let cases = vec![case(&"😀".repeat(16_383), "a", TestStatus::Passed, 0)];
    assert!(write_report(&cases, &meta(), 0).is_ok());
}

#[test]
fn runs_are_consecutive_suites() {
    let cases = vec![
        case("A", "n1", TestStatus::Passed, 0),
        case("B", "n2", TestStatus::Passed, 0),
        case("A", "n3", TestStatus::Passed, 0),
    ];
    let sheet = write_report(&cases, &meta(), 2).unwrap();
    let mut workbook = Workbook::new();
    workbook.push_worksheet(sheet);
    assert!(workbook.save_to_buffer().unwrap().len() > 0);
}
