//! Reading JUnit/surefire XML reports into test cases, and laying those
//! cases out as a styled spreadsheet report.

pub mod text;
pub mod junit_xml;
pub mod xlsx_report;
