# nu_plugin_junit

A nushell plugin that reads JUnit/surefire XML reports into a table and
writes that table as a styled Excel report.

- `src/` is the verified library (Verus):
  - `junit_xml.rs`: test statuses, suite labels, which files are reports,
    and the extraction of test cases from a parsed XML document (parsing
    itself is roxmltree's);
  - `xlsx_report.rs`: the worksheet layout (rows, runs of equal suites and
    their merged cells, footer totals and durations), written through
    rust_xlsxwriter;
  - `text.rs`: decimal formatting and string helpers.
- `app/main.rs` is the plugin: the nushell commands `junit report` and
  `junit to-xlsx`, reading the report directory, converting durations
  (floating point), and saving the workbook.
- `tests/` exercises the library on concrete reports and tables.
