use nu_plugin_junit::junit_xml::{
    basename, derive_suite, is_report_file_name, parse_report, remove_commas, reports_dir,
    ParseError, TestCase, TestStatus,
};

fn parse(xml: &str) -> Vec<TestCase> {
    parse_report("report.xml", xml).unwrap()
}

#[test]
fn basename_handles_both_separators_and_plain_name() {
    assert_eq!(basename("a/b/c.java"), "c.java");
    assert_eq!(basename("a\\b\\c.java"), "c.java");
    assert_eq!(basename("c.java"), "c.java");
    assert_eq!(basename(""), "");
}

#[test]
fn derive_suite_edge_cases() {
    assert_eq!(derive_suite("tests/integration/noext"), "noext");
    assert_eq!(derive_suite("tests/.hidden"), ".hidden");
    assert_eq!(derive_suite("org.outil.SomeTest"), "SomeTest");
    assert_eq!(derive_suite("SomeTest"), "SomeTest");
}

#[test]
fn derive_suite_keeps_whole_name_without_file_part() {
    assert_eq!(derive_suite("tests/"), "tests/");
    assert_eq!(derive_suite("tests/.."), "tests/..");
    assert_eq!(derive_suite("a\\."), "a\\.");
    assert_eq!(derive_suite("org.outil."), "");
    assert_eq!(derive_suite(""), "");
}

#[test]
fn java_style_dotted_name_unaffected() {
    let xml = r#"<?xml version="1.0"?>
<testsuite name="org.outil.SampleTest" tests="1">
  <testcase name="works" time="0.1"/>
</testsuite>"#;
    let cases = parse(xml);
    assert_eq!(cases.len(), 1);
    assert_eq!(cases[0].suite, "SampleTest");
}

#[test]
fn file_path_style_name_windows_separators() {
    let xml = r#"<?xml version="1.0"?>
<testsuite name="tests\integration\custom-queries\montest.test.js" errors="0" failures="0" skipped="0" timestamp="2026-08-13T11:52:52" time="5.768" tests="1">
  <testcase name="does the thing" time="1.2"/>
</testsuite>"#;
    let cases = parse(xml);
    assert_eq!(cases.len(), 1);
    assert_eq!(cases[0].suite, "montest.test.js");
}

#[test]
fn file_path_style_name_unix_separators() {
    let xml = r#"<?xml version="1.0"?>
<testsuite name="tests/integration/custom-queries/montest.test.js" tests="1">
  <testcase name="does the thing" time="1.2"/>
</testsuite>"#;
    let cases = parse(xml);
    assert_eq!(cases[0].suite, "montest.test.js");
}

#[test]
fn file_path_style_all_cases_in_suite_share_same_label() {
    let xml = r#"<?xml version="1.0"?>
<testsuite name="tests/unit/montest.test.js" tests="2">
  <testcase name="one" time="0.1"/>
  <testcase name="two" time="0.2"/>
</testsuite>"#;
    let cases = parse(xml);
    assert_eq!(cases.len(), 2);
    assert!(cases.iter().all(|c| c.suite == "montest.test.js"));
}

#[test]
fn wrapped_testsuites_englobant_is_never_used_as_suite() {
    let xml = r#"<?xml version="1.0" encoding="UTF-8"?>
<testsuites name="Integration tests" tests="78" failures="0" errors="0" time="39.358">
  <testsuite name="tests\integration\custom-queries\montest.test.js" errors="0" failures="0" skipped="0" timestamp="2026-08-13T11:52:52" time="5.768" tests="2">
    <testcase classname="tests\integration\custom-queries\montest.test.js &gt; Procédure proc_WhereAmIInstalled" name="Test pour neo4jback" time="0.394" file="tests\integration\custom-queries\montest.test.js">
    </testcase>
    <testcase classname="tests\integration\custom-queries\montest.test.js &gt; Procédure proc_WhereAmIInstalled" name="Test pour connexionmiddle" time="0.307" file="tests\integration\custom-queries\montest.test.js">
      <failure message="boom">stack</failure>
    </testcase>
  </testsuite>
  <testsuite name="tests\integration\other\other.test.js" errors="0" failures="0" skipped="0" time="1.0" tests="1">
    <testcase classname="tests\integration\other\other.test.js &gt; Truc" name="Un autre test" time="0.5" file="tests\integration\other\other.test.js">
    </testcase>
  </testsuite>
</testsuites>"#;
    let cases = parse(xml);

    assert_eq!(cases.len(), 3);
    assert!(
        cases.iter().all(|c| c.suite != "Integration tests"),
        "le nom du <testsuites> englobant ne doit jamais être utilisé comme suite"
    );

    let montest_cases: Vec<_> = cases
        .iter()
        .filter(|c| c.name.contains("neo4jback") || c.name.contains("connexionmiddle"))
        .collect();
    assert_eq!(montest_cases.len(), 2);
    assert!(montest_cases.iter().all(|c| c.suite == "montest.test.js"));

    let other_case = cases.iter().find(|c| c.name == "Un autre test").unwrap();
    assert_eq!(other_case.suite, "other.test.js");

    let statuses: Vec<_> = cases.iter().map(|c| c.status).collect();
    assert_eq!(statuses.iter().filter(|s| **s == TestStatus::Passed).count(), 2);
    assert_eq!(statuses.iter().filter(|s| **s == TestStatus::Failed).count(), 1);
}

#[test]
fn single_testsuite_root_without_wrapper_still_works() {
    let xml = r#"<?xml version="1.0"?>
<testsuite name="org.outil.SampleTest" tests="1">
  <testcase name="works" time="0.1"/>
</testsuite>"#;
    let cases = parse(xml);
    assert_eq!(cases.len(), 1);
    assert_eq!(cases[0].suite, "SampleTest");
}

#[test]
fn sample_reports_give_statuses_names_and_times() {
    let ok = r#"<?xml version="1.0" encoding="UTF-8"?>
<testsuite name="cnaf.ocda.SampleOkTest" tests="2" failures="0" errors="0" skipped="0" time="1.234">
  <testcase name="shouldDoSomething" classname="cnaf.ocda.SampleOkTest" time="0.5"/>
  <testcase name="shouldDoSomethingElse" classname="cnaf.ocda.SampleOkTest" time="0.734"/>
</testsuite>
"#;
    let mixed = r#"<?xml version="1.0" encoding="UTF-8"?>
<testsuite name="cnaf.ocda.SampleMixedTest" tests="3" failures="1" errors="0" skipped="1" time="3.5">
  <testcase name="passes" classname="cnaf.ocda.SampleMixedTest" time="1.5"/>
  <testcase name="fails" classname="cnaf.ocda.SampleMixedTest" time="1.0">
    <failure message="boom">stack trace...</failure>
  </testcase>
  <testcase name="isSkipped" classname="cnaf.ocda.SampleMixedTest" time="0.0">
    <skipped/>
  </testcase>
</testsuite>
"#;
    let mut cases = parse(mixed);
    cases.extend(parse(ok));
    assert_eq!(cases.len(), 5);
    let labels: Vec<&str> = cases.iter().map(|c| c.status.as_str()).collect();
    assert_eq!(labels, vec!["passed", "failed", "skipped", "passed", "passed"]);
    assert_eq!(cases[0].suite, "SampleMixedTest");
    assert_eq!(cases[0].name, "passes");
    assert_eq!(cases[0].time, "1.5");
    assert_eq!(cases[3].suite, "SampleOkTest");
    assert_eq!(cases[4].time, "0.734");
}

#[test]
fn last_outcome_child_decides_the_status() {
    let xml = r#"<testsuite name="S">
  <testcase name="a"><skipped/><failure/></testcase>
  <testcase name="b"><error/><skipped/></testcase>
  <testcase name="c"><system-out>x</system-out></testcase>
  <testcase name="d"><wrapper><failure/></wrapper></testcase>
</testsuite>"#;
    let cases = parse(xml);
    let statuses: Vec<TestStatus> = cases.iter().map(|c| c.status).collect();
    assert_eq!(
        statuses,
        vec![TestStatus::Failed, TestStatus::Skipped, TestStatus::Passed, TestStatus::Passed]
    );
}

#[test]
fn nested_suites_own_only_their_direct_cases() {
    let xml = r#"<testsuite name="outer.Outer">
  <testcase name="top"/>
  <testsuite name="inner.Inner">
    <testcase name="deep"/>
  </testsuite>
  <group><testcase name="stray"/></group>
</testsuite>"#;
    let cases = parse(xml);
    assert_eq!(cases.len(), 2);
    assert_eq!((cases[0].suite.as_str(), cases[0].name.as_str()), ("Outer", "top"));
    assert_eq!((cases[1].suite.as_str(), cases[1].name.as_str()), ("Inner", "deep"));
}

#[test]
fn missing_attributes_take_defaults_and_commas_are_dropped() {
    let xml = r#"<testsuite><testcase/><testcase name="n" time="1,234.5"/></testsuite>"#;
    let cases = parse(xml);
    assert_eq!(cases.len(), 2);
    assert_eq!(cases[0].suite, "");
    assert_eq!(cases[0].name, "");
    assert_eq!(cases[0].time, "0");
    assert_eq!(cases[1].time, "1234.5");
}

#[test]
fn namespaced_names_match_by_local_name() {
    let xml = r#"<r xmlns:j="urn:j"><j:testsuite j:name="ns.Suite"><j:testcase name="t"/></j:testsuite></r>"#;
    let cases = parse(xml);
    assert_eq!(cases.len(), 1);
    assert_eq!(cases[0].suite, "Suite");
}

#[test]
fn malformed_xml_is_an_error_naming_the_file() {
    match parse_report("dir/broken.xml", "<testsuite><testcase></testsuite>") {
        Err(ParseError::Xml { file, .. }) => assert_eq!(file, "dir/broken.xml"),
        other => panic!("unexpected result: {:?}", other),
    }
}

#[test]
fn malformed_xml_message_names_the_file_and_the_problem() {
    let e = parse_report("dir/broken.xml", "<testsuite><testcase></testsuite>").unwrap_err();
    let message = e.message();
    assert!(message.starts_with("XML invalide dans dir/broken.xml: "));
    assert!(message.len() > "XML invalide dans dir/broken.xml: ".len());
}

#[test]
fn io_error_message_has_its_prefix() {
    let e = ParseError::Io(std::io::Error::new(std::io::ErrorKind::NotFound, "absent"));
    assert_eq!(e.message(), "erreur d'E/S: absent");
}

#[test]
fn remove_commas_strips_every_comma() {
    assert_eq!(remove_commas("1,000,5"), "10005");
    assert_eq!(remove_commas(""), "");
    assert_eq!(remove_commas(",,"), "");
}

#[test]
fn report_files_are_the_xml_ones() {
    assert!(is_report_file_name("TEST-a.xml"));
    assert!(is_report_file_name("..xml"));
    assert!(!is_report_file_name(".xml"));
    assert!(!is_report_file_name("xml"));
    assert!(!is_report_file_name("a.XML"));
    assert!(!is_report_file_name("a.xml.bak"));
    assert!(!is_report_file_name("a.txt"));
}

#[test]
fn default_reports_directory() {
    assert_eq!(reports_dir(None), "target/surefire-reports");
    assert_eq!(reports_dir(Some("x/y".to_string())), "x/y");
}

#[test]
fn status_labels_round_trip() {
    for s in [TestStatus::Passed, TestStatus::Failed, TestStatus::Skipped] {
        assert_eq!(TestStatus::from_label(s.as_str()), s);
    }
    assert_eq!(TestStatus::from_label("other"), TestStatus::Passed);
    assert_eq!(TestStatus::Skipped.as_str(), "skipped");
}
