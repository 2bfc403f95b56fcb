//! JUnit/surefire XML reports: test statuses, suite labels, and the
//! extraction of test cases from a parsed document.

use vstd::prelude::*;
use crate::text::{chars_of, find_segment_start, last_segment, lemma_segment_start, push_char, same_text};

verus! {

/// `roxmltree::Error`: why a text is not a well-formed XML document.
#[verifier::external_type_specification]
#[verifier::external_body]
pub struct ExXmlError(roxmltree::Error);

/// `std::io::Error`: a failed read of a report directory or file.
#[verifier::external_type_specification]
#[verifier::external_body]
pub struct ExIoError(std::io::Error);

/// Why a directory of reports could not be read.
#[derive(Debug)]
pub enum ParseError {
    /// Listing the directory or reading a file failed.
    Io(std::io::Error),
    /// A file is not well-formed XML.
    Xml { file: String, source: roxmltree::Error },
}


/// Outcome of one test case.
#[derive(Debug, Clone, Copy, PartialEq, Eq, Structural)]
pub enum TestStatus {
    Passed,
    Failed,
    Skipped,
}

/// The label of a status, as the report table and the spreadsheet show it.
pub open spec fn status_label(s: TestStatus) -> Seq<char> {
    match s {
        TestStatus::Passed => "passed"@,
        TestStatus::Failed => "failed"@,
        TestStatus::Skipped => "skipped"@,
    }
}

/// The status a report table's `status` column names: `failed` and
/// `skipped` name those statuses, and any other text reads as passed.
pub open spec fn status_from_label(label: Seq<char>) -> TestStatus {
    if label == "failed"@ {
        TestStatus::Failed
    } else if label == "skipped"@ {
        TestStatus::Skipped
    } else {
        TestStatus::Passed
    }
}

/// Reading back the label of a status gives the status: a table written by
/// `junit report` keeps its statuses when `junit to-xlsx` reads it.
pub proof fn lemma_status_label_round_trip(status: TestStatus)
    ensures
        status_from_label(status_label(status)) == status,
{
    reveal_strlit("passed");
    reveal_strlit("failed");
    reveal_strlit("skipped");
    assert("passed"@[0] == 'p');
    assert("skipped"@[0] == 's');
}

impl TestStatus {
    /// The status named by a report table's `status` column; see
    /// [`status_from_label`].
    pub fn from_label(label: &str) -> (r: TestStatus)
        ensures
            r == status_from_label(label@),
    {
        if same_text(label, "failed") {
            TestStatus::Failed
        } else if same_text(label, "skipped") {
            TestStatus::Skipped
        } else {
            TestStatus::Passed
        }
    }

    /// The label of this status: `passed`, `failed` or `skipped`.
    pub fn as_str(&self) -> (r: &'static str)
        ensures
            r@ == status_label(*self),
    {
        match self {
            TestStatus::Passed => "passed",
            TestStatus::Failed => "failed",
            TestStatus::Skipped => "skipped",
        }
    }
}

/// The part of `path` after its last `/` or `\`, or all of it when it has
/// neither. Both separators count whatever the host platform, since a
/// report may come from another system than the one that reads it.
pub fn basename(path: &str) -> (r: &str)
    ensures
        r@ == last_segment(path@, '/', '\\'),
        path@ == path@.take(path@.len() - r@.len()) + r@,
        !has_separator(r@),
        r@.len() == path@.len() || has_separator(path@.take(path@.len() - r@.len())),
{
    let cs = chars_of(path);
    let start = find_segment_start(&cs, '/', '\\');
    proof {
        lemma_segment_start(path@, path@.len() as int, '/', '\\');
    }
    let r = path.substring_char(start, cs.len());
    proof {
        assert(path@ =~= path@.take(start as int) + r@);
        if start > 0 {
            assert(path@.take(start as int)[start - 1] == path@[start - 1]);
        }
        assert(!has_separator(r@)) by {
            if has_separator(r@) {
                let k = choose|k: int| 0 <= k < r@.len() && (r@[k] == '/' || r@[k] == '\\');
                assert(r@[k] == path@[start + k]);
            }
        }
    }
    r
}

/// The directory that `junit report` reads when given none.
pub open spec fn default_reports_dir() -> Seq<char> {
    "target/surefire-reports"@
}

/// The directory of reports to read: the one given, else
/// `target/surefire-reports` (relative to the current directory).
pub fn reports_dir(dir: Option<String>) -> (r: String)
    ensures
        r@ == match dir {
            Some(d) => d@,
            None => default_reports_dir(),
        },
{
    match dir {
        Some(d) => d,
        None => "target/surefire-reports".to_owned(),
    }
}

/// Whether a file name has the extension `xml` in the sense of
/// `Path::extension`: it ends in `.xml` and something precedes that dot.
pub open spec fn has_xml_extension(name: Seq<char>) -> bool {
    name.len() > 4 && name.subrange(name.len() - 4, name.len() as int) == seq!['.', 'x', 'm', 'l']
}

/// Whether a directory entry is a report to read: its file name has the
/// extension `xml` (letter case counts). Only the entries of the directory
/// itself are read, not those of its subdirectories.
pub fn is_report_file_name(name: &str) -> (r: bool)
    ensures
        r == has_xml_extension(name@),
{
    let cs = chars_of(name);
    let n = cs.len();
    if n <= 4 {
        return false;
    }
    let r = cs[n - 4] == '.' && cs[n - 3] == 'x' && cs[n - 2] == 'm' && cs[n - 1] == 'l';
    proof {
        let tail = name@.subrange(n - 4, n as int);
        if r {
            assert(tail =~= seq!['.', 'x', 'm', 'l']);
        } else {
            if tail == seq!['.', 'x', 'm', 'l'] {
                assert(tail[0] == cs@[n - 4]);
                assert(tail[1] == cs@[n - 3]);
                assert(tail[2] == cs@[n - 2]);
                assert(tail[3] == cs@[n - 1]);
            }
        }
    }
    r
}

/// Whether a name holds a path separator, `/` or `\`.
pub open spec fn has_separator(s: Seq<char>) -> bool {
    exists|k: int| 0 <= k < s.len() && (s[k] == '/' || s[k] == '\\')
}

/// The suite label shown for a `<testsuite name="...">`.
///
/// A name that holds a path separator is a test file's path (Jest, Mocha,
/// pytest and other non-Java generators): the label is the file's full name,
/// extension included; where the path ends without a file name (empty, `.` or
/// `..` after the last separator) the whole name is kept. Otherwise the name
/// is a dotted, fully qualified Java class name and the label is its last
/// segment.
pub open spec fn suite_label(full_name: Seq<char>) -> Seq<char> {
    if has_separator(full_name) {
        let file = last_segment(full_name, '/', '\\');
        if file.len() == 0 || file == "."@ || file == ".."@ {
            full_name
        } else {
            file
        }
    } else {
        last_segment(full_name, '.', '.')
    }
}

/// Derives the suite label from the `name` attribute of a `<testsuite>`;
/// see [`suite_label`].
pub fn derive_suite(full_name: &str) -> (r: String)
    ensures
        r@ == suite_label(full_name@),
{
    let cs = chars_of(full_name);
    let start = find_segment_start(&cs, '/', '\\');
    proof {
        lemma_segment_start(full_name@, full_name@.len() as int, '/', '\\');
        if start > 0 {
            assert(has_separator(full_name@)) by {
                let k = start - 1;
                assert(0 <= k < full_name@.len());
            }
        }
    }
    if start > 0 {
        let file = basename(full_name);
        if file.is_empty() || same_text(file, ".") || same_text(file, "..") {
            full_name.to_owned()
        } else {
            file.to_owned()
        }
    } else {
        let dot = find_segment_start(&cs, '.', '.');
        proof { lemma_segment_start(full_name@, full_name@.len() as int, '.', '.'); }
        full_name.substring_char(dot, cs.len()).to_owned()
    }
}

/// The label of a dotted class name (a name without path separator) is the
/// text after its last `.`: it holds no `.`, and the name is that label
/// preceded by nothing or by a text that ends in `.`.
pub proof fn lemma_class_name_label(name: Seq<char>)
    requires
        !has_separator(name),
    ensures
        forall|k: int| 0 <= k < suite_label(name).len() ==> suite_label(name)[k] != '.',
        name == name.take(name.len() - suite_label(name).len()) + suite_label(name),
        suite_label(name).len() == name.len() || name[name.len() - suite_label(name).len() - 1]
            == '.',
{
    let n = name.len() as int;
    lemma_segment_start(name, n, '.', '.');
    let p = crate::text::segment_start(name, n, '.', '.');
    let l = suite_label(name);
    assert(l == name.subrange(p, n));
    assert forall|k: int| 0 <= k < l.len() implies l[k] != '.' by {
        assert(l[k] == name[p + k]);
    }
    assert(name =~= name.take(p) + l);
}

/// One attribute of an XML element: its local name (without namespace
/// prefix) and its value.
#[derive(Debug)]
pub struct XmlAttribute {
    pub name: String,
    pub value: String,
}

/// One node of an XML document, as listed in document order.
///
/// `depth` is the number of nodes from the document root down to this node,
/// both included: the root has depth 1, the root element depth 2. The
/// children of a node are thus the later nodes one level deeper that come
/// before the first later node at its own depth or above. `name` is the local
/// tag name of an element, empty for other nodes; `attributes` are an
/// element's attributes in document order.
#[derive(Debug)]
pub struct XmlNode {
    pub depth: usize,
    pub is_element: bool,
    pub name: String,
    pub attributes: Vec<XmlAttribute>,
}

/// An attribute as plain values.
pub struct AttributeView {
    pub name: Seq<char>,
    pub value: Seq<char>,
}

/// A node as plain values.
pub struct NodeView {
    pub depth: nat,
    pub is_element: bool,
    pub name: Seq<char>,
    pub attributes: Seq<AttributeView>,
}

impl View for XmlAttribute {
    type V = AttributeView;

    open spec fn view(&self) -> AttributeView {
        AttributeView { name: self.name@, value: self.value@ }
    }
}

impl View for XmlNode {
    type V = NodeView;

    open spec fn view(&self) -> NodeView {
        NodeView {
            depth: self.depth as nat,
            is_element: self.is_element,
            name: self.name@,
            attributes: self.attributes@.map_values(|a: XmlAttribute| a@),
        }
    }
}

/// The nodes of a list as plain values.
pub open spec fn nodes_view(nodes: Seq<XmlNode>) -> Seq<NodeView> {
    nodes.map_values(|n: XmlNode| n@)
}

/// The nodes of the document that roxmltree reads from `text`, in document
/// order from the root node on, or `None` where it rejects the text.
pub uninterp spec fn xml_nodes(text: Seq<char>) -> Option<Seq<NodeView>>;

/// `roxmltree::Document::parse`, with the parsed document handed back as the
/// list of its nodes: `Document::descendants` (the root node, then every
/// node in document order), each node converted one for one (`ancestors`
/// counted for the depth, `is_element`, the local part of `tag_name`, and
/// `attributes` with their local names and values). The contract claims that
/// the outcome depends on the text alone, and names it [`xml_nodes`].
#[verifier::external_body]
fn parse_xml(text: &str) -> (r: Result<Vec<XmlNode>, roxmltree::Error>)
    ensures
        match r {
            Ok(nodes) => xml_nodes(text@) == Some(nodes_view(nodes@)),
            Err(_) => xml_nodes(text@) is None,
        },
{
    let doc = roxmltree::Document::parse(text)?;
    let mut nodes = Vec::new();
    for n in doc.descendants() {
        let mut attributes = Vec::new();
        for a in n.attributes() {
            attributes.push(XmlAttribute { name: a.name().to_string(), value: a.value().to_string() });
        }
        let name = n.tag_name().name().to_string();
        nodes.push(XmlNode { depth: n.ancestors().count(), is_element: n.is_element(), name, attributes });
    }
    Ok(nodes)
}

/// A test case read from a report. `time` is the duration in seconds as the
/// report writes it, with any `,` removed (`"0"` where the report gives none).
#[derive(Debug, Clone)]
pub struct TestCase {
    pub suite: String,
    pub name: String,
    pub status: TestStatus,
    pub time: String,
}

/// A test case as plain values.
pub struct CaseView {
    pub suite: Seq<char>,
    pub name: Seq<char>,
    pub status: TestStatus,
    pub time: Seq<char>,
}

impl View for TestCase {
    type V = CaseView;

    open spec fn view(&self) -> CaseView {
        CaseView { suite: self.suite@, name: self.name@, status: self.status, time: self.time@ }
    }
}

/// The test cases of a list as plain values.
pub open spec fn cases_view(cases: Seq<TestCase>) -> Seq<CaseView> {
    cases.map_values(|c: TestCase| c@)
}

/// The value of the first attribute called `key`, if any.
pub open spec fn attribute_value(attrs: Seq<AttributeView>, key: Seq<char>) -> Option<Seq<char>>
    decreases attrs.len(),
{
    if attrs.len() == 0 {
        None
    } else if attrs[0].name == key {
        Some(attrs[0].value)
    } else {
        attribute_value(attrs.drop_first(), key)
    }
}

/// The value of attribute `key` of a node, or `default`.
pub open spec fn attribute_or(n: NodeView, key: Seq<char>, default: Seq<char>) -> Seq<char> {
    match attribute_value(n.attributes, key) {
        Some(v) => v,
        None => default,
    }
}

/// Whether a node is an element with local name `tag`.
pub open spec fn is_element_named(n: NodeView, tag: Seq<char>) -> bool {
    n.is_element && n.name == tag
}

/// First index from `j` on that is not inside the subtree of node `i`.
pub open spec fn scan_end(ns: Seq<NodeView>, i: int, j: int) -> int
    decreases ns.len() - j,
{
    if j >= ns.len() || ns[j].depth <= ns[i].depth {
        j
    } else {
        scan_end(ns, i, j + 1)
    }
}

/// End (exclusive) of the subtree of node `i`: its descendants are the
/// nodes `i + 1 .. subtree_end(ns, i)`.
pub open spec fn subtree_end(ns: Seq<NodeView>, i: int) -> int {
    scan_end(ns, i, i + 1)
}

/// Whether node `j` is a child of node `i`.
pub open spec fn is_child(ns: Seq<NodeView>, i: int, j: int) -> bool {
    i < j < subtree_end(ns, i) && ns[j].depth == ns[i].depth + 1
}

/// The status a test case gets from its element children among the nodes
/// `j + 1 .. k`, read in order: `<skipped>` makes it skipped, `<failure>` or
/// `<error>` failed; the last of them decides, and with none it passed.
pub open spec fn status_upto(ns: Seq<NodeView>, j: int, k: int) -> TestStatus
    decreases k - j,
{
    if k <= j + 1 {
        TestStatus::Passed
    } else {
        let before = status_upto(ns, j, k - 1);
        let c = ns[k - 1];
        if c.depth == ns[j].depth + 1 && c.is_element {
            if c.name == "skipped"@ {
                TestStatus::Skipped
            } else if c.name == "failure"@ || c.name == "error"@ {
                TestStatus::Failed
            } else {
                before
            }
        } else {
            before
        }
    }
}

/// The status of the test case at node `j`.
pub open spec fn case_status(ns: Seq<NodeView>, j: int) -> TestStatus {
    status_upto(ns, j, subtree_end(ns, j))
}

/// A duration text with every `,` removed.
pub open spec fn without_commas(s: Seq<char>) -> Seq<char> {
    s.filter(|c: char| c != ',')
}

/// The test case at node `j`, inside the suite at node `i`.
pub open spec fn case_at(ns: Seq<NodeView>, i: int, j: int) -> CaseView {
    CaseView {
        suite: suite_label(attribute_or(ns[i], "name"@, ""@)),
        name: attribute_or(ns[j], "name"@, ""@),
        status: case_status(ns, j),
        time: without_commas(attribute_or(ns[j], "time"@, "0"@)),
    }
}

/// The test cases among the children `i + 1 .. j` of the suite at node `i`:
/// its `<testcase>` element children, in order.
pub open spec fn suite_cases_upto(ns: Seq<NodeView>, i: int, j: int) -> Seq<CaseView>
    decreases j - i,
{
    if j <= i + 1 {
        seq![]
    } else {
        suite_cases_upto(ns, i, j - 1) + if ns[j - 1].depth == ns[i].depth + 1
            && is_element_named(ns[j - 1], "testcase"@) {
            seq![case_at(ns, i, j - 1)]
        } else {
            seq![]
        }
    }
}

/// The test cases of the suite at node `i`.
pub open spec fn suite_cases(ns: Seq<NodeView>, i: int) -> Seq<CaseView> {
    suite_cases_upto(ns, i, subtree_end(ns, i))
}

/// The test cases of every `<testsuite>` element among nodes `0 .. i`, suite
/// after suite. A `<testsuites>` wrapper is no suite; a `<testcase>` that is
/// not a direct child of a suite belongs to none.
pub open spec fn report_cases_upto(ns: Seq<NodeView>, i: int) -> Seq<CaseView>
    decreases i,
{
    if i <= 0 {
        seq![]
    } else {
        report_cases_upto(ns, i - 1) + if is_element_named(ns[i - 1], "testsuite"@) {
            suite_cases(ns, i - 1)
        } else {
            seq![]
        }
    }
}

/// The test cases of a document.
#[verifier::inline]
pub open spec fn report_cases(ns: Seq<NodeView>) -> Seq<CaseView> {
    report_cases_upto(ns, ns.len() as int)
}

/// Whether node `c` is an element child of node `j` that sets a status:
/// `<skipped>`, `<failure>` or `<error>`.
pub open spec fn is_outcome_child(ns: Seq<NodeView>, j: int, c: int) -> bool {
    &&& ns[c].depth == ns[j].depth + 1
    &&& ns[c].is_element
    &&& (ns[c].name == "skipped"@ || ns[c].name == "failure"@ || ns[c].name == "error"@)
}

proof fn lemma_status_upto_passed(ns: Seq<NodeView>, j: int, k: int)
    requires
        0 <= j < k <= ns.len(),
    ensures
        (status_upto(ns, j, k) == TestStatus::Passed) <==> forall|c: int|
            j < c < k ==> !#[trigger] is_outcome_child(ns, j, c),
    decreases k - j,
{
    if k > j + 1 {
        lemma_status_upto_passed(ns, j, k - 1);
        if status_upto(ns, j, k) == TestStatus::Passed {
            assert(!is_outcome_child(ns, j, k - 1));
            assert(status_upto(ns, j, k - 1) == TestStatus::Passed);
            assert forall|c: int| j < c < k implies !#[trigger] is_outcome_child(ns, j, c) by {
                if c < k - 1 {
                    assert(!is_outcome_child(ns, j, c));
                }
            }
        } else {
            if !is_outcome_child(ns, j, k - 1) {
                assert(status_upto(ns, j, k - 1) != TestStatus::Passed);
                let c = choose|c: int| j < c < k - 1 && #[trigger] is_outcome_child(ns, j, c);
                assert(j < c < k && is_outcome_child(ns, j, c));
            }
        }
    }
}

/// A test case passed exactly when none of its element children is a
/// `<skipped>`, `<failure>` or `<error>`.
pub proof fn lemma_passed_without_outcome_child(ns: Seq<NodeView>, j: int)
    requires
        0 <= j < ns.len(),
    ensures
        (case_status(ns, j) == TestStatus::Passed) <==> forall|c: int|
            j < c < subtree_end(ns, j) ==> !#[trigger] is_outcome_child(ns, j, c),
{
    lemma_scan_end(ns, j, j + 1);
    lemma_status_upto_passed(ns, j, subtree_end(ns, j));
}

proof fn lemma_suite_cases_upto_origin(ns: Seq<NodeView>, i: int, j: int)
    requires
        0 <= i < ns.len(),
        i + 1 <= j <= subtree_end(ns, i),
    ensures
        forall|k: int|
            #![trigger suite_cases_upto(ns, i, j)[k]]
            0 <= k < suite_cases_upto(ns, i, j).len() ==> exists|m: int|
                #![trigger case_at(ns, i, m)]
                i < m < j && ns[m].depth == ns[i].depth + 1 && is_element_named(ns[m], "testcase"@)
                    && suite_cases_upto(ns, i, j)[k] == case_at(ns, i, m),
    decreases j - i,
{
    if j > i + 1 {
        lemma_suite_cases_upto_origin(ns, i, j - 1);
        let prev = suite_cases_upto(ns, i, j - 1);
        assert forall|k: int|
            #![trigger suite_cases_upto(ns, i, j)[k]]
            0 <= k < suite_cases_upto(ns, i, j).len() implies exists|m: int|
            #![trigger case_at(ns, i, m)]
            i < m < j && ns[m].depth == ns[i].depth + 1 && is_element_named(ns[m], "testcase"@)
                && suite_cases_upto(ns, i, j)[k] == case_at(ns, i, m) by {
            if k < prev.len() {
                let m = choose|m: int|
                    #![trigger case_at(ns, i, m)]
                    i < m < j - 1 && ns[m].depth == ns[i].depth + 1 && is_element_named(
                        ns[m],
                        "testcase"@,
                    ) && prev[k] == case_at(ns, i, m);
                assert(suite_cases_upto(ns, i, j)[k] == prev[k]);
                assert(case_at(ns, i, m) == case_at(ns, i, m));
            } else {
                assert(suite_cases_upto(ns, i, j)[k] == case_at(ns, i, j - 1));
            }
        }
    }
}

/// All the cases of one suite carry the label of that suite.
pub proof fn lemma_suite_cases_share_label(ns: Seq<NodeView>, i: int)
    requires
        0 <= i < ns.len(),
    ensures
        forall|k: int|
            0 <= k < suite_cases(ns, i).len() ==> (#[trigger] suite_cases(ns, i)[k]).suite
                == suite_label(attribute_or(ns[i], "name"@, ""@)),
{
    lemma_scan_end(ns, i, i + 1);
    lemma_suite_cases_upto_origin(ns, i, subtree_end(ns, i));
    assert forall|k: int| 0 <= k < suite_cases(ns, i).len() implies (#[trigger] suite_cases(
        ns,
        i,
    )[k]).suite == suite_label(attribute_or(ns[i], "name"@, ""@)) by {
        let m = choose|m: int|
            #![trigger case_at(ns, i, m)]
            i < m < subtree_end(ns, i) && ns[m].depth == ns[i].depth + 1 && is_element_named(
                ns[m],
                "testcase"@,
            ) && suite_cases(ns, i)[k] == case_at(ns, i, m);
    }
}

/// Every case of a document comes from a `<testcase>` element that is a
/// direct child of a `<testsuite>` element: an enclosing `<testsuites>` never
/// gives its name to cases, and a `<testcase>` nested deeper is counted only
/// in the suite it is a child of.
pub proof fn lemma_cases_come_from_suites(ns: Seq<NodeView>)
    ensures
        forall|k: int|
            #![trigger report_cases(ns)[k]]
            0 <= k < report_cases(ns).len() ==> exists|i: int, j: int|
                #![trigger case_at(ns, i, j)]
                0 <= i < ns.len() && is_element_named(ns[i], "testsuite"@) && is_child(ns, i, j)
                    && is_element_named(ns[j], "testcase"@) && report_cases(ns)[k] == case_at(
                    ns,
                    i,
                    j,
                ),
{
    lemma_report_cases_upto_origin(ns, ns.len() as int);
    assert forall|k: int|
        #![trigger report_cases(ns)[k]]
        0 <= k < report_cases(ns).len() implies exists|i: int, j: int|
            #![trigger case_at(ns, i, j)]
            0 <= i < ns.len() && is_element_named(ns[i], "testsuite"@) && is_child(ns, i, j)
                && is_element_named(ns[j], "testcase"@) && report_cases(ns)[k] == case_at(ns, i, j) by {
        let (a, b) = choose|a: int, b: int|
            #![trigger case_at(ns, a, b)]
            0 <= a < ns.len() && is_element_named(ns[a], "testsuite"@) && is_child(ns, a, b)
                && is_element_named(ns[b], "testcase"@) && report_cases_upto(ns, ns.len() as int)[k] == case_at(ns, a, b);
        assert(0 <= a < ns.len() && is_element_named(ns[a], "testsuite"@) && is_child(ns, a, b)
                && is_element_named(ns[b], "testcase"@) && report_cases(ns)[k] == case_at(ns, a, b));
    }
}

proof fn lemma_report_cases_upto_origin(ns: Seq<NodeView>, n: int)
    requires
        0 <= n <= ns.len(),
    ensures
        forall|k: int|
            #![trigger report_cases_upto(ns, n)[k]]
            0 <= k < report_cases_upto(ns, n).len() ==> exists|i: int, j: int|
                #![trigger case_at(ns, i, j)]
                0 <= i < ns.len() && is_element_named(ns[i], "testsuite"@) && is_child(ns, i, j)
                    && is_element_named(ns[j], "testcase"@) && report_cases_upto(ns, n)[k]
                    == case_at(ns, i, j),
    decreases n,
{
    if n > 0 {
        lemma_report_cases_upto_origin(ns, n - 1);
        let prev = report_cases_upto(ns, n - 1);
        let i = n - 1;
        if is_element_named(ns[i], "testsuite"@) {
            lemma_scan_end(ns, i, i + 1);
            lemma_suite_cases_upto_origin(ns, i, subtree_end(ns, i));
        }
        assert forall|k: int|
            #![trigger report_cases_upto(ns, n)[k]]
            0 <= k < report_cases_upto(ns, n).len() implies exists|i: int, j: int|
            #![trigger case_at(ns, i, j)]
            0 <= i < ns.len() && is_element_named(ns[i], "testsuite"@) && is_child(ns, i, j)
                && is_element_named(ns[j], "testcase"@) && report_cases_upto(ns, n)[k] == case_at(
                ns,
                i,
                j,
            ) by {
            if k < prev.len() {
                let (a, b) = choose|a: int, b: int|
                    #![trigger case_at(ns, a, b)]
                    0 <= a < ns.len() && is_element_named(ns[a], "testsuite"@) && is_child(ns, a, b)
                        && is_element_named(ns[b], "testcase"@) && prev[k] == case_at(ns, a, b);
                assert(report_cases_upto(ns, n)[k] == prev[k]);
            } else {
                let k2 = k - prev.len();
                let m = choose|m: int|
                    #![trigger case_at(ns, i, m)]
                    i < m < subtree_end(ns, i) && ns[m].depth == ns[i].depth + 1 && is_element_named(
                        ns[m],
                        "testcase"@,
                    ) && suite_cases(ns, i)[k2] == case_at(ns, i, m);
                assert(report_cases_upto(ns, n)[k] == suite_cases(ns, i)[k2]);
            }
        }
    }
}

/// A node has at most one parent: a `<testcase>` is the child of one suite
/// at most, so no case is counted for two suites.
pub proof fn lemma_unique_parent(ns: Seq<NodeView>, i1: int, i2: int, j: int)
    requires
        0 <= i1 < ns.len(),
        0 <= i2 < ns.len(),
        is_child(ns, i1, j),
        is_child(ns, i2, j),
    ensures
        i1 == i2,
{
    lemma_scan_end(ns, i1, i1 + 1);
    lemma_scan_end(ns, i2, i2 + 1);
    if i1 < i2 {
        assert(ns[i2].depth > ns[i1].depth);
    } else if i2 < i1 {
        assert(ns[i1].depth > ns[i2].depth);
    }
}

/// The number of `<testcase>` element children of node `i` among the nodes
/// `i + 1 .. j`.
pub open spec fn testcase_child_count(ns: Seq<NodeView>, i: int, j: int) -> nat
    decreases j - i,
{
    if j <= i + 1 {
        0
    } else {
        testcase_child_count(ns, i, j - 1) + if ns[j - 1].depth == ns[i].depth + 1
            && ns[j - 1].is_element && ns[j - 1].name == "testcase"@ {
            1nat
        } else {
            0nat
        }
    }
}

proof fn lemma_testcase_child_count_mono(ns: Seq<NodeView>, i: int, a: int, b: int)
    requires
        i < a <= b,
    ensures
        testcase_child_count(ns, i, a) <= testcase_child_count(ns, i, b),
    decreases b - a,
{
    if a < b {
        lemma_testcase_child_count_mono(ns, i, a, b - 1);
    }
}

proof fn lemma_suite_cases_upto_complete(ns: Seq<NodeView>, i: int, j: int)
    requires
        0 <= i < j <= ns.len(),
    ensures
        suite_cases_upto(ns, i, j).len() == testcase_child_count(ns, i, j),
        forall|c: int|
            #![trigger case_at(ns, i, c)]
            i < c < j && ns[c].depth == ns[i].depth + 1 && is_element_named(ns[c], "testcase"@)
                ==> suite_cases_upto(ns, i, j)[testcase_child_count(ns, i, c) as int]
                == case_at(ns, i, c),
    decreases j - i,
{
    if j > i + 1 {
        lemma_suite_cases_upto_complete(ns, i, j - 1);
        let prev = suite_cases_upto(ns, i, j - 1);
        assert forall|c: int|
            #![trigger case_at(ns, i, c)]
            i < c < j && ns[c].depth == ns[i].depth + 1 && is_element_named(ns[c], "testcase"@)
                implies suite_cases_upto(ns, i, j)[testcase_child_count(ns, i, c) as int]
                == case_at(ns, i, c) by {
            if c < j - 1 {
                lemma_testcase_child_count_mono(ns, i, c + 1, j - 1);
                assert(testcase_child_count(ns, i, c + 1) == testcase_child_count(ns, i, c) + 1);
                assert(suite_cases_upto(ns, i, j)[testcase_child_count(ns, i, c) as int]
                    == prev[testcase_child_count(ns, i, c) as int]);
            }
        }
    }
}

/// Every `<testcase>` element child of a node is taken, whatever other
/// children (such as `<properties>`) surround it: the cases of a suite are
/// as many as its `<testcase>` element children, and the one of the `m`-th
/// such child, counting from zero, is case `m`.
pub proof fn lemma_suite_cases_complete(ns: Seq<NodeView>, i: int)
    requires
        0 <= i < ns.len(),
    ensures
        suite_cases(ns, i).len() == testcase_child_count(ns, i, subtree_end(ns, i)),
        forall|j: int|
            #![trigger case_at(ns, i, j)]
            is_child(ns, i, j) && is_element_named(ns[j], "testcase"@) ==> suite_cases(ns, i)[
                testcase_child_count(ns, i, j) as int] == case_at(ns, i, j),
{
    lemma_scan_end(ns, i, i + 1);
    lemma_suite_cases_upto_complete(ns, i, subtree_end(ns, i));
}

proof fn lemma_report_cases_prefix(ns: Seq<NodeView>, m: int, n: int)
    requires
        0 <= m <= n <= ns.len(),
    ensures
        report_cases_upto(ns, m).len() <= report_cases_upto(ns, n).len(),
        report_cases_upto(ns, n).subrange(0, report_cases_upto(ns, m).len() as int)
            == report_cases_upto(ns, m),
    decreases n - m,
{
    if m < n {
        lemma_report_cases_prefix(ns, m, n - 1);
        let a = report_cases_upto(ns, m);
        let b = report_cases_upto(ns, n - 1);
        assert(report_cases_upto(ns, n).subrange(0, a.len() as int) =~= b.subrange(0, a.len() as int));
    }
}

/// Every `<testcase>` element child of every `<testsuite>` element gives a
/// case of the document.
pub proof fn lemma_report_cases_complete(ns: Seq<NodeView>, i: int, j: int)
    requires
        0 <= i < ns.len(),
        is_element_named(ns[i], "testsuite"@),
        is_child(ns, i, j),
        is_element_named(ns[j], "testcase"@),
    ensures
        report_cases(ns).contains(case_at(ns, i, j)),
{
    lemma_suite_cases_complete(ns, i);
    lemma_report_cases_prefix(ns, i + 1, ns.len() as int);
    let before = report_cases_upto(ns, i);
    let k: int = (before.len() + testcase_child_count(ns, i, j)) as int;
    lemma_scan_end(ns, i, i + 1);
    lemma_testcase_child_count_mono(ns, i, j + 1, subtree_end(ns, i));
    assert(testcase_child_count(ns, i, j + 1) == testcase_child_count(ns, i, j) + 1);
    assert(report_cases_upto(ns, i + 1)[k] == case_at(ns, i, j));
    assert(report_cases(ns)[k] == report_cases_upto(ns, ns.len() as int).subrange(
        0,
        report_cases_upto(ns, i + 1).len() as int,
    )[k]);
}

proof fn lemma_status_after_last_outcome(ns: Seq<NodeView>, j: int, c: int, k: int)
    requires
        0 <= j < c < k <= ns.len(),
        is_outcome_child(ns, j, c),
        forall|d: int| c < d < k ==> !#[trigger] is_outcome_child(ns, j, d),
    ensures
        status_upto(ns, j, k) == if ns[c].name == "skipped"@ {
            TestStatus::Skipped
        } else {
            TestStatus::Failed
        },
    decreases k - c,
{
    if k > c + 1 {
        lemma_status_after_last_outcome(ns, j, c, k - 1);
        assert(!is_outcome_child(ns, j, k - 1));
    }
}

/// The last of a test case's `<skipped>`, `<failure>` and `<error>` element
/// children decides its status: `<skipped>` makes it skipped, `<failure>`
/// and `<error>` failed.
pub proof fn lemma_last_outcome_decides(ns: Seq<NodeView>, j: int, c: int)
    requires
        0 <= j < ns.len(),
        is_child(ns, j, c),
        is_outcome_child(ns, j, c),
        forall|d: int| c < d < subtree_end(ns, j) ==> !#[trigger] is_outcome_child(ns, j, d),
    ensures
        ns[c].name == "skipped"@ ==> case_status(ns, j) == TestStatus::Skipped,
        ns[c].name == "failure"@ ==> case_status(ns, j) == TestStatus::Failed,
        ns[c].name == "error"@ ==> case_status(ns, j) == TestStatus::Failed,
        (case_status(ns, j) == TestStatus::Skipped) <==> ns[c].name == "skipped"@,
{
    lemma_scan_end(ns, j, j + 1);
    lemma_status_after_last_outcome(ns, j, c, subtree_end(ns, j));
    reveal_strlit("skipped");
    reveal_strlit("failure");
    reveal_strlit("error");
    assert("skipped"@[0] != "failure"@[0]);
    assert("skipped"@[0] != "error"@[0]);
}

proof fn lemma_scan_end(ns: Seq<NodeView>, i: int, j: int)
    requires
        0 <= i < ns.len(),
        i < j <= ns.len(),
    ensures
        j <= scan_end(ns, i, j) <= ns.len(),
        forall|k: int| j <= k < scan_end(ns, i, j) ==> ns[k].depth > ns[i].depth,
    decreases ns.len() - j,
{
    if j < ns.len() && ns[j].depth > ns[i].depth {
        lemma_scan_end(ns, i, j + 1);
    }
}

/// The value of the first attribute called `key`.
fn find_attribute<'a>(attrs: &'a Vec<XmlAttribute>, key: &str) -> (r: Option<&'a str>)
    ensures
        match r {
            Some(v) => attribute_value(attrs@.map_values(|a: XmlAttribute| a@), key@) == Some(v@),
            None => attribute_value(attrs@.map_values(|a: XmlAttribute| a@), key@) is None,
        },
{
    let ghost all = attrs@.map_values(|a: XmlAttribute| a@);
    let mut i: usize = 0;
    assert(all.skip(0) =~= all);
    while i < attrs.len()
        invariant
            i <= attrs.len(),
            all == attrs@.map_values(|a: XmlAttribute| a@),
            attribute_value(all, key@) == attribute_value(all.skip(i as int), key@),
        decreases attrs.len() - i,
    {
        assert(all.skip(i as int)[0] == attrs@[i as int]@);
        if same_text(attrs[i].name.as_str(), key) {
            return Some(attrs[i].value.as_str());
        }
        assert(all.skip(i as int).drop_first() =~= all.skip(i + 1));
        i = i + 1;
    }
    assert(all.skip(i as int).len() == 0);
    None
}

/// Value of attribute `key` of a node, or `default`.
fn node_attribute_or<'a>(node: &'a XmlNode, key: &str, default: &'a str) -> (r: &'a str)
    ensures
        r@ == attribute_or(node@, key@, default@),
{
    match find_attribute(&node.attributes, key) {
        Some(v) => v,
        None => default,
    }
}

/// Whether a node is an element with local name `tag`.
fn node_is_named(node: &XmlNode, tag: &str) -> (r: bool)
    ensures
        r == is_element_named(node@, tag@),
{
    node.is_element && same_text(node.name.as_str(), tag)
}

/// End (exclusive) of the subtree of node `i`.
fn find_subtree_end(nodes: &Vec<XmlNode>, i: usize) -> (r: usize)
    requires
        i < nodes.len(),
    ensures
        r == subtree_end(nodes_view(nodes@), i as int),
        i < r <= nodes.len(),
{
    let ghost ns = nodes_view(nodes@);
    let mut j = i + 1;
    while j < nodes.len() && nodes[j].depth > nodes[i].depth
        invariant
            ns == nodes_view(nodes@),
            i < nodes.len(),
            i < j <= nodes.len(),
            scan_end(ns, i as int, i + 1) == scan_end(ns, i as int, j as int),
        decreases nodes.len() - j,
    {
        j = j + 1;
    }
    j
}

/// Whether `child` is one level below `parent`.
fn one_level_below(parent: &XmlNode, child: &XmlNode) -> (r: bool)
    ensures
        r == (child.depth == parent.depth + 1),
{
    child.depth > parent.depth && child.depth - 1 == parent.depth
}

/// The status of the test case at node `j`; see [`status_upto`].
fn find_case_status(nodes: &Vec<XmlNode>, j: usize) -> (r: TestStatus)
    requires
        j < nodes.len(),
    ensures
        r == case_status(nodes_view(nodes@), j as int),
{
    let ghost ns = nodes_view(nodes@);
    let end = find_subtree_end(nodes, j);
    let mut status = TestStatus::Passed;
    let mut k = j + 1;
    while k < end
        invariant
            ns == nodes_view(nodes@),
            j < k <= end <= nodes.len(),
            end == subtree_end(ns, j as int),
            status == status_upto(ns, j as int, k as int),
        decreases end - k,
    {
        let c = &nodes[k];
        if one_level_below(&nodes[j], c) && c.is_element {
            if same_text(c.name.as_str(), "skipped") {
                status = TestStatus::Skipped;
            } else if same_text(c.name.as_str(), "failure") || same_text(c.name.as_str(), "error") {
                status = TestStatus::Failed;
            }
        }
        k = k + 1;
    }
    status
}

/// Removes every `,` from a duration text.
pub fn remove_commas(s: &str) -> (r: String)
    ensures
        r@ == without_commas(s@),
        forall|k: int| 0 <= k < r@.len() ==> r@[k] != ',',
{
    let cs = chars_of(s);
    let mut out = String::new();
    let mut i: usize = 0;
    while i < cs.len()
        invariant
            cs@ == s@,
            i <= cs.len(),
            out@ == without_commas(s@.take(i as int)),
        decreases cs.len() - i,
    {
        proof {
            reveal(Seq::filter);
            assert(s@.take(i + 1).drop_last() =~= s@.take(i as int));
        }
        if cs[i] != ',' {
            push_char(&mut out, cs[i]);
        }
        i = i + 1;
    }
    assert(s@.take(cs.len() as int) =~= s@);
    proof {
        assert forall|k: int| 0 <= k < out@.len() implies out@[k] != ',' by {
            s@.lemma_filter_pred(|c: char| c != ',', k);
        }
    }
    out
}

/// The test cases of a document given as its list of nodes: for every
/// `<testsuite>` element in document order, its `<testcase>` element
/// children in order; see [`report_cases`].
pub fn cases_from_nodes(nodes: &Vec<XmlNode>) -> (r: Vec<TestCase>)
    ensures
        cases_view(r@) == report_cases(nodes_view(nodes@)),
{
    let ghost ns = nodes_view(nodes@);
    let mut out: Vec<TestCase> = Vec::new();
    let mut i: usize = 0;
    while i < nodes.len()
        invariant
            ns == nodes_view(nodes@),
            i <= nodes.len(),
            cases_view(out@) == report_cases_upto(ns, i as int),
        decreases nodes.len() - i,
    {
        if node_is_named(&nodes[i], "testsuite") {
            let suite = derive_suite(node_attribute_or(&nodes[i], "name", ""));
            let end = find_subtree_end(nodes, i);
            let ghost before = cases_view(out@);
            let mut j = i + 1;
            while j < end
                invariant
                    ns == nodes_view(nodes@),
                    i < j <= end <= nodes.len(),
                    end == subtree_end(ns, i as int),
                    suite@ == suite_label(attribute_or(ns[i as int], "name"@, ""@)),
                    before == report_cases_upto(ns, i as int),
                    cases_view(out@) == before + suite_cases_upto(ns, i as int, j as int),
                decreases end - j,
            {
                if one_level_below(&nodes[i], &nodes[j]) && node_is_named(&nodes[j], "testcase") {
                    let case = TestCase {
                        suite: suite.clone(),
                        name: node_attribute_or(&nodes[j], "name", "").to_owned(),
                        status: find_case_status(nodes, j),
                        time: remove_commas(node_attribute_or(&nodes[j], "time", "0")),
                    };
                    let ghost prev = out@;
                    out.push(case);
                    proof {
                        assert(out@ =~= prev.push(case));
                        assert(cases_view(out@) =~= cases_view(prev).push(case@));
                    }
                }
                assert(suite_cases_upto(ns, i as int, j + 1) == suite_cases_upto(ns, i as int, j as int)
                    + if ns[j as int].depth == ns[i as int].depth + 1
                        && is_element_named(ns[j as int], "testcase"@) {
                        seq![case_at(ns, i as int, j as int)]
                    } else {
                        seq![]
                    });
                j = j + 1;
            }
        }
        i = i + 1;
    }
    out
}

/// Reads the test cases of one report: `file` names it in the error when
/// `text` is not well-formed XML.
pub fn parse_report(file: &str, text: &str) -> (r: Result<Vec<TestCase>, ParseError>)
    ensures
        match r {
            Ok(cases) => xml_nodes(text@) matches Some(ns) && cases_view(cases@) == report_cases(ns),
            Err(e) => {
                &&& xml_nodes(text@) is None
                &&& e matches ParseError::Xml { file: f, .. }
                &&& f@ == file@
            },
        },
{
    match parse_xml(text) {
        Ok(nodes) => Ok(cases_from_nodes(&nodes)),
        Err(source) => Err(ParseError::Xml { file: file.to_owned(), source }),
    }
}

/// `std::io::Error` shown with `Display`: the error's message. It comes from
/// the operating system, so nothing is stated of it.
#[verifier::external_body]
fn io_error_text(e: &std::io::Error) -> String {
    format!("{e}")
}

/// `roxmltree::Error` shown with `Display`: the parser's description of the
/// error and its position. The error is opaque here, so nothing is stated
/// of the text.
#[verifier::external_body]
fn xml_error_text(e: &roxmltree::Error) -> String {
    format!("{e}")
}

/// The start of the message of an I/O error.
pub open spec fn io_message_prefix() -> Seq<char> {
    "erreur d'E/S: "@
}

/// The start of the message of a malformed file `file`.
pub open spec fn xml_message_prefix(file: Seq<char>) -> Seq<char> {
    "XML invalide dans "@ + file + ": "@
}

impl ParseError {
    /// The message shown for the error: `erreur d'E/S: ` or
    /// `XML invalide dans <file>: `, followed by the description of the
    /// underlying error.
    pub fn message(&self) -> (r: String)
        ensures
            match self {
                ParseError::Io(_) => io_message_prefix().is_prefix_of(r@),
                ParseError::Xml { file, .. } => xml_message_prefix(file@).is_prefix_of(r@),
            },
    {
        let (mut out, detail) = match self {
            ParseError::Io(e) => (String::from_str("erreur d'E/S: "), io_error_text(e)),
            ParseError::Xml { file, source } => {
                let mut head = String::from_str("XML invalide dans ");
                head.append(file.as_str());
                head.append(": ");
                (head, xml_error_text(source))
            },
        };
        let ghost head = out@;
        out.append(detail.as_str());
        assert(out@.subrange(0, head.len() as int) =~= head);
        out
    }
}

} // verus!
