use rusty_jenkins::commands::config_sweep::{
    is_left_alone, patch_xml_tag, read_xml_tag, will_be_read_again, TagError,
};
use rusty_jenkins::xml::{
    find_by_path, has_steady_texts, is_portable, is_steady, read_document, replace_by_path, XmlElement, XmlNode,
};

const SAMPLE_XML: &str = r#"<?xml version="1.0" encoding="UTF-8"?>
<org.jenkinsci.plugins.workflow.multibranch.WorkflowMultiBranchProject>
  <sources>
    <data>
      <jenkins.branch.BranchSource>
        <source class="org.jenkinsci.plugins.github_branch_source.GitHubSCMSource">
          <repoOwner>my-org</repoOwner>
          <repository>original-repo</repository>
        </source>
      </jenkins.branch.BranchSource>
    </data>
  </sources>
</org.jenkinsci.plugins.workflow.multibranch.WorkflowMultiBranchProject>"#;

const AMBIGUOUS_XML: &str = r#"<flow-definition>
      <properties>
        <hudson.model.ParametersDefinitionProperty>
          <parameterDefinitions>
            <hudson.model.StringParameterDefinition>
              <name>FOOBAR</name>
            </hudson.model.StringParameterDefinition>
          </parameterDefinitions>
        </hudson.model.ParametersDefinitionProperty>
      </properties>
      <definition>
        <scm>
          <branches>
            <hudson.plugins.git.BranchSpec>
              <name>*/main</name>
            </hudson.plugins.git.BranchSpec>
          </branches>
        </scm>
      </definition>
    </flow-definition>"#;

#[test]
fn single_segment_finds_first_occurrence() {
    assert_eq!(read_xml_tag(AMBIGUOUS_XML, "name").unwrap(), Some("FOOBAR".into()));
}

#[test]
fn path_branches_name_finds_branch_spec() {
    assert_eq!(read_xml_tag(AMBIGUOUS_XML, "branches/name").unwrap(), Some("*/main".into()));
}

#[test]
fn path_branchspec_name_finds_branch_spec() {
    assert_eq!(
        read_xml_tag(AMBIGUOUS_XML, "hudson.plugins.git.BranchSpec/name").unwrap(),
        Some("*/main".into())
    );
}

#[test]
fn path_patch_changes_correct_name_tag() {
    let patched = patch_xml_tag(AMBIGUOUS_XML, "branches/name", "*/develop").unwrap();
    assert!(patched.contains("*/develop"));
    assert!(patched.contains("<name>FOOBAR</name>"));
}

#[test]
fn path_error_message_includes_the_path() {
    let err = patch_xml_tag(AMBIGUOUS_XML, "missing/tag", "x").unwrap_err();
    assert!(err.message().contains("missing/tag"));
}

#[test]
fn patch_xml_tag_replaces_target_text() {
    let patched = patch_xml_tag(SAMPLE_XML, "repository", "new-repo").unwrap();
    assert!(patched.contains("<repository>new-repo</repository>"));
    assert!(!patched.contains("original-repo"));
}

#[test]
fn patch_xml_tag_does_not_alter_other_tags() {
    let patched = patch_xml_tag(SAMPLE_XML, "repository", "new-repo").unwrap();
    assert!(patched.contains("<repoOwner>my-org</repoOwner>"));
}

#[test]
fn patch_xml_tag_errors_when_tag_not_found() {
    let err = patch_xml_tag(SAMPLE_XML, "nonexistent", "value").unwrap_err();
    assert!(err.message().contains("<nonexistent>"));
}

#[test]
fn patch_xml_tag_works_on_deeply_nested_tag() {
    let xml = r#"<root><a><b><c>old</c></b></a></root>"#;
    let patched = patch_xml_tag(xml, "c", "new").unwrap();
    assert!(patched.contains("<c>new</c>"));
}

#[test]
fn patch_xml_tag_replaces_only_first_occurrence() {
    let xml = r#"<root><item>first</item><item>second</item></root>"#;
    let patched = patch_xml_tag(xml, "item", "replaced").unwrap();
    assert!(patched.contains("<item>replaced</item>"));
    assert!(patched.contains("<item>second</item>"));
}

#[test]
fn patched_document_is_written_out_whole() {
    let xml = "<r b=\"2\" a=\"1\"><x>old</x><!--note--><y z=\"&lt;\"/></r>";
    assert_eq!(
        patch_xml_tag(xml, "x", "a<b&c").unwrap(),
        "<?xml version=\"1.0\" encoding=\"UTF-8\"?><r b=\"2\" a=\"1\"><x>a&lt;b&amp;c</x><!-- note --><y z=\"&lt;\" /></r>"
    );
}

#[test]
fn what_was_patched_is_read_back() {
    let documents = [
        SAMPLE_XML,
        "<a><repository/><!-- c --><![CDATA[ x ]]><?pi data?></a>",
        "<a xmlns=\"urn:d\" xmlns:p=\"urn:p\"><p:b><repository p:at=\"1\">t</repository></p:b></a>",
        "<p:a xmlns:p=\"urn:1\"><p:b xmlns:p=\"urn:2\"><p:c xmlns:p=\"urn:1\"><repository>x</repository></p:c></p:b></p:a>",
        "<a><b><![CDATA[x]]>  <c>-- ]]&gt; ?&gt;</c></b><repository>1<i>2</i>3</repository></a>",
        "<repository at=\"a&#10;b c\">x</repository>",
        "<a><?p:q data ?><?:?><repository/></a>",
        "<a><b><![CDATA[x]]>  <c/>\n</b><repository/></a>",
        "<a><repository><b xmlns:p=\"urn:p\" p:1a=\"\"/></repository></a>",
    ];
    let values = ["new", "", "a < b && c > d \"q\" 'r'", "]]>", " padded\n", "é\u{1f600}\u{85}", "-->", "&amp;", "x;y=z/"];
    for xml in documents {
        for value in values {
            let patched = patch_xml_tag(xml, "repository", value).unwrap();
            assert!(will_be_read_again(xml, "repository", value, &patched) && is_steady(value), "{xml} {value}");
            assert_eq!(read_xml_tag(&patched, "repository").unwrap().as_deref(), Some(value), "{xml} {value}");
            let again = patch_xml_tag(&patched, "repository", "other").unwrap();
            assert_eq!(again, patch_xml_tag(xml, "repository", "other").unwrap());
        }
    }
}

#[test]
fn long_names_are_read_back() {
    for name in ["a".repeat(0x40001), "é".repeat(0x20001), format!("p:{}", "b".repeat(0x3ffff))] {
        let xml = format!("<r xmlns:p=\"urn:p\"><{name} x=\"1\">t</{name}><y/></r>");
        let patched = patch_xml_tag(&xml, "y", "new").unwrap();
        assert!(will_be_read_again(&xml, "y", "new", &patched));
        assert_eq!(read_xml_tag(&patched, "y").unwrap().as_deref(), Some("new"));
        let local = name.trim_start_matches("p:");
        assert_eq!(read_xml_tag(&patched, local).unwrap().as_deref(), Some("t"));
    }
    let name = "a".repeat(0x40002);
    assert!(read_xml_tag(&format!("<r><{name}/></r>"), "r").is_err());
    let attribute = format!("<r {}=\"v\"><y/></r>", "a".repeat(0x40001));
    let patched = patch_xml_tag(&attribute, "y", "new").unwrap();
    assert_eq!(read_document(&patched).unwrap().attributes, read_document(&attribute).unwrap().attributes);
    let target = format!("<r><?{}?><y/></r>", "a".repeat(0x40001));
    let patched = patch_xml_tag(&target, "y", "new").unwrap();
    assert!(will_be_read_again(&target, "y", "new", &patched));
    assert_eq!(read_xml_tag(&patched, "y").unwrap().as_deref(), Some("new"));
    let space = format!("<r xmlns:{}=\"urn:x\"><y/></r>", "a".repeat(0x40001 - 6));
    let patched = patch_xml_tag(&space, "y", "new").unwrap();
    assert!(will_be_read_again(&space, "y", "new", &patched));
    assert_eq!(read_xml_tag(&patched, "y").unwrap().as_deref(), Some("new"));
}

#[test]
fn blank_texts_behind_filled_sections_are_read_back() {
    let xml = "<r><b><![CDATA[x]]>  <c/>\n</b><d><![CDATA[ ]]>  </d><y/></r>";
    assert_eq!(read_xml_tag(xml, "b").unwrap().as_deref(), Some("  "));
    assert_eq!(read_xml_tag(xml, "d").unwrap().as_deref(), Some(""));
    let patched = patch_xml_tag(xml, "y", "new").unwrap();
    assert!(will_be_read_again(xml, "y", "new", &patched));
    for other in ["b", "d", "c", "r"] {
        assert!(is_left_alone(xml, "y", other), "{other}");
        assert_eq!(read_xml_tag(&patched, other).unwrap(), read_xml_tag(xml, other).unwrap(), "{other}");
    }
    let cut = "<r><b><![CDATA[]]&gt;]]> <c/></b><e><![CDATA[]]]]><![CDATA[>]]>\t</e><y/></r>";
    let patched = patch_xml_tag(cut, "y", "new").unwrap();
    for other in ["b", "e"] {
        assert!(is_left_alone(cut, "y", other));
        assert_eq!(read_xml_tag(&patched, other).unwrap(), read_xml_tag(cut, other).unwrap());
    }
    assert_eq!(read_xml_tag(&patched, "e").unwrap().as_deref(), Some("\t"));
}

#[test]
fn blank_texts_from_entities_do_not_come_back() {
    let xml = "<!DOCTYPE r [<!ENTITY e \"\">]><r><b>&e;  <c/></b><y/></r>";
    assert_eq!(read_xml_tag(xml, "b").unwrap().as_deref(), Some("  "));
    assert!(!is_left_alone(xml, "y", "b") && is_left_alone(xml, "y", "c"));
    let patched = patch_xml_tag(xml, "y", "new").unwrap();
    assert!(will_be_read_again(xml, "y", "new", &patched));
    assert_eq!(read_xml_tag(&patched, "b").unwrap().as_deref(), Some(""));
}

#[test]
fn texts_that_follow_each_other_make_up_one() {
    let text = |s: &str| XmlNode::Text(s.to_string());
    let section = |s: &str| XmlNode::CData(s.to_string());
    let steady = |children: Vec<XmlNode>| has_steady_texts(&XmlElement { children, ..element("a") });
    assert!(steady(vec![]) && steady(vec![text("")]) && steady(vec![text(" "), text("x"), text("\n")]));
    assert!(!steady(vec![text(" "), text("\n")]) && !steady(vec![text("x"), section(""), text(" ")]));
    assert!(steady(vec![section("x"), text(" "), text("\t")]));
    assert!(!steady(vec![section("x"), XmlNode::Comment("x".to_string()), text(" ")]));
    assert!(!steady(vec![section("x"), section(" "), text(" ")]));
    assert!(!steady(vec![section("x"), text("a\rb")]) && !steady(vec![text(" "), section("x")]));
}

#[test]
fn white_space_and_carriage_returns_do_not_come_back() {
    let patched = patch_xml_tag(SAMPLE_XML, "repository", "  ").unwrap();
    assert_eq!(read_xml_tag(&patched, "repository").unwrap().as_deref(), Some(""));
    let patched = patch_xml_tag(SAMPLE_XML, "repository", "a\rb").unwrap();
    assert_eq!(read_xml_tag(&patched, "repository").unwrap().as_deref(), Some("a\nb"));
    for value in [" ", "\t\n", "a\rb"] {
        assert!(!is_steady(value));
    }
    let patched = patch_xml_tag(SAMPLE_XML, "repository", "a\u{1}b").unwrap();
    assert!(!will_be_read_again(SAMPLE_XML, "repository", "a\u{1}b", &patched));
    assert!(read_xml_tag(&patched, "repository").is_err());
}

#[test]
fn other_tags_keep_their_text() {
    let patched = patch_xml_tag(SAMPLE_XML, "repository", "new").unwrap();
    assert_eq!(read_xml_tag(&patched, "repoOwner").unwrap(), read_xml_tag(SAMPLE_XML, "repoOwner").unwrap());
    assert_eq!(read_xml_tag(&patched, "source/repoOwner").unwrap().as_deref(), Some("my-org"));
    let patched = patch_xml_tag(AMBIGUOUS_XML, "branches/name", "new").unwrap();
    for other in ["name", "hudson.model.StringParameterDefinition/name", "missing", "branches/missing", ""] {
        assert!(is_left_alone(AMBIGUOUS_XML, "branches/name", other), "{other}");
        assert_eq!(read_xml_tag(&patched, other).unwrap(), read_xml_tag(AMBIGUOUS_XML, other).unwrap(), "{other}");
    }
    for other in ["branches/name", "hudson.plugins.git.BranchSpec/name", "definition/name"] {
        assert!(!is_left_alone(AMBIGUOUS_XML, "branches/name", other), "{other}");
    }
    assert!(!is_left_alone(AMBIGUOUS_XML, "branches", "scm/name"));
    assert!(!is_left_alone("no xml", "a", "b"));
}

#[test]
fn attributes_are_read_back() {
    let xml = "<r b=\"&lt;&quot;'&amp;\" a=\"x&#10;y&#13; z\"><x c=\"]]> /> --\">old</x><y d=\"1\" e=\"\"/></r>";
    let before = read_document(xml).unwrap();
    let patched = patch_xml_tag(xml, "x", "new").unwrap();
    assert!(will_be_read_again(xml, "x", "new", &patched));
    let after = read_document(&patched).unwrap();
    assert_eq!(after.attributes, before.attributes);
    assert_eq!(before.attributes[1].1, "x\ny\r z");
    for (old, new) in before.children.iter().zip(&after.children) {
        match (old, new) {
            (XmlNode::Element(old), XmlNode::Element(new)) => assert_eq!(old.attributes, new.attributes),
            _ => panic!("expected elements"),
        }
    }
}

#[test]
fn tabs_in_attributes_become_spaces() {
    let patched = patch_xml_tag("<r a=\"x&#9;y\"><x/></r>", "x", "new").unwrap();
    assert_eq!(read_document(&patched).unwrap().attributes[0].1, "x y");
}

fn element(name: &str) -> XmlElement {
    XmlElement {
        prefix: None,
        namespace: None,
        namespaces: None,
        name: name.to_string(),
        attributes: vec![],
        children: vec![],
    }
}

#[test]
fn portable_elements_are_told_apart() {
    let pair = |k: &str, v: &str| (k.to_string(), v.to_string());
    for name in ["a", "_", "hudson.plugins.git.BranchSpec", "x-1", "é"] {
        assert!(is_portable(&element(name)), "{name}");
    }
    for name in ["", "1a", "a b", "a:b", "-", "<"] {
        assert!(!is_portable(&element(name)), "{name}");
    }
    assert!(is_portable(&element(&"a".repeat(0x40001))));
    assert!(!is_portable(&element(&"a".repeat(0x40002))));
    assert!(is_portable(&element(&"é".repeat(0x20001))));
    assert!(!is_portable(&element(&"é".repeat(0x20002))));

    let prefixed = |prefix: &str, namespaces: Option<Vec<(String, String)>>| XmlElement {
        prefix: Some(prefix.to_string()),
        namespaces,
        ..element("a")
    };
    assert!(is_portable(&prefixed("p", Some(vec![pair("p", "urn:1")]))));
    assert!(!is_portable(&prefixed("p", Some(vec![pair("q", "urn:1")]))));
    assert!(!is_portable(&prefixed("p", None)));
    assert!(!is_portable(&prefixed("p", Some(vec![pair("p", "")]))));
    assert!(is_portable(&prefixed("p", Some(vec![pair("p", ""), pair("p", "urn:1")]))));
    assert!(!is_portable(&prefixed("xml", Some(vec![pair("xml", "urn:1")]))));
    let spaced = |prefix: &str, uri: &str| XmlElement { namespaces: Some(vec![pair(prefix, uri)]), ..element("a") };
    assert!(is_portable(&spaced("", "urn:1")) && is_portable(&spaced("", "")));
    assert!(!is_portable(&spaced("", "xmlns")) && !is_portable(&spaced("", "http://www.w3.org/2000/xmlns/")));
    assert!(!is_portable(&spaced("p q", "urn:1")));

    let with = |attributes: Vec<(String, String)>| XmlElement { attributes, ..element("a") };
    assert!(is_portable(&with(vec![pair("b", "\t\u{10ffff}")])));
    assert!(!is_portable(&with(vec![pair("1a", "x")])) && !is_portable(&with(vec![pair("xmlns", "x")])));
    assert!(!is_portable(&with(vec![pair("b", "\u{0}")])));
    assert!(is_portable(&with(vec![pair("b", "\u{0}"), pair("b", "x")])));

    let below = |child: XmlNode| XmlElement { children: vec![child], ..element("a") };
    let instruction = |name: &str, data: &str| {
        below(XmlNode::ProcessingInstruction(name.to_string(), Some(data.to_string())))
    };
    assert!(is_portable(&below(XmlNode::Text("\n]]>".to_string()))));
    assert!(!is_portable(&below(XmlNode::Text("\u{fffe}".to_string()))));
    assert!(!is_portable(&below(XmlNode::Comment("\u{b}".to_string()))));
    assert!(!is_portable(&below(XmlNode::CData("\u{ffff}".to_string()))));
    assert!(is_portable(&instruction("pi", "data?")) && is_portable(&instruction("a:b:c", "")));
    assert!(is_portable(&instruction(":", "")) && !is_portable(&instruction("1:a", "")));
    assert!(!is_portable(&instruction("pi", "a?>b")) && !is_portable(&instruction("Xml", "a")));
    assert!(!is_portable(&below(XmlNode::Element(element("1")))));
    let attribute = "<r xmlns:p=\"urn:p\" p:1a=\"x\"><b/></r>";
    assert!(read_document(attribute).map_or(true, |root| !is_portable(&root)));
}

#[test]
fn the_first_match_of_a_segment_decides() {
    let xml = "<r><b/><b><n>x</n></b></r>";
    assert_eq!(read_xml_tag(xml, "b/n").unwrap(), None);
    assert!(matches!(patch_xml_tag(xml, "b/n", "y").unwrap_err(), TagError::PathNotFound(_)));
    assert_eq!(read_xml_tag(xml, "r/n").unwrap().as_deref(), Some("x"));
    let xml = "<r><s><b/></s><b><n>x</n></b><n>z</n></r>";
    assert_eq!(read_xml_tag(xml, "b/n").unwrap(), None);
    assert_eq!(read_xml_tag(xml, "n").unwrap().as_deref(), Some("x"));
    let xml = "<r><a><n>1</n></a><a><b><n>2</n></b></a></r>";
    assert_eq!(read_xml_tag(xml, "a/b/n").unwrap(), None);
}

#[test]
fn a_further_segment_is_looked_for_below() {
    assert_eq!(read_xml_tag("<a>x</a>", "a/a").unwrap(), None);
    assert!(matches!(patch_xml_tag("<a>x</a>", "a/a", "y").unwrap_err(), TagError::PathNotFound(_)));
    assert_eq!(read_xml_tag("<a>x<b><a>y</a></b></a>", "a/a").unwrap().as_deref(), Some("y"));
    let patched = patch_xml_tag("<a>x<b><a>y</a></b></a>", "a/a", "z").unwrap();
    assert!(patched.ends_with("<a>x<b><a>z</a></b></a>"));
}

#[test]
fn old_text_restores_the_document() {
    let xml = "<?xml version=\"1.0\" encoding=\"UTF-8\"?><a><b>old</b><c>x</c></a>";
    let patched = patch_xml_tag(xml, "b", "new").unwrap();
    assert_eq!(patch_xml_tag(&patched, "b", "old").unwrap(), xml);
}

#[test]
fn tag_text_is_that_directly_below() {
    let xml = "<a>1<b>2</b>3<!-- 4 --><![CDATA[5]]>6</a>";
    assert_eq!(read_xml_tag(xml, "a").unwrap().as_deref(), Some("136"));
    assert_eq!(read_xml_tag(xml, "a/b").unwrap().as_deref(), Some("2"));
    assert_eq!(read_xml_tag(xml, "b/a").unwrap(), None);
    assert_eq!(read_xml_tag(xml, "").unwrap(), None);
    assert_eq!(read_xml_tag(xml, "a//b").unwrap(), None);
}

#[test]
fn malformed_documents_are_refused() {
    let e = read_xml_tag("<a>", "a").unwrap_err();
    assert!(matches!(e, TagError::Malformed(_)));
    assert!(e.message().starts_with("parsing config.xml: Malformed XML. "));
    for xml in ["", " \n", "<!-- c -->", "<?xml version=\"1.0\"?>", "<!DOCTYPE a>", "</a>"] {
        assert!(read_xml_tag(xml, "a").is_err(), "{xml}");
    }
    let e = patch_xml_tag("no xml", "a", "b").unwrap_err();
    assert!(e.message().starts_with("parsing config.xml: "));
}

#[test]
fn missing_tag_message_is_complete() {
    let e = patch_xml_tag("<a/>", "b/c", "x").unwrap_err();
    assert_eq!(
        e.message(),
        "XML path <b/c> not found in config.xml.\n\
         Tip: use `rj config get <job>` to inspect the XML and find the correct path.\n\
         Use / to disambiguate: e.g. `branches/name` instead of just `name`."
    );
}

#[test]
fn trees_are_searched_depth_first() {
    let mut root = read_document("<r><a><x>1</x></a><x>2</x><b><c><x>3</x></c></b></r>").unwrap();
    let path = |s: &str| s.split('/').map(|p| p.to_string()).collect::<Vec<String>>();
    assert_eq!(find_by_path(&root, &path("x")).as_deref(), Some("1"));
    assert_eq!(find_by_path(&root, &path("b/x")).as_deref(), Some("3"));
    assert_eq!(find_by_path(&root, &path("a/c")), None);
    assert_eq!(find_by_path(&root, &[]), None);
    assert!(replace_by_path(&mut root, &path("b/x"), "new"));
    assert!(!replace_by_path(&mut root, &path("b/y"), "new"));
    assert!(!replace_by_path(&mut root, &[], "new"));
    assert_eq!(find_by_path(&root, &path("c/x")).as_deref(), Some("new"));
    assert_eq!(find_by_path(&root, &path("x")).as_deref(), Some("1"));
    assert_eq!(root.children.len(), 3);
    assert!(matches!(root.children[1], XmlNode::Element(_)));
}
