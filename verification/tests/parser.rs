use markup_pdf::dom::{parse, Children, Element};

fn elem(name: &str, attrs: &[(&str, &str)], children: Children) -> Element {
    Element {
        name: name.to_string(),
        attributes: attrs
            .iter()
            .map(|(k, v)| (k.to_string(), v.to_string()))
            .collect(),
        children,
    }
}

fn leaf(name: &str) -> Element {
    elem(name, &[], Children::Text(String::new()))
}

#[test]
fn it_can_parse_when_a_element_is_single() {
    assert_eq!(parse("<A />").unwrap(), leaf("A"));
}

#[test]
fn it_can_parse_when_there_are_some_spaces() {
    assert_eq!(parse("  <A />  ").unwrap(), leaf("A"));
}

#[test]
fn it_can_parse_when_there_is_no_space_between_tag_name_and_slash() {
    assert_eq!(parse("<A/>").unwrap(), leaf("A"));
}

#[test]
fn it_can_parse_when_a_element_has_whitespaces() {
    assert_eq!(parse("<  A  />").unwrap(), leaf("A"));
}

#[test]
fn it_can_parse_when_a_element_has_no_children() {
    assert_eq!(parse("<A></A>").unwrap(), leaf("A"));
}

#[test]
fn it_can_parse_when_a_element_has_attributes() {
    assert_eq!(
        parse("<A a=\"b\" />").unwrap(),
        elem("A", &[("a", "b")], Children::Text(String::new()))
    );
}

#[test]
fn it_can_parse_when_attributes_have_hyphen() {
    assert_eq!(
        parse("<A a=\"b-c\" />").unwrap(),
        elem("A", &[("a", "b-c")], Children::Text(String::new()))
    );
}

#[test]
fn it_can_parse_when_element_has_children() {
    assert_eq!(
        parse("<A><B /></A>").unwrap(),
        elem("A", &[], Children::Elements(vec![leaf("B")]))
    );
}

#[test]
fn it_can_parse_when_element_has_grandchildren() {
    assert_eq!(
        parse("<A><B><C></C></B></A>").unwrap(),
        elem(
            "A",
            &[],
            Children::Elements(vec![elem(
                "B",
                &[],
                Children::Elements(vec![leaf("C")])
            )])
        )
    );
}

#[test]
fn it_can_parse_when_child_is_text() {
    assert_eq!(
        parse("<A>text</A>").unwrap(),
        elem("A", &[], Children::Text("text".to_string()))
    );
}

#[test]
fn it_can_parse_when_child_is_multi_byte_text() {
    assert_eq!(
        parse("<A>テスト</A>").unwrap(),
        elem("A", &[], Children::Text("テスト".to_string()))
    );
}

#[test]
fn it_can_parse_when_it_has_newlines_and_whitespaces() {
    let text = r#"
            <A></A>
        "#;
    assert_eq!(parse(text).unwrap(), leaf("A"));
}

#[test]
fn it_cannot_parse_when_child_has_text_and_tags() {
    assert!(parse("<A>text<B></B></A>").is_err());
}

#[test]
fn it_cannot_parse_when_a_pair_is_broken() {
    assert!(parse("<A><B><C></B></C></A>").is_err());
}

#[test]
fn it_has_multiple_roots() {
    assert!(parse("<A /><B />").is_err());
}

#[test]
fn it_has_multiple_roots_without_using_self_closing() {
    assert!(parse("<A></A><B></B>").is_err());
}

#[test]
fn it_cannot_parse_when_a_element_has_no_a_close_tag() {
    assert!(parse("<A>").is_err());
}

#[test]
fn it_cannot_parse_when_a_element_has_no_an_open_tag() {
    assert!(parse("</A>").is_err());
}

#[test]
fn it_cannot_parse_when_a_element_has_no_its_name() {
    assert!(parse("<>").is_err());
}

#[test]
fn it_cannot_parse_when_root_is_text() {
    assert!(parse("text").is_err());
}

#[test]
fn it_cannot_parse_when_it_is_empty() {
    assert!(parse("").is_err());
}
