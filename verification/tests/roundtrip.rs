use markup_pdf::dom::{parse, pretty_print};

fn roundtrips(input: &str) {
    let first = parse(input).unwrap();
    let printed = pretty_print(&first);
    let second = parse(printed.as_str()).unwrap();
    assert_eq!(first, second);
}

#[test]
fn printing_a_leaf_roundtrips() {
    roundtrips("<A />");
}

#[test]
fn printing_attributes_roundtrips() {
    roundtrips("<A a=\"b\" c=\"d-e\" />");
}

#[test]
fn printing_text_roundtrips() {
    roundtrips("<A>some text</A>");
}

#[test]
fn printing_nested_elements_roundtrips() {
    roundtrips("<Document title=\"x\"><Page style=\"page\"><Layer><Text>hi</Text></Layer></Page></Document>");
}

#[test]
fn printing_multi_byte_text_roundtrips() {
    roundtrips("<A>テスト</A>");
}

#[test]
fn printing_whitespace_heavy_markup_roundtrips() {
    roundtrips("  <  A  x=\"1\" >\n  <B/> <C a=\"2\"/>\n </A>  ");
}

#[test]
fn printed_form_is_canonical() {
    let e = parse("<  A  x=\"1\"  y=\"2\" ></A>").unwrap();
    assert_eq!(pretty_print(&e), "<A x=\"1\" y=\"2\"></A>");
}
