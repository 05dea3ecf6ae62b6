use html_tag::html::HtmlTag;
use html_tag::tags::TagType;

#[test]
fn empty_tag() {
    let actual_html = "<p></p>";
    let p = HtmlTag::new("p");
    assert_eq!(p.to_html(), actual_html);
}

#[test]
fn single_tag_match() {
    let actual_html = "<p class=\"test\">Hello World</p>";
    let mut p = HtmlTag::new("p");
    p.add_class("test");
    p.set_body("Hello World");
    assert_eq!(p.to_html(), actual_html);
}

#[test]
fn children_tag_match() {
    let actual_html = "<div class=\"test\"><p>Hello World</p></div>";
    let mut div = HtmlTag::new("div");
    div.add_class("test");
    let mut p = HtmlTag::new("p");
    p.set_body("Hello World");
    div.add_child(p);
    assert_eq!(div.to_html(), actual_html);
}

#[test]
fn test_styles_id_classes() {
    let actual_html =
        "<div id=\"test\" class=\"test\" style=\"color: red;\"><p>Hello World</p></div>";
    let mut div = HtmlTag::new("div");
    div.add_class("test");
    div.set_id("test");
    div.set_style("color: red;");
    let mut p = HtmlTag::new("p");
    p.set_body("Hello World");
    div.add_child(p);
    assert_eq!(div.to_html(), actual_html);
}

#[test]
fn test_href() {
    let actual_html = "<a href=\"https://www.google.com\">Hello World</a>";
    let mut a = HtmlTag::new("a");
    a.set_href("https://www.google.com");
    a.set_body("Hello World");
    assert_eq!(a.to_html(), actual_html);
}

#[test]
fn test_custom_tag() {
    let actual_html = "<custom>Hello World</custom>";
    let mut custom = HtmlTag::new("custom");
    custom.set_body("Hello World");
    assert_eq!(custom.to_html(), actual_html);
}

#[test]
fn test_custom_attributes() {
    let actual_html = "<div id=\"test\" class=\"test\" style=\"color: red;\" data-test=\"test\"><p>Hello World</p></div>";
    let mut div = HtmlTag::new("div");
    div.add_class("test");
    div.set_id("test");
    div.set_style("color: red;");
    div.add_attribute("data-test", "test");
    let mut p = HtmlTag::new("p");
    p.set_body("Hello World");
    div.add_child(p);
    assert_eq!(div.to_html(), actual_html);
}

#[test]
fn print_test() {
    let actual_html = "<p class=\"test\">Hello World</p>";
    let mut p = HtmlTag::new("p");
    p.add_class("test");
    p.set_body("Hello World");
    assert_eq!(format!("{}", p.to_html()), actual_html);
}

#[test]
fn new_sets_only_the_tag() {
    let a = HtmlTag::new("A");
    assert_eq!(a.tag_type, TagType::A);
    assert!(a.class_names.is_empty());
    assert!(a.id.is_none());
    assert!(a.body.is_none());
    assert!(a.children.is_none());
    assert!(a.custom_attributes.is_none());
    assert_eq!(a.to_html(), "<a></a>");
}

#[test]
fn fresh_sets_tag_body_and_classes() {
    let a = HtmlTag::fresh(TagType::A, Some("Hello World"), vec!["test"]);
    assert_eq!(a.to_html(), "<a class=\"test\">Hello World</a>");
    assert_eq!(a.class_names, vec!["test".to_string()]);
    assert_eq!(a.body, Some("Hello World".to_string()));
    assert!(a.id.is_none());
    assert!(a.children.is_none());
    assert!(a.custom_attributes.is_none());

    let b = HtmlTag::fresh(TagType::Custom("x-y".to_string()), None, vec!["one", "two", "one"]);
    assert_eq!(b.to_html(), "<x-y class=\"one two one\"></x-y>");
}

#[test]
fn body_wins_over_children() {
    let mut div = HtmlTag::new("div");
    let mut p = HtmlTag::new("p");
    p.set_body("child");
    div.add_child(p);
    div.set_body("text");
    let html = div.to_html();
    assert_eq!(html, "<div>text</div>");
    assert!(!html.contains("<p>"));
    assert!(!html.contains("child"));
    assert_eq!(div.children.map(|c| c.len()), Some(1));
}

#[test]
fn empty_body_still_wins_over_children() {
    let mut div = HtmlTag::new("div");
    div.add_child(HtmlTag::new("p"));
    div.set_body("");
    assert_eq!(div.to_html(), "<div></div>");
}

#[test]
fn children_come_in_the_order_they_were_added() {
    let mut ul = HtmlTag::new("ul");
    for name in ["one", "two", "three"] {
        let mut li = HtmlTag::new("li");
        li.set_body(name);
        ul.add_child(li);
    }
    assert_eq!(ul.to_html(), "<ul><li>one</li><li>two</li><li>three</li></ul>");
}

#[test]
fn nested_children_are_written_in_full() {
    let mut span = HtmlTag::new("span");
    span.set_body("deep");
    let mut p = HtmlTag::new("p");
    p.add_class("inner");
    p.add_child(span);
    let mut div = HtmlTag::new("div");
    div.set_id("outer");
    div.add_child(p);
    div.add_child(HtmlTag::new("img"));
    assert_eq!(
        div.to_html(),
        "<div id=\"outer\"><p class=\"inner\"><span>deep</span></p><img></img></div>"
    );
}

#[test]
fn attributes_come_as_id_then_classes_then_custom() {
    let mut div = HtmlTag::new("div");
    div.add_attribute("style", "color: red;");
    div.add_attribute("class", "test");
    div.add_attribute("data-x", "1");
    div.add_attribute("id", "test");
    assert_eq!(
        div.to_html(),
        "<div id=\"test\" class=\"test\" style=\"color: red;\" data-x=\"1\"></div>"
    );
    assert_eq!(div.partial_convert(), "<div id=\"test\" class=\"test\" style=\"color: red;\" data-x=\"1\"");
}

#[test]
fn add_attribute_class_appends_and_id_overwrites() {
    let mut p = HtmlTag::new("p");
    p.add_attribute("class", "a");
    p.add_attribute("class", "a");
    p.add_attribute("class", "b");
    p.add_attribute("id", "first");
    p.add_attribute("id", "second");
    assert_eq!(p.class_names, vec!["a".to_string(), "a".to_string(), "b".to_string()]);
    assert_eq!(p.id, Some("second".to_string()));
    assert!(p.custom_attributes.is_none());
    assert_eq!(p.to_html(), "<p id=\"second\" class=\"a a b\"></p>");
}

#[test]
fn add_attribute_keys_are_matched_exactly() {
    let mut p = HtmlTag::new("p");
    p.add_attribute("Class", "a");
    p.add_attribute("ID", "b");
    p.add_attribute("classes", "c");
    assert!(p.class_names.is_empty());
    assert!(p.id.is_none());
    assert_eq!(p.to_html(), "<p Class=\"a\" ID=\"b\" classes=\"c\"></p>");
}

#[test]
fn a_custom_key_given_twice_stands_twice() {
    let mut a = HtmlTag::new("a");
    a.set_href("one");
    a.set_href("two");
    a.set_style("x");
    a.add_custom_attribute("href", "three");
    assert_eq!(
        a.custom_attributes,
        Some(vec![
            ("href".to_string(), "one".to_string()),
            ("href".to_string(), "two".to_string()),
            ("style".to_string(), "x".to_string()),
            ("href".to_string(), "three".to_string()),
        ])
    );
    assert_eq!(a.to_html(), "<a href=\"one\" href=\"two\" style=\"x\" href=\"three\"></a>");
}

#[test]
fn add_custom_attribute_takes_class_and_id_as_custom() {
    let mut p = HtmlTag::new("p");
    p.add_custom_attribute("class", "a");
    p.add_custom_attribute("id", "b");
    assert!(p.class_names.is_empty());
    assert!(p.id.is_none());
    assert_eq!(p.to_html(), "<p class=\"a\" id=\"b\"></p>");
}

#[test]
fn add_custom_replaces_all_custom_attributes() {
    let mut div = HtmlTag::new("div");
    div.set_style("color: red;");
    div.add_attribute("data-a", "1");
    div.add_custom(vec![("data-b", "2"), ("data-c", "3"), ("data-b", "4")]);
    assert_eq!(
        div.custom_attributes,
        Some(vec![
            ("data-b".to_string(), "2".to_string()),
            ("data-c".to_string(), "3".to_string()),
            ("data-b".to_string(), "4".to_string()),
        ])
    );
    assert_eq!(div.to_html(), "<div data-b=\"2\" data-c=\"3\" data-b=\"4\"></div>");
    div.add_custom(vec![]);
    assert_eq!(div.custom_attributes, Some(vec![]));
    assert_eq!(div.to_html(), "<div></div>");
}

#[test]
fn set_body_and_set_id_overwrite() {
    let mut p = HtmlTag::new("p");
    p.set_body("one");
    p.set_body("two");
    p.set_id("a");
    p.set_id("b");
    assert_eq!(p.to_html(), "<p id=\"b\">two</p>");
}

#[test]
fn nothing_is_escaped() {
    let mut p = HtmlTag::new("p");
    p.set_id("a\"b");
    p.add_class("<c>");
    p.add_attribute("k&", "v\"w");
    p.set_body("<b>bold</b> & more");
    assert_eq!(
        p.to_html(),
        "<p id=\"a\"b\" class=\"<c>\" k&=\"v\"w\"><b>bold</b> & more</p>"
    );
}

#[test]
fn get_tags_gives_opening_and_closing() {
    let (open, close) = HtmlTag::get_tags(&TagType::H3);
    assert_eq!(open, "<h3");
    assert_eq!(close, "</h3>");
    let (open, close) = HtmlTag::get_tags(&TagType::Custom("my-tag".to_string()));
    assert_eq!(open, "<my-tag");
    assert_eq!(close, "</my-tag>");
}

#[test]
fn partial_convert_leaves_the_tag_open() {
    let mut p = HtmlTag::new("p");
    assert_eq!(p.partial_convert(), "<p");
    p.set_body("text");
    p.add_class("a");
    p.add_class("b");
    assert_eq!(p.partial_convert(), "<p class=\"a b\"");
}

#[test]
fn the_tag_name_is_lowered_by_new() {
    let mut t = HtmlTag::new("SECTION");
    t.set_body("x");
    assert_eq!(t.tag_type, TagType::Custom("section".to_string()));
    assert_eq!(t.to_html(), "<section>x</section>");
    assert_eq!(HtmlTag::new("DiV").to_html(), "<div></div>");
}

#[test]
fn equal_trees_compare_equal() {
    let mut a = HtmlTag::new("div");
    a.add_child(HtmlTag::new("p"));
    let mut b = HtmlTag::new("div");
    b.add_child(HtmlTag::new("p"));
    assert!(a == b);
    b.add_class("x");
    assert!(a != b);
}

#[test]
fn a_cloned_tree_is_equal_and_independent() {
    let mut div = HtmlTag::new("div");
    div.set_id("main");
    div.add_class("a");
    div.set_style("color: red;");
    let mut p = HtmlTag::new("p");
    p.set_body("Hello");
    div.add_child(p);
    div.add_child(HtmlTag::new("custom"));
    let mut copy = div.clone();
    assert!(copy == div);
    assert_eq!(copy.to_html(), div.to_html());
    copy.add_class("b");
    copy.add_child(HtmlTag::new("span"));
    assert_eq!(
        div.to_html(),
        "<div id=\"main\" class=\"a\" style=\"color: red;\"><p>Hello</p><custom></custom></div>"
    );
    assert_eq!(
        copy.to_html(),
        "<div id=\"main\" class=\"a b\" style=\"color: red;\"><p>Hello</p><custom></custom><span></span></div>"
    );
}

#[test]
fn classes_are_joined_by_single_spaces() {
    let mut p = HtmlTag::new("p");
    p.add_class("one");
    assert_eq!(p.to_html(), "<p class=\"one\"></p>");
    p.add_class("");
    p.add_class("two words");
    assert_eq!(p.to_html(), "<p class=\"one  two words\"></p>");
}

#[test]
fn an_empty_list_of_children_writes_nothing() {
    let mut div = HtmlTag::new("div");
    div.children = Some(Vec::new());
    assert_eq!(div.to_html(), "<div></div>");
}
