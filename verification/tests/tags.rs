use std::cmp::Ordering;

use html_tag::tags::TagType;

#[test]
fn ordering_test() {
    let mut tags = vec![
        TagType::P,
        TagType::Div,
        TagType::Span,
        TagType::A,
        TagType::H1,
        TagType::H2,
        TagType::H3,
        TagType::H4,
        TagType::H5,
        TagType::H6,
        TagType::Img,
        TagType::Custom("custom".to_string()),
    ];
    tags.sort_by(|a, b| a.cmp(b));
    tags.reverse();
    assert_eq!(
        tags,
        vec![
            TagType::Custom("custom".to_string()),
            TagType::Img,
            TagType::H6,
            TagType::H5,
            TagType::H4,
            TagType::H3,
            TagType::H2,
            TagType::H1,
            TagType::Div,
            TagType::A,
            TagType::Span,
            TagType::P,
        ]
    );
}

fn known() -> Vec<(&'static str, TagType)> {
    vec![
        ("p", TagType::P),
        ("div", TagType::Div),
        ("span", TagType::Span),
        ("a", TagType::A),
        ("h1", TagType::H1),
        ("h2", TagType::H2),
        ("h3", TagType::H3),
        ("h4", TagType::H4),
        ("h5", TagType::H5),
        ("h6", TagType::H6),
        ("img", TagType::Img),
        ("table", TagType::Table),
        ("tr", TagType::Tr),
        ("td", TagType::Td),
        ("th", TagType::Th),
    ]
}

#[test]
fn known_names_give_their_variants() {
    for (name, tag) in known() {
        assert_eq!(TagType::from(name), tag);
        assert_eq!(TagType::from_lowercase(name.to_string()), tag);
        assert_eq!(tag.html(), name);
    }
}

#[test]
fn names_are_matched_whatever_their_case() {
    for (name, tag) in known() {
        assert_eq!(TagType::from(&name.to_uppercase()), tag);
    }
    assert_eq!(TagType::from("DiV"), TagType::Div);
    assert_eq!(TagType::from("tAbLe"), TagType::Table);
}

#[test]
fn other_names_give_custom_in_lower_case() {
    assert_eq!(TagType::from("custom"), TagType::Custom("custom".to_string()));
    assert_eq!(TagType::from("My-Tag"), TagType::Custom("my-tag".to_string()));
    assert_eq!(TagType::from(""), TagType::Custom(String::new()));
    assert_eq!(TagType::from("ÉCRAN"), TagType::Custom("écran".to_string()));
    assert_eq!(TagType::from("pp"), TagType::Custom("pp".to_string()));
    assert_eq!(TagType::from(" p"), TagType::Custom(" p".to_string()));
}

#[test]
fn from_lowercase_takes_the_name_as_it_is() {
    assert_eq!(TagType::from_lowercase("DIV".to_string()), TagType::Custom("DIV".to_string()));
    assert_eq!(TagType::from_lowercase("div".to_string()), TagType::Div);
    assert_eq!(TagType::from_lowercase("h7".to_string()), TagType::Custom("h7".to_string()));
}

#[test]
fn a_name_comes_back_in_lower_case() {
    for name in ["p", "P", "Div", "H6", "custom", "CUSTOM", "x-Y", "", "Straße"] {
        assert_eq!(TagType::from(name).html(), name.to_lowercase());
    }
}

#[test]
fn custom_html_is_the_name_verbatim() {
    assert_eq!(TagType::Custom("Mixed Case".to_string()).html(), "Mixed Case");
}

#[test]
fn ranks_follow_the_ladder() {
    assert_eq!(TagType::P.rank(), 0);
    assert_eq!(TagType::Span.rank(), 0);
    assert_eq!(TagType::A.rank(), 0);
    assert_eq!(TagType::Table.rank(), 1);
    assert_eq!(TagType::Tr.rank(), 1);
    assert_eq!(TagType::Td.rank(), 1);
    assert_eq!(TagType::Th.rank(), 1);
    assert_eq!(TagType::Div.rank(), 2);
    assert_eq!(TagType::H1.rank(), 3);
    assert_eq!(TagType::H2.rank(), 4);
    assert_eq!(TagType::H3.rank(), 5);
    assert_eq!(TagType::H4.rank(), 6);
    assert_eq!(TagType::H5.rank(), 7);
    assert_eq!(TagType::H6.rank(), 8);
    assert_eq!(TagType::Img.rank(), 9);
    assert_eq!(TagType::Custom("x".to_string()).rank(), 10);
}

#[test]
fn a_span_and_p_compare_equal() {
    let three = [TagType::A, TagType::Span, TagType::P];
    for a in &three {
        for b in &three {
            assert_eq!(a.cmp(b), Ordering::Equal);
        }
        assert_eq!(a.cmp(&TagType::Div), Ordering::Less);
        assert_eq!(TagType::Div.cmp(a), Ordering::Greater);
    }
}

#[test]
fn div_stands_below_headings_img_and_custom() {
    let above = [
        TagType::H1,
        TagType::H2,
        TagType::H3,
        TagType::H4,
        TagType::H5,
        TagType::H6,
        TagType::Img,
        TagType::Custom("x".to_string()),
    ];
    for t in &above {
        assert_eq!(TagType::Div.cmp(t), Ordering::Less);
        assert_eq!(t.cmp(&TagType::Div), Ordering::Greater);
    }
    for i in 0..above.len() {
        for j in 0..above.len() {
            assert_eq!(above[i].cmp(&above[j]), i.cmp(&j));
        }
    }
}

#[test]
fn custom_tags_compare_equal_whatever_their_names() {
    let a = TagType::Custom("a".to_string());
    let b = TagType::Custom("b".to_string());
    assert_eq!(a.cmp(&b), Ordering::Equal);
    assert_eq!(b.cmp(&a), Ordering::Equal);
    assert_ne!(a, b);
}

#[test]
fn compare_is_reflexive_mirrored_and_transitive() {
    let mut all: Vec<TagType> = known().into_iter().map(|(_, t)| t).collect();
    all.push(TagType::Custom("x".to_string()));
    for a in &all {
        assert_eq!(a.cmp(a), Ordering::Equal);
        for b in &all {
            assert_eq!(a.cmp(b), b.cmp(a).reverse());
            for c in &all {
                if a.cmp(b) != Ordering::Greater && b.cmp(c) != Ordering::Greater {
                    assert_ne!(a.cmp(c), Ordering::Greater);
                }
            }
        }
    }
}

#[test]
fn sorting_is_stable_among_equal_tags() {
    let mut tags = vec![TagType::A, TagType::Div, TagType::P, TagType::Span];
    tags.sort_by(|a, b| a.cmp(b));
    assert_eq!(tags, vec![TagType::A, TagType::P, TagType::Span, TagType::Div]);
    let mut tags = vec![TagType::P, TagType::Div, TagType::Span, TagType::A];
    tags.sort_by(|a, b| a.cmp(b));
    tags.reverse();
    assert_eq!(tags, vec![TagType::Div, TagType::A, TagType::Span, TagType::P]);
}

#[test]
fn operators_follow_the_ranks() {
    assert!(TagType::Div < TagType::H1);
    assert!(TagType::H6 < TagType::Img);
    assert!(TagType::Img < TagType::Custom("x".to_string()));
    assert!(TagType::Table > TagType::P);
    assert!(TagType::Table < TagType::Div);
    assert!(!(TagType::A < TagType::Span));
    assert!(!(TagType::A > TagType::Span));
    assert!(TagType::A <= TagType::Span);
    assert!(TagType::A >= TagType::Span);
    assert_eq!(TagType::Th.partial_cmp(&TagType::Tr), Some(Ordering::Equal));
    assert_eq!(TagType::P.partial_cmp(&TagType::Td), Some(Ordering::Less));
}

#[test]
fn tags_are_equal_by_variant_and_custom_name() {
    for (i, (_, a)) in known().into_iter().enumerate() {
        for (j, (_, b)) in known().into_iter().enumerate() {
            assert_eq!(a == b, i == j);
        }
        assert!(a != TagType::Custom(a.html()));
    }
    assert!(TagType::Custom("x".to_string()) == TagType::Custom("x".to_string()));
    assert!(TagType::Custom("x".to_string()) != TagType::Custom("X".to_string()));
    assert!(TagType::A != TagType::Span);
}

#[test]
fn a_cloned_tag_is_equal() {
    for (_, tag) in known() {
        assert_eq!(tag.clone(), tag);
    }
    let custom = TagType::Custom("my-tag".to_string());
    assert_eq!(custom.clone(), custom);
}

#[test]
fn all_tags_sort_into_the_ladder() {
    let mut tags = vec![
        TagType::Custom("z".to_string()),
        TagType::Th,
        TagType::Img,
        TagType::A,
        TagType::H6,
        TagType::Td,
        TagType::H5,
        TagType::Span,
        TagType::H4,
        TagType::Tr,
        TagType::H3,
        TagType::P,
        TagType::H2,
        TagType::Table,
        TagType::H1,
        TagType::Div,
    ];
    tags.sort_by(|a, b| a.cmp(b));
    tags.reverse();
    assert_eq!(
        tags,
        vec![
            TagType::Custom("z".to_string()),
            TagType::Img,
            TagType::H6,
            TagType::H5,
            TagType::H4,
            TagType::H3,
            TagType::H2,
            TagType::H1,
            TagType::Div,
            TagType::Table,
            TagType::Tr,
            TagType::Td,
            TagType::Th,
            TagType::P,
            TagType::Span,
            TagType::A,
        ]
    );
}
