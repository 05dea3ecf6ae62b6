//! Elements: a tag with its id, classes, attributes and either a text body or
//! child elements, and the markup that such a tree is written as.

use vstd::prelude::*;
use vstd::string::StringExecFns;

use crate::tags::{TagKind, TagType};
use crate::text::{join, joined, lowercase, text_eq, texts_of};

verus! {

/// A node of a markup tree.
pub struct HtmlTag {
    pub tag_type: TagType,
    pub class_names: Vec<String>,
    pub id: Option<String>,
    pub body: Option<String>,
    pub children: Option<Vec<HtmlTag>>,
    pub custom_attributes: Option<Vec<(String, String)>>,
}

/// What an `HtmlTag` stands for: the same tree, its texts as sequences of
/// characters.
pub struct Element {
    pub kind: TagKind,
    pub classes: Seq<Seq<char>>,
    pub id: Option<Seq<char>>,
    pub body: Option<Seq<char>>,
    pub children: Option<Seq<Element>>,
    pub attributes: Option<Seq<(Seq<char>, Seq<char>)>>,
}

/// The characters of an optional text.
pub open spec fn text_of(s: Option<String>) -> Option<Seq<char>> {
    match s {
        Some(s) => Some(s@),
        None => None,
    }
}

/// The attributes of a list of pairs, key and value as characters.
pub open spec fn pairs_of(v: Seq<(String, String)>) -> Seq<(Seq<char>, Seq<char>)> {
    Seq::new(v.len(), |i: int| (v[i].0@, v[i].1@))
}

/// The element that a tag stands for.
pub open spec fn element_of(tag: HtmlTag) -> Element
    decreases tag,
{
    Element {
        kind: tag.tag_type@,
        classes: texts_of(tag.class_names@),
        id: text_of(tag.id),
        body: text_of(tag.body),
        children: match tag.children {
            Some(v) => Some(
                Seq::new(
                    v@.len(),
                    |i: int|
                        if 0 <= i < v@.len() {
                            element_of(v@[i])
                        } else {
                            arbitrary()
                        },
                ),
            ),
            None => None,
        },
        attributes: match tag.custom_attributes {
            Some(v) => Some(pairs_of(v@)),
            None => None,
        },
    }
}

impl View for HtmlTag {
    type V = Element;

    open spec fn view(&self) -> Element {
        element_of(*self)
    }
}

/// One attribute as it stands in an opening tag: a space, the key, and the
/// value between double quotes.
pub open spec fn attribute_markup(key: Seq<char>, value: Seq<char>) -> Seq<char> {
    " "@ + key + "=\""@ + value + "\""@
}

/// The attributes of a list as they stand in an opening tag, in the order of
/// the list.
pub open spec fn attributes_markup(pairs: Seq<(Seq<char>, Seq<char>)>) -> Seq<char>
    decreases pairs.len(),
{
    if pairs.len() == 0 {
        Seq::empty()
    } else {
        attributes_markup(pairs.drop_last()) + attribute_markup(pairs.last().0, pairs.last().1)
    }
}

/// The markup of a list of elements: that of each, in the order of the list.
pub open spec fn elements_markup(elements: Seq<Element>) -> Seq<char>
    decreases elements, 0int,
{
    if elements.len() == 0 {
        Seq::empty()
    } else {
        elements_markup(elements.drop_last()) + elements.last().markup()
    }
}

impl Element {
    /// An element of the given kind with nothing else set.
    pub open spec fn empty(kind: TagKind) -> Element {
        Element {
            kind,
            classes: Seq::empty(),
            id: None,
            body: None,
            children: None,
            attributes: None,
        }
    }

    /// The element with one more custom attribute, after those that are
    /// there.
    pub open spec fn with_custom_attribute(self, key: Seq<char>, value: Seq<char>) -> Element {
        Element {
            attributes: Some(
                match self.attributes {
                    Some(pairs) => pairs.push((key, value)),
                    None => seq![(key, value)],
                },
            ),
            ..self
        }
    }

    /// The element with one more attribute: a class name more for the key
    /// `class`, a new id for the key `id`, else a custom attribute more.
    pub open spec fn with_attribute(self, key: Seq<char>, value: Seq<char>) -> Element {
        if key == "class"@ {
            Element { classes: self.classes.push(value), ..self }
        } else if key == "id"@ {
            Element { id: Some(value), ..self }
        } else {
            self.with_custom_attribute(key, value)
        }
    }

    /// The id as it stands in the opening tag; nothing where there is none.
    pub open spec fn id_markup(self) -> Seq<char> {
        match self.id {
            Some(id) => " id=\""@ + id + "\""@,
            None => Seq::empty(),
        }
    }

    /// The classes as they stand in the opening tag, separated by spaces;
    /// nothing where there is none.
    pub open spec fn class_markup(self) -> Seq<char> {
        if self.classes.len() > 0 {
            " class=\""@ + joined(self.classes, " "@) + "\""@
        } else {
            Seq::empty()
        }
    }

    /// The custom attributes as they stand in the opening tag.
    pub open spec fn custom_markup(self) -> Seq<char> {
        match self.attributes {
            Some(pairs) => attributes_markup(pairs),
            None => Seq::empty(),
        }
    }

    /// The opening tag without its closing bracket: the name, then the id,
    /// the classes and the custom attributes, in this order.
    pub open spec fn opening(self) -> Seq<char> {
        "<"@ + self.kind.name() + self.id_markup() + self.class_markup() + self.custom_markup()
    }

    /// The closing tag.
    pub open spec fn closing(self) -> Seq<char> {
        "</"@ + self.kind.name() + ">"@
    }

    /// What stands between the opening and the closing tag: the body where
    /// there is one, whatever the children; else the markup of the children.
    pub open spec fn content(self) -> Seq<char>
        decreases self, 0int,
    {
        match self.body {
            Some(body) => body,
            None => match self.children {
                Some(children) => elements_markup(children),
                None => Seq::empty(),
            },
        }
    }

    /// The markup of the element.
    pub open spec fn markup(self) -> Seq<char>
        decreases self, 1int,
    {
        self.opening() + ">"@ + self.content() + self.closing()
    }
}

/// Whether two lists of strings hold the same texts.
fn same_texts(a: &Vec<String>, b: &Vec<String>) -> (r: bool)
    ensures
        r == (texts_of(a@) == texts_of(b@)),
{
    if a.len() != b.len() {
        assert(texts_of(a@).len() != texts_of(b@).len());
        return false;
    }
    let mut i: usize = 0;
    while i < a.len()
        invariant
            i <= a.len(),
            a.len() == b.len(),
            forall|k: int| 0 <= k < i ==> a@[k]@ == b@[k]@,
        decreases a.len() - i,
    {
        if a[i] != b[i] {
            assert(texts_of(a@)[i as int] != texts_of(b@)[i as int]);
            return false;
        }
        i = i + 1;
    }
    assert(texts_of(a@) =~= texts_of(b@));
    true
}

/// Whether two optional strings hold the same text, or both none.
fn same_text(a: &Option<String>, b: &Option<String>) -> (r: bool)
    ensures
        r == (text_of(*a) == text_of(*b)),
{
    match (a, b) {
        (Some(x), Some(y)) => *x == *y,
        (None, None) => true,
        _ => false,
    }
}

/// Whether two lists of attributes hold the same keys and values.
fn same_pairs(a: &Vec<(String, String)>, b: &Vec<(String, String)>) -> (r: bool)
    ensures
        r == (pairs_of(a@) == pairs_of(b@)),
{
    if a.len() != b.len() {
        assert(pairs_of(a@).len() != pairs_of(b@).len());
        return false;
    }
    let mut i: usize = 0;
    while i < a.len()
        invariant
            i <= a.len(),
            a.len() == b.len(),
            forall|k: int| 0 <= k < i ==> a@[k].0@ == b@[k].0@ && a@[k].1@ == b@[k].1@,
        decreases a.len() - i,
    {
        if a[i].0 != b[i].0 || a[i].1 != b[i].1 {
            assert(pairs_of(a@)[i as int] != pairs_of(b@)[i as int]);
            return false;
        }
        i = i + 1;
    }
    assert(pairs_of(a@) =~= pairs_of(b@));
    true
}

impl PartialEq for HtmlTag {
    /// Whether two trees are the same: tag, id, classes, body, custom
    /// attributes and children, each child in its place.
    fn eq(&self, other: &HtmlTag) -> (r: bool) {
        self.same(other)
    }
}

impl vstd::std_specs::cmp::PartialEqSpecImpl for HtmlTag {
    open spec fn obeys_eq_spec() -> bool {
        true
    }

    open spec fn eq_spec(&self, other: &HtmlTag) -> bool {
        self@ == other@
    }
}

impl Eq for HtmlTag {

}

impl Clone for HtmlTag {
    /// A copy of the whole tree.
    fn clone(&self) -> (r: HtmlTag)
        ensures
            r@ == self@,
    {
        self.copy()
    }
}

/// An element that has a body is written with that body between its tags,
/// whatever its children are: none of them reaches the markup.
pub proof fn lemma_body_hides_children(element: Element, children: Option<Seq<Element>>)
    requires
        element.body is Some,
    ensures
        (Element { children, ..element }).markup() == element.markup(),
        element.markup() == element.opening() + ">"@ + element.body->0 + element.closing(),
{
}

/// The opening tag holds the id before the classes and the classes before
/// the custom attributes, and a custom attribute added last is written last.
pub proof fn lemma_attribute_order(element: Element, key: Seq<char>, value: Seq<char>)
    ensures
        element.opening() == "<"@ + element.kind.name() + element.id_markup()
            + element.class_markup() + element.custom_markup(),
        element.with_custom_attribute(key, value).opening() == element.opening()
            + attribute_markup(key, value),
{
    let after = element.with_custom_attribute(key, value);
    match element.attributes {
        Some(pairs) => {
            assert(pairs.push((key, value)).drop_last() == pairs);
        },
        None => {
            let one = seq![(key, value)];
            assert(one.drop_last().len() == 0);
            assert(attributes_markup(one.drop_last()) == Seq::<char>::empty());
            assert(one.last() == (key, value));
        },
    }
    assert(after.opening() =~= element.opening() + attribute_markup(key, value));
}

/// A child added last is written last, after the children that were there.
pub proof fn lemma_child_order(elements: Seq<Element>, child: Element)
    ensures
        elements_markup(elements.push(child)) == elements_markup(elements) + child.markup(),
{
    assert(elements.push(child).drop_last() == elements);
}

/// The texts of a list of string slices.
pub open spec fn slices_of(v: Seq<&str>) -> Seq<Seq<char>> {
    Seq::new(v.len(), |i: int| v[i]@)
}

/// The attributes of a list of pairs of string slices.
pub open spec fn slice_pairs_of(v: Seq<(&str, &str)>) -> Seq<(Seq<char>, Seq<char>)> {
    Seq::new(v.len(), |i: int| (v[i].0@, v[i].1@))
}

/// The characters of an optional string slice.
pub open spec fn slice_of(s: Option<&str>) -> Option<Seq<char>> {
    match s {
        Some(s) => Some(s@),
        None => None,
    }
}

impl HtmlTag {
    /// Whether two trees are the same.
    fn same(&self, other: &HtmlTag) -> (r: bool)
        ensures
            r == (self@ == other@),
        decreases self,
    {
        if self.tag_type != other.tag_type {
            return false;
        }
        if !same_text(&self.id, &other.id) || !same_text(&self.body, &other.body) {
            return false;
        }
        if !same_texts(&self.class_names, &other.class_names) {
            return false;
        }
        let attributes = match (&self.custom_attributes, &other.custom_attributes) {
            (Some(a), Some(b)) => same_pairs(a, b),
            (None, None) => true,
            _ => false,
        };
        if !attributes {
            return false;
        }
        match (&self.children, &other.children) {
            (Some(a), Some(b)) => {
                if a.len() != b.len() {
                    assert(self@.children->0.len() != other@.children->0.len());
                    return false;
                }
                let mut i: usize = 0;
                while i < a.len()
                    invariant
                        i <= a.len(),
                        a.len() == b.len(),
                        self.children == Some(*a),
                        other.children == Some(*b),
                        forall|k: int| 0 <= k < i ==> a@[k]@ == b@[k]@,
                    decreases a.len() - i,
                {
                    assert(decreases_to!(self => self.children->0@[i as int]));
                    if !a[i].same(&b[i]) {
                        assert(self@.children->0[i as int] != other@.children->0[i as int]);
                        return false;
                    }
                    i = i + 1;
                }
                assert(self@.children->0 =~= other@.children->0);
                true
            },
            (None, None) => true,
            _ => false,
        }
    }

    /// A copy of the whole tree.
    fn copy(&self) -> (r: HtmlTag)
        ensures
            r@ == self@,
        decreases self,
    {
        let mut class_names: Vec<String> = Vec::new();
        let mut i: usize = 0;
        while i < self.class_names.len()
            invariant
                i <= self.class_names.len(),
                class_names@ == self.class_names@.take(i as int),
            decreases self.class_names.len() - i,
        {
            class_names.push(self.class_names[i].clone());
            i = i + 1;
            assert(class_names@ =~= self.class_names@.take(i as int));
        }
        assert(self.class_names@.take(i as int) == self.class_names@);
        let children = match &self.children {
            Some(v) => {
                let mut copies: Vec<HtmlTag> = Vec::new();
                let mut j: usize = 0;
                while j < v.len()
                    invariant
                        j <= v.len(),
                        self.children == Some(*v),
                        copies@.len() == j,
                        forall|k: int| 0 <= k < j ==> (#[trigger] copies@[k])@ == v@[k]@,
                    decreases v.len() - j,
                {
                    assert(decreases_to!(self => self.children->0@[j as int]));
                    copies.push(v[j].copy());
                    j = j + 1;
                }
                Some(copies)
            },
            None => None,
        };
        let custom_attributes = match &self.custom_attributes {
            Some(v) => {
                let mut copies: Vec<(String, String)> = Vec::new();
                let mut j: usize = 0;
                while j < v.len()
                    invariant
                        j <= v.len(),
                        copies@ == v@.take(j as int),
                    decreases v.len() - j,
                {
                    copies.push((v[j].0.clone(), v[j].1.clone()));
                    j = j + 1;
                    assert(copies@ =~= v@.take(j as int));
                }
                assert(v@.take(j as int) == v@);
                Some(copies)
            },
            None => None,
        };
        let r = HtmlTag {
            tag_type: self.tag_type.clone(),
            class_names,
            id: self.id.clone(),
            body: self.body.clone(),
            children,
            custom_attributes,
        };
        assert(r@.children =~= self@.children);
        r
    }

    /// An element whose tag is the one that `tag_type` names, with nothing
    /// else set.
    pub fn new(tag_type: &str) -> (r: HtmlTag)
        ensures
            r@ == Element::empty(TagKind::of_name(lowercase(tag_type@))),
    {
        let r = HtmlTag {
            tag_type: TagType::from(tag_type),
            class_names: Vec::new(),
            id: None,
            body: None,
            children: None,
            custom_attributes: None,
        };
        assert(r@.classes =~= Seq::empty());
        r
    }

    /// An element of the given tag, body and classes, without id, children
    /// or custom attributes.
    pub fn fresh(tag_type: TagType, body: Option<&str>, class_names: Vec<&str>) -> (r: HtmlTag)
        ensures
            r@ == (Element {
                body: slice_of(body),
                classes: slices_of(class_names@),
                ..Element::empty(tag_type@)
            }),
    {
        let mut classes: Vec<String> = Vec::new();
        let mut i: usize = 0;
        while i < class_names.len()
            invariant
                i <= class_names.len(),
                classes@.len() == i,
                texts_of(classes@) == slices_of(class_names@.take(i as int)),
            decreases class_names.len() - i,
        {
            let ghost before = classes@;
            classes.push(class_names[i].to_owned());
            i = i + 1;
            assert forall|j: int| 0 <= j < i implies texts_of(classes@)[j] == slices_of(
                class_names@.take(i as int),
            )[j] by {
                if j < i - 1 {
                    assert(texts_of(before)[j] == slices_of(class_names@.take(i - 1))[j]);
                }
            }
            assert(texts_of(classes@) =~= slices_of(class_names@.take(i as int)));
        }
        assert(class_names@.take(i as int) == class_names@);
        let text = match body {
            Some(b) => Some(b.to_owned()),
            None => None,
        };
        HtmlTag {
            tag_type,
            class_names: classes,
            id: None,
            body: text,
            children: None,
            custom_attributes: None,
        }
    }

    /// Appends `child` to the children, after those that are there.
    pub fn add_child(&mut self, child: HtmlTag)
        ensures
            final(self)@ == (Element {
                children: Some(
                    match old(self)@.children {
                        Some(children) => children.push(child@),
                        None => seq![child@],
                    },
                ),
                ..old(self)@
            }),
    {
        if let Some(children) = &mut self.children {
            children.push(child);
        } else {
            self.children = Some(vec![child]);
        }
        assert(self@.children->0 =~= match old(self)@.children {
            Some(children) => children.push(child@),
            None => seq![child@],
        });
    }

    /// Appends a class name; one that is there already is added again.
    pub fn add_class(&mut self, class_name: &str)
        ensures
            final(self)@ == (Element {
                classes: old(self)@.classes.push(class_name@),
                ..old(self)@
            }),
    {
        self.class_names.push(class_name.to_owned());
        assert(self@.classes =~= old(self)@.classes.push(class_name@));
    }

    /// Sets the body, in place of the one that was there.
    pub fn set_body(&mut self, body: &str)
        ensures
            final(self)@ == (Element { body: Some(body@), ..old(self)@ }),
    {
        self.body = Some(body.to_owned());
    }

    /// Sets the id, in place of the one that was there.
    pub fn set_id(&mut self, id: &str)
        ensures
            final(self)@ == (Element { id: Some(id@), ..old(self)@ }),
    {
        self.id = Some(id.to_owned());
    }

    /// Appends a `style` attribute to the custom attributes; one that is
    /// there already stays.
    pub fn set_style(&mut self, style: &str)
        ensures
            final(self)@ == old(self)@.with_custom_attribute("style"@, style@),
    {
        proof {
            reveal_strlit("style");
            reveal_strlit("class");
            reveal_strlit("id");
            assert("style"@[0] != "class"@[0]);
            assert("style"@.len() != "id"@.len());
        }
        self.add_attribute("style", style);
    }

    /// Appends an `href` attribute to the custom attributes; one that is
    /// there already stays.
    pub fn set_href(&mut self, href: &str)
        ensures
            final(self)@ == old(self)@.with_custom_attribute("href"@, href@),
    {
        proof {
            reveal_strlit("href");
            reveal_strlit("class");
            reveal_strlit("id");
            assert("href"@[0] != "class"@[0]);
            assert("href"@.len() != "id"@.len());
        }
        self.add_attribute("href", href);
    }

    /// The opening tag up to the name, and the closing tag.
    pub fn get_tags(tag_type: &TagType) -> (r: (String, String))
        ensures
            r.0@ == "<"@ + tag_type@.name(),
            r.1@ == "</"@ + tag_type@.name() + ">"@,
    {
        let name = tag_type.html();
        let mut tag = "<".to_owned();
        tag.append(name.as_str());
        let mut closing_tag = "</".to_owned();
        closing_tag.append(name.as_str());
        closing_tag.append(">");
        (tag, closing_tag)
    }

    /// The opening tag without its closing bracket.
    pub fn partial_convert(&self) -> (r: String)
        ensures
            r@ == self@.opening(),
    {
        let (mut html, _) = HtmlTag::get_tags(&self.tag_type);
        if let Some(id) = &self.id {
            html.append(" id=\"");
            html.append(id.as_str());
            html.append("\"");
            assert(html@ == "<"@ + self@.kind.name() + self@.id_markup());
        } else {
            assert(html@ == "<"@ + self@.kind.name() + self@.id_markup());
        }
        if self.class_names.len() > 0 {
            let classes = join(&self.class_names, " ");
            html.append(" class=\"");
            html.append(classes.as_str());
            html.append("\"");
            assert(html@ == "<"@ + self@.kind.name() + self@.id_markup() + self@.class_markup());
        } else {
            assert(html@ == "<"@ + self@.kind.name() + self@.id_markup() + self@.class_markup());
        }
        if let Some(custom_attributes) = &self.custom_attributes {
            let ghost head = html@;
            let ghost pairs = pairs_of(custom_attributes@);
            let mut i: usize = 0;
            while i < custom_attributes.len()
                invariant
                    i <= custom_attributes.len(),
                    pairs == pairs_of(custom_attributes@),
                    html@ == head + attributes_markup(pairs.take(i as int)),
                decreases custom_attributes.len() - i,
            {
                proof {
                    let next = pairs.take(i + 1);
                    assert(next.drop_last() == pairs.take(i as int));
                    assert(next.last() == pairs[i as int]);
                }
                html.append(" ");
                html.append(custom_attributes[i].0.as_str());
                html.append("=\"");
                html.append(custom_attributes[i].1.as_str());
                html.append("\"");
                i = i + 1;
            }
            assert(pairs.take(i as int) == pairs);
        }
        html
    }

    /// Adds an attribute. The key `class` adds a class name and the key `id`
    /// sets the id; any other key is appended to the custom attributes, also
    /// where the key is there already.
    pub fn add_attribute(&mut self, key: &str, value: &str)
        ensures
            final(self)@ == old(self)@.with_attribute(key@, value@),
    {
        if text_eq(key, "class") {
            self.add_class(value)
        } else if text_eq(key, "id") {
            self.set_id(value)
        } else {
            self.add_custom_attribute(key, value)
        }
    }

    /// Appends a custom attribute, after those that are there.
    pub fn add_custom_attribute(&mut self, key: &str, value: &str)
        ensures
            final(self)@ == old(self)@.with_custom_attribute(key@, value@),
    {
        if let Some(custom_attributes) = &mut self.custom_attributes {
            custom_attributes.push((key.to_owned(), value.to_owned()));
        } else {
            self.custom_attributes = Some(vec![(key.to_owned(), value.to_owned())]);
        }
        assert(self@.attributes->0 =~= match old(self)@.attributes {
            Some(pairs) => pairs.push((key@, value@)),
            None => seq![(key@, value@)],
        });
    }

    /// Puts the given attributes in place of all custom attributes that were
    /// there.
    pub fn add_custom(&mut self, attributes: Vec<(&str, &str)>)
        ensures
            final(self)@ == (Element {
                attributes: Some(slice_pairs_of(attributes@)),
                ..old(self)@
            }),
    {
        let mut custom_attributes: Vec<(String, String)> = Vec::new();
        let mut i: usize = 0;
        while i < attributes.len()
            invariant
                i <= attributes.len(),
                custom_attributes@.len() == i,
                pairs_of(custom_attributes@) == slice_pairs_of(attributes@.take(i as int)),
            decreases attributes.len() - i,
        {
            let ghost before = custom_attributes@;
            custom_attributes.push((attributes[i].0.to_owned(), attributes[i].1.to_owned()));
            i = i + 1;
            assert forall|j: int| 0 <= j < i implies pairs_of(custom_attributes@)[j]
                == slice_pairs_of(attributes@.take(i as int))[j] by {
                if j < i - 1 {
                    assert(pairs_of(before)[j] == slice_pairs_of(attributes@.take(i - 1))[j]);
                }
            }
            assert(pairs_of(custom_attributes@) =~= slice_pairs_of(attributes@.take(i as int)));
        }
        assert(attributes@.take(i as int) == attributes@);
        self.custom_attributes = Some(custom_attributes);
    }

    /// The markup of the element: the opening tag with id, classes and custom
    /// attributes, then the body, or without a body the markup of each child,
    /// then the closing tag.
    pub fn to_html(&self) -> (r: String)
        ensures
            r@ == self@.markup(),
        decreases self,
    {
        let mut html = self.partial_convert();
        let (_, closing_tag) = HtmlTag::get_tags(&self.tag_type);
        html.append(">");
        if let Some(body) = &self.body {
            html.append(body.as_str());
        } else if let Some(children) = &self.children {
            let ghost head = html@;
            let ghost elements = self@.children->0;
            let mut i: usize = 0;
            while i < children.len()
                invariant
                    i <= children.len(),
                    self.children == Some(*children),
                    elements == self@.children->0,
                    html@ == head + elements_markup(elements.take(i as int)),
                decreases children.len() - i,
            {
                proof {
                    let next = elements.take(i + 1);
                    assert(next.drop_last() == elements.take(i as int));
                    assert(next.last() == children@[i as int]@);
                }
                let child = children[i].to_html();
                html.append(child.as_str());
                i = i + 1;
            }
            assert(elements.take(i as int) == elements);
        }
        html.append(closing_tag.as_str());
        html
    }
}

} // verus!