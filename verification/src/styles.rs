//! Style sheets: for each selector its declarations, selectors and
//! properties kept in order, and the text that a sheet is written as.

use vstd::prelude::*;
use vstd::string::StringExecFns;

use crate::ordered_map::{
    has_key, lemma_merged_into_empty, lemma_merged_ordered, lemma_place_exists, lemma_upsert_at,
    lemma_upsert_ordered, lookup, merged, ordered, upsert, OrderedMap,
};
use crate::text::{precedes, push_char};

verus! {

/// The declarations of one selector: a value for each property.
pub type Class = OrderedMap<String>;

/// A style sheet: the declarations of each selector.
pub type StyleSheet = OrderedMap<Class>;

/// What a class stands for: its declarations in the order of their
/// properties, each as a pair of property and value.
pub type Declarations = Seq<(Seq<char>, Seq<char>)>;

/// What a style sheet stands for: its selectors in order, each with its
/// declarations.
pub type Rules = Seq<(Seq<char>, Declarations)>;

/// One declaration on a line of its own inside a rule.
pub open spec fn declaration_line(property: Seq<char>, value: Seq<char>) -> Seq<char> {
    "    "@ + property + ": "@ + value + ";\n"@
}

/// The lines of a list of declarations, in the order of the list.
pub open spec fn declaration_lines(declarations: Declarations) -> Seq<char>
    decreases declarations.len(),
{
    if declarations.len() == 0 {
        Seq::empty()
    } else {
        declaration_lines(declarations.drop_last()) + declaration_line(
            declarations.last().0,
            declarations.last().1,
        )
    }
}

/// One rule: the selector, and its declarations between braces.
pub open spec fn rule_text(selector: Seq<char>, declarations: Declarations) -> Seq<char> {
    selector + " {\n"@ + declaration_lines(declarations) + "}\n"@
}

/// The rules of a sheet, in the order of the list.
pub open spec fn rules_text(rules: Rules) -> Seq<char>
    decreases rules.len(),
{
    if rules.len() == 0 {
        Seq::empty()
    } else {
        rules_text(rules.drop_last()) + rule_text(rules.last().0, rules.last().1)
    }
}

/// The rules of a sheet inside a `style` element.
pub open spec fn style_element(rules: Rules) -> Seq<char> {
    "<style>\n"@ + rules_text(rules) + "</style>\n"@
}

/// A list of declarations as the value of a `style` attribute: each as
/// `property: value;`, nothing between them.
pub open spec fn inline_style(declarations: Declarations) -> Seq<char>
    decreases declarations.len(),
{
    if declarations.len() == 0 {
        Seq::empty()
    } else {
        inline_style(declarations.drop_last()) + declarations.last().0 + ": "@
            + declarations.last().1 + ";"@
    }
}

/// Whether a character is a space, a tab or a line feed.
pub open spec fn is_blank(c: char) -> bool {
    c == ' ' || c == '\t' || c == '\n'
}

/// The text without its spaces, tabs and line feeds.
pub open spec fn without_blanks(s: Seq<char>) -> Seq<char> {
    s.filter(|c: char| !is_blank(c))
}

/// The declarations that stand under a selector; none where the sheet does
/// not have the selector.
pub open spec fn declarations_of(
    rules: Rules,
    selector: Seq<char>,
) -> Declarations {
    match lookup(rules, selector) {
        Some(declarations) => declarations,
        None => Seq::empty(),
    }
}

/// Whether the rules are those of a well-formed sheet: the selectors are
/// ordered, and under each selector the properties are.
pub open spec fn well_formed(rules: Rules) -> bool {
    &&& ordered(rules)
    &&& forall|i: int| 0 <= i < rules.len() ==> ordered(#[trigger] rules[i].1)
}

/// Putting declarations under a selector keeps a sheet well formed.
pub proof fn lemma_upsert_well_formed(
    rules: Rules,
    selector: Seq<char>,
    declarations: Declarations,
)
    requires
        well_formed(rules),
        ordered(declarations),
    ensures
        well_formed(upsert(rules, selector, declarations)),
{
    let p = lemma_place_exists(rules, selector);
    lemma_upsert_at(rules, selector, declarations, p);
    lemma_upsert_ordered(rules, selector, declarations);
    let r = upsert(rules, selector, declarations);
    assert forall|i: int| 0 <= i < r.len() implies ordered(#[trigger] r[i].1) by {
        if p < rules.len() && rules[p].0 == selector {
            if i != p {
                assert(r[i] == rules[i]);
            }
        } else if i < p {
            assert(r[i] == rules[i]);
        } else if i > p {
            assert(r[i] == rules[i - 1]);
        }
    }
}

/// The declarations under a selector of a well-formed sheet are ordered.
pub proof fn lemma_declarations_ordered(
    rules: Rules,
    selector: Seq<char>,
)
    requires
        well_formed(rules),
    ensures
        ordered(declarations_of(rules, selector)),
{
    if has_key(rules, selector) {
        let i = choose|i: int| 0 <= i < rules.len() && #[trigger] rules[i].0 == selector;
        assert(ordered(rules[i].1));
    }
}

/// A style sheet that is built rule by rule and written out as text.
pub trait Style: Sized {
    /// The rules of the sheet: the selectors in order, each with its
    /// declarations in the order of their properties.
    spec fn rules(&self) -> Rules;

    /// Whether the sheet is well formed.
    spec fn valid(&self) -> bool;

    /// A sheet without rules.
    fn new() -> (r: Self)
        ensures
            r.valid(),
            r.rules() == Rules::empty(),
    ;

    /// The sheet as text: one rule after the other.
    fn get_style_sheet(&self) -> (r: String)
        ensures
            r@ == rules_text(self.rules()),
    ;

    /// The sheet as text inside a `style` element.
    fn get_with_tag(&self) -> (r: String)
        ensures
            r@ == style_element(self.rules()),
    ;

    /// Sets one property under a selector, in place of the value that the
    /// property had there; a selector that the sheet did not have is added.
    fn add_style(&mut self, selector: &str, property: &str, value: &str)
        requires
            old(self).valid(),
        ensures
            final(self).valid(),
            final(self).rules() == upsert(
                old(self).rules(),
                selector@,
                upsert(declarations_of(old(self).rules(), selector@), property@, value@),
            ),
    ;

    /// Puts the given declarations under a selector, each in place of the
    /// value that its property had there; the other declarations of the
    /// selector stay.
    fn add_class(&mut self, selector: &str, properties: Class)
        requires
            old(self).valid(),
            properties.wf(),
        ensures
            final(self).valid(),
            final(self).rules() == upsert(
                old(self).rules(),
                selector@,
                merged(declarations_of(old(self).rules(), selector@), properties@),
            ),
    ;

    /// A copy of the sheet with one property set as `add_style` sets it; the
    /// sheet itself stays as it is.
    fn with_style(&mut self, selector: &str, property: &str, value: &str) -> (r: Self)
        requires
            old(self).valid(),
        ensures
            final(self).valid(),
            final(self).rules() == old(self).rules(),
            r.valid(),
            r.rules() == upsert(
                old(self).rules(),
                selector@,
                upsert(declarations_of(old(self).rules(), selector@), property@, value@),
            ),
    ;

    /// A copy of the sheet with the given declarations put in as `add_class`
    /// puts them; the sheet itself stays as it is.
    fn with_class(&mut self, selector: &str, properties: Class) -> (r: Self)
        requires
            old(self).valid(),
            properties.wf(),
        ensures
            final(self).valid(),
            final(self).rules() == old(self).rules(),
            r.valid(),
            r.rules() == upsert(
                old(self).rules(),
                selector@,
                merged(declarations_of(old(self).rules(), selector@), properties@),
            ),
    ;
}

/// A copy of a class.
fn copy_class(class: &Class) -> (r: Class)
    requires
        class.wf(),
    ensures
        r.wf(),
        r@ == class@,
{
    let mut copy = Class::new();
    let mut i: usize = 0;
    while i < class.len()
        invariant
            class.wf(),
            copy.wf(),
            i <= class@.len(),
            copy@ == class@.take(i as int),
        decreases class@.len() - i,
    {
        let (property, value) = class.entry(i);
        proof {
            assert forall|j: int| 0 <= j < i implies precedes(
                #[trigger] copy@[j].0,
                property@,
            ) by {
                assert(copy@[j] == class@[j]);
                assert(class@[i as int].0 == property@);
            }
            lemma_upsert_at(copy@, property@, value@, i as int);
            assert(copy@.insert(i as int, (property@, value@)) =~= class@.take(i + 1));
        }
        copy.insert(property.to_owned(), value.clone());
        i = i + 1;
    }
    proof {
        assert(class@.take(i as int) == class@);
    }
    copy
}

/// A copy of a sheet.
fn copy_sheet(sheet: &StyleSheet) -> (r: StyleSheet)
    requires
        sheet.wf(),
        well_formed(sheet@),
    ensures
        r.wf(),
        r@ == sheet@,
{
    let mut copy = StyleSheet::new();
    let mut i: usize = 0;
    while i < sheet.len()
        invariant
            sheet.wf(),
            well_formed(sheet@),
            copy.wf(),
            i <= sheet@.len(),
            copy@ == sheet@.take(i as int),
        decreases sheet@.len() - i,
    {
        let (selector, class) = sheet.entry(i);
        proof {
            assert forall|j: int| 0 <= j < i implies precedes(
                #[trigger] copy@[j].0,
                selector@,
            ) by {
                assert(copy@[j] == sheet@[j]);
                assert(sheet@[i as int].0 == selector@);
            }
            lemma_upsert_at(copy@, selector@, class@, i as int);
            assert(copy@.insert(i as int, (selector@, class@)) =~= sheet@.take(i + 1));
            assert(ordered(sheet@[i as int].1));
        }
        copy.insert(selector.to_owned(), copy_class(class));
        i = i + 1;
    }
    proof {
        assert(sheet@.take(i as int) == sheet@);
    }
    copy
}

impl Style for StyleSheet {
    open spec fn rules(&self) -> Rules {
        self@
    }

    open spec fn valid(&self) -> bool {
        well_formed(self@)
    }

    fn new() -> (r: Self) {
        OrderedMap::new()
    }

    fn get_style_sheet(&self) -> (r: String) {
        let mut final_styles = String::new();
        let mut i: usize = 0;
        while i < self.len()
            invariant
                i <= self@.len(),
                final_styles@ == rules_text(self@.take(i as int)),
            decreases self@.len() - i,
        {
            proof {
                let next = self@.take(i + 1);
                assert(next.drop_last() == self@.take(i as int));
                assert(next.last() == self@[i as int]);
            }
            let (selector, properties) = self.entry(i);
            final_styles.append(selector);
            final_styles.append(" {\n");
            let ghost head = final_styles@;
            let mut j: usize = 0;
            while j < properties.len()
                invariant
                    j <= properties@.len(),
                    final_styles@ == head + declaration_lines(properties@.take(j as int)),
                decreases properties@.len() - j,
            {
                proof {
                    let next = properties@.take(j + 1);
                    assert(next.drop_last() == properties@.take(j as int));
                    assert(next.last() == properties@[j as int]);
                }
                let (property, value) = properties.entry(j);
                final_styles.append("    ");
                final_styles.append(property);
                final_styles.append(": ");
                final_styles.append(value.as_str());
                final_styles.append(";\n");
                j = j + 1;
            }
            proof {
                assert(properties@.take(j as int) == properties@);
            }
            final_styles.append("}\n");
            i = i + 1;
        }
        proof {
            assert(self@.take(i as int) == self@);
        }
        final_styles
    }

    fn get_with_tag(&self) -> (r: String) {
        let mut final_styles = "<style>\n".to_owned();
        final_styles.append(self.get_style_sheet().as_str());
        final_styles.append("</style>\n");
        final_styles
    }

    fn add_style(&mut self, selector: &str, property: &str, value: &str) {
        proof {
            lemma_declarations_ordered(self@, selector@);
            lemma_upsert_ordered(declarations_of(self@, selector@), property@, value@);
            lemma_upsert_well_formed(
                self@,
                selector@,
                upsert(declarations_of(self@, selector@), property@, value@),
            );
        }
        match self.get_mut(selector) {
            Some(class) => {
                class.insert(property.to_owned(), value.to_owned());
            },
            None => {
                let mut new_style = Class::new();
                new_style.insert(property.to_owned(), value.to_owned());
                self.insert(selector.to_owned(), new_style);
            },
        }
    }

    fn add_class(&mut self, selector: &str, properties: Class) {
        proof {
            lemma_declarations_ordered(self@, selector@);
            lemma_merged_ordered(declarations_of(self@, selector@), properties@);
            lemma_upsert_well_formed(
                self@,
                selector@,
                merged(declarations_of(self@, selector@), properties@),
            );
        }
        match self.get_mut(selector) {
            Some(current_properties) => {
                let ghost start = current_properties@;
                let mut i: usize = 0;
                while i < properties.len()
                    invariant
                        i <= properties@.len(),
                        current_properties.wf(),
                        current_properties@ == merged(start, properties@.take(i as int)),
                    decreases properties@.len() - i,
                {
                    proof {
                        let next = properties@.take(i + 1);
                        assert(next.drop_last() == properties@.take(i as int));
                        assert(next.last() == properties@[i as int]);
                    }
                    let (property, value) = properties.entry(i);
                    current_properties.insert(property.to_owned(), value.clone());
                    i = i + 1;
                }
                proof {
                    assert(properties@.take(i as int) == properties@);
                }
            },
            None => {
                proof {
                    lemma_merged_into_empty(properties@);
                }
                self.insert(selector.to_owned(), properties);
            },
        }
    }

    fn with_style(&mut self, selector: &str, property: &str, value: &str) -> (r: Self) {
        let mut new_style = copy_sheet(self);
        new_style.add_style(selector, property, value);
        new_style
    }

    fn with_class(&mut self, selector: &str, properties: Class) -> (r: Self) {
        let mut new_style = copy_sheet(self);
        new_style.add_class(selector, properties);
        new_style
    }
}

/// The declarations of a class as the value of a `style` attribute.
pub fn convert_to_styles(class: Class) -> (r: String)
    ensures
        r@ == inline_style(class@),
{
    let mut styles = String::new();
    let mut i: usize = 0;
    while i < class.len()
        invariant
            i <= class@.len(),
            styles@ == inline_style(class@.take(i as int)),
        decreases class@.len() - i,
    {
        proof {
            let next = class@.take(i + 1);
            assert(next.drop_last() == class@.take(i as int));
            assert(next.last() == class@[i as int]);
        }
        let (property, value) = class.entry(i);
        styles.append(property);
        styles.append(": ");
        styles.append(value.as_str());
        styles.append(";");
        i = i + 1;
    }
    proof {
        assert(class@.take(i as int) == class@);
    }
    styles
}

/// Removes every space, tab and line feed from a text.
pub fn sanitize_styles(styles: String) -> (r: String)
    ensures
        r@ == without_blanks(styles@),
{
    let mut out = String::new();
    for c in it: styles.as_str().chars()
        invariant
            it.seq() == styles@,
            out@ == without_blanks(styles@.take(it.index() as int)),
    {
        proof {
            reveal(Seq::filter);
            let next = styles@.take(it.index() + 1);
            assert(next.drop_last() == styles@.take(it.index() as int));
            assert(next.last() == c);
        }
        if c != ' ' && c != '\t' && c != '\n' {
            push_char(&mut out, c);
        }
    }
    proof {
        assert(styles@.take(styles@.len() as int) == styles@);
    }
    out
}

} // verus!
