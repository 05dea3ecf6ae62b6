//! Tag names: the common HTML tags as variants, any other name as `Custom`.

use std::cmp::Ordering;
use vstd::prelude::*;

use crate::text::{lowercase, text_eq, to_lowercase};

verus! {

/// The name of an HTML tag.
#[derive(Debug)]
pub enum TagType {
    P,
    Div,
    Span,
    A,
    H1,
    H2,
    H3,
    H4,
    H5,
    H6,
    Img,
    Table,
    Tr,
    Td,
    Th,
    Custom(String),
}

/// What a `TagType` stands for: the same variants, a custom name as a
/// sequence of characters.
pub enum TagKind {
    P,
    Div,
    Span,
    A,
    H1,
    H2,
    H3,
    H4,
    H5,
    H6,
    Img,
    Table,
    Tr,
    Td,
    Th,
    Custom(Seq<char>),
}

impl View for TagType {
    type V = TagKind;

    open spec fn view(&self) -> TagKind {
        match self {
            TagType::P => TagKind::P,
            TagType::Div => TagKind::Div,
            TagType::Span => TagKind::Span,
            TagType::A => TagKind::A,
            TagType::H1 => TagKind::H1,
            TagType::H2 => TagKind::H2,
            TagType::H3 => TagKind::H3,
            TagType::H4 => TagKind::H4,
            TagType::H5 => TagKind::H5,
            TagType::H6 => TagKind::H6,
            TagType::Img => TagKind::Img,
            TagType::Table => TagKind::Table,
            TagType::Tr => TagKind::Tr,
            TagType::Td => TagKind::Td,
            TagType::Th => TagKind::Th,
            TagType::Custom(name) => TagKind::Custom(name@),
        }
    }
}

impl PartialEq for TagType {
    /// Whether two tags are the same: the same variant, and for custom tags
    /// the same name.
    fn eq(&self, other: &TagType) -> (r: bool) {
        match (self, other) {
            (TagType::P, TagType::P) => true,
            (TagType::Div, TagType::Div) => true,
            (TagType::Span, TagType::Span) => true,
            (TagType::A, TagType::A) => true,
            (TagType::H1, TagType::H1) => true,
            (TagType::H2, TagType::H2) => true,
            (TagType::H3, TagType::H3) => true,
            (TagType::H4, TagType::H4) => true,
            (TagType::H5, TagType::H5) => true,
            (TagType::H6, TagType::H6) => true,
            (TagType::Img, TagType::Img) => true,
            (TagType::Table, TagType::Table) => true,
            (TagType::Tr, TagType::Tr) => true,
            (TagType::Td, TagType::Td) => true,
            (TagType::Th, TagType::Th) => true,
            (TagType::Custom(a), TagType::Custom(b)) => *a == *b,
            _ => false,
        }
    }
}

impl vstd::std_specs::cmp::PartialEqSpecImpl for TagType {
    open spec fn obeys_eq_spec() -> bool {
        true
    }

    open spec fn eq_spec(&self, other: &TagType) -> bool {
        self@ == other@
    }
}

impl Eq for TagType {

}

impl Clone for TagType {
    /// A copy of the tag: the same variant, a custom name character by
    /// character.
    fn clone(&self) -> (r: TagType)
        ensures
            r == *self,
    {
        match self {
            TagType::P => TagType::P,
            TagType::Div => TagType::Div,
            TagType::Span => TagType::Span,
            TagType::A => TagType::A,
            TagType::H1 => TagType::H1,
            TagType::H2 => TagType::H2,
            TagType::H3 => TagType::H3,
            TagType::H4 => TagType::H4,
            TagType::H5 => TagType::H5,
            TagType::H6 => TagType::H6,
            TagType::Img => TagType::Img,
            TagType::Table => TagType::Table,
            TagType::Tr => TagType::Tr,
            TagType::Td => TagType::Td,
            TagType::Th => TagType::Th,
            TagType::Custom(name) => TagType::Custom(name.clone()),
        }
    }
}

impl TagKind {
    /// The tag that a lower-case name stands for: the variant of that name
    /// where there is one, else `Custom` with the name as it is.
    pub open spec fn of_name(name: Seq<char>) -> TagKind {
        if name == "p"@ {
            TagKind::P
        } else if name == "div"@ {
            TagKind::Div
        } else if name == "span"@ {
            TagKind::Span
        } else if name == "a"@ {
            TagKind::A
        } else if name == "h1"@ {
            TagKind::H1
        } else if name == "h2"@ {
            TagKind::H2
        } else if name == "h3"@ {
            TagKind::H3
        } else if name == "h4"@ {
            TagKind::H4
        } else if name == "h5"@ {
            TagKind::H5
        } else if name == "h6"@ {
            TagKind::H6
        } else if name == "img"@ {
            TagKind::Img
        } else if name == "table"@ {
            TagKind::Table
        } else if name == "tr"@ {
            TagKind::Tr
        } else if name == "td"@ {
            TagKind::Td
        } else if name == "th"@ {
            TagKind::Th
        } else {
            TagKind::Custom(name)
        }
    }

    /// The name as it stands in markup.
    pub open spec fn name(self) -> Seq<char> {
        match self {
            TagKind::P => "p"@,
            TagKind::Div => "div"@,
            TagKind::Span => "span"@,
            TagKind::A => "a"@,
            TagKind::H1 => "h1"@,
            TagKind::H2 => "h2"@,
            TagKind::H3 => "h3"@,
            TagKind::H4 => "h4"@,
            TagKind::H5 => "h5"@,
            TagKind::H6 => "h6"@,
            TagKind::Img => "img"@,
            TagKind::Table => "table"@,
            TagKind::Tr => "tr"@,
            TagKind::Td => "td"@,
            TagKind::Th => "th"@,
            TagKind::Custom(name) => name,
        }
    }

    /// The place of a tag in the order of tags. `P`, `Span` and `A` share the
    /// lowest place and the table tags the next; above them stand `Div`, the
    /// headings from `H1` up to `H6`, `Img`, and every custom tag at the top.
    pub open spec fn rank(self) -> int {
        match self {
            TagKind::P => 0,
            TagKind::Div => 2,
            TagKind::Span => 0,
            TagKind::A => 0,
            TagKind::H1 => 3,
            TagKind::H2 => 4,
            TagKind::H3 => 5,
            TagKind::H4 => 6,
            TagKind::H5 => 7,
            TagKind::H6 => 8,
            TagKind::Img => 9,
            TagKind::Table => 1,
            TagKind::Tr => 1,
            TagKind::Td => 1,
            TagKind::Th => 1,
            TagKind::Custom(_) => 10,
        }
    }

    /// How two tags compare: as their ranks do.
    pub open spec fn compare(self, other: TagKind) -> Ordering {
        if self.rank() < other.rank() {
            Ordering::Less
        } else if self.rank() > other.rank() {
            Ordering::Greater
        } else {
            Ordering::Equal
        }
    }
}

impl TagType {
    /// The tag that `tag` names, whatever its case: one of the common tags
    /// where the lower-case form of `tag` is its name, else a custom tag of
    /// that lower-case name.
    pub fn from(tag: &str) -> (r: TagType)
        ensures
            r@ == TagKind::of_name(lowercase(tag@)),
    {
        TagType::from_lowercase(to_lowercase(tag))
    }

    /// The tag that `name` stands for, `name` taken as it is.
    pub fn from_lowercase(name: String) -> (r: TagType)
        ensures
            r@ == TagKind::of_name(name@),
    {
        let s = name.as_str();
        if text_eq(s, "p") {
            TagType::P
        } else if text_eq(s, "div") {
            TagType::Div
        } else if text_eq(s, "span") {
            TagType::Span
        } else if text_eq(s, "a") {
            TagType::A
        } else if text_eq(s, "h1") {
            TagType::H1
        } else if text_eq(s, "h2") {
            TagType::H2
        } else if text_eq(s, "h3") {
            TagType::H3
        } else if text_eq(s, "h4") {
            TagType::H4
        } else if text_eq(s, "h5") {
            TagType::H5
        } else if text_eq(s, "h6") {
            TagType::H6
        } else if text_eq(s, "img") {
            TagType::Img
        } else if text_eq(s, "table") {
            TagType::Table
        } else if text_eq(s, "tr") {
            TagType::Tr
        } else if text_eq(s, "td") {
            TagType::Td
        } else if text_eq(s, "th") {
            TagType::Th
        } else {
            TagType::Custom(name)
        }
    }

    /// The name of the tag as it stands in markup.
    pub fn html(&self) -> (r: String)
        ensures
            r@ == self@.name(),
    {
        match self {
            TagType::P => "p".to_owned(),
            TagType::Div => "div".to_owned(),
            TagType::Span => "span".to_owned(),
            TagType::A => "a".to_owned(),
            TagType::H1 => "h1".to_owned(),
            TagType::H2 => "h2".to_owned(),
            TagType::H3 => "h3".to_owned(),
            TagType::H4 => "h4".to_owned(),
            TagType::H5 => "h5".to_owned(),
            TagType::H6 => "h6".to_owned(),
            TagType::Img => "img".to_owned(),
            TagType::Table => "table".to_owned(),
            TagType::Tr => "tr".to_owned(),
            TagType::Td => "td".to_owned(),
            TagType::Th => "th".to_owned(),
            TagType::Custom(name) => name.clone(),
        }
    }

    /// The rank of the tag, by which tags are ordered.
    pub fn rank(&self) -> (r: u8)
        ensures
            r == self@.rank(),
    {
        match self {
            TagType::P => 0,
            TagType::Div => 2,
            TagType::Span => 0,
            TagType::A => 0,
            TagType::H1 => 3,
            TagType::H2 => 4,
            TagType::H3 => 5,
            TagType::H4 => 6,
            TagType::H5 => 7,
            TagType::H6 => 8,
            TagType::Img => 9,
            TagType::Table => 1,
            TagType::Tr => 1,
            TagType::Td => 1,
            TagType::Th => 1,
            TagType::Custom(_) => 10,
        }
    }

    /// Compares two tags by rank.
    pub fn cmp(&self, other: &TagType) -> (r: Ordering)
        ensures
            r == self@.compare(other@),
    {
        let a: u8 = self.rank();
        let b: u8 = other.rank();
        if a < b {
            Ordering::Less
        } else if a > b {
            Ordering::Greater
        } else {
            Ordering::Equal
        }
    }
}

impl PartialOrd for TagType {
    /// Compares two tags by rank, as `cmp` does.
    fn partial_cmp(&self, other: &TagType) -> (r: Option<Ordering>) {
        Some(self.cmp(other))
    }
}

impl vstd::std_specs::cmp::PartialOrdSpecImpl for TagType {
    open spec fn obeys_partial_cmp_spec() -> bool {
        true
    }

    open spec fn partial_cmp_spec(&self, other: &TagType) -> Option<Ordering> {
        Some(self@.compare(other@))
    }
}

/// A name that has passed through `of_name` comes back unchanged: a common
/// tag is written as the name that selected it, and a custom tag keeps its
/// name.
pub proof fn lemma_name_round_trip(name: Seq<char>)
    ensures
        TagKind::of_name(name).name() == name,
{
}

/// A tag compares equal to itself.
pub proof fn lemma_compare_reflexive(a: TagKind)
    ensures
        a.compare(a) == Ordering::Equal,
{
}

/// Swapping the two sides of a comparison swaps `Less` and `Greater` and
/// keeps `Equal`.
pub proof fn lemma_compare_mirror(a: TagKind, b: TagKind)
    ensures
        a.compare(b) == Ordering::Less <==> b.compare(a) == Ordering::Greater,
        a.compare(b) == Ordering::Equal <==> b.compare(a) == Ordering::Equal,
{
}

/// Where `a` is not above `b` and `b` is not above `c`, `a` is not above
/// `c`; and it is below `c` as soon as one of the two steps is strict.
pub proof fn lemma_compare_transitive(a: TagKind, b: TagKind, c: TagKind)
    requires
        a.compare(b) != Ordering::Greater,
        b.compare(c) != Ordering::Greater,
    ensures
        a.compare(c) != Ordering::Greater,
        a.compare(b) == Ordering::Less || b.compare(c) == Ordering::Less ==> a.compare(c)
            == Ordering::Less,
{
}

} // verus!
