//! Formatting state attached to document content.

use vstd::prelude::*;

verus! {

/// A named formatting attribute that a run of text can carry.
#[derive(Clone, Copy, PartialEq, Eq, Structural, Debug)]
pub enum Attribute {
    Bold,
    Italic,
    Underline,
}

/// An explicit attribute mapping: for each known attribute, either absent
/// (`None`), an add marker (`Some(true)`), or a removal marker (`Some(false)`).
#[derive(Clone, Copy, Debug)]
pub struct AttributesData {
    pub bold: Option<bool>,
    pub italic: Option<bool>,
    pub underline: Option<bool>,
}

/// The formatting state attached to a content run: no formatting, inherit the
/// surrounding formatting, or an explicit add/remove set.
#[derive(Clone, Copy, Debug)]
pub enum Attributes {
    Empty,
    Follow,
    Custom(AttributesData),
}

impl AttributesData {
    /// The mapping with no entries.
    pub open spec fn empty_data() -> AttributesData {
        AttributesData { bold: None, italic: None, underline: None }
    }

    pub fn new() -> (r: AttributesData)
        ensures
            r == AttributesData::empty_data(),
    {
        AttributesData { bold: None, italic: None, underline: None }
    }

    /// The entry recorded for one attribute.
    pub open spec fn spec_get(self, key: Attribute) -> Option<bool> {
        match key {
            Attribute::Bold => self.bold,
            Attribute::Italic => self.italic,
            Attribute::Underline => self.underline,
        }
    }

    /// The mapping with one entry replaced.
    pub open spec fn spec_set(self, key: Attribute, value: bool) -> AttributesData {
        match key {
            Attribute::Bold => AttributesData { bold: Some(value), ..self },
            Attribute::Italic => AttributesData { italic: Some(value), ..self },
            Attribute::Underline => AttributesData { underline: Some(value), ..self },
        }
    }

    /// Record an add marker (`value == true`) or a removal marker
    /// (`value == false`) for one attribute.
    pub fn insert(&mut self, key: Attribute, value: bool)
        ensures
            *final(self) == old(self).spec_set(key, value),
    {
        match key {
            Attribute::Bold => self.bold = Some(value),
            Attribute::Italic => self.italic = Some(value),
            Attribute::Underline => self.underline = Some(value),
        }
    }

    /// Merge policy: entries already present in `self` win; entries absent in
    /// `self` are filled in from `other`.
    pub open spec fn spec_merge(self, other: AttributesData) -> AttributesData {
        AttributesData {
            bold: if self.bold is Some { self.bold } else { other.bold },
            italic: if self.italic is Some { self.italic } else { other.italic },
            underline: if self.underline is Some { self.underline } else { other.underline },
        }
    }

    /// Merge `other`'s entries into `self` without overwriting entries already
    /// present: explicit requested changes win over inherited ones.
    pub fn merge(&mut self, other: &AttributesData)
        ensures
            *final(self) == old(self).spec_merge(*other),
    {
        if self.bold.is_none() {
            self.bold = other.bold;
        }
        if self.italic.is_none() {
            self.italic = other.italic;
        }
        if self.underline.is_none() {
            self.underline = other.underline;
        }
    }
}

impl Attributes {
    /// The explicit mapping carried: `Custom`'s data, otherwise empty.
    pub open spec fn spec_data(self) -> AttributesData {
        match self {
            Attributes::Custom(d) => d,
            _ => AttributesData::empty_data(),
        }
    }

    pub fn data(&self) -> (r: AttributesData)
        ensures
            r == self.spec_data(),
    {
        match self {
            Attributes::Custom(d) => *d,
            _ => AttributesData::new(),
        }
    }
}

pub fn option_bool_equal(a: Option<bool>, b: Option<bool>) -> (r: bool)
    ensures
        r == (a == b),
{
    match (a, b) {
        (None, None) => true,
        (Some(x), Some(y)) => x == y,
        _ => false,
    }
}

pub fn attributes_equal(a: &Attributes, b: &Attributes) -> (r: bool)
    ensures
        r == (*a == *b),
{
    match (a, b) {
        (Attributes::Empty, Attributes::Empty) => true,
        (Attributes::Follow, Attributes::Follow) => true,
        (Attributes::Custom(x), Attributes::Custom(y)) => {
            option_bool_equal(x.bold, y.bold) && option_bool_equal(x.italic, y.italic)
                && option_bool_equal(x.underline, y.underline)
        },
        _ => false,
    }
}

/// How a retain's attributes act on the existing attributes of a retained
/// position: `Follow` inherits what is already there; anything else replaces
/// it wholesale.
pub open spec fn spec_apply_attr(base: Attributes, a: Attributes) -> Attributes {
    match a {
        Attributes::Follow => base,
        _ => a,
    }
}

pub fn apply_attr(base: &Attributes, a: &Attributes) -> (r: Attributes)
    ensures
        r == spec_apply_attr(*base, *a),
{
    match a {
        Attributes::Follow => *base,
        _ => *a,
    }
}

} // verus!
