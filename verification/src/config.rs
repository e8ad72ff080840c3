//! Per-invocation and per-field configuration, and the pluggable
//! field-configuration resolver.

use vstd::prelude::*;

use crate::ast::{view_attrs, Attribute, SpecAttribute};

verus! {

/// The default policy of one field: no default, the type's intrinsic
/// default, or an explicit value given as text and read through the same
/// string-parse path as annotation values.
#[derive(Debug, PartialEq, Eq)]
pub enum Defaulted {
    /// Don't default.
    Nope,
    /// Use the type's intrinsic default.
    Yep,
    /// Use the given text, string-parsed for the field's type.
    To(String),
}

/// Mathematical model of a [`Defaulted`].
pub enum SpecDefaulted {
    Nope,
    Yep,
    To(Seq<char>),
}

impl View for Defaulted {
    type V = SpecDefaulted;

    open spec fn view(&self) -> SpecDefaulted {
        match self {
            Defaulted::Nope => SpecDefaulted::Nope,
            Defaulted::Yep => SpecDefaulted::Yep,
            Defaulted::To(s) => SpecDefaulted::To(s@),
        }
    }
}

/// The resolved configuration of one field: an attribute-name override, an
/// optional split-group parent, the default policy, and the value a bare
/// word assigns.
#[derive(Debug, PartialEq, Eq)]
pub struct FieldConfig {
    pub attribute: Option<String>,
    pub split_attribute_of: Option<String>,
    pub default: Defaulted,
    pub flag_value: Option<String>,
}

/// Mathematical model of a [`FieldConfig`].
pub struct SpecFieldConfig {
    pub attribute: Option<Seq<char>>,
    pub split_attribute_of: Option<Seq<char>>,
    pub default: SpecDefaulted,
    pub flag_value: Option<Seq<char>>,
}

/// The view of an optional string.
pub open spec fn view_opt_str(s: Option<String>) -> Option<Seq<char>> {
    match s {
        Some(v) => Some(v@),
        None => None,
    }
}

impl View for FieldConfig {
    type V = SpecFieldConfig;

    open spec fn view(&self) -> SpecFieldConfig {
        SpecFieldConfig {
            attribute: view_opt_str(self.attribute),
            split_attribute_of: view_opt_str(self.split_attribute_of),
            default: self.default@,
            flag_value: view_opt_str(self.flag_value),
        }
    }
}

/// The field configuration with nothing set.
pub open spec fn spec_default_field_config() -> SpecFieldConfig {
    SpecFieldConfig {
        attribute: None,
        split_attribute_of: None,
        default: SpecDefaulted::Nope,
        flag_value: None,
    }
}

impl Default for FieldConfig {
    /// A configuration with no override, no grouping, no default and no
    /// flag value.
    fn default() -> (r: FieldConfig)
        ensures
            r@ == spec_default_field_config(),
    {
        FieldConfig {
            attribute: None,
            split_attribute_of: None,
            default: Defaulted::Nope,
            flag_value: None,
        }
    }
}

/// The per-invocation configuration: an optional scope name that all
/// relevant annotation entries must nest under, and the name of the field
/// that collects documentation comments, if any.
#[derive(Debug, PartialEq, Eq)]
pub struct Config {
    pub scope: Option<String>,
    pub docs: Option<String>,
}

/// Mathematical model of a [`Config`].
pub struct SpecConfig {
    pub scope: Option<Seq<char>>,
    pub docs: Option<Seq<char>>,
}

impl View for Config {
    type V = SpecConfig;

    open spec fn view(&self) -> SpecConfig {
        SpecConfig { scope: view_opt_str(self.scope), docs: view_opt_str(self.docs) }
    }
}

/// The pluggable strategy that reads a field's own annotations and
/// resolves its configuration. It is called exactly once per field, in
/// declaration order, and must be pure: its result is a function of the
/// annotations alone, as stated by `spec_resolve`.
pub trait FieldConfigResolver {
    /// What this resolver returns on the given annotations.
    spec fn spec_resolve(&self, attrs: Seq<SpecAttribute>) -> SpecFieldConfig;

    /// Resolves the configuration of one field from its annotations.
    fn resolve(&self, attrs: &Vec<Attribute>) -> (r: FieldConfig)
        ensures
            r@ == self.spec_resolve(view_attrs(attrs@)),
    ;
}

/// Deep copy of an optional string.
pub fn clone_opt_string(s: &Option<String>) -> (r: Option<String>)
    ensures
        view_opt_str(r) == view_opt_str(*s),
{
    match s {
        Some(v) => Some(v.clone()),
        None => None,
    }
}

/// A placeholder error for conversions that cannot fail.
#[derive(Debug, PartialEq, Eq)]
pub struct NoError;

} // verus!
