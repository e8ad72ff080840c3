//! The standard field-configuration resolver: reads the `attire(...)`
//! entries attached to a field and resolves its configuration.

use vstd::prelude::*;

use crate::ast::{str_eq, AttrLit, Attribute, Meta, SpecAttrLit, SpecAttribute, SpecMeta};
use crate::config::{
    Defaulted, FieldConfig, FieldConfigResolver, SpecDefaulted, SpecFieldConfig,
};

verus! {

/// One configuration entry applied to the configuration so far: renames,
/// grouping and flag values are string-valued entries; `default` accepts
/// both a bare word (the type's intrinsic default) and an explicit text.
pub open spec fn spec_apply_attire_item(cfg: SpecFieldConfig, item: SpecMeta) -> SpecFieldConfig {
    match item {
        SpecMeta::NameValue(name, SpecAttrLit::Str(s)) => if name == "attribute"@ {
            SpecFieldConfig {
                attribute: Some(s),
                split_attribute_of: cfg.split_attribute_of,
                default: cfg.default,
                flag_value: cfg.flag_value,
            }
        } else if name == "split_attribute_of"@ {
            SpecFieldConfig {
                attribute: cfg.attribute,
                split_attribute_of: Some(s),
                default: cfg.default,
                flag_value: cfg.flag_value,
            }
        } else if name == "default"@ {
            SpecFieldConfig {
                attribute: cfg.attribute,
                split_attribute_of: cfg.split_attribute_of,
                default: SpecDefaulted::To(s),
                flag_value: cfg.flag_value,
            }
        } else if name == "flag_value"@ {
            SpecFieldConfig {
                attribute: cfg.attribute,
                split_attribute_of: cfg.split_attribute_of,
                default: cfg.default,
                flag_value: Some(s),
            }
        } else {
            cfg
        },
        SpecMeta::Word(name) => if name == "default"@ {
            SpecFieldConfig {
                attribute: cfg.attribute,
                split_attribute_of: cfg.split_attribute_of,
                default: SpecDefaulted::Yep,
                flag_value: cfg.flag_value,
            }
        } else {
            cfg
        },
        _ => cfg,
    }
}

/// The configuration entries of one `attire(...)` list applied in order.
pub open spec fn spec_apply_attire_items(cfg: SpecFieldConfig, items: Seq<SpecMeta>)
    -> SpecFieldConfig
    decreases items.len(),
{
    if items.len() == 0 {
        cfg
    } else {
        spec_apply_attire_item(
            spec_apply_attire_items(cfg, items.drop_last()),
            items.last(),
        )
    }
}

/// Every `attire(...)` annotation of the field applied in order.
pub open spec fn spec_apply_attire_attrs(cfg: SpecFieldConfig, attrs: Seq<SpecAttribute>)
    -> SpecFieldConfig
    decreases attrs.len(),
{
    if attrs.len() == 0 {
        cfg
    } else {
        let prior = spec_apply_attire_attrs(cfg, attrs.drop_last());
        match attrs.last().value {
            SpecMeta::List(name, items) => if name == "attire"@ {
                spec_apply_attire_items(prior, items)
            } else {
                prior
            },
            _ => prior,
        }
    }
}

/// What the standard resolver returns on a field's annotations.
pub open spec fn spec_attire_config(attrs: Seq<SpecAttribute>) -> SpecFieldConfig {
    spec_apply_attire_attrs(crate::config::spec_default_field_config(), attrs)
}

/// Applies one configuration entry.
fn apply_attire_item(cfg: FieldConfig, item: &Meta) -> (r: FieldConfig)
    ensures
        r@ == spec_apply_attire_item(cfg@, item@),
{
    match item {
        Meta::NameValue(name, AttrLit::Str(s)) => {
            if str_eq(name.as_str(), "attribute") {
                FieldConfig {
                    attribute: Some(s.clone()),
                    split_attribute_of: cfg.split_attribute_of,
                    default: cfg.default,
                    flag_value: cfg.flag_value,
                }
            } else if str_eq(name.as_str(), "split_attribute_of") {
                FieldConfig {
                    attribute: cfg.attribute,
                    split_attribute_of: Some(s.clone()),
                    default: cfg.default,
                    flag_value: cfg.flag_value,
                }
            } else if str_eq(name.as_str(), "default") {
                FieldConfig {
                    attribute: cfg.attribute,
                    split_attribute_of: cfg.split_attribute_of,
                    default: Defaulted::To(s.clone()),
                    flag_value: cfg.flag_value,
                }
            } else if str_eq(name.as_str(), "flag_value") {
                FieldConfig {
                    attribute: cfg.attribute,
                    split_attribute_of: cfg.split_attribute_of,
                    default: cfg.default,
                    flag_value: Some(s.clone()),
                }
            } else {
                cfg
            }
        },
        Meta::Word(name) => {
            if str_eq(name.as_str(), "default") {
                FieldConfig {
                    attribute: cfg.attribute,
                    split_attribute_of: cfg.split_attribute_of,
                    default: Defaulted::Yep,
                    flag_value: cfg.flag_value,
                }
            } else {
                cfg
            }
        },
        _ => cfg,
    }
}

/// The standard resolver, as the derive layer configures it: field
/// configuration is read from `attire(...)` annotations on the field.
pub struct AttireResolver;

impl FieldConfigResolver for AttireResolver {
    open spec fn spec_resolve(&self, attrs: Seq<SpecAttribute>) -> SpecFieldConfig {
        spec_attire_config(attrs)
    }

    #[verifier::loop_isolation(false)]
    fn resolve(&self, attrs: &Vec<Attribute>) -> (r: FieldConfig) {
        let ghost va = crate::ast::view_attrs(attrs@);
        let mut cfg = FieldConfig {
            attribute: None,
            split_attribute_of: None,
            default: Defaulted::Nope,
            flag_value: None,
        };
        let n = attrs.len();
        let mut i: usize = 0;
        proof {
            assert(va.take(0) =~= Seq::<SpecAttribute>::empty());
        }
        while i < n
            invariant
                0 <= i <= n,
                cfg@ == spec_apply_attire_attrs(
                    crate::config::spec_default_field_config(),
                    va.take(i as int),
                ),
            decreases n - i,
        {
            proof {
                assert(va.take(i + 1).drop_last() =~= va.take(i as int));
                assert(va.take(i + 1).last() == va[i as int]);
            }
            match &attrs[i].value {
                Meta::List(name, items) => {
                    if str_eq(name.as_str(), "attire") {
                        let ghost sitems = crate::ast::view_meta_seq(items@);
                        proof {
                            crate::ast::lemma_view_meta_seq(items@);
                        }
                        let ghost before = cfg@;
                        let m = items.len();
                        let mut j: usize = 0;
                        proof {
                            assert(sitems.take(0) =~= Seq::<SpecMeta>::empty());
                        }
                        while j < m
                            invariant
                                0 <= j <= m,
                                cfg@ == spec_apply_attire_items(before, sitems.take(j as int)),
                            decreases m - j,
                        {
                            proof {
                                assert(sitems.take(j + 1).drop_last() =~= sitems.take(j as int));
                                assert(sitems.take(j + 1).last() == sitems[j as int]);
                            }
                            cfg = apply_attire_item(cfg, &items[j]);
                            j += 1;
                        }
                        proof {
                            assert(sitems.take(m as int) =~= sitems);
                        }
                    }
                },
                _ => {},
            }
            i += 1;
        }
        proof {
            assert(va.take(n as int) =~= va);
        }
        cfg
    }
}

} // verus!
