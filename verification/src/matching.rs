//! Matching queried names against the patterns of DNS resources.

use crate::name::{
    lemma_parent_is_name, name_eq, name_from_text, name_has_suffix, name_parent,
    name_starts_with_label, name_text, name_with_label, DomainName,
};
use crate::resources::{resource_lookup, DnsResourceTable, ResourceDescriptionDns};
use vstd::prelude::*;

verus! {

/// The label that stands for exactly one label: `?`.
pub const ANY_LABEL: u8 = 0x3f;

/// The label that stands for any number of labels: `*`.
pub const ANY_LABELS: u8 = 0x2a;

/// Whether a queried name falls under a pattern.
///
/// A pattern that begins with the label `?` covers the name below it and the
/// names one label deeper. A pattern that begins with `*` covers every name
/// that ends in the name below it. Any other pattern covers only itself.
pub open spec fn name_matches(name: Seq<u8>, pattern: Seq<u8>) -> bool {
    if name_starts_with_label(pattern, seq![ANY_LABEL]) {
        match name_parent(pattern) {
            Some(base) => name_eq(base, name) || match name_parent(name) {
                Some(above) => name_eq(base, above),
                None => false,
            },
            None => false,
        }
    } else if name_starts_with_label(pattern, seq![ANY_LABELS]) {
        match name_parent(pattern) {
            Some(base) => name_has_suffix(name, base),
            None => false,
        }
    } else {
        name_eq(name, pattern)
    }
}

/// Whether `name` falls under `pattern`.
pub fn matches_pattern(name: &DomainName, pattern: &DomainName) -> (b: bool)
    ensures
        b == name_matches(name@, pattern@),
{
    let mut any_label: Vec<u8> = Vec::new();
    any_label.push(ANY_LABEL);
    assert(any_label@ =~= seq![ANY_LABEL]);
    let mut any_labels: Vec<u8> = Vec::new();
    any_labels.push(ANY_LABELS);
    assert(any_labels@ =~= seq![ANY_LABELS]);
    if pattern.starts_with_label(any_label.as_slice()) {
        return match pattern.parent() {
            Some(base) => base.eq_ignore_case(name) || match name.parent() {
                Some(above) => base.eq_ignore_case(&above),
                None => false,
            },
            None => false,
        };
    }
    if pattern.starts_with_label(any_labels.as_slice()) {
        return match pattern.parent() {
            Some(base) => name.has_suffix(&base),
            None => false,
        };
    }
    name.eq_ignore_case(pattern)
}

/// Whether `name` falls under the pattern that `resource` spells. Text that
/// is no domain name covers nothing.
pub fn is_subdomain(name: &DomainName, resource: &str) -> (b: bool)
    ensures
        b == match name_from_text(resource@) {
            Some(pattern) => name_matches(name@, pattern),
            None => false,
        },
{
    match DomainName::vec_from_str(resource) {
        Some(pattern) => matches_pattern(name, &pattern),
        None => false,
    }
}

/// The key under which a pattern with the wildcard `symbol` in front of the
/// name `w` is held.
pub open spec fn wildcard_key(symbol: u8, w: Seq<u8>) -> Seq<char> {
    name_text(name_with_label(seq![symbol], w))
}

/// The description of the first `*` pattern that covers `suffix`, trying the
/// suffix itself and then each name above it, up to the root.
pub open spec fn any_labels_description(
    suffix: Seq<u8>,
    table: Seq<(Seq<char>, ResourceDescriptionDns)>,
) -> Option<ResourceDescriptionDns>
    decreases suffix.len(),
{
    let here = if 2 + suffix.len() <= 255 {
        resource_lookup(table, wildcard_key(ANY_LABELS, suffix))
    } else {
        None
    };
    match here {
        Some(description) => Some(description),
        None => match name_parent(suffix) {
            Some(above) => if above.len() < suffix.len() {
                any_labels_description(above, table)
            } else {
                None
            },
            None => None,
        },
    }
}

/// The resource that answers for a queried name, by these rules in order:
/// the name itself is a key; `?` before the name is a key; `?` before the
/// name above it is a key; `*` before the name or a name above it is a key,
/// the longest such name first. A wildcard before a name that is too long
/// to take one more label makes no name, and so is no key.
pub open spec fn description_for(
    name: Seq<u8>,
    table: Seq<(Seq<char>, ResourceDescriptionDns)>,
) -> Option<ResourceDescriptionDns> {
    match resource_lookup(table, name_text(name)) {
        Some(description) => Some(description),
        None => {
            let below = if 2 + name.len() <= 255 {
                resource_lookup(table, wildcard_key(ANY_LABEL, name))
            } else {
                None
            };
            match below {
                Some(description) => Some(description),
                None => {
                    let above = match name_parent(name) {
                        Some(parent) => resource_lookup(table, wildcard_key(ANY_LABEL, parent)),
                        None => None,
                    };
                    match above {
                        Some(description) => Some(description),
                        None => any_labels_description(name, table),
                    }
                },
            }
        },
    }
}

/// The description of the first `*` pattern that covers `name` or a name
/// above it.
fn get_any_labels_description(
    name: &DomainName,
    dns_resources: &DnsResourceTable,
) -> (found: Option<ResourceDescriptionDns>)
    ensures
        found == any_labels_description(name@, dns_resources@),
{
    let mut suffix = name.clone_name();
    loop
        invariant
            any_labels_description(name@, dns_resources@) == any_labels_description(
                suffix@,
                dns_resources@,
            ),
        decreases suffix@.len(),
    {
        let ghost before = suffix@;
        let wire = suffix.as_wire();
        if let Some(pattern) = suffix.with_symbol(ANY_LABELS) {
            if let Some(description) = dns_resources.get(&pattern.to_text()) {
                return Some(description);
            }
        }
        match suffix.parent() {
            Some(above) => {
                proof {
                    lemma_parent_is_name(before);
                }
                suffix = above;
            },
            None => {
                return None;
            },
        }
    }
}

/// The resource that answers for the queried name, if there is one.
pub fn get_description(name: &DomainName, dns_resources: &DnsResourceTable) -> (found: Option<
    ResourceDescriptionDns,
>)
    ensures
        found == description_for(name@, dns_resources@),
{
    if let Some(description) = dns_resources.get(&name.to_text()) {
        return Some(description);
    }
    if let Some(single) = name.with_symbol(ANY_LABEL) {
        if let Some(description) = dns_resources.get(&single.to_text()) {
            return Some(description);
        }
    }
    if let Some(parent) = name.parent() {
        let wire = name.as_wire();
        proof {
            lemma_parent_is_name(name@);
        }
        match parent.with_symbol(ANY_LABEL) {
            Some(single) => {
                if let Some(description) = dns_resources.get(&single.to_text()) {
                    return Some(description);
                }
            },
            None => {
                assert(false);
            },
        }
    }
    get_any_labels_description(name, dns_resources)
}

} // verus!
