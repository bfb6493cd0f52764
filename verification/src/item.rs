//! The configuration item: a named, typed slot that accepts or rejects raw
//! candidate values.

use vstd::prelude::*;
use crate::value::{AcceptError, RawValue, ValueKind, coerce, coerce_spec};

verus! {

/// A named, typed, resolvable configuration slot. Identity is the pair of
/// `name` (PascalCase) and optional `group`; the slot starts empty and is
/// filled by the first accepted candidate.
#[derive(Debug)]
pub struct ConfigurationItem {
    pub name: String,
    pub group: Option<String>,
    pub kind: ValueKind,
    pub value: Option<RawValue>,
}

/// The item with its slot set to `v`.
pub open spec fn with_value(item: ConfigurationItem, v: RawValue) -> ConfigurationItem {
    ConfigurationItem { value: Some(v), ..item }
}

impl ConfigurationItem {
    /// A fresh item: slot empty.
    pub fn new(name: String, group: Option<String>, kind: ValueKind) -> (r: Self)
        ensures
            r.name == name,
            r.group == group,
            r.kind == kind,
            r.value is None,
    {
        ConfigurationItem { name, group, kind, value: None }
    }

    /// The name of the configuration item, in PascalCase.
    pub fn get_name(&self) -> (r: &str)
        ensures
            r@ == self.name@,
    {
        self.name.as_str()
    }

    /// The group of the configuration item, absent for top-level items.
    pub fn get_group(&self) -> (r: Option<&str>)
        ensures
            match r {
                Some(g) => self.group matches Some(own) && g@ == own@,
                None => self.group is None,
            },
    {
        match &self.group {
            Some(g) => Some(g.as_str()),
            None => None,
        }
    }

    /// The resolved value, if any source has supplied one.
    pub fn get(&self) -> (r: &Option<RawValue>)
        ensures
            r == &self.value,
    {
        &self.value
    }

    /// Try to use the provided candidate: on a successful coercion the slot
    /// is set and `None` is returned; otherwise the slot is unchanged and the
    /// reason comes back.
    pub fn try_value(&mut self, candidate: RawValue) -> (r: Option<AcceptError>)
        ensures
            match coerce_spec(old(self).kind, candidate) {
                Ok(v) => r is None && *final(self) == with_value(*old(self), v),
                Err(e) => r == Some(e) && *final(self) == *old(self),
            },
    {
        match coerce(self.kind, candidate) {
            Ok(v) => {
                self.value = Some(v);
                None
            },
            Err(e) => Some(e),
        }
    }
}

} // verus!
