//! Qualified names: the keys of attribute, entity and notation maps.
use vstd::prelude::*;
use crate::features::{opt_string_clone, opt_string_eq, opt_string_view};

verus! {

/// A (namespace URI, local name) pair; an absent part differs from an empty one.
pub struct QName {
    pub namespace_uri: Option<String>,
    pub local_name: Option<String>,
}

impl View for QName {
    type V = (Option<Seq<char>>, Option<Seq<char>>);

    open spec fn view(&self) -> Self::V {
        (opt_string_view(self.namespace_uri), opt_string_view(self.local_name))
    }
}

impl QName {
    pub fn new(namespace_uri: Option<String>, local_name: Option<String>) -> (r: QName)
        ensures
            r.namespace_uri == namespace_uri,
            r.local_name == local_name,
            r@ == (opt_string_view(namespace_uri), opt_string_view(local_name)),
    {
        QName { namespace_uri, local_name }
    }

    /// Whether the two names are equal part by part.
    pub fn same(&self, other: &QName) -> (r: bool)
        ensures
            r == (self@ == other@),
    {
        opt_string_eq(&self.namespace_uri, &other.namespace_uri) && opt_string_eq(
            &self.local_name,
            &other.local_name,
        )
    }

    pub fn copy(&self) -> (r: QName)
        ensures
            r@ == self@,
    {
        QName {
            namespace_uri: opt_string_clone(&self.namespace_uri),
            local_name: opt_string_clone(&self.local_name),
        }
    }
}

} // verus!
