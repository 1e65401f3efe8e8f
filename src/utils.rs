//! Metric names of this service all start with one prefix.
use vstd::prelude::*;
use vstd::string::*;
use metrics::{Key, KeyName};
use crate::external::{
    key_labels_of, key_name, key_name_from, key_name_of, key_name_str, key_name_text, renamed_key,
};

verus! {

/// Put before the name of every metric that the service records.
pub const PREFIX: &'static str = "llama_inference_";

/// The metric name `name` under the service prefix.
pub fn prefixed_name(name: &str) -> (r: String)
    ensures
        r@ == PREFIX@ + name@,
{
    let mut new_name = String::from_str(PREFIX);
    new_name.append(name);
    new_name
}

/// A metrics recorder whose metric names carry the service prefix.
pub struct Prefix<R> {
    inner: R,
}

impl<R> Prefix<R> {
    /// The recorder that receives the prefixed metrics.
    pub closed spec fn wrapped(&self) -> R {
        self.inner
    }

    pub fn inner(&self) -> (r: &R)
        ensures
            *r == self.wrapped(),
    {
        &self.inner
    }

    /// `key` with the prefix put before its name; the labels stay.
    pub fn prefix_key(&self, key: &Key) -> (r: Key)
        ensures
            key_name_of(r) == PREFIX@ + key_name_of(*key),
            key_labels_of(r) == key_labels_of(*key),
    {
        let new_name = prefixed_name(key_name(key));
        renamed_key(key, new_name)
    }

    /// `key_name` with the prefix put before it.
    pub fn prefix_key_name(&self, key_name: KeyName) -> (r: KeyName)
        ensures
            key_name_text(r) == PREFIX@ + key_name_text(key_name),
    {
        let new_name = prefixed_name(key_name_str(&key_name));
        key_name_from(new_name)
    }
}

/// Wraps a recorder into a [`Prefix`].
pub struct PrefixLayer;

impl PrefixLayer {
    pub fn layer<R>(&self, inner: R) -> (r: Prefix<R>)
        ensures
            r.wrapped() == inner,
    {
        Prefix { inner }
    }
}

} // verus!
