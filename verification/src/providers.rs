//! Market-data provider plumbing that the library models: the subscription
//! request a feed manager sends on connect.  The connection handling itself
//! lives outside the library.

use vstd::prelude::*;
use vstd::string::*;

verus! {

/// A feed subscription request: the method, the channels, and a request
/// identifier assigned per connection.
pub struct Subscription {
    pub method: String,
    pub params: Vec<String>,
    pub id: u64,
}

impl Subscription {
    /// A subscription for the given channels, with request id zero.
    pub fn new(channels: Vec<&str>) -> (r: Subscription)
        ensures
            r.method@ == "SUBSCRIBE"@,
            r.params@.len() == channels@.len(),
            forall|i: int| 0 <= i < channels@.len() ==> r.params@[i]@ == channels@[i]@,
            r.id == 0,
    {
        let mut params: Vec<String> = Vec::new();
        let mut i: usize = 0;
        while i < channels.len()
            invariant
                0 <= i <= channels@.len(),
                params@.len() == i,
                forall|j: int| 0 <= j < i ==> params@[j]@ == channels@[j]@,
            decreases channels.len() - i,
        {
            params.push(channels[i].to_owned());
            i += 1;
        }
        Subscription { method: String::from_str("SUBSCRIBE"), params, id: 0 }
    }

    /// Set the per-connection request identifier.
    pub fn update_id(&mut self, id: u64)
        ensures
            final(self).id == id,
            final(self).method == old(self).method,
            final(self).params == old(self).params,
    {
        self.id = id;
    }
}

impl Clone for Subscription {
    fn clone(&self) -> (r: Self)
        ensures
            r.method@ == self.method@,
            r.params@.len() == self.params@.len(),
            forall|i: int| 0 <= i < self.params@.len() ==> r.params@[i] == self.params@[i],
            r.id == self.id,
    {
        let mut params: Vec<String> = Vec::new();
        let mut i: usize = 0;
        while i < self.params.len()
            invariant
                0 <= i <= self.params@.len(),
                params@.len() == i,
                forall|j: int| 0 <= j < i ==> params@[j] == self.params@[j],
            decreases self.params.len() - i,
        {
            params.push(self.params[i].clone());
            i += 1;
        }
        Subscription { method: self.method.clone(), params, id: self.id }
    }
}

} // verus!
