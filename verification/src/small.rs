//! Short lists of stream keys: `smallvec::SmallVec` seen as a sequence.
use crate::addr::FlowKey;
use smallvec::SmallVec;
use vstd::prelude::*;

verus! {

/// A stream in integers: its flow and its SSRC.
pub type StreamId = (FlowKey, u32);

/// A list of stream keys that holds two of them in place.
#[verifier::external_body]
pub struct KeyList {
    keys: SmallVec<[StreamId; 2]>,
}

/// The keys of a list, in order.
pub uninterp spec fn keys_in(list: KeyList) -> Seq<StreamId>;

/// Whether a key is another one than `gone`.
pub open spec fn other_than(gone: StreamId) -> spec_fn(StreamId) -> bool {
    |k: StreamId| k != gone
}

/// Whether two keys differ.
fn differs(a: &StreamId, b: &StreamId) -> (r: bool)
    ensures
        r == (*a != *b),
{
    let (f, s) = *a;
    let (g, t) = *b;
    !(s == t && f.0 == g.0 && f.1.0 == g.1.0 && f.1.1 == g.1.1 && f.1.2 == g.1.2 && f.2.0 == g.2.0
        && f.2.1 == g.2.1 && f.2.2 == g.2.2)
}

impl View for KeyList {
    type V = Seq<StreamId>;

    open spec fn view(&self) -> Seq<StreamId> {
        keys_in(*self)
    }
}

impl KeyList {
    /// `SmallVec::new`: an empty list.
    #[verifier::external_body]
    pub(crate) fn new() -> (r: KeyList)
        ensures
            keys_in(r).len() == 0,
    {
        KeyList { keys: SmallVec::new() }
    }

    /// `SmallVec::push`: appends a key.
    #[verifier::external_body]
    pub(crate) fn push(&mut self, key: StreamId)
        ensures
            keys_in(*final(self)) == keys_in(*old(self)).push(key),
    {
        self.keys.push(key)
    }

    /// `SmallVec::retain`: keeps, in order, the keys other than `gone`.
    #[verifier::external_body]
    pub(crate) fn remove_all(&mut self, gone: StreamId)
        ensures
            keys_in(*final(self)) == keys_in(*old(self)).filter(other_than(gone)),
    {
        self.keys.retain(|k| differs(k, &gone))
    }

    /// `SmallVec::is_empty`: whether the list holds no key.
    #[verifier::external_body]
    pub(crate) fn is_empty(&self) -> (r: bool)
        ensures
            r == (keys_in(*self).len() == 0),
    {
        self.keys.is_empty()
    }
}

} // verus!
