//! A value with the tag that annotates it.

use crate::value::model::{values_equal, ValueView};
use crate::value::{clone_value, value_eq, Value};
use vstd::prelude::*;

verus! {

/// A value under a tag, such as `!Thing x`.
///
/// The tag is kept as it was written. A tagged value never equals the value
/// under its tag.
#[derive(Debug)]
pub struct TaggedValue {
    /// The tag.
    pub tag: String,
    /// The value that the tag annotates.
    pub value: Value,
}

impl Clone for TaggedValue {
    fn clone(&self) -> (copy: TaggedValue)
        ensures
            copy.tag@ == self.tag@,
            copy.value@ == self.value@,
    {
        TaggedValue { tag: self.tag.clone(), value: clone_value(&self.value) }
    }
}

impl PartialEq for TaggedValue {
    fn eq(&self, other: &TaggedValue) -> (r: bool) {
        self.tag == other.tag && value_eq(&self.value, &other.value)
    }
}

impl vstd::std_specs::cmp::PartialEqSpecImpl for TaggedValue {
    open spec fn obeys_eq_spec() -> bool {
        true
    }

    open spec fn eq_spec(&self, other: &TaggedValue) -> bool {
        self.tag@ == other.tag@ && values_equal(self.value@, other.value@)
    }
}

impl Eq for TaggedValue {

}

impl Value {
    /// The value under all the tags that wrap this one, as it is held.
    pub open spec fn spec_untag(&self) -> Value
        decreases self,
    {
        match self {
            Value::Tagged(tagged) => tagged.value.spec_untag(),
            _ => *self,
        }
    }

    /// The value under all the tags that wrap this one.
    pub fn untag_ref(&self) -> (inner: &Value)
        ensures
            *inner == self.spec_untag(),
            inner@ == self@.untag(),
            !(*inner is Tagged),
    {
        let mut cur = self;
        loop
            invariant
                cur@.untag() == self@.untag(),
                cur.spec_untag() == self.spec_untag(),
            ensures
                cur@.untag() == self@.untag(),
                *cur == self.spec_untag(),
                !(*cur is Tagged),
            decreases *cur,
        {
            match cur {
                Value::Tagged(tagged) => {
                    cur = &tagged.value;
                },
                _ => {
                    break ;
                },
            }
        }
        cur
    }

    /// The value under all the tags that wrap this one, to be changed in
    /// place: the tags stay.
    pub fn untag_mut(&mut self) -> (inner: &mut Value)
        ensures
            inner@ == old(self)@.untag(),
            !(*inner is Tagged),
            final(self)@ == old(self)@.retag(final(inner)@),
    {
        let ghost before = self@;
        let ghost after = final(self)@;
        let mut cur = self;
        loop
            invariant
                cur@.untag() == before.untag(),
                forall|x: ValueView|
                    final(cur)@ == #[trigger] cur@.retag(x) ==> after == before.retag(x),
            ensures
                cur@.untag() == before.untag(),
                !(*cur is Tagged),
                after == before.retag(final(cur)@),
            decreases *cur,
        {
            let ghost outer = cur@;
            let ghost outer_after = final(cur)@;
            match cur {
                Value::Tagged(tagged) => {
                    cur = &mut tagged.value;
                    assert forall|x: ValueView| final(cur)@ == #[trigger] cur@.retag(x) implies after
                        == before.retag(x) by {
                        assert(outer_after == outer.retag(x));
                    }
                },
                _ => {
                    assert(outer.retag(outer_after) == outer_after);
                    break ;
                },
            }
        }
        cur
    }
}

} // verus!
