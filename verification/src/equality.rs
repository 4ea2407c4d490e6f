//! Equality of comments: two comments are equal when every field of one
//! equals that field of the other, the replies and all below them included.

use crate::comments::{BoolOrDate, CommentNode};
use vstd::prelude::*;
use vstd::std_specs::cmp::PartialEqSpecImpl;

verus! {

impl PartialEq for BoolOrDate {
    fn eq(&self, other: &Self) -> (same: bool) {
        match (self, other) {
            (BoolOrDate::Bool(a), BoolOrDate::Bool(b)) => *a == *b,
            (BoolOrDate::Str(a), BoolOrDate::Str(b)) => *a == *b,
            _ => false,
        }
    }
}

impl PartialEqSpecImpl for BoolOrDate {
    open spec fn obeys_eq_spec() -> bool {
        true
    }

    open spec fn eq_spec(&self, other: &Self) -> bool {
        self@ == other@
    }
}

impl PartialEq for CommentNode {
    fn eq(&self, other: &Self) -> (same: bool)
        decreases self,
    {
        let distinguished = match (&self.distinguished, &other.distinguished) {
            (None, None) => true,
            (Some(a), Some(b)) => *a == *b,
            _ => false,
        };
        let texts = self.author == other.author && self.body == other.body && self.body_html
            == other.body_html && self.created_utc == other.created_utc && self.id == other.id
            && self.link_id == other.link_id && self.parent_id == other.parent_id;
        let marks = self.edited == other.edited && self.is_submitter == other.is_submitter
            && self.score == other.score && self.stickied == other.stickied;
        if !distinguished {
            assert(self@.distinguished != other@.distinguished);
            return false;
        }
        if !texts || !marks {
            return false;
        }
        if self.replies.len() != other.replies.len() {
            assert(self@.replies.len() != other@.replies.len());
            return false;
        }
        let mut i: usize = 0;
        while i < self.replies.len()
            invariant
                i <= self.replies.len(),
                self.replies.len() == other.replies.len(),
                forall|j: int| 0 <= j < i ==> self.replies@[j]@ == other.replies@[j]@,
            decreases self.replies.len() - i,
        {
            if !self.replies[i].eq(&other.replies[i]) {
                assert(self@.replies[i as int] != other@.replies[i as int]);
                return false;
            }
            i = i + 1;
        }
        assert(self@.replies =~= other@.replies);
        true
    }
}

impl PartialEqSpecImpl for CommentNode {
    open spec fn obeys_eq_spec() -> bool {
        true
    }

    open spec fn eq_spec(&self, other: &Self) -> bool {
        self@ == other@
    }
}

} // verus!
