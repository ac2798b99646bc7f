//! A binary search tree of integers.

use vstd::prelude::*;

verus! {

/// A node of a binary search tree: a value, the smaller values to its left
/// and the greater ones to its right.
#[derive(Debug, PartialEq)]
pub struct Node {
    pub value: i32,
    pub left: Option<Box<Node>>,
    pub right: Option<Box<Node>>,
}

impl Node {
    /// The tree of the one value `value`.
    pub open spec fn leaf(value: i32) -> Node {
        Node { value, left: None, right: None }
    }

    /// The tree with `value` put in its place; the tree itself where it
    /// holds `value` already.
    pub open spec fn inserted(self, value: i32) -> Node
        decreases self,
    {
        if value < self.value {
            Node {
                value: self.value,
                left: Some(
                    Box::new(
                        match self.left {
                            Some(l) => (*l).inserted(value),
                            None => Node::leaf(value),
                        },
                    ),
                ),
                right: self.right,
            }
        } else if value > self.value {
            Node {
                value: self.value,
                left: self.left,
                right: Some(
                    Box::new(
                        match self.right {
                            Some(r) => (*r).inserted(value),
                            None => Node::leaf(value),
                        },
                    ),
                ),
            }
        } else {
            self
        }
    }

    /// The tree of the same shape with every value 0.
    pub open spec fn zeroed(self) -> Node
        decreases self,
    {
        Node {
            value: 0,
            left: match self.left {
                Some(l) => Some(Box::new((*l).zeroed())),
                None => None,
            },
            right: match self.right {
                Some(r) => Some(Box::new((*r).zeroed())),
                None => None,
            },
        }
    }

    /// The values of the tree.
    pub open spec fn values(self) -> Set<int>
        decreases self,
    {
        let l = match self.left {
            Some(l) => (*l).values(),
            None => Set::empty(),
        };
        let r = match self.right {
            Some(r) => (*r).values(),
            None => Set::empty(),
        };
        l.union(r).insert(self.value as int)
    }

    /// Whether every value stands to the right of the smaller and to the
    /// left of the greater ones.
    pub open spec fn ordered(self) -> bool
        decreases self,
    {
        &&& match self.left {
            Some(l) => (*l).ordered() && forall|v: int| (*l).values().contains(v) ==> v < self.value,
            None => true,
        }
        &&& match self.right {
            Some(r) => (*r).ordered() && forall|v: int|
                (*r).values().contains(v) ==> v > self.value,
            None => true,
        }
    }

    /// The sum of the values of the tree.
    pub open spec fn total(self) -> int
        decreases self,
    {
        self.value + (match self.left {
            Some(l) => (*l).total(),
            None => 0,
        }) + (match self.right {
            Some(r) => (*r).total(),
            None => 0,
        })
    }

    /// Whether the values can be added to `acc` one by one, the node first,
    /// then its right side, then its left side, without leaving the range
    /// of a 32-bit integer on the way.
    pub open spec fn fits(self, acc: int) -> bool
        decreases self,
    {
        let here = acc + self.value;
        let right = match self.right {
            Some(r) => (*r).total(),
            None => 0,
        };
        &&& i32::MIN <= here <= i32::MAX
        &&& match self.right {
            Some(r) => (*r).fits(here),
            None => true,
        }
        &&& match self.left {
            Some(l) => (*l).fits(here + right),
            None => true,
        }
    }

    /// Inserting a value adds it to the values and keeps the order.
    pub proof fn lemma_inserted(self, value: i32)
        ensures
            self.inserted(value).values() == self.values().insert(value as int),
            self.ordered() ==> self.inserted(value).ordered(),
        decreases self,
    {
        let after = self.inserted(value);
        let leaf = Node::leaf(value);
        assert(leaf.values() =~= Set::<int>::empty().insert(value as int));
        assert(leaf.ordered());
        if value < self.value {
            let side = match self.left {
                Some(l) => (*l).inserted(value),
                None => leaf,
            };
            match self.left {
                Some(l) => {
                    (*l).lemma_inserted(value);
                },
                None => {},
            }
            assert(after.left == Some(Box::new(side)));
            assert(after.right == self.right);
            assert(after.values() =~= self.values().insert(value as int));
            if self.ordered() {
                assert(side.ordered());
                assert(after.ordered());
            }
        } else if value > self.value {
            let side = match self.right {
                Some(r) => (*r).inserted(value),
                None => leaf,
            };
            match self.right {
                Some(r) => {
                    (*r).lemma_inserted(value);
                },
                None => {},
            }
            assert(after.right == Some(Box::new(side)));
            assert(after.left == self.left);
            assert(after.values() =~= self.values().insert(value as int));
            if self.ordered() {
                assert(side.ordered());
                assert(after.ordered());
            }
        } else {
            assert(self.values().contains(value as int));
            assert(after.values() =~= self.values().insert(value as int));
        }
    }

    /// A tree of zeros adds up to zero.
    pub proof fn lemma_zeroed(self)
        ensures
            self.zeroed().total() == 0,
            self.zeroed().zeroed() == self.zeroed(),
        decreases self,
    {
        match self.left {
            Some(l) => {
                (*l).lemma_zeroed();
            },
            None => {},
        }
        match self.right {
            Some(r) => {
                (*r).lemma_zeroed();
            },
            None => {},
        }
    }

    /// The tree of the one value `value`.
    pub fn new(value: i32) -> (r: Self)
        ensures
            r == Node::leaf(value),
    {
        Self { value, left: None, right: None }
    }

    /// Puts `value` in its place, unless the tree holds it already.
    pub fn insert(&mut self, value: i32)
        ensures
            *final(self) == old(self).inserted(value),
        decreases *old(self),
    {
        if value < self.value {
            match &mut self.left {
                Some(left) => {
                    left.insert(value);
                },
                None => {
                    self.left = Some(Box::new(Node::new(value)));
                },
            }
        } else if value > self.value {
            match &mut self.right {
                Some(right) => {
                    right.insert(value);
                },
                None => {
                    self.right = Some(Box::new(Node::new(value)));
                },
            }
        }
    }

    /// Sets every value to 0.
    pub fn zero(&mut self)
        ensures
            *final(self) == old(self).zeroed(),
        decreases *old(self),
    {
        self.value = 0;
        match &mut self.left {
            Some(left) => {
                left.zero();
            },
            None => {},
        }
        match &mut self.right {
            Some(right) => {
                right.zero();
            },
            None => {},
        }
    }

    /// The values added to `acc`: the node first, then its right side, then
    /// its left side.
    fn sum_from(&self, acc: i32) -> (r: i32)
        requires
            self.fits(acc as int),
        ensures
            r == acc + self.total(),
        decreases self,
    {
        let mut sum = acc + self.value;
        match &self.right {
            Some(right) => {
                sum = right.sum_from(sum);
            },
            None => {},
        }
        match &self.left {
            Some(left) => {
                sum = left.sum_from(sum);
            },
            None => {},
        }
        sum
    }

    /// The sum of the values.
    pub fn sum(&mut self) -> (r: i32)
        requires
            old(self).fits(0),
        ensures
            r == old(self).total(),
            *final(self) == *old(self),
    {
        self.sum_from(0)
    }
}

} // verus!
