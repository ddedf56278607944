use vstd::prelude::*;

verus! {

/// Allocation order of the buddy allocator: a block of order `n` spans `4KiB << n` bytes.
#[derive(Debug, Clone, Copy, PartialEq, Eq, Structural)]
pub enum Order {
    Order4KiB,
    Order8KiB,
    Order16KiB,
    Order32KiB,
    Order64KiB,
    Order128KiB,
    Order256KiB,
    Order512KiB,
    Order1MiB,
    Order2MiB,
    Order4MiB,
    Order8MiB,
    Order16MiB,
    Order32MiB,
    Order64MiB,
    Order128MiB,
    Order256MiB,
    Order512MiB,
    Order1GiB,
}

impl Order {
    /// The number of the order: 0 for 4KiB up to 18 for 1GiB.
    pub open spec fn number(self) -> nat {
        match self {
            Order::Order4KiB => 0,
            Order::Order8KiB => 1,
            Order::Order16KiB => 2,
            Order::Order32KiB => 3,
            Order::Order64KiB => 4,
            Order::Order128KiB => 5,
            Order::Order256KiB => 6,
            Order::Order512KiB => 7,
            Order::Order1MiB => 8,
            Order::Order2MiB => 9,
            Order::Order4MiB => 10,
            Order::Order8MiB => 11,
            Order::Order16MiB => 12,
            Order::Order32MiB => 13,
            Order::Order64MiB => 14,
            Order::Order128MiB => 15,
            Order::Order256MiB => 16,
            Order::Order512MiB => 17,
            Order::Order1GiB => 18,
        }
    }

    /// Returns the number of the order.
    pub fn index(self) -> (r: usize)
        ensures
            r == self.number(),
            r < 19,
    {
        match self {
            Order::Order4KiB => 0,
            Order::Order8KiB => 1,
            Order::Order16KiB => 2,
            Order::Order32KiB => 3,
            Order::Order64KiB => 4,
            Order::Order128KiB => 5,
            Order::Order256KiB => 6,
            Order::Order512KiB => 7,
            Order::Order1MiB => 8,
            Order::Order2MiB => 9,
            Order::Order4MiB => 10,
            Order::Order8MiB => 11,
            Order::Order16MiB => 12,
            Order::Order32MiB => 13,
            Order::Order64MiB => 14,
            Order::Order128MiB => 15,
            Order::Order256MiB => 16,
            Order::Order512MiB => 17,
            Order::Order1GiB => 18,
        }
    }
}

} // verus!
