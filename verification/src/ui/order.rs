use vstd::prelude::*;

use std::cmp::Ordering;

verus! {

/// The outcome of comparing two entries.
#[derive(Clone, Copy, Debug, PartialEq, Eq, Structural)]
pub enum Order {
    Less,
    Equal,
    Greater,
}

/// How natord orders two names: negative, zero or positive.
pub uninterp spec fn natord_cmp(a: Seq<char>, b: Seq<char>) -> int;

/// Calls `natord::compare`, natural ("human") order of two names. Claims
/// that the outcome is `natord_cmp(a, b)`, a function of the two names, and
/// that swapping the names reverses it (the comparison treats its two sides
/// alike, each test on the left mirrored by one on the right).
#[verifier::external_body]
pub fn natural_compare(a: &str, b: &str) -> (r: Ordering)
    ensures
        (r == Ordering::Less) == (natord_cmp(a@, b@) < 0),
        (r == Ordering::Equal) == (natord_cmp(a@, b@) == 0),
        (r == Ordering::Greater) == (natord_cmp(a@, b@) > 0),
        (r == Ordering::Less) == (natord_cmp(b@, a@) > 0),
        (r == Ordering::Equal) == (natord_cmp(b@, a@) == 0),
        (r == Ordering::Greater) == (natord_cmp(b@, a@) < 0),
{
    natord::compare(a, b)
}

/// The natural order of two names.
pub fn natural_order(a: &str, b: &str) -> (r: Order)
    ensures
        r == natural_sign(a@, b@),
        natural_sign(b@, a@) == flip_order(r),
{
    match natural_compare(a, b) {
        Ordering::Less => Order::Less,
        Ordering::Equal => Order::Equal,
        Ordering::Greater => Order::Greater,
    }
}

/// The order with its two sides swapped.
pub open spec fn flip_order(o: Order) -> Order {
    match o {
        Order::Less => Order::Greater,
        Order::Equal => Order::Equal,
        Order::Greater => Order::Less,
    }
}

/// The natural order of two names.
pub open spec fn natural_sign(a: Seq<char>, b: Seq<char>) -> Order {
    sign_order(natord_cmp(a, b))
}

/// The order that the sign of `c` stands for.
pub open spec fn sign_order(c: int) -> Order {
    if c < 0 {
        Order::Less
    } else if c == 0 {
        Order::Equal
    } else {
        Order::Greater
    }
}

/// The std form of an order.
pub fn to_ordering(o: Order) -> (r: Ordering)
    ensures
        (r == Ordering::Less) == (o == Order::Less),
        (r == Ordering::Equal) == (o == Order::Equal),
        (r == Ordering::Greater) == (o == Order::Greater),
{
    match o {
        Order::Less => Ordering::Less,
        Order::Equal => Ordering::Equal,
        Order::Greater => Ordering::Greater,
    }
}

} // verus!
