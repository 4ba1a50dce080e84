//! When two endpoints are the same, and how endpoints are ordered: socket
//! endpoints by their authority, before internal endpoints, which are
//! ordered by the name of their listener.

use vstd::prelude::*;
use crate::load_assignment::{AddressView, EndpointAddressType, LbEndpoint};
use crate::text::chars_of;
use std::cmp::Ordering;

verus! {

/// A character with ASCII capitals made small.
pub open spec fn ascii_lower(c: char) -> char {
    if 'A' <= c && c <= 'Z' {
        ((c as u32) + 32) as char
    } else {
        c
    }
}

/// Whether two texts are equal, ASCII letters compared without case (as
/// `http::uri::Authority` compares).
pub open spec fn same_ignoring_ascii_case(a: Seq<char>, b: Seq<char>) -> bool {
    a.len() == b.len() && forall|i: int| 0 <= i < a.len() ==> ascii_lower(#[trigger] a[i]) == ascii_lower(b[i])
}

/// Whether two addresses are the same endpoint: sockets with the same
/// authority (without case), or internal endpoints with the same listener
/// and endpoint id.
pub open spec fn same_address(a: AddressView, b: AddressView) -> bool {
    match (a, b) {
        (AddressView::Socket(x), AddressView::Socket(y)) => same_ignoring_ascii_case(x, y),
        (AddressView::Internal(l1, id1), AddressView::Internal(l2, id2)) => l1 == l2 && id1 == id2,
        _ => false,
    }
}

/// The order of two texts, character by character (as `str` orders them:
/// the order of UTF-8 bytes is that of the characters): -1, 0 or 1.
pub open spec fn text_order(a: Seq<char>, b: Seq<char>) -> int
    decreases a.len(),
{
    if a.len() == 0 {
        if b.len() == 0 {
            0
        } else {
            -1
        }
    } else if b.len() == 0 {
        1
    } else if a[0] < b[0] {
        -1
    } else if a[0] > b[0] {
        1
    } else {
        text_order(a.drop_first(), b.drop_first())
    }
}

/// The order of two endpoints: -1, 0 or 1.
pub open spec fn endpoint_rank(a: AddressView, b: AddressView) -> int {
    match (a, b) {
        (AddressView::Socket(x), AddressView::Socket(y)) => text_order(x, y),
        (AddressView::Internal(x, _), AddressView::Internal(y, _)) => text_order(x, y),
        (AddressView::Socket(_), AddressView::Internal(_, _)) => -1,
        (AddressView::Internal(_, _), AddressView::Socket(_)) => 1,
    }
}

fn lower(c: char) -> (r: u32)
    ensures
        r == ascii_lower(c) as u32,
{
    let v = c as u32;
    if 65 <= v && v <= 90 {
        v + 32
    } else {
        v
    }
}

fn texts_match_ignoring_case(a: &String, b: &String) -> (r: bool)
    ensures
        r == same_ignoring_ascii_case(a@, b@),
{
    let x = chars_of(a.as_str());
    let y = chars_of(b.as_str());
    if x.len() != y.len() {
        return false;
    }
    let mut i: usize = 0;
    while i < x.len()
        invariant
            i <= x@.len(),
            x@ == a@,
            y@ == b@,
            x@.len() == y@.len(),
            forall|k: int| 0 <= k < i ==> ascii_lower(#[trigger] x@[k]) == ascii_lower(y@[k]),
        decreases x@.len() - i,
    {
        if lower(x[i]) != lower(y[i]) {
            return false;
        }
        i += 1;
    }
    true
}

fn opt_text_eq(a: &Option<String>, b: &Option<String>) -> (r: bool)
    ensures
        r == (crate::load_assignment::opt_view(*a) == crate::load_assignment::opt_view(*b)),
{
    match (a, b) {
        (Some(x), Some(y)) => *x == *y,
        (None, None) => true,
        _ => false,
    }
}

/// Whether two endpoint addresses are the same endpoint.
pub fn same_endpoint_address(a: &EndpointAddressType, b: &EndpointAddressType) -> (r: bool)
    ensures
        r == same_address(a@, b@),
{
    match (a, b) {
        (EndpointAddressType::Socket(x), EndpointAddressType::Socket(y)) => texts_match_ignoring_case(x, y),
        (EndpointAddressType::Internal(x), EndpointAddressType::Internal(y)) => {
            x.server_listener_name == y.server_listener_name && opt_text_eq(&x.endpoint_id, &y.endpoint_id)
        },
        _ => false,
    }
}

fn compare_texts(a: &String, b: &String) -> (r: i8)
    ensures
        r as int == text_order(a@, b@),
{
    let x = chars_of(a.as_str());
    let y = chars_of(b.as_str());
    let mut i: usize = 0;
    assert(x@.subrange(0, x@.len() as int) =~= x@);
    assert(y@.subrange(0, y@.len() as int) =~= y@);
    while i < x.len() && i < y.len()
        invariant
            i <= x@.len(),
            i <= y@.len(),
            x@ == a@,
            y@ == b@,
            text_order(a@, b@) == text_order(x@.subrange(i as int, x@.len() as int), y@.subrange(i as int, y@.len() as int)),
        decreases x@.len() - i,
    {
        let ghost xs = x@.subrange(i as int, x@.len() as int);
        let ghost ys = y@.subrange(i as int, y@.len() as int);
        let cx = x[i];
        let cy = y[i];
        assert(xs[0] == x@[i as int] && ys[0] == y@[i as int]);
        if cx < cy {
            return -1;
        }
        if cx > cy {
            return 1;
        }
        assert(xs.drop_first() =~= x@.subrange(i + 1, x@.len() as int));
        assert(ys.drop_first() =~= y@.subrange(i + 1, y@.len() as int));
        i += 1;
    }
    if i < x.len() {
        1
    } else if i < y.len() {
        -1
    } else {
        0
    }
}

proof fn lemma_text_order_range(a: Seq<char>, b: Seq<char>)
    ensures
        -1 <= text_order(a, b) <= 1,
    decreases a.len(),
{
    if a.len() > 0 && b.len() > 0 {
        lemma_text_order_range(a.drop_first(), b.drop_first());
    }
}

proof fn lemma_rank_range(a: AddressView, b: AddressView)
    ensures
        -1 <= endpoint_rank(a, b) <= 1,
{
    match (a, b) {
        (AddressView::Socket(x), AddressView::Socket(y)) => lemma_text_order_range(x, y),
        (AddressView::Internal(x, _), AddressView::Internal(y, _)) => lemma_text_order_range(x, y),
        _ => {},
    }
}

/// The order of two endpoints, as a number: -1, 0 or 1.
pub fn endpoint_rank_of(a: &LbEndpoint, b: &LbEndpoint) -> (r: i8)
    ensures
        r as int == endpoint_rank(a.address@, b.address@),
{
    match (&a.address, &b.address) {
        (EndpointAddressType::Socket(x), EndpointAddressType::Socket(y)) => compare_texts(x, y),
        (EndpointAddressType::Internal(x), EndpointAddressType::Internal(y)) => compare_texts(
            &x.server_listener_name,
            &y.server_listener_name,
        ),
        (EndpointAddressType::Socket(_), EndpointAddressType::Internal(_)) => -1,
        (EndpointAddressType::Internal(_), EndpointAddressType::Socket(_)) => 1,
    }
}

/// The order of two endpoints.
pub fn endpoint_order(a: &LbEndpoint, b: &LbEndpoint) -> (r: Ordering)
    ensures
        (r == Ordering::Less) == (endpoint_rank(a.address@, b.address@) == -1),
        (r == Ordering::Equal) == (endpoint_rank(a.address@, b.address@) == 0),
        (r == Ordering::Greater) == (endpoint_rank(a.address@, b.address@) == 1),
{
    let k = endpoint_rank_of(a, b);
    proof {
        lemma_rank_range(a.address@, b.address@);
    }
    if k < 0 {
        Ordering::Less
    } else if k == 0 {
        Ordering::Equal
    } else {
        Ordering::Greater
    }
}


/// Endpoints are ordered consistently: swapping two endpoints reverses
/// their order, and only the same text ranks equal.
pub proof fn law_endpoint_order_is_antisymmetric(a: AddressView, b: AddressView)
    ensures
        endpoint_rank(a, b) == -endpoint_rank(b, a),
        (a is Socket && b is Socket) ==> (endpoint_rank(a, b) == 0 <==> a->Socket_0 == b->Socket_0),
    decreases 0nat,
{
    match (a, b) {
        (AddressView::Socket(x), AddressView::Socket(y)) => {
            lemma_text_order_swap(x, y);
            lemma_text_order_zero(x, y);
        },
        (AddressView::Internal(x, _), AddressView::Internal(y, _)) => lemma_text_order_swap(x, y),
        _ => {},
    }
}

proof fn lemma_text_order_swap(a: Seq<char>, b: Seq<char>)
    ensures
        text_order(a, b) == -text_order(b, a),
    decreases a.len(),
{
    if a.len() > 0 && b.len() > 0 {
        lemma_text_order_swap(a.drop_first(), b.drop_first());
    }
}

proof fn lemma_text_order_zero(a: Seq<char>, b: Seq<char>)
    ensures
        text_order(a, b) == 0 <==> a == b,
    decreases a.len(),
{
    if a.len() > 0 && b.len() > 0 {
        lemma_text_order_zero(a.drop_first(), b.drop_first());
        if a[0] == b[0] && a.drop_first() == b.drop_first() {
            assert forall|i: int| 0 <= i < a.len() implies a[i] == b[i] by {
                if i > 0 {
                    assert(a.drop_first()[i - 1] == b.drop_first()[i - 1]);
                }
            }
            assert(a =~= b);
        }
        if a == b {
            assert(a.drop_first() =~= b.drop_first());
        }
    } else if a.len() == 0 && b.len() == 0 {
        assert(a =~= b);
    }
}

/// An endpoint address is the same as itself, and sameness does not depend
/// on the order of the two.
pub proof fn law_same_address_is_symmetric(a: AddressView, b: AddressView)
    ensures
        same_address(a, a),
        same_address(a, b) == same_address(b, a),
{
}
} // verus!
