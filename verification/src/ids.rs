//! 32-byte identifiers: peer ids, public keys and content hashes.
use vstd::prelude::*;

verus! {

/// A peer id, a static public key or a content hash.
pub type Id = [u8; 32];

/// The id of zeros, which stands for none.
pub open spec fn zero_id() -> Id {
    vstd::array::spec_array_fill_for_copy_type::<u8, 32>(0)
}

/// The id of zeros.
pub fn no_id() -> (r: Id)
    ensures
        r == zero_id(),
{
    [0u8; 32]
}

/// Strict lexicographic order on byte strings of one length.
pub open spec fn bytes_less(a: Seq<u8>, b: Seq<u8>) -> bool {
    exists|i: int| #[trigger] first_difference(a, b, i) && a[i] < b[i]
}

/// `i` is the first index at which `a` and `b` differ.
pub open spec fn first_difference(a: Seq<u8>, b: Seq<u8>, i: int) -> bool {
    &&& 0 <= i < a.len()
    &&& i < b.len()
    &&& a[i] != b[i]
    &&& forall|j: int| 0 <= j < i ==> a[j] == b[j]
}

/// True iff both ids hold the same bytes.
pub fn same_id(a: &Id, b: &Id) -> (r: bool)
    ensures
        r == (*a == *b),
{
    let mut i: usize = 0;
    while i < 32
        invariant
            i <= 32,
            forall|j: int| 0 <= j < i ==> a[j] == b[j],
        decreases 32 - i,
    {
        if a[i] != b[i] {
            return false;
        }
        i = i + 1;
    }
    assert(*a =~= *b);
    true
}

/// True iff `a` precedes `b` in byte order.
pub fn id_less(a: &Id, b: &Id) -> (r: bool)
    ensures
        r == bytes_less(a@, b@),
{
    let mut i: usize = 0;
    while i < 32
        invariant
            i <= 32,
            forall|j: int| 0 <= j < i ==> a[j] == b[j],
        decreases 32 - i,
    {
        if a[i] != b[i] {
            assert(first_difference(a@, b@, i as int));
            if a[i] < b[i] {
                return true;
            }
            assert forall|k: int| #[trigger] first_difference(a@, b@, k) implies k == i by {
                if k < i {
                    assert(a[k] == b[k]);
                }
            }
            return false;
        }
        i = i + 1;
    }
    assert forall|k: int| !#[trigger] first_difference(a@, b@, k) by {
        if 0 <= k < 32 {
            assert(a[k] == b[k]);
        }
    }
    false
}

/// A copy of a list of ids.
pub fn copy_ids(ids: &Vec<Id>) -> (r: Vec<Id>)
    ensures
        r@ == ids@,
{
    let mut r: Vec<Id> = Vec::new();
    let mut i: usize = 0;
    while i < ids.len()
        invariant
            i <= ids@.len(),
            r@ == ids@.subrange(0, i as int),
        decreases ids@.len() - i,
    {
        r.push(ids[i]);
        i = i + 1;
        assert(r@ =~= ids@.subrange(0, i as int));
    }
    assert(r@ =~= ids@);
    r
}

/// Of two different ids exactly one precedes the other.
pub proof fn id_order_is_total(a: Id, b: Id)
    requires
        a != b,
    ensures
        bytes_less(a@, b@) != bytes_less(b@, a@),
{
    assert(!(a =~= b));
    let i = choose|i: int| 0 <= i < 32 && a[i] != b[i];
    let k = least_difference(a@, b@, i);
    assert(first_difference(a@, b@, k));
    assert(first_difference(b@, a@, k));
    assert forall|m: int| #[trigger] first_difference(a@, b@, m) implies m == k by {}
    assert forall|m: int| #[trigger] first_difference(b@, a@, m) implies m == k by {}
}

/// The byte order is transitive.
pub proof fn id_order_is_transitive(a: Id, b: Id, c: Id)
    requires
        bytes_less(a@, b@),
        bytes_less(b@, c@),
    ensures
        bytes_less(a@, c@),
{
    let i = choose|i: int| #[trigger] first_difference(a@, b@, i) && a@[i] < b@[i];
    let j = choose|j: int| #[trigger] first_difference(b@, c@, j) && b@[j] < c@[j];
    let k = if i <= j { i } else { j };
    assert(first_difference(a@, c@, k) && a@[k] < c@[k]);
}

/// No id precedes itself.
pub proof fn id_order_is_strict(a: Id)
    ensures
        !bytes_less(a@, a@),
{
}

proof fn least_difference(a: Seq<u8>, b: Seq<u8>, i: int) -> (k: int)
    requires
        0 <= i < a.len(),
        i < b.len(),
        a[i] != b[i],
    ensures
        first_difference(a, b, k),
    decreases i,
{
    if exists|j: int| 0 <= j < i && a[j] != b[j] {
        let j = choose|j: int| 0 <= j < i && a[j] != b[j];
        least_difference(a, b, j)
    } else {
        i
    }
}

} // verus!
