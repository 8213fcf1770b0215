//! Ordered sets of references, the values that the reference operators of a
//! formula combine.

use vstd::prelude::*;

use crate::references::precedes;
use crate::references::Reference;

verus! {

/// `s` lists references in strictly ascending order, so none occurs twice.
pub open spec fn strictly_ascending(s: Seq<Reference>) -> bool {
    forall|i: int, j: int| 0 <= i < j < s.len() ==> precedes(#[trigger] s[i], #[trigger] s[j])
}

/// The ascending listing of the references that occur in `a`, in `b` or in
/// both, for ascending `a` and `b`.
pub open spec fn union_of(a: Seq<Reference>, b: Seq<Reference>) -> Seq<Reference>
    decreases a.len() + b.len(),
{
    if a.len() == 0 {
        b
    } else if b.len() == 0 {
        a
    } else if a[0] == b[0] {
        seq![a[0]] + union_of(a.drop_first(), b.drop_first())
    } else if precedes(a[0], b[0]) {
        seq![a[0]] + union_of(a.drop_first(), b)
    } else {
        seq![b[0]] + union_of(a, b.drop_first())
    }
}

/// The ascending listing of the references that occur in both `a` and `b`,
/// for ascending `a` and `b`.
pub open spec fn common_of(a: Seq<Reference>, b: Seq<Reference>) -> Seq<Reference>
    decreases a.len() + b.len(),
{
    if a.len() == 0 || b.len() == 0 {
        Seq::empty()
    } else if a[0] == b[0] {
        seq![a[0]] + common_of(a.drop_first(), b.drop_first())
    } else if precedes(a[0], b[0]) {
        common_of(a.drop_first(), b)
    } else {
        common_of(a, b.drop_first())
    }
}

/// The ascending listing `s` with `r` put in its place, unless it is there
/// already.
pub open spec fn inserted(s: Seq<Reference>, r: Reference) -> Seq<Reference> {
    union_of(s, seq![r])
}

/// The ascending listing of the references that occur in `listing`, which may
/// be in any order and hold repeats.
pub open spec fn ascending_of(listing: Seq<Reference>) -> Seq<Reference>
    decreases listing.len(),
{
    if listing.len() == 0 {
        Seq::empty()
    } else {
        inserted(ascending_of(listing.drop_last()), listing.last())
    }
}

/// The order of references is a strict total order.
pub proof fn lemma_order(a: Reference, b: Reference, c: Reference)
    ensures
        !precedes(a, a),
        precedes(a, b) && precedes(b, c) ==> precedes(a, c),
        a == b || precedes(a, b) || precedes(b, a),
        !(precedes(a, b) && precedes(b, a)),
{
}

/// The union of two ascending listings is ascending and holds exactly the
/// references of both.
pub proof fn lemma_union_of(a: Seq<Reference>, b: Seq<Reference>)
    requires
        strictly_ascending(a),
        strictly_ascending(b),
    ensures
        strictly_ascending(union_of(a, b)),
        forall|r: Reference|
            #[trigger] union_of(a, b).contains(r) <==> a.contains(r) || b.contains(r),
    decreases a.len() + b.len(),
{
    let u = union_of(a, b);
    if a.len() == 0 || b.len() == 0 {
    } else {
        let (head, ra, rb) = if a[0] == b[0] {
            (a[0], a.drop_first(), b.drop_first())
        } else if precedes(a[0], b[0]) {
            (a[0], a.drop_first(), b)
        } else {
            (b[0], a, b.drop_first())
        };
        let rest = union_of(ra, rb);
        assert(u == seq![head] + rest);
        lemma_union_of(ra, rb);
        assert forall|r: Reference| #[trigger] u.contains(r) <==> a.contains(r) || b.contains(
            r,
        ) by {
            if u.contains(r) {
                let k = choose|k: int| 0 <= k < u.len() && u[k] == r;
                if k > 0 {
                    assert(rest[k - 1] == r);
                    assert(rest.contains(r));
                    if ra.contains(r) {
                        let m = choose|m: int| 0 <= m < ra.len() && ra[m] == r;
                        assert(a.contains(r)) by {
                            if ra == a {
                            } else {
                                assert(a[m + 1] == r);
                            }
                        }
                    }
                    if rb.contains(r) {
                        let m = choose|m: int| 0 <= m < rb.len() && rb[m] == r;
                        assert(b.contains(r)) by {
                            if rb == b {
                            } else {
                                assert(b[m + 1] == r);
                            }
                        }
                    }
                } else {
                    assert(r == head);
                    assert(a[0] == head || b[0] == head);
                }
            }
            if a.contains(r) || b.contains(r) {
                if r == head {
                    assert(u[0] == r);
                } else {
                    if a.contains(r) {
                        let m = choose|m: int| 0 <= m < a.len() && a[m] == r;
                        if ra == a {
                        } else {
                            assert(m > 0);
                            assert(ra[m - 1] == r);
                        }
                        assert(ra.contains(r));
                    } else {
                        let m = choose|m: int| 0 <= m < b.len() && b[m] == r;
                        if rb == b {
                        } else {
                            assert(m > 0);
                            assert(rb[m - 1] == r);
                        }
                        assert(rb.contains(r));
                    }
                    assert(rest.contains(r));
                    let k = choose|k: int| 0 <= k < rest.len() && rest[k] == r;
                    assert(u[k + 1] == r);
                }
            }
        }
        assert forall|i: int, j: int| 0 <= i < j < u.len() implies precedes(
            #[trigger] u[i],
            #[trigger] u[j],
        ) by {
            if i > 0 {
                assert(u[i] == rest[i - 1] && u[j] == rest[j - 1]);
            } else {
                let r = u[j];
                assert(r == rest[j - 1]);
                assert(rest.contains(r));
                assert(ra.contains(r) || rb.contains(r));
                if ra.contains(r) {
                    let m = choose|m: int| 0 <= m < ra.len() && ra[m] == r;
                    if ra == a {
                        assert(precedes(b[0], a[0]));
                        if m > 0 {
                            assert(precedes(a[0], a[m]));
                        }
                    } else {
                        assert(a[m + 1] == r);
                        assert(precedes(a[0], a[m + 1]));
                    }
                } else {
                    let m = choose|m: int| 0 <= m < rb.len() && rb[m] == r;
                    if rb == b {
                        assert(precedes(a[0], b[0]));
                        if m > 0 {
                            assert(precedes(b[0], b[m]));
                        }
                    } else {
                        assert(b[m + 1] == r);
                        assert(precedes(b[0], b[m + 1]));
                    }
                }
            }
        }
    }
}

/// The intersection of two ascending listings is ascending and holds exactly
/// the references that both hold.
pub proof fn lemma_common_of(a: Seq<Reference>, b: Seq<Reference>)
    requires
        strictly_ascending(a),
        strictly_ascending(b),
    ensures
        strictly_ascending(common_of(a, b)),
        forall|r: Reference|
            #[trigger] common_of(a, b).contains(r) <==> a.contains(r) && b.contains(r),
    decreases a.len() + b.len(),
{
    let u = common_of(a, b);
    if a.len() == 0 || b.len() == 0 {
    } else if a[0] == b[0] {
        let ra = a.drop_first();
        let rb = b.drop_first();
        let rest = common_of(ra, rb);
        lemma_common_of(ra, rb);
        assert(u == seq![a[0]] + rest);
        assert forall|r: Reference| #[trigger] u.contains(r) <==> a.contains(r) && b.contains(
            r,
        ) by {
            if u.contains(r) {
                let k = choose|k: int| 0 <= k < u.len() && u[k] == r;
                if k > 0 {
                    assert(rest[k - 1] == r);
                    assert(rest.contains(r));
                    let m = choose|m: int| 0 <= m < ra.len() && ra[m] == r;
                    assert(a[m + 1] == r);
                    let n = choose|n: int| 0 <= n < rb.len() && rb[n] == r;
                    assert(b[n + 1] == r);
                } else {
                    assert(a[0] == r && b[0] == r);
                }
            }
            if a.contains(r) && b.contains(r) {
                if r == a[0] {
                    assert(u[0] == r);
                } else {
                    let m = choose|m: int| 0 <= m < a.len() && a[m] == r;
                    assert(ra[m - 1] == r);
                    let n = choose|n: int| 0 <= n < b.len() && b[n] == r;
                    assert(rb[n - 1] == r);
                    assert(rest.contains(r));
                    let k = choose|k: int| 0 <= k < rest.len() && rest[k] == r;
                    assert(u[k + 1] == r);
                }
            }
        }
        assert forall|i: int, j: int| 0 <= i < j < u.len() implies precedes(
            #[trigger] u[i],
            #[trigger] u[j],
        ) by {
            if i > 0 {
                assert(u[i] == rest[i - 1] && u[j] == rest[j - 1]);
            } else {
                let r = u[j];
                assert(r == rest[j - 1]);
                assert(rest.contains(r));
                let m = choose|m: int| 0 <= m < ra.len() && ra[m] == r;
                assert(a[m + 1] == r);
                assert(precedes(a[0], a[m + 1]));
            }
        }
    } else {
        let (ra, rb) = if precedes(a[0], b[0]) {
            (a.drop_first(), b)
        } else {
            (a, b.drop_first())
        };
        lemma_common_of(ra, rb);
        assert(u == common_of(ra, rb));
        assert forall|r: Reference| #[trigger] u.contains(r) <==> a.contains(r) && b.contains(
            r,
        ) by {
            if u.contains(r) {
                if ra != a {
                    let m = choose|m: int| 0 <= m < ra.len() && ra[m] == r;
                    assert(a[m + 1] == r);
                }
                if rb != b {
                    let n = choose|n: int| 0 <= n < rb.len() && rb[n] == r;
                    assert(b[n + 1] == r);
                }
            }
            if a.contains(r) && b.contains(r) {
                let m = choose|m: int| 0 <= m < a.len() && a[m] == r;
                let n = choose|n: int| 0 <= n < b.len() && b[n] == r;
                if precedes(a[0], b[0]) {
                    if m == 0 {
                        if n > 0 {
                            assert(precedes(b[0], b[n]));
                        }
                        assert(false);
                    }
                    assert(ra[m - 1] == r);
                } else {
                    if n == 0 {
                        if m > 0 {
                            assert(precedes(a[0], a[m]));
                        }
                        assert(false);
                    }
                    assert(rb[n - 1] == r);
                }
            }
        }
    }
}

/// The ascending listing of any listing is ascending and holds exactly its
/// references.
pub proof fn lemma_ascending_of(listing: Seq<Reference>)
    ensures
        strictly_ascending(ascending_of(listing)),
        forall|r: Reference| #[trigger] ascending_of(listing).contains(r) <==> listing.contains(r),
    decreases listing.len(),
{
    if listing.len() > 0 {
        let front = listing.drop_last();
        let last = listing.last();
        lemma_ascending_of(front);
        lemma_union_of(ascending_of(front), seq![last]);
        assert forall|r: Reference| #[trigger]
            ascending_of(listing).contains(r) <==> listing.contains(r) by {
            if ascending_of(listing).contains(r) {
                if ascending_of(front).contains(r) {
                    let m = choose|m: int| 0 <= m < front.len() && front[m] == r;
                    assert(listing[m] == r);
                } else {
                    assert(seq![last].contains(r));
                    assert(seq![last][0] == last);
                    assert(listing[listing.len() - 1] == r);
                }
            }
            if listing.contains(r) {
                let m = choose|m: int| 0 <= m < listing.len() && listing[m] == r;
                if m < front.len() {
                    assert(front[m] == r);
                    assert(front.contains(r));
                } else {
                    assert(seq![last][0] == r);
                    assert(seq![last].contains(r));
                }
            }
        }
    }
}

/// An ascending listing is determined by the references it holds.
pub proof fn lemma_ascending_unique(a: Seq<Reference>, b: Seq<Reference>)
    requires
        strictly_ascending(a),
        strictly_ascending(b),
        forall|r: Reference| a.contains(r) <==> b.contains(r),
    ensures
        a == b,
    decreases a.len(),
{
    if a.len() == 0 {
        if b.len() > 0 {
            assert(b.contains(b[0]));
        }
        assert(a =~= b);
    } else {
        assert(a.contains(a[0]));
        let at = choose|k: int| 0 <= k < b.len() && b[k] == a[0];
        assert(b.contains(b[0]));
        let back = choose|k: int| 0 <= k < a.len() && a[k] == b[0];
        if at > 0 {
            assert(precedes(b[0], b[at]));
            if back > 0 {
                assert(precedes(a[0], a[back]));
            }
        }
        assert(a[0] == b[0]);
        let ra = a.drop_first();
        let rb = b.drop_first();
        assert forall|r: Reference| ra.contains(r) <==> rb.contains(r) by {
            if ra.contains(r) {
                let k = choose|k: int| 0 <= k < ra.len() && ra[k] == r;
                assert(a[k + 1] == r);
                assert(precedes(a[0], a[k + 1]));
                assert(a.contains(r));
                let m = choose|m: int| 0 <= m < b.len() && b[m] == r;
                assert(m > 0);
                assert(rb[m - 1] == r);
            }
            if rb.contains(r) {
                let k = choose|k: int| 0 <= k < rb.len() && rb[k] == r;
                assert(b[k + 1] == r);
                assert(precedes(b[0], b[k + 1]));
                assert(b.contains(r));
                let m = choose|m: int| 0 <= m < a.len() && a[m] == r;
                assert(m > 0);
                assert(ra[m - 1] == r);
            }
        }
        assert forall|i: int, j: int| 0 <= i < j < ra.len() implies precedes(
            #[trigger] ra[i],
            #[trigger] ra[j],
        ) by {
            assert(ra[i] == a[i + 1] && ra[j] == a[j + 1]);
        }
        assert forall|i: int, j: int| 0 <= i < j < rb.len() implies precedes(
            #[trigger] rb[i],
            #[trigger] rb[j],
        ) by {
            assert(rb[i] == b[i + 1] && rb[j] == b[j + 1]);
        }
        lemma_ascending_unique(ra, rb);
        assert(a =~= seq![a[0]] + ra);
        assert(b =~= seq![b[0]] + rb);
    }
}

/// An ordered set of references.
#[derive(Debug)]
pub struct ReferenceSet {
    items: Vec<Reference>,
}

impl View for ReferenceSet {
    type V = Seq<Reference>;

    /// The references of the set, in ascending order.
    closed spec fn view(&self) -> Seq<Reference> {
        self.items@
    }
}

impl Clone for ReferenceSet {
    fn clone(&self) -> (copy: Self)
        ensures
            copy@ == self@,
    {
        proof {
            use_type_invariant(self);
        }
        ReferenceSet { items: self.items.clone() }
    }
}

impl Default for ReferenceSet {
    fn default() -> (set: Self)
        ensures
            set@ == Seq::<Reference>::empty(),
    {
        ReferenceSet::new()
    }
}

impl ReferenceSet {
    #[verifier::type_invariant]
    closed spec fn ascending(self) -> bool {
        strictly_ascending(self.items@)
    }

    /// The empty set.
    pub fn new() -> (set: ReferenceSet)
        ensures
            set@ == Seq::<Reference>::empty(),
    {
        ReferenceSet { items: Vec::new() }
    }

    /// The set that holds `r` alone.
    pub fn single(r: Reference) -> (set: ReferenceSet)
        ensures
            set@ == seq![r],
    {
        let mut items: Vec<Reference> = Vec::new();
        items.push(r);
        assert(items@ =~= seq![r]);
        ReferenceSet { items }
    }

    /// The set of the references of `listing[from..to]`.
    fn from_part(listing: &Vec<Reference>, from: usize, to: usize) -> (set: ReferenceSet)
        requires
            from <= to <= listing.len(),
        ensures
            strictly_ascending(set@),
            forall|r: Reference|
                set@.contains(r) <==> listing@.subrange(from as int, to as int).contains(r),
        decreases to - from,
    {
        let ghost part = listing@.subrange(from as int, to as int);
        if to - from == 0 {
            let set = ReferenceSet::new();
            proof {
                assert forall|r: Reference| set@.contains(r) <==> part.contains(r) by {
                    if part.contains(r) {
                        let k = choose|k: int| 0 <= k < part.len() && part[k] == r;
                    }
                    if set@.contains(r) {
                        let k = choose|k: int| 0 <= k < set@.len() && set@[k] == r;
                    }
                }
            }
            set
        } else if to - from == 1 {
            let set = ReferenceSet::single(listing[from]);
            proof {
                assert(part =~= seq![listing@[from as int]]);
            }
            set
        } else {
            let middle = from + (to - from) / 2;
            let low = ReferenceSet::from_part(listing, from, middle);
            let high = ReferenceSet::from_part(listing, middle, to);
            let set = low.union(&high);
            proof {
                let left = listing@.subrange(from as int, middle as int);
                let right = listing@.subrange(middle as int, to as int);
                lemma_union_of(low@, high@);
                assert forall|r: Reference| set@.contains(r) <==> part.contains(r) by {
                    if part.contains(r) {
                        let k = choose|k: int| 0 <= k < part.len() && part[k] == r;
                        if k < middle - from {
                            assert(left[k] == r);
                            assert(left.contains(r));
                        } else {
                            assert(right[k - (middle - from)] == r);
                            assert(right.contains(r));
                        }
                    }
                    if left.contains(r) {
                        let k = choose|k: int| 0 <= k < left.len() && left[k] == r;
                        assert(part[k] == r);
                    }
                    if right.contains(r) {
                        let k = choose|k: int| 0 <= k < right.len() && right[k] == r;
                        assert(part[k + (middle - from)] == r);
                    }
                }
            }
            set
        }
    }

    /// The set of the references that `listing` holds, in whatever order and
    /// however often.
    pub fn from_vec(listing: &Vec<Reference>) -> (set: ReferenceSet)
        ensures
            set@ == ascending_of(listing@),
            strictly_ascending(set@),
            forall|r: Reference| set@.contains(r) <==> listing@.contains(r),
    {
        let set = ReferenceSet::from_part(listing, 0, listing.len());
        proof {
            assert(listing@.subrange(0, listing.len() as int) == listing@);
            lemma_ascending_of(listing@);
            lemma_ascending_unique(set@, ascending_of(listing@));
        }
        set
    }

    /// How many references the set holds.
    pub fn len(&self) -> (n: usize)
        ensures
            n == self@.len(),
    {
        self.items.len()
    }

    /// The reference at position `i` of the ascending order.
    pub fn get(&self, i: usize) -> (r: Reference)
        requires
            i < self@.len(),
        ensures
            r == self@[i as int],
    {
        self.items[i]
    }

    /// The least reference of the set, if it has any.
    pub fn first(&self) -> (r: Option<Reference>)
        ensures
            r == (if self@.len() > 0 {
                Some(self@[0])
            } else {
                None
            }),
    {
        if self.items.len() > 0 {
            Some(self.items[0])
        } else {
            None
        }
    }

    /// The references of the set, in ascending order.
    pub fn to_vec(&self) -> (listing: Vec<Reference>)
        ensures
            listing@ == self@,
            strictly_ascending(listing@),
    {
        proof {
            use_type_invariant(self);
        }
        self.items.clone()
    }

    /// Whether the set holds `r`.
    pub fn contains(&self, r: &Reference) -> (found: bool)
        ensures
            found == self@.contains(*r),
    {
        let mut i: usize = 0;
        while i < self.items.len()
            invariant
                i <= self.items.len(),
                forall|k: int| 0 <= k < i ==> self.items@[k] != *r,
            decreases self.items.len() - i,
        {
            if self.items[i] == *r {
                return true;
            }
            i += 1;
        }
        false
    }

    /// Puts `r` into the set.
    pub fn insert(&mut self, r: Reference)
        ensures
            final(self)@ == inserted(old(self)@, r),
    {
        let other = ReferenceSet::single(r);
        let merged = self.union(&other);
        *self = merged;
    }

    /// The set of the references that `self`, `other` or both hold.
    pub fn union(&self, other: &ReferenceSet) -> (out: ReferenceSet)
        ensures
            out@ == union_of(self@, other@),
    {
        proof {
            use_type_invariant(self);
            use_type_invariant(other);
            lemma_union_of(self@, other@);
        }
        let a = &self.items;
        let b = &other.items;
        let mut items: Vec<Reference> = Vec::new();
        let mut i: usize = 0;
        let mut j: usize = 0;
        proof {
            assert(a@.skip(0) == a@ && b@.skip(0) == b@);
            assert(items@ + union_of(a@, b@) =~= union_of(a@, b@));
        }
        while i < a.len() || j < b.len()
            invariant
                i <= a.len(),
                j <= b.len(),
                items@ + union_of(a@.skip(i as int), b@.skip(j as int)) == union_of(a@, b@),
            decreases (a.len() - i) + (b.len() - j),
        {
            let ghost ra = a@.skip(i as int);
            let ghost rb = b@.skip(j as int);
            let ghost before = items@;
            if i == a.len() {
                items.push(b[j]);
                j += 1;
                proof {
                    let rest = b@.skip(j as int);
                    assert(rb == seq![rb[0]] + rest);
                    assert(union_of(ra, rest) == rest);
                    assert(items@ + rest =~= before + rb);
                }
            } else if j == b.len() {
                items.push(a[i]);
                i += 1;
                proof {
                    let rest = a@.skip(i as int);
                    assert(ra == seq![ra[0]] + rest);
                    assert(union_of(rest, rb) == rest) by {
                        if rest.len() > 0 {
                        }
                    }
                    assert(items@ + rest =~= before + ra);
                }
            } else if a[i] == b[j] {
                items.push(a[i]);
                i += 1;
                j += 1;
                proof {
                    assert(ra.drop_first() == a@.skip(i as int));
                    assert(rb.drop_first() == b@.skip(j as int));
                    assert(items@ + union_of(a@.skip(i as int), b@.skip(j as int)) =~= before + (
                    seq![ra[0]] + union_of(ra.drop_first(), rb.drop_first())));
                }
            } else if a[i].comes_before(&b[j]) {
                items.push(a[i]);
                i += 1;
                proof {
                    assert(ra.drop_first() == a@.skip(i as int));
                    assert(items@ + union_of(a@.skip(i as int), rb) =~= before + (seq![ra[0]]
                        + union_of(ra.drop_first(), rb)));
                }
            } else {
                items.push(b[j]);
                j += 1;
                proof {
                    assert(rb.drop_first() == b@.skip(j as int));
                    assert(items@ + union_of(ra, b@.skip(j as int)) =~= before + (seq![rb[0]]
                        + union_of(ra, rb.drop_first())));
                }
            }
        }
        proof {
            assert(union_of(a@.skip(i as int), b@.skip(j as int)) =~= Seq::<Reference>::empty());
            assert(items@ + Seq::<Reference>::empty() =~= items@);
        }
        ReferenceSet { items }
    }

    /// The set of the references that both `self` and `other` hold.
    pub fn intersection(&self, other: &ReferenceSet) -> (out: ReferenceSet)
        ensures
            out@ == common_of(self@, other@),
    {
        proof {
            use_type_invariant(self);
            use_type_invariant(other);
            lemma_common_of(self@, other@);
        }
        let a = &self.items;
        let b = &other.items;
        let mut items: Vec<Reference> = Vec::new();
        let mut i: usize = 0;
        let mut j: usize = 0;
        proof {
            assert(a@.skip(0) == a@ && b@.skip(0) == b@);
            assert(items@ + common_of(a@, b@) =~= common_of(a@, b@));
        }
        while i < a.len() && j < b.len()
            invariant
                i <= a.len(),
                j <= b.len(),
                items@ + common_of(a@.skip(i as int), b@.skip(j as int)) == common_of(a@, b@),
            decreases (a.len() - i) + (b.len() - j),
        {
            let ghost ra = a@.skip(i as int);
            let ghost rb = b@.skip(j as int);
            let ghost before = items@;
            if a[i] == b[j] {
                items.push(a[i]);
                i += 1;
                j += 1;
                proof {
                    assert(ra.drop_first() == a@.skip(i as int));
                    assert(rb.drop_first() == b@.skip(j as int));
                    assert(items@ + common_of(a@.skip(i as int), b@.skip(j as int)) =~= before + (
                    seq![ra[0]] + common_of(ra.drop_first(), rb.drop_first())));
                }
            } else if a[i].comes_before(&b[j]) {
                i += 1;
                proof {
                    assert(ra.drop_first() == a@.skip(i as int));
                }
            } else {
                j += 1;
                proof {
                    assert(rb.drop_first() == b@.skip(j as int));
                }
            }
        }
        proof {
            assert(common_of(a@.skip(i as int), b@.skip(j as int)) =~= Seq::<Reference>::empty());
            assert(items@ + Seq::<Reference>::empty() =~= items@);
        }
        ReferenceSet { items }
    }
}

} // verus!
