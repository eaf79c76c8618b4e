//! The inner wire layout of a token: three byte fields joined by the `;`
//! delimiter, which none of the fields may contain.

use vstd::prelude::*;

verus! {

/// The ASCII code of the field delimiter `;`.
pub const SEMI: u8 = 59;

/// A byte sequence free of the delimiter.
pub open spec fn no_semi(s: Seq<u8>) -> bool {
    forall|i: int| 0 <= i < s.len() ==> s[i] != SEMI
}

/// `b` is exactly the three delimiter-free fields `p0`, `p1`, `p2` joined by `;`.
pub open spec fn splits_as(b: Seq<u8>, p0: Seq<u8>, p1: Seq<u8>, p2: Seq<u8>) -> bool {
    &&& b == p0 + seq![SEMI] + p1 + seq![SEMI] + p2
    &&& no_semi(p0)
    &&& no_semi(p1)
    &&& no_semi(p2)
}

/// `b` splits into exactly three fields.
pub open spec fn has_three_fields(b: Seq<u8>) -> bool {
    exists|p0: Seq<u8>, p1: Seq<u8>, p2: Seq<u8>| splits_as(b, p0, p1, p2)
}

/// The first field of such a split (meaningful under `has_three_fields`).
pub open spec fn field0(b: Seq<u8>) -> Seq<u8> {
    (choose|p0: Seq<u8>, p1: Seq<u8>, p2: Seq<u8>| splits_as(b, p0, p1, p2)).0
}

/// The second field of such a split.
pub open spec fn field1(b: Seq<u8>) -> Seq<u8> {
    (choose|p0: Seq<u8>, p1: Seq<u8>, p2: Seq<u8>| splits_as(b, p0, p1, p2)).1
}

/// The third field of such a split.
pub open spec fn field2(b: Seq<u8>) -> Seq<u8> {
    (choose|p0: Seq<u8>, p1: Seq<u8>, p2: Seq<u8>| splits_as(b, p0, p1, p2)).2
}

/// In a three-field split, the delimiter occurs exactly at the two join
/// positions and nowhere else.
pub proof fn lemma_split_semi_positions(b: Seq<u8>, p0: Seq<u8>, p1: Seq<u8>, p2: Seq<u8>)
    requires
        splits_as(b, p0, p1, p2),
    ensures
        b.len() == p0.len() + 1 + p1.len() + 1 + p2.len(),
        b[p0.len() as int] == SEMI,
        b[p0.len() + 1 + p1.len() as int] == SEMI,
        forall|k: int|
            0 <= k < b.len() && b[k] == SEMI ==> k == p0.len() || k == p0.len() + 1 + p1.len(),
{
    let i = p0.len() as int;
    let j = p0.len() + 1 + p1.len();
    assert forall|k: int| 0 <= k < b.len() && b[k] == SEMI implies k == i || k == j by {
        if k < i {
            assert(b[k] == p0[k]);
        } else if i < k < j {
            assert(b[k] == p1[k - i - 1]);
        } else if k > j {
            assert(b[k] == p2[k - j - 1]);
        }
    }
}

/// A byte sequence has at most one decomposition into three fields.
pub proof fn lemma_split_unique(
    b: Seq<u8>,
    p0: Seq<u8>,
    p1: Seq<u8>,
    p2: Seq<u8>,
    q0: Seq<u8>,
    q1: Seq<u8>,
    q2: Seq<u8>,
)
    requires
        splits_as(b, p0, p1, p2),
        splits_as(b, q0, q1, q2),
    ensures
        p0 == q0,
        p1 == q1,
        p2 == q2,
{
    lemma_split_semi_positions(b, p0, p1, p2);
    lemma_split_semi_positions(b, q0, q1, q2);
    assert(p0.len() == q0.len()) by {
        if p0.len() < q0.len() {
            assert(q0[p0.len() as int] == b[p0.len() as int]);
        } else if q0.len() < p0.len() {
            assert(p0[q0.len() as int] == b[q0.len() as int]);
        }
    }
    assert(p1.len() == q1.len()) by {
        let i = p0.len() as int;
        if p1.len() < q1.len() {
            assert(q1[i + 1 + p1.len() - i - 1] == b[i + 1 + p1.len()]);
        } else if q1.len() < p1.len() {
            assert(p1[i + 1 + q1.len() - i - 1] == b[i + 1 + q1.len()]);
        }
    }
    assert forall|k: int| 0 <= k < p0.len() implies p0[k] == q0[k] by {
        assert(b[k] == p0[k]);
        assert(b[k] == q0[k]);
    }
    assert(p0 =~= q0);
    let i = p0.len() as int;
    assert forall|k: int| 0 <= k < p1.len() implies p1[k] == q1[k] by {
        assert(b[i + 1 + k] == p1[k]);
        assert(b[i + 1 + k] == q1[k]);
    }
    assert(p1 =~= q1);
    assert(p2.len() == q2.len());
    let j = i + 1 + p1.len();
    assert forall|k: int| 0 <= k < p2.len() implies p2[k] == q2[k] by {
        assert(b[j + 1 + k] == p2[k]);
        assert(b[j + 1 + k] == q2[k]);
    }
    assert(p2 =~= q2);
}

/// Under `has_three_fields`, any witnessing decomposition is the canonical one.
pub proof fn lemma_fields_are(b: Seq<u8>, p0: Seq<u8>, p1: Seq<u8>, p2: Seq<u8>)
    requires
        splits_as(b, p0, p1, p2),
    ensures
        field0(b) == p0,
        field1(b) == p1,
        field2(b) == p2,
{
    let (c0, c1, c2) = choose|c0: Seq<u8>, c1: Seq<u8>, c2: Seq<u8>| splits_as(b, c0, c1, c2);
    lemma_split_unique(b, c0, c1, c2, p0, p1, p2);
}

/// Copies the byte range `[from, to)` of `v` into a fresh vector.
pub(crate) fn subvec(v: &Vec<u8>, from: usize, to: usize) -> (r: Vec<u8>)
    requires
        from <= to <= v@.len(),
    ensures
        r@ == v@.subrange(from as int, to as int),
{
    let mut r: Vec<u8> = Vec::new();
    let mut i: usize = from;
    while i < to
        invariant
            from <= i <= to <= v@.len(),
            r@ == v@.subrange(from as int, i as int),
        decreases to - i,
    {
        r.push(v[i]);
        i = i + 1;
        proof {
            assert(r@ =~= v@.subrange(from as int, i as int));
        }
    }
    r
}

/// Splits `v` on the `;` delimiter into exactly three fields, or reports
/// that no such decomposition exists.
pub(crate) fn split_fields(v: &Vec<u8>) -> (r: Option<(Vec<u8>, Vec<u8>, Vec<u8>)>)
    ensures
        match r {
            Some(t) => splits_as(v@, t.0@, t.1@, t.2@),
            None => !has_three_fields(v@),
        },
{
    let n = v.len();
    let mut count: usize = 0;
    let mut s1: usize = 0;
    let mut s2: usize = 0;
    let mut s3: usize = 0;
    let mut i: usize = 0;
    while i < n
        invariant
            0 <= i <= n == v@.len(),
            count <= i,
            count == 0 ==> forall|k: int| 0 <= k < i ==> v@[k] != SEMI,
            count >= 1 ==> s1 < i && v@[s1 as int] == SEMI,
            count == 1 ==> forall|k: int| 0 <= k < i && k != s1 ==> v@[k] != SEMI,
            count >= 2 ==> s1 < s2 < i && v@[s2 as int] == SEMI,
            count == 2 ==> forall|k: int| 0 <= k < i && k != s1 && k != s2 ==> v@[k] != SEMI,
            count >= 3 ==> s2 < s3 < i && v@[s3 as int] == SEMI,
        decreases n - i,
    {
        if v[i] == SEMI {
            if count == 0 {
                s1 = i;
            } else if count == 1 {
                s2 = i;
            } else if count == 2 {
                s3 = i;
            }
            count = count + 1;
        }
        i = i + 1;
    }
    if count == 2 {
        let a = subvec(v, 0, s1);
        let b = subvec(v, s1 + 1, s2);
        let c = subvec(v, s2 + 1, n);
        proof {
            assert(v@ =~= a@ + seq![SEMI] + b@ + seq![SEMI] + c@);
        }
        Some((a, b, c))
    } else {
        proof {
            if has_three_fields(v@) {
                let (p0, p1, p2) = choose|p0: Seq<u8>, p1: Seq<u8>, p2: Seq<u8>|
                    splits_as(v@, p0, p1, p2);
                lemma_split_semi_positions(v@, p0, p1, p2);
                let u = p0.len() as int;
                let w = p0.len() + 1 + p1.len() as int;
                if count < 2 {
                    assert(v@[u] == SEMI && v@[w] == SEMI && u != w);
                    assert(false);
                } else {
                    assert(v@[s1 as int] == SEMI && v@[s2 as int] == SEMI && v@[s3 as int] == SEMI);
                    assert(false);
                }
            }
        }
        None
    }
}

} // verus!
