use vstd::prelude::*;
use vstd::utf8::encode_utf8;
use crate::models::OccurrenceDTO;

verus! {

/// Lexicographic order of byte strings from position `i` on: `a` comes no
/// later than `b`.
pub open spec fn bytes_le_from(a: Seq<u8>, b: Seq<u8>, i: int) -> bool
    decreases a.len() - i,
{
    if i >= a.len() {
        true
    } else if i >= b.len() {
        false
    } else if a[i] < b[i] {
        true
    } else if a[i] > b[i] {
        false
    } else {
        bytes_le_from(a, b, i + 1)
    }
}

/// Lexicographic order of byte strings, the order of `str`'s comparison.
pub open spec fn bytes_le(a: Seq<u8>, b: Seq<u8>) -> bool {
    bytes_le_from(a, b, 0)
}

/// The UTF-8 bytes of an occurrence's name.
pub open spec fn name_bytes(o: OccurrenceDTO) -> Seq<u8> {
    encode_utf8(o.name@)
}

/// `a` comes no later than `b`: by date, and by name within a date.
pub open spec fn occurrence_le(a: OccurrenceDTO, b: OccurrenceDTO) -> bool {
    a.date.day < b.date.day || (a.date.day == b.date.day && bytes_le(name_bytes(a), name_bytes(b)))
}

/// Each occurrence of `s` comes no later than the next.
pub open spec fn is_ordered(s: Seq<OccurrenceDTO>) -> bool {
    forall|i: int| 0 <= i < s.len() - 1 ==> #[trigger] occurrence_le(s[i], s[i + 1])
}

/// `x` placed into `s` after every element that comes no later than it, counting
/// from the back: behind the last such element.
pub open spec fn insert_ordered(s: Seq<OccurrenceDTO>, x: OccurrenceDTO) -> Seq<OccurrenceDTO>
    decreases s.len(),
{
    if s.len() == 0 {
        seq![x]
    } else if occurrence_le(s.last(), x) {
        s.push(x)
    } else {
        insert_ordered(s.drop_last(), x).push(s.last())
    }
}

/// `s` sorted by date and name; occurrences that compare equal keep their order.
pub open spec fn sort_occurrences(s: Seq<OccurrenceDTO>) -> Seq<OccurrenceDTO>
    decreases s.len(),
{
    if s.len() == 0 {
        Seq::empty()
    } else {
        insert_ordered(sort_occurrences(s.drop_last()), s.last())
    }
}

/// Whether occurrence `a` comes no later than `b` by date, then name.
pub fn occurrence_precedes(a: &OccurrenceDTO, b: &OccurrenceDTO) -> (r: bool)
    ensures
        r == occurrence_le(*a, *b),
{
    if a.date.day != b.date.day {
        return a.date.day < b.date.day;
    }
    let x = a.name.as_str().as_bytes();
    let y = b.name.as_str().as_bytes();
    let mut i: usize = 0;
    while i < x.len() && i < y.len()
        invariant
            a.date.day == b.date.day,
            x@ == name_bytes(*a),
            y@ == name_bytes(*b),
            i <= x@.len(),
            i <= y@.len(),
            bytes_le_from(x@, y@, 0) == bytes_le_from(x@, y@, i as int),
        decreases x@.len() - i,
    {
        let (p, q) = (x[i], y[i]);
        if p != q {
            assert(bytes_le_from(x@, y@, i as int) == (p < q));
            return p < q;
        }
        i = i + 1;
    }
    x.len() <= y.len()
}

proof fn lemma_insert_at(s: Seq<OccurrenceDTO>, x: OccurrenceDTO, j: int)
    requires
        0 <= j <= s.len(),
        j == 0 || occurrence_le(s[j - 1], x),
        forall|k: int| j <= k < s.len() ==> !occurrence_le(#[trigger] s[k], x),
    ensures
        insert_ordered(s, x) == s.insert(j, x),
    decreases s.len(),
{
    if s.len() == 0 {
        assert(s.insert(j, x) =~= seq![x]);
    } else if j == s.len() {
        assert(s.insert(j, x) =~= s.push(x));
    } else {
        let t = s.drop_last();
        lemma_insert_at(t, x, j);
        assert(s.insert(j, x) =~= t.insert(j, x).push(s.last()));
    }
}

/// Sorts occurrences by date, then by name; equal ones keep their order.
pub fn sort_by_date_and_name(v: Vec<OccurrenceDTO>) -> (r: Vec<OccurrenceDTO>)
    ensures
        r@ == sort_occurrences(v@),
{
    let mut src = v;
    let mut rest: Vec<OccurrenceDTO> = Vec::new();
    // take the elements from the back, then feed them in the order they were given
    while src.len() > 0
        invariant
            src@ + rest@.reverse() == v@,
        decreases src@.len(),
    {
        let x = src.pop().unwrap();
        rest.push(x);
        proof {
            assert(src@ + rest@.reverse() =~= v@);
        }
    }
    let mut out: Vec<OccurrenceDTO> = Vec::new();
    let ghost n = v@.len();
    while rest.len() > 0
        invariant
            rest@.len() <= n,
            v@ == rest@.reverse().subrange(0, 0) + v@,
            v@.take(n - rest@.len()) + rest@.reverse() == v@,
            out@ == sort_occurrences(v@.take(n - rest@.len())),
            n == v@.len(),
        decreases rest@.len(),
    {
        let x = rest.pop().unwrap();
        let ghost done = n - rest@.len() - 1;
        proof {
            assert(v@.take(done + 1).drop_last() =~= v@.take(done));
            assert(v@[done] == x);
        }
        let mut j: usize = out.len();
        while j > 0 && !occurrence_precedes(&out[j - 1], &x)
            invariant
                j <= out@.len(),
                forall|k: int| j <= k < out@.len() ==> !occurrence_le(#[trigger] out@[k], x),
            decreases j,
        {
            j = j - 1;
        }
        proof {
            lemma_insert_at(out@, x, j as int);
        }
        out.insert(j, x);
    }
    assert(v@.take(n as int) =~= v@);
    out
}

} // verus!

verus! {

proof fn lemma_bytes_le_total(a: Seq<u8>, b: Seq<u8>, i: int)
    requires
        0 <= i,
    ensures
        bytes_le_from(a, b, i) || bytes_le_from(b, a, i),
    decreases a.len() - i,
{
    if i < a.len() && i < b.len() && a[i] == b[i] {
        lemma_bytes_le_total(a, b, i + 1);
    }
}

proof fn lemma_bytes_le_transitive(a: Seq<u8>, b: Seq<u8>, c: Seq<u8>, i: int)
    requires
        0 <= i,
        bytes_le_from(a, b, i),
        bytes_le_from(b, c, i),
    ensures
        bytes_le_from(a, c, i),
    decreases a.len() - i,
{
    if i < a.len() && i < b.len() && i < c.len() && a[i] == b[i] && b[i] == c[i] {
        lemma_bytes_le_transitive(a, b, c, i + 1);
    }
}

proof fn lemma_occurrence_le_total(a: OccurrenceDTO, b: OccurrenceDTO)
    ensures
        occurrence_le(a, b) || occurrence_le(b, a),
{
    lemma_bytes_le_total(name_bytes(a), name_bytes(b), 0);
}

proof fn lemma_occurrence_le_transitive(a: OccurrenceDTO, b: OccurrenceDTO, c: OccurrenceDTO)
    requires
        occurrence_le(a, b),
        occurrence_le(b, c),
    ensures
        occurrence_le(a, c),
{
    if a.date.day == b.date.day && b.date.day == c.date.day {
        lemma_bytes_le_transitive(name_bytes(a), name_bytes(b), name_bytes(c), 0);
    }
}

proof fn lemma_insert_ordered(s: Seq<OccurrenceDTO>, x: OccurrenceDTO)
    requires
        is_ordered(s),
    ensures
        is_ordered(insert_ordered(s, x)),
        insert_ordered(s, x).len() == s.len() + 1,
        insert_ordered(s, x).last() == x || (s.len() > 0 && insert_ordered(s, x).last()
            == s.last()),
        insert_ordered(s, x).to_multiset() == s.to_multiset().insert(x),
    decreases s.len(),
{
    broadcast use vstd::seq_lib::to_multiset_build;
    broadcast use vstd::multiset::group_multiset_axioms;

    if s.len() == 0 {
        assert(seq![x] =~= Seq::<OccurrenceDTO>::empty().push(x));
        assert(s =~= Seq::<OccurrenceDTO>::empty());
        assert(Seq::<OccurrenceDTO>::empty().push(x).to_multiset() =~= s.to_multiset().insert(x));
    } else if occurrence_le(s.last(), x) {
        assert(s.push(x).to_multiset() =~= s.to_multiset().insert(x));
    } else {
        let t = s.drop_last();
        let l = s.last();
        assert(s =~= t.push(l));
        assert(is_ordered(t)) by {
            assert forall|i: int| 0 <= i < t.len() - 1 implies #[trigger] occurrence_le(
                t[i],
                t[i + 1],
            ) by {
                assert(occurrence_le(s[i], s[i + 1]));
            }
        }
        lemma_insert_ordered(t, x);
        let r = insert_ordered(t, x);
        lemma_occurrence_le_total(l, x);
        if t.len() > 0 && r.last() == t.last() {
            let k = s.len() - 2;
            assert(occurrence_le(s[k], s[k + 1]));
        }
        assert(occurrence_le(r.last(), l));
        let q = r.push(l);
        assert forall|i: int| 0 <= i < q.len() - 1 implies #[trigger] occurrence_le(
            q[i],
            q[i + 1],
        ) by {
            if i < r.len() - 1 {
                assert(occurrence_le(r[i], r[i + 1]));
            }
        }
        assert(q.to_multiset() =~= s.to_multiset().insert(x));
    }
}

/// Sorting yields occurrences in non-decreasing order of date and, within a
/// date, of name; and it only reorders them.
pub proof fn sorted_occurrences_are_ordered(s: Seq<OccurrenceDTO>)
    ensures
        is_ordered(sort_occurrences(s)),
        sort_occurrences(s).to_multiset() == s.to_multiset(),
    decreases s.len(),
{
    broadcast use vstd::seq_lib::to_multiset_build;

    if s.len() > 0 {
        let t = s.drop_last();
        sorted_occurrences_are_ordered(t);
        lemma_insert_ordered(sort_occurrences(t), s.last());
        assert(s =~= t.push(s.last()));
    } else {
        assert(s =~= Seq::<OccurrenceDTO>::empty());
    }
}

} // verus!
