//! Strings as character sequences: conversions, lexicographic order and
//! verified insertion sorts.  The generator sorts style names, icon names
//! and category labels with these, which fixes every ordering the emitted
//! artifacts depend on.

use vstd::prelude::*;
use vstd::string::StrSliceExecFns;

verus! {

/// Relies on `String::push` from std: appends exactly one character.
#[verifier::external_body]
fn push_char(s: &mut String, c: char)
    ensures
        final(s)@ == old(s)@.push(c),
{
    s.push(c);
}

/// The characters of `s`, one vector element per character.
pub fn chars_of(s: &str) -> (r: Vec<char>)
    ensures
        r@ == s@,
{
    let n = s.unicode_len();
    let mut r: Vec<char> = Vec::new();
    let mut i: usize = 0;
    while i < n
        invariant
            n == s@.len(),
            0 <= i <= n,
            r@ == s@.subrange(0, i as int),
        decreases n - i,
    {
        r.push(s.get_char(i));
        assert(r@ =~= s@.subrange(0, i + 1 as int));
        i += 1;
    }
    assert(s@.subrange(0, n as int) =~= s@);
    r
}

/// The string holding exactly the characters of `v`.
pub fn string_of(v: &Vec<char>) -> (r: String)
    ensures
        r@ == v@,
{
    let mut r = String::new();
    let mut i: usize = 0;
    while i < v.len()
        invariant
            0 <= i <= v@.len(),
            r@ == v@.subrange(0, i as int),
        decreases v@.len() - i,
    {
        push_char(&mut r, v[i]);
        assert(r@ =~= v@.subrange(0, i + 1 as int));
        i += 1;
    }
    assert(v@.subrange(0, v@.len() as int) =~= v@);
    r
}

/// Strict lexicographic order on character sequences, by code point.
pub open spec fn lex_lt(a: Seq<char>, b: Seq<char>) -> bool
    decreases a.len(),
{
    if b.len() == 0 {
        false
    } else if a.len() == 0 {
        true
    } else if a[0] < b[0] {
        true
    } else if b[0] < a[0] {
        false
    } else {
        lex_lt(a.drop_first(), b.drop_first())
    }
}

/// Reflexive lexicographic order.
pub open spec fn lex_le(a: Seq<char>, b: Seq<char>) -> bool {
    lex_lt(a, b) || a == b
}

/// Any two character sequences are ordered: below, equal or above.
pub proof fn lemma_lex_total(a: Seq<char>, b: Seq<char>)
    ensures
        lex_lt(a, b) || lex_lt(b, a) || a == b,
    decreases a.len(),
{
    if b.len() == 0 {
        if a.len() == 0 {
            assert(a =~= b);
        }
    } else if a.len() == 0 {
    } else if a[0] < b[0] {
    } else if b[0] < a[0] {
    } else {
        assert(a[0] == b[0]);
        lemma_lex_total(a.drop_first(), b.drop_first());
        if a.drop_first() == b.drop_first() {
            assert(a.drop_first().len() == b.drop_first().len());
            assert(a.len() == b.len());
            assert forall|i: int| 0 <= i < a.len() implies a[i] == b[i] by {
                if i > 0 {
                    assert(a[i] == a.drop_first()[i - 1]);
                    assert(b[i] == b.drop_first()[i - 1]);
                }
            }
            assert(a =~= b);
        }
    }
}

/// Strict order in one direction rules out the other, and equality.
pub proof fn lemma_lex_asym(a: Seq<char>, b: Seq<char>)
    requires
        lex_lt(a, b),
    ensures
        !lex_lt(b, a),
        a != b,
    decreases a.len(),
{
    if a.len() == 0 {
    } else if a[0] < b[0] {
    } else {
        assert(a[0] == b[0]);
        lemma_lex_asym(a.drop_first(), b.drop_first());
        if a == b {
            assert(a.drop_first() =~= b.drop_first());
        }
    }
}

/// Strict lexicographic order is transitive.
pub proof fn lemma_lex_lt_trans(a: Seq<char>, b: Seq<char>, c: Seq<char>)
    requires
        lex_lt(a, b),
        lex_lt(b, c),
    ensures
        lex_lt(a, c),
    decreases a.len(),
{
    if a.len() == 0 {
    } else {
        assert(b.len() > 0 && c.len() > 0);
        if a[0] < b[0] {
            if b[0] < c[0] {
            } else {
                assert(b[0] == c[0]);
            }
        } else {
            assert(a[0] == b[0]);
            if b[0] < c[0] {
            } else {
                assert(b[0] == c[0]);
                lemma_lex_lt_trans(a.drop_first(), b.drop_first(), c.drop_first());
            }
        }
    }
}

/// Reflexive lexicographic order is transitive.
pub proof fn lemma_lex_le_trans(a: Seq<char>, b: Seq<char>, c: Seq<char>)
    requires
        lex_le(a, b),
        lex_le(b, c),
    ensures
        lex_le(a, c),
{
    if a == b || b == c {
    } else {
        lemma_lex_lt_trans(a, b, c);
    }
}

/// Whether `a` comes strictly before `b` in lexicographic order.
pub fn str_lt(a: &str, b: &str) -> (r: bool)
    ensures
        r == lex_lt(a@, b@),
{
    let an = a.unicode_len();
    let bn = b.unicode_len();
    let mut i: usize = 0;
    assert(a@.skip(0) =~= a@);
    assert(b@.skip(0) =~= b@);
    loop
        invariant
            an == a@.len(),
            bn == b@.len(),
            0 <= i <= an,
            i <= bn,
            lex_lt(a@, b@) == lex_lt(a@.skip(i as int), b@.skip(i as int)),
        decreases an - i,
    {
        if i >= bn {
            assert(b@.skip(i as int).len() == 0);
            return false;
        }
        if i >= an {
            assert(a@.skip(i as int).len() == 0 && b@.skip(i as int).len() > 0);
            return true;
        }
        let ca = a.get_char(i);
        let cb = b.get_char(i);
        assert(a@.skip(i as int)[0] == ca && b@.skip(i as int)[0] == cb);
        if ca < cb {
            assert(lex_lt(a@.skip(i as int), b@.skip(i as int)));
            return true;
        }
        if cb < ca {
            assert(!lex_lt(a@.skip(i as int), b@.skip(i as int)));
            return false;
        }
        assert(ca == cb);
        assert(a@.skip(i as int).drop_first() =~= a@.skip(i + 1));
        assert(b@.skip(i as int).drop_first() =~= b@.skip(i + 1));
        i += 1;
    }
}

/// Whether `a` comes before `b` or equals it.
pub fn str_le(a: &String, b: &String) -> (r: bool)
    ensures
        r == lex_le(a@, b@),
{
    if a.eq(b) {
        true
    } else {
        str_lt(a.as_str(), b.as_str())
    }
}

/// `x` placed at its position in an already sorted sequence.
pub open spec fn insert_sorted_spec(x: Seq<char>, s: Seq<Seq<char>>) -> Seq<Seq<char>>
    decreases s.len(),
{
    if s.len() == 0 {
        seq![x]
    } else if lex_le(x, s[0]) {
        seq![x] + s
    } else {
        seq![s[0]] + insert_sorted_spec(x, s.drop_first())
    }
}

/// Lexicographic insertion sort of a sequence of character sequences.
pub open spec fn sort_lex_spec(s: Seq<Seq<char>>) -> Seq<Seq<char>>
    decreases s.len(),
{
    if s.len() == 0 {
        Seq::empty()
    } else {
        insert_sorted_spec(s[0], sort_lex_spec(s.drop_first()))
    }
}

/// Every pair of positions is ordered.
pub open spec fn sorted_lex(s: Seq<Seq<char>>) -> bool {
    forall|i: int, j: int| 0 <= i < j < s.len() ==> lex_le(#[trigger] s[i], #[trigger] s[j])
}

/// Every pair of positions is strictly ordered, so no element repeats.
pub open spec fn strictly_sorted_lex(s: Seq<Seq<char>>) -> bool {
    forall|i: int, j: int| 0 <= i < j < s.len() ==> lex_lt(#[trigger] s[i], #[trigger] s[j])
}

/// Inserting into a sequence keeps every element and adds `x`.
pub proof fn lemma_insert_sorted_spec_elems(x: Seq<char>, s: Seq<Seq<char>>)
    ensures
        insert_sorted_spec(x, s).len() == s.len() + 1,
        forall|k: int|
            0 <= k < insert_sorted_spec(x, s).len() ==> (#[trigger] insert_sorted_spec(x, s)[k])
                == x || s.contains(insert_sorted_spec(x, s)[k]),
        insert_sorted_spec(x, s).contains(x),
        forall|y: Seq<char>| s.contains(y) ==> #[trigger] insert_sorted_spec(x, s).contains(y),
    decreases s.len(),
{
    if s.len() == 0 {
        assert(insert_sorted_spec(x, s)[0] == x);
    } else if lex_le(x, s[0]) {
        let r = insert_sorted_spec(x, s);
        assert(r[0] == x);
        assert forall|k: int| 0 <= k < r.len() implies (#[trigger] r[k]) == x || s.contains(r[k]) by {
            if k > 0 {
                assert(r[k] == s[k - 1]);
                assert(s.contains(s[k - 1]));
            }
        }
        assert forall|y: Seq<char>| s.contains(y) implies #[trigger] r.contains(y) by {
            let k = choose|k: int| 0 <= k < s.len() && s[k] == y;
            assert(r[k + 1] == y);
        }
    } else {
        lemma_insert_sorted_spec_elems(x, s.drop_first());
        let rr = insert_sorted_spec(x, s.drop_first());
        let r = insert_sorted_spec(x, s);
        assert(r == seq![s[0]] + rr);
        assert forall|k: int| 0 <= k < r.len() implies (#[trigger] r[k]) == x || s.contains(r[k]) by {
            if k == 0 {
                assert(r[0] == s[0]);
                assert(s.contains(s[0]));
            } else {
                assert(r[k] == rr[k - 1]);
                if rr[k - 1] != x {
                    assert(s.drop_first().contains(rr[k - 1]));
                    let m = choose|m: int|
                        0 <= m < s.drop_first().len() && s.drop_first()[m] == rr[k - 1];
                    assert(s[m + 1] == rr[k - 1]);
                    assert(s.contains(s[m + 1]));
                }
            }
        }
        assert(rr.contains(x));
        let kx = choose|kx: int| 0 <= kx < rr.len() && rr[kx] == x;
        assert(r[kx + 1] == x);
        assert(r.contains(x));
        assert forall|y: Seq<char>| s.contains(y) implies #[trigger] r.contains(y) by {
            let k = choose|k: int| 0 <= k < s.len() && s[k] == y;
            if k == 0 {
                assert(r[0] == y);
            } else {
                assert(s.drop_first()[k - 1] == y);
                assert(s.drop_first().contains(y));
                assert(rr.contains(y));
                let m = choose|m: int| 0 <= m < rr.len() && rr[m] == y;
                assert(r[m + 1] == y);
            }
        }
    }
}

/// Inserting into a sorted sequence keeps it sorted.
pub proof fn lemma_insert_sorted_spec_sorted(x: Seq<char>, s: Seq<Seq<char>>)
    requires
        sorted_lex(s),
    ensures
        sorted_lex(insert_sorted_spec(x, s)),
    decreases s.len(),
{
    let r = insert_sorted_spec(x, s);
    if s.len() == 0 {
    } else if lex_le(x, s[0]) {
        assert forall|i: int, j: int| 0 <= i < j < r.len() implies lex_le(
            #[trigger] r[i],
            #[trigger] r[j],
        ) by {
            if i == 0 {
                assert(r[j] == s[j - 1]);
                if j > 1 {
                    lemma_lex_le_trans(x, s[0], s[j - 1]);
                }
            } else {
                assert(r[i] == s[i - 1] && r[j] == s[j - 1]);
            }
        }
    } else {
        lemma_lex_total(x, s[0]);
        assert(lex_lt(s[0], x));
        assert(sorted_lex(s.drop_first()));
        lemma_insert_sorted_spec_sorted(x, s.drop_first());
        lemma_insert_sorted_spec_elems(x, s.drop_first());
        let rr = insert_sorted_spec(x, s.drop_first());
        assert forall|i: int, j: int| 0 <= i < j < r.len() implies lex_le(
            #[trigger] r[i],
            #[trigger] r[j],
        ) by {
            if i == 0 {
                assert(r[j] == rr[j - 1]);
                if rr[j - 1] == x {
                    assert(lex_le(s[0], x));
                } else {
                    assert(s.drop_first().contains(rr[j - 1]));
                    let m = choose|m: int|
                        0 <= m < s.drop_first().len() && s.drop_first()[m] == rr[j - 1];
                    assert(s[m + 1] == rr[j - 1]);
                    assert(lex_le(s[0], s[m + 1]));
                }
            } else {
                assert(r[i] == rr[i - 1] && r[j] == rr[j - 1]);
            }
        }
    }
}

/// The sort of any sequence is sorted and keeps its length.
pub proof fn lemma_sort_lex_spec_sorted(s: Seq<Seq<char>>)
    ensures
        sorted_lex(sort_lex_spec(s)),
        sort_lex_spec(s).len() == s.len(),
    decreases s.len(),
{
    if s.len() == 0 {
    } else {
        lemma_sort_lex_spec_sorted(s.drop_first());
        lemma_insert_sorted_spec_sorted(s[0], sort_lex_spec(s.drop_first()));
        lemma_insert_sorted_spec_elems(s[0], sort_lex_spec(s.drop_first()));
    }
}

/// Positional form of sorted insertion: if everything before `idx` is
/// strictly below `x` and the element at `idx` (if any) is at or above
/// `x`, inserting at `idx` realizes the sorted insertion.
proof fn lemma_insert_sorted_at(x: Seq<char>, s: Seq<Seq<char>>, idx: int)
    requires
        0 <= idx <= s.len(),
        forall|j: int| 0 <= j < idx ==> !lex_le(x, #[trigger] s[j]),
        idx < s.len() ==> lex_le(x, s[idx]),
    ensures
        insert_sorted_spec(x, s) =~= s.insert(idx, x),
    decreases s.len(),
{
    if s.len() == 0 {
    } else if idx == 0 {
    } else {
        assert(!lex_le(x, s[0]));
        assert(forall|j: int|
            0 <= j < idx - 1 ==> s.drop_first()[j] == s[j + 1] && !lex_le(
                x,
                #[trigger] s.drop_first()[j],
            ));
        lemma_insert_sorted_at(x, s.drop_first(), idx - 1);
        assert(insert_sorted_spec(x, s) == seq![s[0]] + insert_sorted_spec(x, s.drop_first()));
        assert(seq![s[0]] + s.drop_first().insert(idx - 1, x) =~= s.insert(idx, x));
    }
}

/// The first position whose element is at or above `x`.
fn lower_bound(v: &Vec<String>, x: &String) -> (idx: usize)
    ensures
        0 <= idx <= v@.len(),
        forall|j: int| 0 <= j < idx ==> !lex_le(x@, #[trigger] v.deep_view()[j]),
        idx < v@.len() ==> lex_le(x@, v.deep_view()[idx as int]),
{
    let mut idx: usize = 0;
    loop
        invariant
            0 <= idx <= v@.len(),
            forall|j: int| 0 <= j < idx ==> !lex_le(x@, #[trigger] v.deep_view()[j]),
        decreases v@.len() - idx,
    {
        if idx >= v.len() {
            return idx;
        }
        assert(v@[idx as int]@ == v.deep_view()[idx as int]);
        if str_le(x, &v[idx]) {
            return idx;
        }
        idx += 1;
    }
}

/// `x` inserted at its sorted position in `v`.
pub fn insert_sorted(v: Vec<String>, x: String) -> (r: Vec<String>)
    ensures
        r.deep_view() == insert_sorted_spec(x@, v.deep_view()),
{
    let ghost xs = x@;
    let ghost sv = v.deep_view();
    let idx = lower_bound(&v, &x);
    proof {
        lemma_insert_sorted_at(xs, sv, idx as int);
    }
    let mut v = v;
    v.insert(idx, x);
    assert(v.deep_view() =~= sv.insert(idx as int, xs));
    v
}

/// The elements of `v` in lexicographic order.
pub fn sort_lex(v: &Vec<String>) -> (r: Vec<String>)
    ensures
        r.deep_view() == sort_lex_spec(v.deep_view()),
{
    let ghost sv = v.deep_view();
    let mut r: Vec<String> = Vec::new();
    let mut i: usize = v.len();
    assert(sv.skip(i as int) =~= Seq::<Seq<char>>::empty());
    while i > 0
        invariant
            0 <= i <= v@.len(),
            sv == v.deep_view(),
            r.deep_view() == sort_lex_spec(sv.skip(i as int)),
        decreases i,
    {
        i -= 1;
        let x = v[i].clone();
        assert(x@ == sv[i as int]);
        r = insert_sorted(r, x);
        assert(sv.skip(i as int)[0] == sv[i as int]);
        assert(sv.skip(i as int).drop_first() =~= sv.skip(i + 1));
    }
    assert(sv.skip(0) =~= sv);
    r
}

/// `x` placed in a strictly sorted sequence, unless already present.
pub open spec fn insert_unique_spec(x: Seq<char>, s: Seq<Seq<char>>) -> Seq<Seq<char>>
    decreases s.len(),
{
    if s.len() == 0 {
        seq![x]
    } else if x == s[0] {
        s
    } else if lex_lt(x, s[0]) {
        seq![x] + s
    } else {
        seq![s[0]] + insert_unique_spec(x, s.drop_first())
    }
}

/// Unique insertion holds exactly the old elements plus `x`.
pub proof fn lemma_insert_unique_spec_elems(x: Seq<char>, s: Seq<Seq<char>>)
    ensures
        forall|y: Seq<char>|
            #[trigger] insert_unique_spec(x, s).contains(y) <==> (y == x || s.contains(y)),
    decreases s.len(),
{
    let r = insert_unique_spec(x, s);
    if s.len() == 0 {
        assert(r[0] == x);
        assert(r.contains(x));
        assert forall|y: Seq<char>| #[trigger] r.contains(y) implies (y == x || s.contains(y)) by {
            let k = choose|k: int| 0 <= k < r.len() && r[k] == y;
            assert(k == 0);
        }
    } else if x == s[0] {
        assert(s.contains(s[0]));
    } else if lex_lt(x, s[0]) {
        assert(r =~= seq![x] + s);
        assert forall|y: Seq<char>| #[trigger] r.contains(y) implies (y == x || s.contains(y)) by {
            let k = choose|k: int| 0 <= k < r.len() && r[k] == y;
            if k > 0 {
                assert(s[k - 1] == y);
                assert(s.contains(s[k - 1]));
            }
        }
        assert(r[0] == x);
        assert(r.contains(x));
        assert forall|y: Seq<char>| s.contains(y) implies #[trigger] r.contains(y) by {
            let k = choose|k: int| 0 <= k < s.len() && s[k] == y;
            assert(r[k + 1] == y);
        }
    } else {
        lemma_insert_unique_spec_elems(x, s.drop_first());
        let rr = insert_unique_spec(x, s.drop_first());
        assert(r =~= seq![s[0]] + rr);
        assert forall|y: Seq<char>| #[trigger] r.contains(y) implies (y == x || s.contains(y)) by {
            let k = choose|k: int| 0 <= k < r.len() && r[k] == y;
            if k == 0 {
                assert(s.contains(s[0]));
            } else {
                assert(rr[k - 1] == y);
                assert(rr.contains(y));
                if y != x {
                    let m = choose|m: int| 0 <= m < s.drop_first().len() && s.drop_first()[m] == y;
                    assert(s[m + 1] == y);
                    assert(s.contains(s[m + 1]));
                }
            }
        }
        assert(rr.contains(x));
        let kx = choose|kx: int| 0 <= kx < rr.len() && rr[kx] == x;
        assert(r[kx + 1] == x);
        assert(r.contains(x));
        assert forall|y: Seq<char>| s.contains(y) implies #[trigger] r.contains(y) by {
            let k = choose|k: int| 0 <= k < s.len() && s[k] == y;
            if k == 0 {
                assert(r[0] == y);
            } else {
                assert(s.drop_first()[k - 1] == y);
                assert(s.drop_first().contains(y));
                assert(rr.contains(y));
                let m = choose|m: int| 0 <= m < rr.len() && rr[m] == y;
                assert(r[m + 1] == y);
            }
        }
    }
}

/// Unique insertion into a strictly sorted sequence stays strictly sorted.
pub proof fn lemma_insert_unique_spec_sorted(x: Seq<char>, s: Seq<Seq<char>>)
    requires
        strictly_sorted_lex(s),
    ensures
        strictly_sorted_lex(insert_unique_spec(x, s)),
    decreases s.len(),
{
    let r = insert_unique_spec(x, s);
    if s.len() == 0 {
    } else if x == s[0] {
    } else if lex_lt(x, s[0]) {
        assert forall|i: int, j: int| 0 <= i < j < r.len() implies lex_lt(
            #[trigger] r[i],
            #[trigger] r[j],
        ) by {
            if i == 0 {
                assert(r[j] == s[j - 1]);
                if j > 1 {
                    lemma_lex_lt_trans(x, s[0], s[j - 1]);
                }
            } else {
                assert(r[i] == s[i - 1] && r[j] == s[j - 1]);
            }
        }
    } else {
        lemma_lex_total(x, s[0]);
        assert(lex_lt(s[0], x));
        assert(strictly_sorted_lex(s.drop_first()));
        lemma_insert_unique_spec_sorted(x, s.drop_first());
        lemma_insert_unique_spec_elems(x, s.drop_first());
        let rr = insert_unique_spec(x, s.drop_first());
        assert forall|i: int, j: int| 0 <= i < j < r.len() implies lex_lt(
            #[trigger] r[i],
            #[trigger] r[j],
        ) by {
            if i == 0 {
                assert(r[j] == rr[j - 1]);
                assert(rr.contains(rr[j - 1]));
                if rr[j - 1] == x {
                } else {
                    assert(s.drop_first().contains(rr[j - 1]));
                    let m = choose|m: int|
                        0 <= m < s.drop_first().len() && s.drop_first()[m] == rr[j - 1];
                    assert(s[m + 1] == rr[j - 1]);
                    assert(lex_lt(s[0], s[m + 1]));
                }
            } else {
                assert(r[i] == rr[i - 1] && r[j] == rr[j - 1]);
            }
        }
    }
}

/// Positional form of unique insertion.
proof fn lemma_insert_unique_at(x: Seq<char>, s: Seq<Seq<char>>, idx: int)
    requires
        0 <= idx <= s.len(),
        forall|j: int| 0 <= j < idx ==> lex_lt(#[trigger] s[j], x),
        idx < s.len() ==> lex_le(x, s[idx]),
    ensures
        idx < s.len() && x == s[idx] ==> insert_unique_spec(x, s) =~= s,
        !(idx < s.len() && x == s[idx]) ==> insert_unique_spec(x, s) =~= s.insert(idx, x),
    decreases s.len(),
{
    if s.len() == 0 {
    } else if idx == 0 {
        if x == s[0] {
        }
    } else {
        assert(lex_lt(s[0], x));
        lemma_lex_asym(s[0], x);
        assert(x != s[0]);
        assert(!lex_lt(x, s[0]));
        assert(forall|j: int|
            0 <= j < idx - 1 ==> s.drop_first()[j] == s[j + 1] && lex_lt(
                #[trigger] s.drop_first()[j],
                x,
            ));
        lemma_insert_unique_at(x, s.drop_first(), idx - 1);
        if idx < s.len() && x == s[idx] {
            assert(s.drop_first()[idx - 1] == s[idx]);
            assert(insert_unique_spec(x, s) =~= seq![s[0]] + s.drop_first());
            assert(seq![s[0]] + s.drop_first() =~= s);
        } else {
            assert(seq![s[0]] + s.drop_first().insert(idx - 1, x) =~= s.insert(idx, x));
        }
    }
}

/// `x` inserted into the strictly sorted set `v` unless already present.
pub fn insert_unique(v: Vec<String>, x: String) -> (r: Vec<String>)
    requires
        strictly_sorted_lex(v.deep_view()),
    ensures
        r.deep_view() == insert_unique_spec(x@, v.deep_view()),
{
    let ghost xs = x@;
    let ghost sv = v.deep_view();
    let idx = lower_bound(&v, &x);
    proof {
        assert forall|j: int| 0 <= j < idx implies lex_lt(#[trigger] sv[j], xs) by {
            lemma_lex_total(xs, sv[j]);
        }
        lemma_insert_unique_at(xs, sv, idx as int);
    }
    if idx < v.len() {
        assert(v@[idx as int]@ == sv[idx as int]);
        if x.eq(&v[idx]) {
            assert(v.deep_view() =~= insert_unique_spec(xs, sv));
            return v;
        }
    }
    let mut v = v;
    v.insert(idx, x);
    assert(v.deep_view() =~= sv.insert(idx as int, xs));
    v
}

} // verus!
