use vstd::prelude::*;

verus! {

/// `a` comes no later than `b` in lexicographic order of code points (the
/// order of `str`'s `cmp`, which compares UTF-8 bytes).
pub open spec fn lex_le(a: Seq<char>, b: Seq<char>) -> bool
    decreases a.len(),
{
    if a.len() == 0 {
        true
    } else if b.len() == 0 {
        false
    } else if a[0] != b[0] {
        (a[0] as int) < (b[0] as int)
    } else {
        lex_le(a.drop_first(), b.drop_first())
    }
}

/// Of two strings, one comes no later than the other.
pub proof fn lemma_lex_total(a: Seq<char>, b: Seq<char>)
    ensures
        lex_le(a, b) || lex_le(b, a),
    decreases a.len(),
{
    if a.len() > 0 && b.len() > 0 {
        if a[0] == b[0] {
            lemma_lex_total(a.drop_first(), b.drop_first());
        } else {
            assert((a[0] as int) != (b[0] as int));
        }
    }
}

/// The order is transitive.
pub proof fn lemma_lex_trans(a: Seq<char>, b: Seq<char>, c: Seq<char>)
    requires
        lex_le(a, b),
        lex_le(b, c),
    ensures
        lex_le(a, c),
    decreases a.len(),
{
    if a.len() > 0 && b.len() > 0 && c.len() > 0 && a[0] == b[0] && b[0] == c[0] {
        lemma_lex_trans(a.drop_first(), b.drop_first(), c.drop_first());
    }
}

/// `a` and `b` first differ at position `i`, where `a` has the smaller
/// character.
pub open spec fn first_difference_below(a: Seq<char>, b: Seq<char>, i: int) -> bool {
    &&& 0 <= i < a.len()
    &&& i < b.len()
    &&& a.take(i) == b.take(i)
    &&& (a[i] as int) < (b[i] as int)
}

/// The order is the lexicographic order over whole strings: `a` comes no
/// later than `b` exactly when `a` is a prefix of `b`, or at the first
/// position where they differ `a` has the smaller character.
pub proof fn law_lex_le_is_lexicographic(a: Seq<char>, b: Seq<char>)
    ensures
        lex_le(a, b) <==> ((a.len() <= b.len() && a == b.take(a.len() as int)) || exists|i: int|
            first_difference_below(a, b, i)),
    decreases a.len(),
{
    if a.len() == 0 {
        assert(a =~= b.take(0));
    } else if b.len() == 0 {
        assert(!exists|i: int| first_difference_below(a, b, i));
    } else if a[0] != b[0] {
        if a.len() <= b.len() && a == b.take(a.len() as int) {
            assert(a[0] == b.take(a.len() as int)[0]);
        }
        if exists|i: int| first_difference_below(a, b, i) {
            let i = choose|i: int| first_difference_below(a, b, i);
            if i > 0 {
                assert(a.take(i)[0] == b.take(i)[0]);
            }
        }
        if (a[0] as int) < (b[0] as int) {
            assert(a.take(0) =~= b.take(0));
            assert(first_difference_below(a, b, 0));
        }
    } else {
        let a1 = a.drop_first();
        let b1 = b.drop_first();
        law_lex_le_is_lexicographic(a1, b1);
        if a.len() <= b.len() && a == b.take(a.len() as int) {
            assert(a1 =~= b1.take(a1.len() as int));
        }
        if a1.len() <= b1.len() && a1 == b1.take(a1.len() as int) {
            assert forall|j: int| 0 <= j < a.len() implies a[j] == #[trigger] b.take(a.len() as int)[j] by {
                if j > 0 {
                    assert(a[j] == a1[j - 1]);
                    assert(a1[j - 1] == b1.take(a1.len() as int)[j - 1]);
                }
            }
            assert(a =~= b.take(a.len() as int));
        }
        if exists|i: int| first_difference_below(a, b, i) {
            let i = choose|i: int| first_difference_below(a, b, i);
            assert(i > 0);
            assert(a1.take(i - 1) =~= a.take(i).drop_first());
            assert(b1.take(i - 1) =~= b.take(i).drop_first());
            assert(first_difference_below(a1, b1, i - 1));
        }
        if exists|i: int| first_difference_below(a1, b1, i) {
            let i = choose|i: int| first_difference_below(a1, b1, i);
            assert(a.take(i + 1) =~= seq![a[0]] + a1.take(i));
            assert(b.take(i + 1) =~= seq![b[0]] + b1.take(i));
            assert(first_difference_below(a, b, i + 1));
        }
    }
}

/// Compares two strings, given as characters, in lexicographic order.
pub fn lex_le_chars(a: &Vec<char>, b: &Vec<char>) -> (r: bool)
    ensures
        r == lex_le(a@, b@),
{
    let mut i: usize = 0;
    assert(a@.skip(0) =~= a@ && b@.skip(0) =~= b@);
    while i < a.len() && i < b.len() && a[i] == b[i]
        invariant
            i <= a@.len(),
            i <= b@.len(),
            lex_le(a@, b@) == lex_le(a@.skip(i as int), b@.skip(i as int)),
        decreases a@.len() - i,
    {
        assert(a@.skip(i as int).drop_first() =~= a@.skip(i + 1));
        assert(b@.skip(i as int).drop_first() =~= b@.skip(i + 1));
        i += 1;
    }
    if i == a.len() {
        true
    } else if i == b.len() {
        false
    } else {
        a[i] < b[i]
    }
}


/// The lower-case form of a string, as `str::to_lowercase` gives it (full
/// Unicode case mapping).
pub uninterp spec fn lowercase_of(s: Seq<char>) -> Seq<char>;

/// `str::to_lowercase`, its result taken as characters.
#[verifier::external_body]
pub(crate) fn lowercase_chars(s: &str) -> (r: Vec<char>)
    ensures
        r@ == lowercase_of(s@),
{
    s.to_lowercase().chars().collect()
}

/// Names are ordered by their lower-case forms.
pub open spec fn name_le(a: Seq<char>, b: Seq<char>) -> bool {
    lex_le(lowercase_of(a), lowercase_of(b))
}

/// Inserts `x` into `sorted` after every name that does not come after it.
pub open spec fn insert_by_name(sorted: Seq<Seq<char>>, x: Seq<char>) -> Seq<Seq<char>>
    decreases sorted.len(),
{
    if sorted.len() == 0 {
        seq![x]
    } else if name_le(sorted.last(), x) {
        sorted.push(x)
    } else {
        insert_by_name(sorted.drop_last(), x).push(sorted.last())
    }
}

/// The names sorted by their lower-case forms, names with equal forms
/// keeping their order (a stable sort).
pub open spec fn sort_by_name(s: Seq<Seq<char>>) -> Seq<Seq<char>>
    decreases s.len(),
{
    if s.len() == 0 {
        s
    } else {
        insert_by_name(sort_by_name(s.drop_last()), s.last())
    }
}

/// Every name comes no later than the names after it.
pub open spec fn sorted_by_name(s: Seq<Seq<char>>) -> bool {
    forall|i: int, j: int| 0 <= i < j < s.len() ==> name_le(s[i], s[j])
}

proof fn lemma_insert_by_name(sorted: Seq<Seq<char>>, x: Seq<char>)
    requires
        sorted_by_name(sorted),
    ensures
        sorted_by_name(insert_by_name(sorted, x)),
        insert_by_name(sorted, x).to_multiset() == sorted.to_multiset().insert(x),
        insert_by_name(sorted, x).len() == sorted.len() + 1,
        forall|i: int|
            0 <= i < insert_by_name(sorted, x).len() ==> (#[trigger] insert_by_name(sorted, x)[i]
                == x || sorted.contains(insert_by_name(sorted, x)[i])),
    decreases sorted.len(),
{
    broadcast use vstd::seq_lib::group_seq_properties, vstd::multiset::group_multiset_axioms;
    if sorted.len() == 0 {
        assert(seq![x].to_multiset() =~= Seq::<Seq<char>>::empty().to_multiset().insert(x));
    } else if name_le(sorted.last(), x) {
        let r = sorted.push(x);
        assert forall|i: int, j: int| 0 <= i < j < r.len() implies name_le(r[i], r[j]) by {
            if j == sorted.len() {
                if i < sorted.len() - 1 {
                    assert(name_le(sorted[i], sorted[sorted.len() - 1]));
                    lemma_lex_trans(
                        lowercase_of(sorted[i]),
                        lowercase_of(sorted.last()),
                        lowercase_of(x),
                    );
                }
            }
        }
        assert forall|i: int| 0 <= i < r.len() implies (#[trigger] r[i] == x || sorted.contains(r[i])) by {
            if i < sorted.len() {
                assert(sorted[i] == r[i]);
            }
        }
    } else {
        let front = sorted.drop_last();
        let last = sorted.last();
        assert(sorted_by_name(front));
        lemma_insert_by_name(front, x);
        let mid = insert_by_name(front, x);
        let r = mid.push(last);
        lemma_lex_total(lowercase_of(last), lowercase_of(x));
        assert forall|i: int, j: int| 0 <= i < j < r.len() implies name_le(r[i], r[j]) by {
            if j == mid.len() {
                assert(r[i] == mid[i]);
                if mid[i] != x {
                    let k = choose|k: int| 0 <= k < front.len() && front[k] == mid[i];
                    assert(sorted[k] == front[k]);
                    assert(name_le(sorted[k], sorted[sorted.len() - 1]));
                }
            }
        }
        assert forall|i: int| 0 <= i < r.len() implies (#[trigger] r[i] == x || sorted.contains(r[i])) by {
            if i < mid.len() {
                if mid[i] != x {
                    let k = choose|k: int| 0 <= k < front.len() && front[k] == mid[i];
                    assert(sorted[k] == front[k]);
                }
            } else {
                assert(sorted[sorted.len() - 1] == r[i]);
            }
        }
        assert(sorted =~= front.push(last));
        assert(r.to_multiset() =~= sorted.to_multiset().insert(x));
    }
}

/// The stable sort by name orders the names by their lower-case forms.
pub proof fn law_sort_by_name_sorted(s: Seq<Seq<char>>)
    ensures
        sorted_by_name(sort_by_name(s)),
        sort_by_name(s).len() == s.len(),
    decreases s.len(),
{
    if s.len() > 0 {
        law_sort_by_name_sorted(s.drop_last());
        lemma_insert_by_name(sort_by_name(s.drop_last()), s.last());
    }
}

/// In the sorted names, the lower-case form of each name comes before
/// that of every later name in the lexicographic order of whole strings: it
/// is a prefix of it, or has the smaller character where they first differ.
pub proof fn law_sorted_names_lexicographic(s: Seq<Seq<char>>, i: int, j: int)
    requires
        0 <= i < j < s.len(),
    ensures
        ({
            let a = lowercase_of(sort_by_name(s)[i]);
            let b = lowercase_of(sort_by_name(s)[j]);
            (a.len() <= b.len() && a == b.take(a.len() as int)) || exists|k: int|
                first_difference_below(a, b, k)
        }),
{
    law_sort_by_name_sorted(s);
    let t = sort_by_name(s);
    assert(name_le(t[i], t[j]));
    law_lex_le_is_lexicographic(lowercase_of(t[i]), lowercase_of(t[j]));
}

/// The stable sort by name keeps every name, as often as it occurs.
pub proof fn law_sort_by_name_permutes(s: Seq<Seq<char>>)
    ensures
        sort_by_name(s).to_multiset() == s.to_multiset(),
    decreases s.len(),
{
    broadcast use vstd::seq_lib::group_seq_properties, vstd::multiset::group_multiset_axioms;
    if s.len() > 0 {
        law_sort_by_name_permutes(s.drop_last());
        law_sort_by_name_sorted(s.drop_last());
        lemma_insert_by_name(sort_by_name(s.drop_last()), s.last());
        assert(s =~= s.drop_last().push(s.last()));
    }
}


/// The views of a sequence of strings.
pub open spec fn views(s: Seq<String>) -> Seq<Seq<char>> {
    Seq::new(s.len(), |i: int| s[i]@)
}

/// Inserting at the point that splits the names that do not come after
/// `x` from those that do is `insert_by_name`.
proof fn lemma_insert_at_partition(sorted: Seq<Seq<char>>, x: Seq<char>, p: int)
    requires
        0 <= p <= sorted.len(),
        forall|j: int| 0 <= j < p ==> name_le(#[trigger] sorted[j], x),
        forall|j: int| p <= j < sorted.len() ==> !name_le(#[trigger] sorted[j], x),
    ensures
        insert_by_name(sorted, x) == sorted.insert(p, x),
    decreases sorted.len(),
{
    if sorted.len() == 0 {
        assert(sorted.insert(p, x) =~= seq![x]);
    } else if name_le(sorted.last(), x) {
        assert(p == sorted.len()) by {
            if p < sorted.len() {
                assert(!name_le(sorted[sorted.len() - 1], x));
            }
        }
        assert(sorted.insert(p, x) =~= sorted.push(x));
    } else {
        let front = sorted.drop_last();
        assert(p < sorted.len()) by {
            if p == sorted.len() {
                assert(name_le(sorted[sorted.len() - 1], x));
            }
        }
        assert forall|j: int| 0 <= j < p implies name_le(#[trigger] front[j], x) by {
            assert(front[j] == sorted[j]);
        }
        assert forall|j: int| p <= j < front.len() implies !name_le(#[trigger] front[j], x) by {
            assert(front[j] == sorted[j]);
        }
        lemma_insert_at_partition(front, x, p);
        assert(front.insert(p, x).push(sorted.last()) =~= sorted.insert(p, x));
    }
}

/// Sorts names by their lower-case forms (code-point order), names with
/// equal lower-case forms keeping their order.
pub fn sort_names(names: &Vec<String>) -> (r: Vec<String>)
    ensures
        views(r@) == sort_by_name(views(names@)),
{
    let mut out: Vec<String> = Vec::new();
    let mut keys: Vec<Vec<char>> = Vec::new();
    let mut i: usize = 0;
    assert(views(out@) =~= sort_by_name(views(names@).take(0)));
    while i < names.len()
        invariant
            i <= names@.len(),
            views(out@) == sort_by_name(views(names@).take(i as int)),
            keys@.len() == out@.len(),
            forall|j: int| 0 <= j < keys@.len() ==> (#[trigger] keys@[j])@ == lowercase_of(out@[j]@),
        decreases names@.len() - i,
    {
        let name = names[i].clone();
        let key = lowercase_chars(name.as_str());
        let ghost sorted = views(out@);
        proof {
            law_sort_by_name_sorted(views(names@).take(i as int));
        }
        let mut lo: usize = 0;
        let mut hi: usize = out.len();
        while lo < hi
            invariant
                0 <= lo <= hi <= out@.len(),
                sorted == views(out@),
                sorted_by_name(sorted),
                keys@.len() == out@.len(),
                forall|j: int| 0 <= j < keys@.len() ==> (#[trigger] keys@[j])@ == lowercase_of(out@[j]@),
                key@ == lowercase_of(name@),
                forall|j: int| 0 <= j < lo ==> name_le(#[trigger] sorted[j], name@),
                forall|j: int| hi <= j < sorted.len() ==> !name_le(#[trigger] sorted[j], name@),
            decreases hi - lo,
        {
            let mid = lo + (hi - lo) / 2;
            assert(keys@[mid as int]@ == lowercase_of(sorted[mid as int]));
            let le = lex_le_chars(&keys[mid], &key);
            assert(le == name_le(sorted[mid as int], name@));
            if le {
                assert forall|j: int| 0 <= j < mid + 1 implies name_le(#[trigger] sorted[j], name@) by {
                    if j < mid {
                        assert(name_le(sorted[j], sorted[mid as int]));
                        lemma_lex_trans(
                            lowercase_of(sorted[j]),
                            lowercase_of(sorted[mid as int]),
                            lowercase_of(name@),
                        );
                    }
                }
                lo = mid + 1;
            } else {
                assert forall|j: int| mid <= j < sorted.len() implies !name_le(#[trigger] sorted[j], name@) by {
                    if j > mid && name_le(sorted[j], name@) {
                        assert(name_le(sorted[mid as int], sorted[j]));
                        lemma_lex_trans(
                            lowercase_of(sorted[mid as int]),
                            lowercase_of(sorted[j]),
                            lowercase_of(name@),
                        );
                    }
                }
                hi = mid;
            }
        }
        proof {
            lemma_insert_at_partition(sorted, name@, lo as int);
            let prefix = views(names@).take(i as int + 1);
            assert(prefix.drop_last() =~= views(names@).take(i as int));
            assert(prefix.last() == name@);
        }
        let ghost prev_out = out@;
        let ghost prev_keys = keys@;
        out.insert(lo, name);
        keys.insert(lo, key);
        proof {
            assert(views(out@) =~= sorted.insert(lo as int, names@[i as int]@));
            assert forall|j: int| 0 <= j < keys@.len() implies (#[trigger] keys@[j])@ == lowercase_of(out@[j]@) by {
                if j < lo {
                    assert(keys@[j] == prev_keys[j] && out@[j] == prev_out[j]);
                } else if j > lo {
                    assert(keys@[j] == prev_keys[j - 1] && out@[j] == prev_out[j - 1]);
                }
            }
        }
        i += 1;
    }
    assert(views(names@).take(names@.len() as int) =~= views(names@));
    out
}

} // verus!
