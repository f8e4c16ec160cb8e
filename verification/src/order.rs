use vstd::prelude::*;

use crate::config::SortBy;
use crate::entry::{Entry, Node};
use crate::strutil::{lemma_lex_le_total, lemma_lex_le_trans, lex_le, str_le};

verus! {

broadcast use vstd::seq_lib::group_to_multiset_ensures;

/// The fields an item is ordered by.
pub struct SortKeyV {
    pub name: Seq<char>,
    pub size: int,
    pub mtime: int,
}

/// The one comparator of the ordering policy: name ascending in byte order,
/// size descending, modification time descending.
pub open spec fn key_le(sort: SortBy, a: SortKeyV, b: SortKeyV) -> bool {
    match sort {
        SortBy::Name => lex_le(a.name, b.name),
        SortBy::Size => a.size >= b.size,
        SortBy::ModTime => a.mtime >= b.mtime,
    }
}

/// Two items the comparator cannot tell apart.
pub open spec fn key_eq(sort: SortBy, a: SortKeyV, b: SortKeyV) -> bool {
    key_le(sort, a, b) && key_le(sort, b, a)
}

/// Anything that carries the key the ordering policy reads.
pub trait HasSortKey: Sized {
    /// The key this item is ordered by.
    spec fn sort_key(&self) -> SortKeyV;
}

/// Anything the ordering policy can sort: it can decide the comparator.
pub trait Sortable: HasSortKey {
    /// Decides `key_le` between two items.
    fn le_by(&self, other: &Self, sort: SortBy) -> (r: bool)
        ensures
            r == key_le(sort, self.sort_key(), other.sort_key()),
    ;
}

impl HasSortKey for Entry {
    open spec fn sort_key(&self) -> SortKeyV {
        SortKeyV { name: self.name@, size: self.size as int, mtime: self.mtime as int }
    }
}

impl HasSortKey for crate::entry::EntryV {
    open spec fn sort_key(&self) -> SortKeyV {
        SortKeyV { name: self.name, size: self.size, mtime: self.mtime }
    }
}

impl HasSortKey for Node {
    open spec fn sort_key(&self) -> SortKeyV {
        SortKeyV { name: self.name@, size: self.size as int, mtime: self.mtime as int }
    }
}

impl Sortable for Entry {
    fn le_by(&self, other: &Self, sort: SortBy) -> (r: bool)
        ensures
            r == key_le(sort, self.sort_key(), other.sort_key()),
    {
        match sort {
            SortBy::Name => str_le(self.name.as_str(), other.name.as_str()),
            SortBy::Size => self.size >= other.size,
            SortBy::ModTime => self.mtime >= other.mtime,
        }
    }
}

impl Sortable for Node {
    fn le_by(&self, other: &Self, sort: SortBy) -> (r: bool)
        ensures
            r == key_le(sort, self.sort_key(), other.sort_key()),
    {
        match sort {
            SortBy::Name => str_le(self.name.as_str(), other.name.as_str()),
            SortBy::Size => self.size >= other.size,
            SortBy::ModTime => self.mtime >= other.mtime,
        }
    }
}

/// The comparator is total.
pub proof fn lemma_key_le_total(sort: SortBy, a: SortKeyV, b: SortKeyV)
    ensures
        key_le(sort, a, b) || key_le(sort, b, a),
{
    if sort is Name {
        lemma_lex_le_total(a.name, b.name);
    }
}

/// The comparator is transitive.
pub proof fn lemma_key_le_trans(sort: SortBy, a: SortKeyV, b: SortKeyV, c: SortKeyV)
    requires
        key_le(sort, a, b),
        key_le(sort, b, c),
    ensures
        key_le(sort, a, c),
{
    if sort is Name {
        lemma_lex_le_trans(a.name, b.name, c.name);
    }
}

/// `x` placed into `s` directly after the last item that orders at or before
/// it; the insertion step of a stable insertion sort.
pub open spec fn insert_sorted<T: HasSortKey>(x: T, s: Seq<T>, sort: SortBy) -> Seq<T>
    decreases s.len(),
{
    if s.len() == 0 {
        seq![x]
    } else if key_le(sort, s.last().sort_key(), x.sort_key()) {
        s.push(x)
    } else {
        insert_sorted(x, s.drop_last(), sort).push(s.last())
    }
}

/// The stable insertion sort of a sequence under the ordering policy.
pub open spec fn sort_seq<T: HasSortKey>(s: Seq<T>, sort: SortBy) -> Seq<T>
    decreases s.len(),
{
    if s.len() == 0 {
        Seq::empty()
    } else {
        insert_sorted(s.last(), sort_seq(s.drop_last(), sort), sort)
    }
}

/// Non-decreasing under the comparator.
pub open spec fn sorted_by_key<T: HasSortKey>(s: Seq<T>, sort: SortBy) -> bool {
    forall|i: int, j: int|
        0 <= i < j < s.len() ==> key_le(
            sort,
            #[trigger] s[i].sort_key(),
            #[trigger] s[j].sort_key(),
        )
}

proof fn lemma_insert_position<T: HasSortKey>(x: T, s: Seq<T>, j: int, sort: SortBy)
    requires
        0 <= j <= s.len(),
        j > 0 ==> key_le(sort, s[j - 1].sort_key(), x.sort_key()),
        forall|m: int| j <= m < s.len() ==> !key_le(sort, #[trigger] s[m].sort_key(), x.sort_key()),
    ensures
        insert_sorted(x, s, sort) == s.take(j) + seq![x] + s.skip(j),
    decreases s.len(),
{
    if s.len() == 0 {
        assert(insert_sorted(x, s, sort) =~= s.take(j) + seq![x] + s.skip(j));
    } else if key_le(sort, s.last().sort_key(), x.sort_key()) {
        assert(j == s.len());
        assert(insert_sorted(x, s, sort) =~= s.take(j) + seq![x] + s.skip(j));
    } else {
        assert(j < s.len());
        assert(forall|m: int|
            j <= m < s.drop_last().len() ==> !key_le(
                sort,
                #[trigger] s.drop_last()[m].sort_key(),
                x.sort_key(),
            ));
        lemma_insert_position(x, s.drop_last(), j, sort);
        assert(insert_sorted(x, s, sort) =~= s.take(j) + seq![x] + s.skip(j));
    }
}

proof fn lemma_insert_upper<T: HasSortKey>(x: T, s: Seq<T>, y: SortKeyV, sort: SortBy)
    requires
        forall|i: int| 0 <= i < s.len() ==> key_le(sort, #[trigger] s[i].sort_key(), y),
        key_le(sort, x.sort_key(), y),
    ensures
        forall|k: int|
            0 <= k < insert_sorted(x, s, sort).len() ==> key_le(
                sort,
                #[trigger] insert_sorted(x, s, sort)[k].sort_key(),
                y,
            ),
    decreases s.len(),
{
    if s.len() == 0 {
        assert forall|k: int| 0 <= k < insert_sorted(x, s, sort).len() implies key_le(
            sort,
            #[trigger] insert_sorted(x, s, sort)[k].sort_key(),
            y,
        ) by {
            assert(insert_sorted(x, s, sort)[k] == x);
        }
    } else if key_le(sort, s.last().sort_key(), x.sort_key()) {
        assert forall|k: int| 0 <= k < insert_sorted(x, s, sort).len() implies key_le(
            sort,
            #[trigger] insert_sorted(x, s, sort)[k].sort_key(),
            y,
        ) by {
            if k < s.len() {
                assert(insert_sorted(x, s, sort)[k] == s[k]);
            } else {
                assert(insert_sorted(x, s, sort)[k] == x);
            }
        }
    } else {
        assert(forall|i: int|
            0 <= i < s.drop_last().len() ==> key_le(
                sort,
                #[trigger] s.drop_last()[i].sort_key(),
                y,
            ));
        lemma_insert_upper(x, s.drop_last(), y, sort);
        let inner = insert_sorted(x, s.drop_last(), sort);
        assert forall|k: int| 0 <= k < insert_sorted(x, s, sort).len() implies key_le(
            sort,
            #[trigger] insert_sorted(x, s, sort)[k].sort_key(),
            y,
        ) by {
            if k < inner.len() {
                assert(insert_sorted(x, s, sort)[k] == inner[k]);
            } else {
                assert(insert_sorted(x, s, sort)[k] == s.last());
                assert(key_le(sort, s[s.len() - 1].sort_key(), y));
            }
        }
    }
}

/// Inserting keeps sortedness.
proof fn lemma_insert_sorted_sorted<T: HasSortKey>(x: T, s: Seq<T>, sort: SortBy)
    requires
        sorted_by_key(s, sort),
    ensures
        sorted_by_key(insert_sorted(x, s, sort), sort),
    decreases s.len(),
{
    if s.len() == 0 {
    } else if key_le(sort, s.last().sort_key(), x.sort_key()) {
        let r = s.push(x);
        assert forall|i: int, j: int| 0 <= i < j < r.len() implies key_le(
            sort,
            #[trigger] r[i].sort_key(),
            #[trigger] r[j].sort_key(),
        ) by {
            if j == r.len() - 1 && i < s.len() {
                if i < s.len() - 1 {
                    lemma_key_le_trans(sort, s[i].sort_key(), s.last().sort_key(), x.sort_key());
                }
            }
        }
    } else {
        assert(sorted_by_key(s.drop_last(), sort));
        lemma_insert_sorted_sorted(x, s.drop_last(), sort);
        lemma_key_le_total(sort, s.last().sort_key(), x.sort_key());
        assert forall|i: int| 0 <= i < s.drop_last().len() implies key_le(
            sort,
            #[trigger] s.drop_last()[i].sort_key(),
            s.last().sort_key(),
        ) by {
            assert(s.drop_last()[i] == s[i]);
        }
        lemma_insert_upper(x, s.drop_last(), s.last().sort_key(), sort);
        let inner = insert_sorted(x, s.drop_last(), sort);
        let r = inner.push(s.last());
        assert forall|i: int, j: int| 0 <= i < j < r.len() implies key_le(
            sort,
            #[trigger] r[i].sort_key(),
            #[trigger] r[j].sort_key(),
        ) by {
            if j < r.len() - 1 {
                assert(sorted_by_key(inner, sort));
                assert(r[i] == inner[i] && r[j] == inner[j]);
            } else {
                assert(r[i] == inner[i]);
            }
        }
    }
}

/// Sorting yields a sorted sequence.
pub proof fn lemma_sort_sorted<T: HasSortKey>(s: Seq<T>, sort: SortBy)
    ensures
        sorted_by_key(sort_seq(s, sort), sort),
    decreases s.len(),
{
    if s.len() > 0 {
        lemma_sort_sorted(s.drop_last(), sort);
        lemma_insert_sorted_sorted(s.last(), sort_seq(s.drop_last(), sort), sort);
    }
}

proof fn lemma_insert_multiset<T: HasSortKey>(x: T, s: Seq<T>, sort: SortBy)
    ensures
        insert_sorted(x, s, sort).to_multiset() == s.to_multiset().insert(x),
    decreases s.len(),
{
    if s.len() == 0 {
        assert(seq![x] =~= s.push(x));
        assert(s.push(x).to_multiset() =~= s.to_multiset().insert(x));
    } else if key_le(sort, s.last().sort_key(), x.sort_key()) {
        assert(s.push(x).to_multiset() =~= s.to_multiset().insert(x));
    } else {
        lemma_insert_multiset(x, s.drop_last(), sort);
        let inner = insert_sorted(x, s.drop_last(), sort);
        assert(inner.push(s.last()).to_multiset() =~= inner.to_multiset().insert(s.last()));
        assert(s.drop_last().push(s.last()) =~= s);
        assert(s.drop_last().push(s.last()).to_multiset() =~= s.drop_last().to_multiset().insert(
            s.last(),
        ));
        assert(insert_sorted(x, s, sort).to_multiset() =~= s.to_multiset().insert(x));
    }
}

/// Sorting permutes: the multiset of items is unchanged.
pub proof fn lemma_sort_permutes<T: HasSortKey>(s: Seq<T>, sort: SortBy)
    ensures
        sort_seq(s, sort).to_multiset() == s.to_multiset(),
    decreases s.len(),
{
    if s.len() > 0 {
        lemma_sort_permutes(s.drop_last(), sort);
        lemma_insert_multiset(s.last(), sort_seq(s.drop_last(), sort), sort);
        assert(s.drop_last().push(s.last()) =~= s);
        assert(s.drop_last().push(s.last()).to_multiset() =~= s.drop_last().to_multiset().insert(
            s.last(),
        ));
    }
}

proof fn lemma_insert_stable<T: HasSortKey>(x: T, s: Seq<T>, sort: SortBy, k: SortKeyV)
    ensures
        insert_sorted(x, s, sort).filter(|e: T| key_eq(sort, e.sort_key(), k)) == (if key_eq(
            sort,
            x.sort_key(),
            k,
        ) {
            s.filter(|e: T| key_eq(sort, e.sort_key(), k)).push(x)
        } else {
            s.filter(|e: T| key_eq(sort, e.sort_key(), k))
        }),
    decreases s.len(),
{
    reveal(Seq::filter);
    let p = |e: T| key_eq(sort, e.sort_key(), k);
    if s.len() == 0 {
        assert(insert_sorted(x, s, sort) == seq![x]);
        assert(seq![x].drop_last() =~= s);
        assert(seq![x].last() == x);
        assert(seq![x].filter(p) == if p(x) {
            s.filter(p).push(x)
        } else {
            s.filter(p)
        });
    } else if key_le(sort, s.last().sort_key(), x.sort_key()) {
        let r = s.push(x);
        assert(r.drop_last() =~= s);
        assert(r.last() == x);
        assert(r.filter(p) == if p(x) {
            s.filter(p).push(x)
        } else {
            s.filter(p)
        });
    } else {
        lemma_insert_stable(x, s.drop_last(), sort, k);
        let inner = insert_sorted(x, s.drop_last(), sort);
        let r = inner.push(s.last());
        assert(r.drop_last() =~= inner);
        assert(r.last() == s.last());
        assert(r.filter(p) == if p(s.last()) {
            inner.filter(p).push(s.last())
        } else {
            inner.filter(p)
        });
        assert(s.filter(p) == if p(s.last()) {
            s.drop_last().filter(p).push(s.last())
        } else {
            s.drop_last().filter(p)
        });
        if p(x) && p(s.last()) {
            lemma_key_le_trans(sort, s.last().sort_key(), k, x.sort_key());
            assert(false);
        }
    }
}

/// Sorting is stable: the items the comparator cannot tell apart keep their
/// relative order.
pub proof fn lemma_sort_stable<T: HasSortKey>(s: Seq<T>, sort: SortBy, k: SortKeyV)
    ensures
        sort_seq(s, sort).filter(|e: T| key_eq(sort, e.sort_key(), k)) == s.filter(
            |e: T| key_eq(sort, e.sort_key(), k),
        ),
    decreases s.len(),
{
    reveal(Seq::filter);
    let p = |e: T| key_eq(sort, e.sort_key(), k);
    if s.len() == 0 {
    } else {
        lemma_sort_stable(s.drop_last(), sort, k);
        lemma_insert_stable(s.last(), sort_seq(s.drop_last(), sort), sort, k);
        assert(s.filter(p) == if p(s.last()) {
            s.drop_last().filter(p).push(s.last())
        } else {
            s.drop_last().filter(p)
        });
    }
}

/// Sorting an already-sorted sequence leaves it unchanged.
pub proof fn lemma_sort_of_sorted_id<T: HasSortKey>(s: Seq<T>, sort: SortBy)
    requires
        sorted_by_key(s, sort),
    ensures
        sort_seq(s, sort) == s,
    decreases s.len(),
{
    if s.len() > 0 {
        assert(sorted_by_key(s.drop_last(), sort));
        lemma_sort_of_sorted_id(s.drop_last(), sort);
        if s.len() > 1 {
            assert(key_le(sort, s.drop_last().last().sort_key(), s.last().sort_key())) by {
                assert(s.drop_last().last() == s[s.len() - 2]);
            }
        }
        assert(sort_seq(s, sort) =~= s);
    }
}

/// Sorting is idempotent.
pub proof fn lemma_sort_idempotent<T: HasSortKey>(s: Seq<T>, sort: SortBy)
    ensures
        sort_seq(sort_seq(s, sort), sort) == sort_seq(s, sort),
{
    lemma_sort_sorted(s, sort);
    lemma_sort_of_sorted_id(sort_seq(s, sort), sort);
}

/// Sorts the vector in place with the ordering policy: the result is the
/// stable insertion sort of the input.
pub fn sort_items<T: Sortable>(v: &mut Vec<T>, sort: SortBy)
    ensures
        final(v)@ == sort_seq(old(v)@, sort),
{
    let n = v.len();
    if n == 0 {
        return;
    }
    let mut i: usize = 1;
    proof {
        let s1 = old(v)@.take(1);
        assert(s1.drop_last() =~= Seq::<T>::empty());
        assert(sort_seq(Seq::<T>::empty(), sort) == Seq::<T>::empty());
        assert(insert_sorted(s1.last(), Seq::<T>::empty(), sort) == seq![s1.last()]);
        assert(v@.take(1) =~= seq![s1.last()]);
    }
    while i < n
        invariant
            1 <= i <= n,
            n == v@.len(),
            n == old(v)@.len(),
            v@.take(i as int) == sort_seq(old(v)@.take(i as int), sort),
            v@.skip(i as int) == old(v)@.skip(i as int),
        decreases n - i,
    {
        let ghost s_sorted = v@.take(i as int);
        let ghost x = v@[i as int];
        proof {
            assert(v@[i as int] == v@.skip(i as int)[0]);
            assert(old(v)@[i as int] == old(v)@.skip(i as int)[0]);
        }
        let mut j: usize = i;
        loop
            invariant
                0 <= j <= i < n,
                n == v@.len(),
                forall|m: int|
                    j <= m < i ==> !key_le(
                        sort,
                        #[trigger] v@[m].sort_key(),
                        v@[i as int].sort_key(),
                    ),
            ensures
                0 <= j <= i,
                j == 0 || key_le(sort, v@[j - 1].sort_key(), v@[i as int].sort_key()),
                forall|m: int|
                    j <= m < i ==> !key_le(
                        sort,
                        #[trigger] v@[m].sort_key(),
                        v@[i as int].sort_key(),
                    ),
            decreases j,
        {
            if j == 0 {
                break;
            }
            if v[j - 1].le_by(&v[i], sort) {
                break;
            }
            j = j - 1;
        }
        proof {
            assert(forall|m: int|
                0 <= m < i ==> v@[m] == #[trigger] s_sorted[m]);
            lemma_insert_position(x, s_sorted, j as int, sort);
        }
        let ghost v_round = v@;
        let moved = v.remove(i);
        let ghost w = v@;
        v.insert(j, moved);
        proof {
            assert forall|m: int| i + 1 <= m < n implies v@[m] == v_round[m] by {
                assert(v@[m] == w[m - 1]);
                assert(w[m - 1] == v_round[m]);
            }
            assert(v@.take(i + 1) =~= s_sorted.take(j as int) + seq![x] + s_sorted.skip(j as int));
            assert(v@.take(i + 1) == insert_sorted(x, s_sorted, sort));
            assert(old(v)@.take(i + 1).drop_last() =~= old(v)@.take(i as int));
            assert(old(v)@.take(i + 1).last() == x);
            assert(v@.take(i + 1) == sort_seq(old(v)@.take(i + 1), sort));
            assert forall|m: int| 0 <= m < n - i - 1 implies #[trigger] v@.skip(i + 1)[m]
                == old(v)@.skip(i + 1)[m] by {
                assert(v@.skip(i + 1)[m] == v@[m + i + 1]);
                assert(v_round[m + i + 1] == v_round.skip(i as int)[m + 1]);
                assert(old(v)@[m + i + 1] == old(v)@.skip(i as int)[m + 1]);
            }
            assert(v@.skip(i + 1) =~= old(v)@.skip(i + 1));
        }
        i = i + 1;
    }
    proof {
        assert(old(v)@.take(n as int) =~= old(v)@);
        assert(v@.take(n as int) =~= v@);
    }
}

/// Sorts resolved entries; the flat-list path of the ordering policy.
pub fn sort_entries(entries: &mut Vec<Entry>, sort: SortBy)
    ensures
        final(entries)@ == sort_seq(old(entries)@, sort),
{
    sort_items(entries, sort);
}

} // verus!
