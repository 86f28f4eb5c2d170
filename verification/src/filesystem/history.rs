use vstd::prelude::*;
use vstd::multiset::Multiset;
use crate::paths::{decimal, digit_char};

verus! {

/// One item of the cache directory as it is listed: the bytes of its file name and
/// whether it is a directory.
#[derive(Debug, Clone, PartialEq, Eq)]
pub struct CacheDirEntry {
    pub name: Vec<u8>,
    pub is_dir: bool,
}

/// Whether the byte string `a` comes before `b` in lexicographic order (the order of
/// file names on this platform).
pub open spec fn bytes_lt(a: Seq<u8>, b: Seq<u8>) -> bool
    decreases a.len(),
{
    if a.len() == 0 {
        b.len() > 0
    } else if b.len() == 0 {
        false
    } else if a[0] != b[0] {
        a[0] < b[0]
    } else {
        bytes_lt(a.drop_first(), b.drop_first())
    }
}

/// Whether a file name begins with a dot.
pub open spec fn is_hidden(name: Seq<u8>) -> bool {
    name.len() > 0 && name[0] == 46u8
}

/// Whether `d` is an entry that the history cleanup may delete: a directory whose name
/// does not begin with a dot.
pub open spec fn is_removable(d: CacheDirEntry) -> bool {
    d.is_dir && !is_hidden(d.name@)
}

/// `x` put into `s` after every item whose name is not less than its own.
pub open spec fn insert_by_name_desc(s: Seq<CacheDirEntry>, x: CacheDirEntry) -> Seq<CacheDirEntry>
    decreases s.len(),
{
    if s.len() == 0 {
        seq![x]
    } else if bytes_lt(s[0].name@, x.name@) {
        seq![x] + s
    } else {
        seq![s[0]] + insert_by_name_desc(s.drop_first(), x)
    }
}

/// `s` sorted by name from the greatest down; items with equal names keep their order.
pub open spec fn sort_by_name_desc(s: Seq<CacheDirEntry>) -> Seq<CacheDirEntry>
    decreases s.len(),
{
    if s.len() == 0 {
        s
    } else {
        insert_by_name_desc(sort_by_name_desc(s.drop_last()), s.last())
    }
}

/// Whether no name in `s` is less than a name after it.
pub open spec fn names_descending(s: Seq<CacheDirEntry>) -> bool {
    forall|i: int, j: int| 0 <= i < j < s.len() ==> !bytes_lt(s[i].name@, s[j].name@)
}

/// The entries that a cleanup keeping `max_entries` deletes, in the order of the sorted
/// listing: the removable ones after the first `max_entries + 1`.
pub open spec fn stale_entries(sorted: Seq<CacheDirEntry>, max_entries: nat) -> Seq<CacheDirEntry> {
    if sorted.len() <= max_entries + 1 {
        Seq::empty()
    } else {
        sorted.subrange(max_entries + 1int, sorted.len() as int).filter(|d: CacheDirEntry| is_removable(d))
    }
}

/// No byte string comes before itself.
pub proof fn lemma_bytes_lt_irreflexive(a: Seq<u8>)
    ensures
        !bytes_lt(a, a),
    decreases a.len(),
{
    if a.len() > 0 {
        lemma_bytes_lt_irreflexive(a.drop_first());
    }
}

/// The order of byte strings is transitive.
pub proof fn lemma_bytes_lt_transitive(a: Seq<u8>, b: Seq<u8>, c: Seq<u8>)
    requires
        bytes_lt(a, b),
        bytes_lt(b, c),
    ensures
        bytes_lt(a, c),
    decreases a.len(),
{
    if a.len() > 0 && a[0] == b[0] && b[0] == c[0] {
        lemma_bytes_lt_transitive(a.drop_first(), b.drop_first(), c.drop_first());
    }
}

/// Of two different byte strings, one comes before the other.
pub proof fn lemma_bytes_lt_total(a: Seq<u8>, b: Seq<u8>)
    requires
        !bytes_lt(a, b),
        !bytes_lt(b, a),
    ensures
        a == b,
    decreases a.len(),
{
    if a.len() > 0 && b.len() > 0 && a[0] == b[0] {
        lemma_bytes_lt_total(a.drop_first(), b.drop_first());
        assert(a =~= seq![a[0]] + a.drop_first());
        assert(b =~= seq![b[0]] + b.drop_first());
    } else if a.len() == 0 && b.len() == 0 {
        assert(a =~= b);
    }
}

/// Inserting by name puts `x` at the first place whose item has a lesser name.
proof fn lemma_insert_at(s: Seq<CacheDirEntry>, x: CacheDirEntry, p: int)
    requires
        0 <= p <= s.len(),
        forall|j: int| 0 <= j < p ==> !bytes_lt(#[trigger] s[j].name@, x.name@),
        p < s.len() ==> bytes_lt(s[p].name@, x.name@),
    ensures
        insert_by_name_desc(s, x) == s.insert(p, x),
    decreases s.len(),
{
    if s.len() == 0 {
        assert(s.insert(p, x) =~= seq![x]);
    } else if p == 0 {
        assert(s.insert(p, x) =~= seq![x] + s);
    } else {
        let t = s.drop_first();
        assert forall|j: int| 0 <= j < p - 1 implies !bytes_lt(#[trigger] t[j].name@, x.name@) by {
            assert(t[j] == s[j + 1]);
        }
        lemma_insert_at(t, x, p - 1);
        assert(s.insert(p, x) =~= seq![s[0]] + t.insert(p - 1, x));
    }
}

/// Every item of an insertion is the inserted one or one of the sequence.
proof fn lemma_insert_members(s: Seq<CacheDirEntry>, x: CacheDirEntry)
    ensures
        insert_by_name_desc(s, x).len() == s.len() + 1,
        forall|k: int|
            0 <= k < s.len() + 1 ==> #[trigger] insert_by_name_desc(s, x)[k] == x || s.contains(
                insert_by_name_desc(s, x)[k],
            ),
    decreases s.len(),
{
    if s.len() > 0 && !bytes_lt(s[0].name@, x.name@) {
        let t = s.drop_first();
        lemma_insert_members(t, x);
        assert forall|k: int| 0 <= k < s.len() + 1 implies #[trigger] insert_by_name_desc(s, x)[k] == x
            || s.contains(insert_by_name_desc(s, x)[k]) by {
            if k > 0 {
                let y = insert_by_name_desc(t, x)[k - 1];
                assert(insert_by_name_desc(s, x)[k] == y);
                if y != x {
                    let j: int = choose|j: int| 0 <= j < t.len() && t[j] == y;
                    assert(s[j + 1] == y);
                }
            } else {
                assert(s[0] == insert_by_name_desc(s, x)[0]);
            }
        }
    } else if s.len() > 0 {
        assert forall|k: int| 0 <= k < s.len() + 1 implies #[trigger] insert_by_name_desc(s, x)[k] == x
            || s.contains(insert_by_name_desc(s, x)[k]) by {
            if k > 0 {
                assert(s[k - 1] == insert_by_name_desc(s, x)[k]);
            }
        }
    }
}

/// Inserting by name into a descending sequence keeps it descending.
proof fn lemma_insert_keeps_descending(s: Seq<CacheDirEntry>, x: CacheDirEntry)
    requires
        names_descending(s),
    ensures
        names_descending(insert_by_name_desc(s, x)),
    decreases s.len(),
{
    let r = insert_by_name_desc(s, x);
    if s.len() == 0 {
    } else if bytes_lt(s[0].name@, x.name@) {
        assert forall|i: int, j: int| 0 <= i < j < r.len() implies !bytes_lt(r[i].name@, r[j].name@) by {
            if i == 0 {
                if bytes_lt(x.name@, r[j].name@) {
                    if j == 1 {
                        lemma_bytes_lt_transitive(s[0].name@, x.name@, s[0].name@);
                        lemma_bytes_lt_irreflexive(s[0].name@);
                    } else {
                        lemma_bytes_lt_transitive(s[0].name@, x.name@, s[j - 1].name@);
                        assert(!bytes_lt(s[0].name@, s[j - 1].name@));
                    }
                }
            } else {
                assert(r[i] == s[i - 1] && r[j] == s[j - 1]);
            }
        }
    } else {
        let t = s.drop_first();
        assert(names_descending(t)) by {
            assert forall|i: int, j: int| 0 <= i < j < t.len() implies !bytes_lt(t[i].name@, t[j].name@) by {
                assert(t[i] == s[i + 1] && t[j] == s[j + 1]);
            }
        }
        lemma_insert_keeps_descending(t, x);
        lemma_insert_members(t, x);
        let u = insert_by_name_desc(t, x);
        assert forall|i: int, j: int| 0 <= i < j < r.len() implies !bytes_lt(r[i].name@, r[j].name@) by {
            if i == 0 {
                assert(r[j] == u[j - 1]);
                if u[j - 1] != x {
                    let k: int = choose|k: int| 0 <= k < t.len() && t[k] == u[j - 1];
                    assert(s[k + 1] == u[j - 1]);
                }
            } else {
                assert(r[i] == u[i - 1] && r[j] == u[j - 1]);
            }
        }
    }
}

/// Inserting by name adds the item and loses none.
proof fn lemma_insert_multiset(s: Seq<CacheDirEntry>, x: CacheDirEntry)
    ensures
        insert_by_name_desc(s, x).to_multiset() == s.to_multiset().insert(x),
    decreases s.len(),
{
    broadcast use vstd::seq_lib::group_to_multiset_ensures;
    if s.len() == 0 {
        assert(seq![x] =~= Seq::<CacheDirEntry>::empty().push(x));
    } else if bytes_lt(s[0].name@, x.name@) {
        vstd::seq_lib::lemma_multiset_commutative(seq![x], s);
        assert(seq![x] =~= Seq::<CacheDirEntry>::empty().push(x));
        assert(seq![x].to_multiset() =~= Multiset::empty().insert(x));
    } else {
        let t = s.drop_first();
        lemma_insert_multiset(t, x);
        vstd::seq_lib::lemma_multiset_commutative(seq![s[0]], insert_by_name_desc(t, x));
        vstd::seq_lib::lemma_multiset_commutative(seq![s[0]], t);
        assert(s =~= seq![s[0]] + t);
    }
}

/// The sorted listing is in descending order of names.
pub proof fn lemma_sort_descending(s: Seq<CacheDirEntry>)
    ensures
        names_descending(sort_by_name_desc(s)),
    decreases s.len(),
{
    if s.len() > 0 {
        lemma_sort_descending(s.drop_last());
        lemma_insert_keeps_descending(sort_by_name_desc(s.drop_last()), s.last());
    }
}

/// The sorted listing holds the same items as the listing, as often.
pub proof fn lemma_sort_permutes(s: Seq<CacheDirEntry>)
    ensures
        sort_by_name_desc(s).to_multiset() == s.to_multiset(),
    decreases s.len(),
{
    broadcast use vstd::seq_lib::group_to_multiset_ensures;
    if s.len() > 0 {
        lemma_sort_permutes(s.drop_last());
        lemma_insert_multiset(sort_by_name_desc(s.drop_last()), s.last());
        assert(s.drop_last().push(s.last()) =~= s);
    }
}

/// Whether the name `a` comes before the name `b`.
pub fn name_less(a: &Vec<u8>, b: &Vec<u8>) -> (r: bool)
    ensures
        r == bytes_lt(a@, b@),
{
    let mut i: usize = 0;
    assert(a@.skip(0) =~= a@ && b@.skip(0) =~= b@);
    while i < a.len() && i < b.len()
        invariant
            i <= a@.len(),
            i <= b@.len(),
            bytes_lt(a@, b@) == bytes_lt(a@.skip(i as int), b@.skip(i as int)),
        decreases a@.len() - i,
    {
        if a[i] != b[i] {
            return a[i] < b[i];
        }
        assert(a@.skip(i as int).drop_first() =~= a@.skip(i + 1));
        assert(b@.skip(i as int).drop_first() =~= b@.skip(i + 1));
        i = i + 1;
    }
    i < b.len()
}

/// The listing sorted by name from the greatest down, items with equal names in their
/// listed order.
pub fn sort_entries_by_name_desc(entries: Vec<CacheDirEntry>) -> (sorted: Vec<CacheDirEntry>)
    ensures
        sorted@ == sort_by_name_desc(entries@),
{
    let mut sorted: Vec<CacheDirEntry> = Vec::new();
    let ghost all = entries@;
    for x in it: entries
        invariant
            all == it.seq(),
            sorted@ == sort_by_name_desc(all.take(it.index() as int)),
    {
        let ghost i = it.index() as int;
        let mut p: usize = 0;
        while p < sorted.len() && !name_less(&sorted[p].name, &x.name)
            invariant
                p <= sorted@.len(),
                forall|j: int| 0 <= j < p ==> !bytes_lt(#[trigger] sorted@[j].name@, x.name@),
            decreases sorted@.len() - p,
        {
            p = p + 1;
        }
        proof {
            lemma_insert_at(sorted@, x, p as int);
            assert(all.take(i + 1).drop_last() =~= all.take(i));
            assert(all[i] == x);
        }
        sorted.insert(p, x);
    }
    proof {
        assert(all.take(all.len() as int) =~= all);
    }
    sorted
}

/// The entries that cleaning the history keeps to `max_entries` deletes: the listing is
/// sorted by name from the greatest down, and of the items after the first
/// `max_entries + 1`, the directories whose names do not begin with a dot go.
pub fn stale_history(listing: Vec<CacheDirEntry>, max_entries: usize) -> (stale: Vec<CacheDirEntry>)
    ensures
        stale@ == stale_entries(sort_by_name_desc(listing@), max_entries as nat),
        forall|j: int|
            max_entries < j < listing@.len() && (#[trigger] sort_by_name_desc(listing@)[j]).is_dir && !(
            sort_by_name_desc(listing@)[j].name@.len() > 0 && sort_by_name_desc(listing@)[j].name@[0]
                == 46u8) ==> stale@.contains(sort_by_name_desc(listing@)[j]),
        forall|k: int|
            0 <= k < stale@.len() ==> {
                &&& (#[trigger] stale@[k]).is_dir
                &&& !(stale@[k].name@.len() > 0 && stale@[k].name@[0] == 46u8)
                &&& exists|j: int| max_entries < j < listing@.len() && sort_by_name_desc(listing@)[j] == stale@[k]
            },
{
    proof {
        lemma_cleanup_deletes_every_old_directory(listing@, max_entries as nat);
    }
    let sorted = sort_entries_by_name_desc(listing);
    let total: usize = sorted.len();
    let ghost all = sorted@;
    assert(all.len() == total);
    let ghost keep = (max_entries as int) + 1;
    let mut stale: Vec<CacheDirEntry> = Vec::new();
    let mut index: usize = 0;
    for d in it: sorted
        invariant
            all == it.seq(),
            index == it.index(),
            index <= all.len(),
            all.len() <= usize::MAX,
            keep == (max_entries as int) + 1,
            index <= keep ==> stale@.len() == 0,
            index > keep ==> stale@ == all.subrange(keep, index as int).filter(|d: CacheDirEntry| is_removable(d)),
    {
        proof {
            if index + 1 > keep {
                let before = all.subrange(keep, index as int);
                assert(all.subrange(keep, index + 1) =~= before.push(all[index as int]));
                before.lemma_filter_push(all[index as int], |d: CacheDirEntry| is_removable(d));
                if index <= keep {
                    assert(before =~= Seq::<CacheDirEntry>::empty());
                    reveal(Seq::filter);
                    assert(before.filter(|d: CacheDirEntry| is_removable(d)) =~= Seq::<CacheDirEntry>::empty());
                }
            }
        }
        if index > max_entries && d.is_dir && !(d.name.len() > 0 && d.name[0] == 46u8) {
            stale.push(d);
        }
        index = index + 1;
    }
    stale
}

/// What a cleanup keeping `max_entries` deletes: nothing while the listing holds at most
/// `max_entries + 1` items; otherwise only directories whose names do not begin with a
/// dot, each found in the sorted listing after its first `max_entries + 1` items, whose
/// names are all at least as great.
pub proof fn lemma_cleanup_spares(listing: Seq<CacheDirEntry>, max_entries: nat)
    ensures
        listing.len() <= max_entries + 1 ==> stale_entries(sort_by_name_desc(listing), max_entries).len() == 0,
        forall|k: int| 0 <= k < stale_entries(sort_by_name_desc(listing), max_entries).len() ==> {
            let d = #[trigger] stale_entries(sort_by_name_desc(listing), max_entries)[k];
            &&& is_removable(d)
            &&& exists|j: int| max_entries < j < listing.len() && sort_by_name_desc(listing)[j] == d
            &&& forall|i: int| 0 <= i <= max_entries ==> !bytes_lt(
                #[trigger] sort_by_name_desc(listing)[i].name@,
                d.name@,
            )
        },
{
    let sorted = sort_by_name_desc(listing);
    lemma_sort_permutes(listing);
    lemma_sort_descending(listing);
    assert(sorted.len() == listing.len()) by {
        assert(sorted.to_multiset().len() == listing.to_multiset().len());
        sorted.to_multiset_ensures();
        listing.to_multiset_ensures();
    }
    let stale = stale_entries(sorted, max_entries);
    if sorted.len() > max_entries + 1 {
        let tail = sorted.subrange(max_entries + 1int, sorted.len() as int);
        let keep = |d: CacheDirEntry| is_removable(d);
        assert forall|k: int| 0 <= k < stale.len() implies {
            let d = #[trigger] stale[k];
            &&& is_removable(d)
            &&& exists|j: int| max_entries < j < listing.len() && sorted[j] == d
            &&& forall|i: int| 0 <= i <= max_entries ==> !bytes_lt(#[trigger] sorted[i].name@, d.name@)
        } by {
            let d = stale[k];
            tail.lemma_filter_pred(keep, k);
            tail.lemma_filter_contains_rev(keep, d);
            let t: int = choose|t: int| 0 <= t < tail.len() && tail[t] == d;
            assert(sorted[max_entries + 1 + t] == d);
            assert forall|i: int| 0 <= i <= max_entries implies !bytes_lt(#[trigger] sorted[i].name@, d.name@) by {
                assert(i < max_entries + 1 + t);
            }
        }
    }
}

/// A cleanup keeping `max_entries` deletes every directory whose name does not begin
/// with a dot and that lies after the first `max_entries + 1` items of the listing sorted
/// by name from the greatest down, whatever its name; and it deletes nothing but such
/// directories.
pub proof fn lemma_cleanup_deletes_every_old_directory(listing: Seq<CacheDirEntry>, max_entries: nat)
    ensures
        sort_by_name_desc(listing).len() == listing.len(),
        forall|j: int|
            max_entries < j < listing.len() && (#[trigger] sort_by_name_desc(listing)[j]).is_dir && !(
            sort_by_name_desc(listing)[j].name@.len() > 0 && sort_by_name_desc(listing)[j].name@[0]
                == 46u8) ==> stale_entries(sort_by_name_desc(listing), max_entries).contains(
                sort_by_name_desc(listing)[j],
            ),
        forall|k: int|
            0 <= k < stale_entries(sort_by_name_desc(listing), max_entries).len() ==> {
                let d = #[trigger] stale_entries(sort_by_name_desc(listing), max_entries)[k];
                &&& d.is_dir
                &&& !(d.name@.len() > 0 && d.name@[0] == 46u8)
                &&& exists|j: int| max_entries < j < listing.len() && sort_by_name_desc(listing)[j] == d
            },
{
    let sorted = sort_by_name_desc(listing);
    lemma_sort_members(listing);
    lemma_cleanup_spares(listing, max_entries);
    let stale = stale_entries(sorted, max_entries);
    if sorted.len() > max_entries + 1 {
        let base = max_entries + 1int;
        let tail = sorted.subrange(base, sorted.len() as int);
        let keep = |d: CacheDirEntry| is_removable(d);
        assert forall|j: int|
            max_entries < j < listing.len() && (#[trigger] sorted[j]).is_dir && !(sorted[j].name@.len() > 0
                && sorted[j].name@[0] == 46u8) implies stale.contains(sorted[j]) by {
            assert(tail[j - base] == sorted[j]);
            assert(keep(tail[j - base]));
            tail.lemma_filter_contains(keep, j - base);
        }
    }
    assert forall|k: int| 0 <= k < stale.len() implies {
        let d = #[trigger] stale[k];
        &&& d.is_dir
        &&& !(d.name@.len() > 0 && d.name@[0] == 46u8)
        &&& exists|j: int| max_entries < j < listing.len() && sorted[j] == d
    } by {
        assert(is_removable(stale[k]));
    }
}

/// The bytes of a text made of ASCII characters.
pub open spec fn ascii_bytes(s: Seq<char>) -> Seq<u8> {
    s.map_values(|c: char| c as u8)
}

/// Two names of one length that differ keep their order when each is extended.
proof fn lemma_bytes_lt_push(x: Seq<u8>, y: Seq<u8>, p: u8, q: u8)
    requires
        x.len() == y.len(),
        bytes_lt(x, y),
    ensures
        bytes_lt(x.push(p), y.push(q)),
    decreases x.len(),
{
    if x.len() > 0 && x[0] == y[0] {
        lemma_bytes_lt_push(x.drop_first(), y.drop_first(), p, q);
        assert(x.push(p).drop_first() =~= x.drop_first().push(p));
        assert(y.push(q).drop_first() =~= y.drop_first().push(q));
    }
}

/// A name extended by a lesser byte comes before the name extended by a greater one.
proof fn lemma_bytes_lt_last(x: Seq<u8>, p: u8, q: u8)
    requires
        p < q,
    ensures
        bytes_lt(x.push(p), x.push(q)),
    decreases x.len(),
{
    if x.len() > 0 {
        lemma_bytes_lt_last(x.drop_first(), p, q);
        assert(x.push(p).drop_first() =~= x.drop_first().push(p));
        assert(x.push(q).drop_first() =~= x.drop_first().push(q));
    }
}

/// Of two times written with as many digits, the earlier one has the lesser name: so
/// the history, sorted by name from the greatest down, lists recordings from the
/// newest.
pub proof fn lemma_earlier_time_lesser_name(a: nat, b: nat)
    requires
        a < b,
        decimal(a).len() == decimal(b).len(),
    ensures
        bytes_lt(ascii_bytes(decimal(a)), ascii_bytes(decimal(b))),
    decreases b,
{
    if b < 10 {
        assert(ascii_bytes(decimal(a)) =~= seq![digit_char(a) as u8]);
        assert(ascii_bytes(decimal(b)) =~= seq![digit_char(b) as u8]);
        assert(ascii_bytes(decimal(a)).drop_first() =~= Seq::<u8>::empty());
    } else if a < 10 {
        // b has two or more digits, a has one: they cannot be of one length
        assert(decimal(b).len() == decimal(b / 10).len() + 1);
        crate::paths::lemma_decimal_digits(b / 10);
    } else {
        let xa = decimal(a / 10);
        let xb = decimal(b / 10);
        assert(ascii_bytes(decimal(a)) =~= ascii_bytes(xa).push(digit_char(a % 10) as u8));
        assert(ascii_bytes(decimal(b)) =~= ascii_bytes(xb).push(digit_char(b % 10) as u8));
        if a / 10 == b / 10 {
            lemma_bytes_lt_last(ascii_bytes(xa), digit_char(a % 10) as u8, digit_char(b % 10) as u8);
        } else {
            lemma_earlier_time_lesser_name(a / 10, b / 10);
            lemma_bytes_lt_push(
                ascii_bytes(xa),
                ascii_bytes(xb),
                digit_char(a % 10) as u8,
                digit_char(b % 10) as u8,
            );
        }
    }
}

/// Whether no two items of `s` have the same name, as in one directory.
pub open spec fn names_distinct(s: Seq<CacheDirEntry>) -> bool {
    forall|i: int, j: int| 0 <= i < j < s.len() ==> s[i].name@ != s[j].name@
}

/// Whether every name in `s` is greater than each name after it.
pub open spec fn names_strictly_descending(s: Seq<CacheDirEntry>) -> bool {
    forall|i: int, j: int| 0 <= i < j < s.len() ==> bytes_lt(s[j].name@, s[i].name@)
}

/// What a cleanup keeping `max_entries` leaves of the listing, in sorted order: the
/// first `max_entries + 1` items and, after them, every item that it does not delete.
pub open spec fn left_after_cleanup(listing: Seq<CacheDirEntry>, max_entries: nat) -> Seq<CacheDirEntry> {
    let sorted = sort_by_name_desc(listing);
    if sorted.len() <= max_entries + 1 {
        sorted
    } else {
        sorted.take(max_entries + 1int) + sorted.subrange(max_entries + 1int, sorted.len() as int).filter(
            |d: CacheDirEntry| !is_removable(d),
        )
    }
}

/// The sorted listing holds as many items as the listing, each one of the listing.
proof fn lemma_sort_members(s: Seq<CacheDirEntry>)
    ensures
        sort_by_name_desc(s).len() == s.len(),
        forall|k: int| 0 <= k < s.len() ==> s.contains(#[trigger] sort_by_name_desc(s)[k]),
    decreases s.len(),
{
    if s.len() > 0 {
        let t = s.drop_last();
        lemma_sort_members(t);
        lemma_insert_members(sort_by_name_desc(t), s.last());
        assert forall|k: int| 0 <= k < s.len() implies s.contains(#[trigger] sort_by_name_desc(s)[k]) by {
            let y = sort_by_name_desc(s)[k];
            if y == s.last() {
                assert(s[s.len() - 1] == y);
            } else {
                let m: int = choose|m: int| 0 <= m < t.len() && sort_by_name_desc(t)[m] == y;
                let a: int = choose|a: int| 0 <= a < t.len() && t[a] == sort_by_name_desc(t)[m];
                assert(s[a] == y);
            }
        }
    }
}

/// Inserting an item whose name is new keeps the names distinct.
proof fn lemma_insert_keeps_distinct(s: Seq<CacheDirEntry>, x: CacheDirEntry)
    requires
        names_distinct(s),
        forall|k: int| 0 <= k < s.len() ==> (#[trigger] s[k]).name@ != x.name@,
    ensures
        names_distinct(insert_by_name_desc(s, x)),
    decreases s.len(),
{
    let r = insert_by_name_desc(s, x);
    if s.len() == 0 {
    } else if bytes_lt(s[0].name@, x.name@) {
        assert forall|i: int, j: int| 0 <= i < j < r.len() implies r[i].name@ != r[j].name@ by {
            if i == 0 {
                assert(r[j] == s[j - 1]);
            } else {
                assert(r[i] == s[i - 1] && r[j] == s[j - 1]);
            }
        }
    } else {
        let t = s.drop_first();
        assert forall|k: int| 0 <= k < t.len() implies (#[trigger] t[k]).name@ != x.name@ by {
            assert(t[k] == s[k + 1]);
        }
        assert(names_distinct(t)) by {
            assert forall|i: int, j: int| 0 <= i < j < t.len() implies t[i].name@ != t[j].name@ by {
                assert(t[i] == s[i + 1] && t[j] == s[j + 1]);
            }
        }
        lemma_insert_keeps_distinct(t, x);
        lemma_insert_members(t, x);
        let u = insert_by_name_desc(t, x);
        assert forall|i: int, j: int| 0 <= i < j < r.len() implies r[i].name@ != r[j].name@ by {
            if i == 0 {
                assert(r[j] == u[j - 1]);
                if u[j - 1] != x {
                    let k: int = choose|k: int| 0 <= k < t.len() && t[k] == u[j - 1];
                    assert(s[k + 1] == u[j - 1]);
                }
            } else {
                assert(r[i] == u[i - 1] && r[j] == u[j - 1]);
            }
        }
    }
}

/// Sorting keeps the names distinct.
proof fn lemma_sort_keeps_distinct(s: Seq<CacheDirEntry>)
    requires
        names_distinct(s),
    ensures
        names_distinct(sort_by_name_desc(s)),
    decreases s.len(),
{
    if s.len() > 0 {
        let t = s.drop_last();
        assert(names_distinct(t));
        lemma_sort_keeps_distinct(t);
        lemma_sort_members(t);
        let st = sort_by_name_desc(t);
        assert forall|k: int| 0 <= k < st.len() implies (#[trigger] st[k]).name@ != s.last().name@ by {
            let a: int = choose|a: int| 0 <= a < t.len() && t[a] == st[k];
            assert(s[a] == st[k]);
        }
        lemma_insert_keeps_distinct(st, s.last());
    }
}

/// A descending sequence with distinct names is strictly descending.
proof fn lemma_strictly_descending(s: Seq<CacheDirEntry>)
    requires
        names_descending(s),
        names_distinct(s),
    ensures
        names_strictly_descending(s),
{
    assert forall|i: int, j: int| 0 <= i < j < s.len() implies bytes_lt(s[j].name@, s[i].name@) by {
        if !bytes_lt(s[j].name@, s[i].name@) {
            lemma_bytes_lt_total(s[i].name@, s[j].name@);
        }
    }
}

/// Keeping some items of a strictly descending sequence keeps it strictly descending.
proof fn lemma_filter_strictly_descending(s: Seq<CacheDirEntry>, pred: spec_fn(CacheDirEntry) -> bool)
    requires
        names_strictly_descending(s),
    ensures
        names_strictly_descending(s.filter(pred)),
        forall|k: int| 0 <= k < s.filter(pred).len() ==> s.contains(#[trigger] s.filter(pred)[k]),
    decreases s.len(),
{
    reveal(Seq::filter);
    if s.len() > 0 {
        let t = s.drop_last();
        assert(names_strictly_descending(t));
        lemma_filter_strictly_descending(t, pred);
        let ft = t.filter(pred);
        assert forall|k: int| 0 <= k < ft.len() implies bytes_lt(s.last().name@, (#[trigger] ft[k]).name@) by {
            let a: int = choose|a: int| 0 <= a < t.len() && t[a] == ft[k];
            assert(s[a] == ft[k]);
        }
        let fs = s.filter(pred);
        assert forall|k: int| 0 <= k < fs.len() implies s.contains(#[trigger] fs[k]) by {
            if k < ft.len() {
                let a: int = choose|a: int| 0 <= a < t.len() && t[a] == ft[k];
                assert(s[a] == fs[k]);
            } else {
                assert(s[s.len() - 1] == fs[k]);
            }
        }
    }
}

/// Two strictly descending sequences with the same items are the same.
proof fn lemma_strictly_descending_unique(a: Seq<CacheDirEntry>, b: Seq<CacheDirEntry>)
    requires
        names_strictly_descending(a),
        names_strictly_descending(b),
        a.to_multiset() == b.to_multiset(),
    ensures
        a == b,
    decreases a.len(),
{
    broadcast use vstd::seq_lib::group_to_multiset_ensures;
    a.to_multiset_ensures();
    b.to_multiset_ensures();
    if a.len() == 0 {
        assert(a =~= b);
    } else {
        assert(a.contains(a[0]));
        assert(a.to_multiset().count(a[0]) > 0);
        assert(b.contains(a[0]));
        assert(b.contains(b[0]));
        assert(b.to_multiset().count(b[0]) > 0);
        assert(a.contains(b[0]));
        let p: int = choose|p: int| 0 <= p < b.len() && b[p] == a[0];
        let q: int = choose|q: int| 0 <= q < a.len() && a[q] == b[0];
        if p > 0 && q > 0 {
            lemma_bytes_lt_transitive(a[0].name@, b[0].name@, a[0].name@);
            lemma_bytes_lt_irreflexive(a[0].name@);
        } else if p > 0 {
            lemma_bytes_lt_irreflexive(b[0].name@);
        }
        assert(a[0] == b[0]);
        let ra = a.remove(0);
        let rb = b.remove(0);
        assert(ra =~= a.drop_first());
        assert(rb =~= b.drop_first());
        assert(ra.to_multiset() =~= rb.to_multiset());
        assert(names_strictly_descending(ra));
        assert(names_strictly_descending(rb));
        lemma_strictly_descending_unique(ra, rb);
        assert(a =~= seq![a[0]] + ra);
        assert(b =~= seq![b[0]] + rb);
    }
}

/// A second cleanup of the directory that a first one left, whatever order the directory
/// is listed in, deletes nothing. A directory never holds two items of the same name.
pub proof fn lemma_second_cleanup_deletes_nothing(
    listing: Seq<CacheDirEntry>,
    max_entries: nat,
    relisted: Seq<CacheDirEntry>,
)
    requires
        names_distinct(listing),
        names_distinct(relisted),
        relisted.to_multiset() == left_after_cleanup(listing, max_entries).to_multiset(),
    ensures
        stale_entries(sort_by_name_desc(relisted), max_entries).len() == 0,
{
    broadcast use vstd::seq_lib::group_to_multiset_ensures;
    let k = max_entries + 1int;
    let sorted = sort_by_name_desc(listing);
    let left = left_after_cleanup(listing, max_entries);
    let again = sort_by_name_desc(relisted);
    lemma_sort_members(listing);
    lemma_sort_descending(listing);
    lemma_sort_keeps_distinct(listing);
    lemma_strictly_descending(sorted);
    lemma_sort_members(relisted);
    lemma_sort_descending(relisted);
    lemma_sort_keeps_distinct(relisted);
    lemma_strictly_descending(again);
    lemma_sort_permutes(relisted);
    if sorted.len() > k {
        let tail = sorted.subrange(k, sorted.len() as int);
        let keep = |d: CacheDirEntry| !is_removable(d);
        assert(names_strictly_descending(tail)) by {
            assert forall|i: int, j: int| 0 <= i < j < tail.len() implies bytes_lt(tail[j].name@, tail[i].name@) by {
                assert(tail[i] == sorted[k + i] && tail[j] == sorted[k + j]);
            }
        }
        lemma_filter_strictly_descending(tail, keep);
        let kept = tail.filter(keep);
        assert(names_strictly_descending(left)) by {
            assert forall|i: int, j: int| 0 <= i < j < left.len() implies bytes_lt(left[j].name@, left[i].name@) by {
                if j < k {
                    assert(left[i] == sorted[i] && left[j] == sorted[j]);
                } else if i < k {
                    assert(left[j] == kept[j - k]);
                    let t: int = choose|t: int| 0 <= t < tail.len() && tail[t] == kept[j - k];
                    assert(left[i] == sorted[i]);
                    assert(sorted[k + t] == left[j]);
                } else {
                    assert(left[i] == kept[i - k] && left[j] == kept[j - k]);
                }
            }
        }
        lemma_strictly_descending_unique(again, left);
        assert(again.subrange(k, again.len() as int) =~= kept);
        assert forall|d: CacheDirEntry| kept.contains(d) implies !is_removable(d) by {
            let t: int = choose|t: int| 0 <= t < kept.len() && kept[t] == d;
            tail.lemma_filter_pred(keep, t);
        }
        kept.lemma_all_neg_filter_empty(|d: CacheDirEntry| is_removable(d));
    } else {
        assert(left == sorted);
        assert(relisted.len() == relisted.to_multiset().len());
        assert(left.len() == left.to_multiset().len());
        assert(relisted.len() == left.len());
    }
}

/// Splitting a sequence by a predicate and its negation loses and adds nothing.
proof fn lemma_filter_partition(
    s: Seq<CacheDirEntry>,
    p: spec_fn(CacheDirEntry) -> bool,
    q: spec_fn(CacheDirEntry) -> bool,
)
    requires
        forall|d: CacheDirEntry| #[trigger] q(d) == !p(d),
    ensures
        s.filter(p).to_multiset().add(s.filter(q).to_multiset()) == s.to_multiset(),
    decreases s.len(),
{
    broadcast use vstd::seq_lib::group_to_multiset_ensures;
    reveal(Seq::filter);
    if s.len() == 0 {
        assert(s.filter(p).to_multiset().add(s.filter(q).to_multiset()) =~= s.to_multiset());
    } else {
        let t = s.drop_last();
        lemma_filter_partition(t, p, q);
        assert(t.push(s.last()) =~= s);
        assert(s.filter(p).to_multiset().add(s.filter(q).to_multiset()) =~= s.to_multiset());
    }
}

/// What a cleanup leaves, together with what it deletes, is the whole listing.
pub proof fn lemma_cleanup_leaves_the_rest(listing: Seq<CacheDirEntry>, max_entries: nat)
    ensures
        left_after_cleanup(listing, max_entries).to_multiset().add(
            stale_entries(sort_by_name_desc(listing), max_entries).to_multiset(),
        ) == listing.to_multiset(),
{
    broadcast use vstd::seq_lib::group_to_multiset_ensures;
    let k = max_entries + 1int;
    let sorted = sort_by_name_desc(listing);
    lemma_sort_permutes(listing);
    if sorted.len() > k {
        let tail = sorted.subrange(k, sorted.len() as int);
        let p = |d: CacheDirEntry| is_removable(d);
        let q = |d: CacheDirEntry| !is_removable(d);
        lemma_filter_partition(tail, p, q);
        assert(sorted =~= sorted.take(k) + tail);
        vstd::seq_lib::lemma_multiset_commutative(sorted.take(k), tail);
        vstd::seq_lib::lemma_multiset_commutative(sorted.take(k), tail.filter(q));
        assert(left_after_cleanup(listing, max_entries).to_multiset().add(
            stale_entries(sorted, max_entries).to_multiset(),
        ) =~= listing.to_multiset());
    } else {
        assert(left_after_cleanup(listing, max_entries).to_multiset().add(
            stale_entries(sorted, max_entries).to_multiset(),
        ) =~= listing.to_multiset());
    }
}

} // verus!
