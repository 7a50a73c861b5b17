//! The list kept item by item: every item sits in the store under a key of
//! its own, a number written in decimal, and the order of the list is the
//! numeric order of the keys.

use vstd::prelude::*;
use vstd::seq_lib::{to_multiset_build, to_multiset_insert};
use vstd::string::*;
use crate::decimal::{decimal_string, decimal_text, lemma_decimal_text_parses, parse_decimal, parsed};
use crate::failure::Failure;

verus! {

/// One stored item: the key as the store holds it, and the item.
#[derive(Clone, Debug, PartialEq, Eq)]
pub struct KeyedItem {
    pub key: String,
    pub value: String,
}

impl View for KeyedItem {
    /// The key and the item.
    type V = (Seq<char>, Seq<char>);

    open spec fn view(&self) -> (Seq<char>, Seq<char>) {
        (self.key@, self.value@)
    }
}

/// The views of the entries, in their order.
pub open spec fn entries_view(entries: Seq<KeyedItem>) -> Seq<(Seq<char>, Seq<char>)> {
    Seq::new(entries.len(), |i: int| entries[i]@)
}

/// The number that a stored key denotes, if it denotes one that fits.
pub open spec fn key_number(key: Seq<char>) -> Option<nat> {
    parsed(key, u64::MAX as nat)
}

/// The number by which an entry is ordered: what its key denotes, and zero
/// for a key that denotes nothing.
pub open spec fn sort_key_of(key: Seq<char>) -> nat {
    match key_number(key) {
        Some(n) => n,
        None => 0,
    }
}

/// Whether some entry sits under `key`.
pub open spec fn has_key(entries: Seq<(Seq<char>, Seq<char>)>, key: Seq<char>) -> bool {
    exists|i: int| 0 <= i < entries.len() && (#[trigger] entries[i]).0 == key
}

/// Whether no key occurs twice.
pub open spec fn unique_keys(entries: Seq<(Seq<char>, Seq<char>)>) -> bool {
    forall|i: int, j: int|
        0 <= i < j < entries.len() ==> (#[trigger] entries[i]).0 != (#[trigger] entries[j]).0
}

/// Whether every key denotes a number.
pub open spec fn keys_parse(entries: Seq<(Seq<char>, Seq<char>)>) -> bool {
    forall|i: int| 0 <= i < entries.len() ==> key_number((#[trigger] entries[i]).0) is Some
}

/// Whether `next` is the key that the next item gets: zero in an empty
/// store, and otherwise one more than the largest number among the keys.
pub open spec fn is_next_key(entries: Seq<(Seq<char>, Seq<char>)>, next: nat) -> bool {
    &&& keys_parse(entries)
    &&& forall|i: int| 0 <= i < entries.len() ==> key_number((#[trigger] entries[i]).0)->0 < next
    &&& entries.len() == 0 ==> next == 0
    &&& entries.len() > 0 ==> exists|i: int|
        0 <= i < entries.len() && key_number((#[trigger] entries[i]).0)->0 + 1 == next
}

/// Whether every key denotes a number and `largest` is the largest of those
/// numbers.
pub open spec fn is_largest_key(entries: Seq<(Seq<char>, Seq<char>)>, largest: nat) -> bool {
    &&& keys_parse(entries)
    &&& exists|i: int|
        0 <= i < entries.len() && key_number((#[trigger] entries[i]).0) == Some(largest)
    &&& forall|i: int|
        0 <= i < entries.len() ==> key_number((#[trigger] entries[i]).0)->0 <= largest
}

/// Whether the entries stand in ascending order of the numbers by which
/// they are ordered.
pub open spec fn ascending(entries: Seq<(Seq<char>, Seq<char>)>) -> bool {
    forall|i: int, j: int|
        0 <= i < j < entries.len() ==> sort_key_of((#[trigger] entries[i]).0) <= sort_key_of(
            (#[trigger] entries[j]).0,
        )
}

/// The test that picks the entries ordered by the number `k`.
pub open spec fn has_sort_key(k: nat) -> spec_fn((Seq<char>, Seq<char>)) -> bool {
    |entry: (Seq<char>, Seq<char>)| sort_key_of(entry.0) == k
}

/// The entries that are ordered by the number `k`, in their order.
pub open spec fn with_sort_key(entries: Seq<(Seq<char>, Seq<char>)>, k: nat) -> Seq<
    (Seq<char>, Seq<char>),
> {
    entries.filter(has_sort_key(k))
}

/// Parses a field that holds a key.
pub fn parse_key(field: &str) -> (key: Result<u64, Failure>)
    ensures
        match key {
            Ok(n) => key_number(field@) == Some(n as nat),
            Err(e) => e == Failure::Parse && key_number(field@) is None,
        },
{
    match parse_decimal(field, u64::MAX) {
        Some(n) => Ok(n),
        None => Err(Failure::Parse),
    }
}

/// The number by which the entry under `key` is ordered.
pub fn sort_key(key: &str) -> (k: u64)
    ensures
        k as nat == sort_key_of(key@),
{
    match parse_decimal(key, u64::MAX) {
        Some(n) => n,
        None => 0,
    }
}

/// Putting `x` before the first entry that is ordered by a larger number
/// leaves every group of equally ordered entries as it was, but for the group
/// of `x`, which gains `x` at its end.
proof fn lemma_insert_keeps_groups(
    s: Seq<(Seq<char>, Seq<char>)>,
    pos: int,
    x: (Seq<char>, Seq<char>),
    k: nat,
)
    requires
        0 <= pos <= s.len(),
        forall|j: int| pos <= j < s.len() ==> sort_key_of((#[trigger] s[j]).0) > sort_key_of(x.0),
    ensures
        with_sort_key(s.insert(pos, x), k) == if sort_key_of(x.0) == k {
            with_sort_key(s, k).push(x)
        } else {
            with_sort_key(s, k)
        },
{
    let p = has_sort_key(k);
    let a = s.subrange(0, pos);
    let b = s.subrange(pos, s.len() as int);
    assert(s =~= a + b);
    assert(s.insert(pos, x) =~= a.push(x) + b);
    Seq::filter_distributes_over_add(a, b, p);
    Seq::filter_distributes_over_add(a.push(x), b, p);
    a.lemma_filter_push(x, p);
    if sort_key_of(x.0) == k {
        assert(b.all(|e: (Seq<char>, Seq<char>)| !p(e))) by {
            assert forall|j: int| 0 <= j < b.len() implies !p(#[trigger] b[j]) by {
                assert(b[j] == s[j + pos]);
            }
        }
        b.lemma_all_neg_filter_empty(p);
        assert(b.filter(p) =~= Seq::empty());
        assert(a.filter(p).push(x) + b.filter(p) =~= a.filter(p).push(x));
        assert(a.filter(p) + b.filter(p) =~= a.filter(p));
    }
}

/// In an empty store the next key is zero, and its text is `0`.
pub proof fn lemma_first_key_is_zero()
    ensures
        is_next_key(Seq::empty(), 0),
        decimal_text(0) == seq!['0'],
{
    assert(decimal_text(0) =~= seq!['0']);
}

/// Where every key is a number and `largest` is the largest of them, the
/// next key is one more than `largest`.
pub proof fn lemma_next_key_follows_largest(entries: Seq<(Seq<char>, Seq<char>)>, largest: nat)
    requires
        is_largest_key(entries, largest),
    ensures
        is_next_key(entries, largest + 1),
{
    let i = choose|i: int|
        0 <= i < entries.len() && key_number((#[trigger] entries[i]).0) == Some(largest);
    assert(key_number(entries[i].0)->0 + 1 == largest + 1);
}

/// The next key is under no entry yet: its text differs from every key.
pub proof fn lemma_next_key_is_fresh(entries: Seq<(Seq<char>, Seq<char>)>, next: nat)
    requires
        is_next_key(entries, next),
        next <= u64::MAX,
    ensures
        !has_key(entries, decimal_text(next)),
{
    lemma_decimal_text_parses(next, u64::MAX as nat);
}

/// At most one number is the next key of given entries.
pub proof fn lemma_next_key_is_unique(entries: Seq<(Seq<char>, Seq<char>)>, a: nat, b: nat)
    requires
        is_next_key(entries, a),
        is_next_key(entries, b),
    ensures
        a == b,
{
}

/// A snapshot of the keyed store: its entries in the order in which the
/// store listed them. No key occurs twice.
pub struct KeyedStore {
    entries: Vec<KeyedItem>,
}

impl View for KeyedStore {
    type V = Seq<(Seq<char>, Seq<char>)>;

    closed spec fn view(&self) -> Seq<(Seq<char>, Seq<char>)> {
        entries_view(self.entries@)
    }
}

impl KeyedStore {
    #[verifier::type_invariant]
    spec fn keys_are_unique(self) -> bool {
        unique_keys(entries_view(self.entries@))
    }

    /// The snapshot of an empty store.
    pub fn new() -> (store: KeyedStore)
        ensures
            store@ == Seq::<(Seq<char>, Seq<char>)>::empty(),
    {
        let store = KeyedStore { entries: Vec::new() };
        assert(store@ =~= Seq::<(Seq<char>, Seq<char>)>::empty());
        store
    }

    /// The snapshot that holds `entries`, unless a key occurs twice among
    /// them.
    pub fn from_entries(entries: Vec<KeyedItem>) -> (store: Option<KeyedStore>)
        ensures
            match store {
                Some(s) => s@ == entries_view(entries@) && unique_keys(s@),
                None => !unique_keys(entries_view(entries@)),
            },
    {
        let ghost view = entries_view(entries@);
        let n: usize = entries.len();
        let mut j: usize = 0;
        while j < n
            invariant
                j <= n,
                n == entries@.len(),
                view == entries_view(entries@),
                forall|a: int, b: int|
                    0 <= a < b < j ==> (#[trigger] view[a]).0 != (#[trigger] view[b]).0,
            decreases n - j,
        {
            let mut i: usize = 0;
            while i < j
                invariant
                    i <= j < n,
                    n == entries@.len(),
                    view == entries_view(entries@),
                    forall|a: int| 0 <= a < i ==> (#[trigger] view[a]).0 != view[j as int].0,
                decreases j - i,
            {
                if entries[i].key == entries[j].key {
                    assert(view[i as int].0 == view[j as int].0);
                    return None;
                }
                i = i + 1;
            }
            j = j + 1;
        }
        Some(KeyedStore { entries })
    }

    /// The entries, in the order of the snapshot.
    pub fn entries(&self) -> (entries: &Vec<KeyedItem>)
        ensures
            entries_view(entries@) == self@,
            unique_keys(self@),
    {
        proof {
            use_type_invariant(self);
        }
        &self.entries
    }

    /// The key that the next item gets.
    ///
    /// Every key is read as a number. A key that is none makes the scan fail
    /// as a parse failure; so the scan never guesses. Where the largest key is
    /// the largest number that fits, no key is left and the item cannot be
    /// written.
    pub fn next_key(&self) -> (next: Result<u64, Failure>)
        ensures
            match next {
                Ok(n) => is_next_key(self@, n as nat),
                Err(e) => if keys_parse(self@) {
                    e == Failure::StoreWrite && is_next_key(self@, u64::MAX as nat + 1)
                } else {
                    e == Failure::Parse
                },
            },
            self@.len() == 0 ==> next == Ok::<u64, Failure>(0),
            forall|largest: nat|
                #[trigger] is_largest_key(self@, largest) && largest < u64::MAX ==> next == Ok::<
                    u64,
                    Failure,
                >((largest + 1) as u64),
    {
        let n: usize = self.entries.len();
        let mut largest: Option<u64> = None;
        let mut i: usize = 0;
        while i < n
            invariant
                i <= n,
                n == self.entries@.len(),
                forall|a: int| 0 <= a < i ==> key_number((#[trigger] self@[a]).0) is Some,
                forall|a: int|
                    0 <= a < i ==> largest is Some && key_number((#[trigger] self@[a]).0)->0
                        <= largest->0,
                largest is None ==> i == 0,
                largest is Some ==> exists|a: int|
                    0 <= a < i && key_number((#[trigger] self@[a]).0)->0 == largest->0,
            decreases n - i,
        {
            match parse_key(self.entries[i].key.as_str()) {
                Ok(k) => {
                    let grows = match largest {
                        Some(m) => k > m,
                        None => true,
                    };
                    if grows {
                        largest = Some(k);
                    }
                },
                Err(e) => {
                    assert(key_number(self@[i as int].0) is None);
                    return Err(e);
                },
            }
            i = i + 1;
        }
        match largest {
            None => Ok(0),
            Some(m) => {
                if m == u64::MAX {
                    Err(Failure::StoreWrite)
                } else {
                    Ok(m + 1)
                }
            },
        }
    }

    /// Stores `item` under the next key and returns that key. The caller
    /// writes the item to the store under the key's decimal text.
    pub fn append(&mut self, item: String) -> (assigned: Result<u64, Failure>)
        ensures
            match assigned {
                Ok(key) => is_next_key(old(self)@, key as nat) && !has_key(
                    old(self)@,
                    decimal_text(key as nat),
                ) && final(self)@ == old(self)@.push((decimal_text(key as nat), item@)),
                Err(e) => final(self)@ == old(self)@ && if keys_parse(old(self)@) {
                    e == Failure::StoreWrite && is_next_key(old(self)@, u64::MAX as nat + 1)
                } else {
                    e == Failure::Parse
                },
            },
            old(self)@.len() == 0 ==> assigned == Ok::<u64, Failure>(0) && final(self)@ == seq![
                (decimal_text(0), item@),
            ],
            forall|largest: nat|
                #[trigger] is_largest_key(old(self)@, largest) && largest < u64::MAX ==> assigned
                    == Ok::<u64, Failure>((largest + 1) as u64) && final(self)@ == old(self)@.push(
                    (decimal_text(largest + 1), item@),
                ),
            unique_keys(old(self)@),
            unique_keys(final(self)@),
    {
        proof {
            use_type_invariant(&*self);
        }
        let key = match self.next_key() {
            Ok(key) => key,
            Err(e) => {
                return Err(e);
            },
        };
        let text = decimal_string(key);
        proof {
            use_type_invariant(&*self);
            lemma_next_key_is_fresh(self@, key as nat);
        }
        let ghost before = self@;
        let mut entries: Vec<KeyedItem> = Vec::new();
        std::mem::swap(&mut entries, &mut self.entries);
        entries.push(KeyedItem { key: text, value: item });
        assert(entries_view(entries@) =~= before.push((decimal_text(key as nat), item@)));
        self.entries = entries;
        proof {
            use_type_invariant(&*self);
            if before.len() == 0 {
                assert(self@ =~= seq![(decimal_text(0), item@)]);
            }
        }
        Ok(key)
    }

    /// The item under the decimal text of `key`.
    pub fn get(&self, key: u64) -> (item: Result<&String, Failure>)
        ensures
            match item {
                Ok(value) => self@.contains((decimal_text(key as nat), value@)),
                Err(e) => e == Failure::NotFound && !has_key(self@, decimal_text(key as nat)),
            },
    {
        let text = decimal_string(key);
        let n: usize = self.entries.len();
        let mut i: usize = 0;
        while i < n
            invariant
                i <= n,
                n == self.entries@.len(),
                text@ == decimal_text(key as nat),
                forall|a: int| 0 <= a < i ==> (#[trigger] self@[a]).0 != text@,
            decreases n - i,
        {
            if self.entries[i].key == text {
                assert(self@[i as int] == (text@, self.entries@[i as int].value@));
                return Ok(&self.entries[i].value);
            }
            i = i + 1;
        }
        Err(Failure::NotFound)
    }

    /// Removes the entry under the decimal text of `key`; the others keep
    /// their order. Where there is none, nothing changes: deleting twice is
    /// deleting once.
    pub fn delete(&mut self, key: u64)
        ensures
            !has_key(old(self)@, decimal_text(key as nat)) ==> final(self)@ == old(self)@,
            forall|i: int|
                0 <= i < old(self)@.len() && (#[trigger] old(self)@[i]).0 == decimal_text(
                    key as nat,
                ) ==> final(self)@ == old(self)@.remove(i),
            !has_key(final(self)@, decimal_text(key as nat)),
    {
        let text = decimal_string(key);
        proof {
            use_type_invariant(&*self);
        }
        let ghost before = self@;
        let n: usize = self.entries.len();
        let mut i: usize = 0;
        while i < n
            invariant
                i <= n,
                n == self.entries@.len(),
                self@ == before,
                *self == *old(self),
                unique_keys(before),
                text@ == decimal_text(key as nat),
                forall|a: int| 0 <= a < i ==> (#[trigger] before[a]).0 != text@,
            decreases n - i,
        {
            if self.entries[i].key == text {
                assert(before[i as int].0 == text@);
                let mut entries: Vec<KeyedItem> = Vec::new();
                std::mem::swap(&mut entries, &mut self.entries);
                let _ = entries.remove(i);
                assert(entries_view(entries@) =~= before.remove(i as int));
                self.entries = entries;
                return ;
            }
            i = i + 1;
        }
    }

    /// The entries in ascending order of the numbers that their keys
    /// denote. A key that denotes no number counts as zero, so its entry
    /// comes to the front. Entries that are ordered by the same number keep
    /// the order of the snapshot.
    pub fn list(&self) -> (listing: Vec<KeyedItem>)
        ensures
            entries_view(listing@).to_multiset() == self@.to_multiset(),
            ascending(entries_view(listing@)),
            forall|k: nat| with_sort_key(entries_view(listing@), k) == with_sort_key(self@, k),
    {
        let n: usize = self.entries.len();
        let mut listing: Vec<KeyedItem> = Vec::new();
        let mut numbers: Vec<u64> = Vec::new();
        let mut i: usize = 0;
        assert(entries_view(listing@) =~= self@.take(0));
        while i < n
            invariant
                i <= n,
                n == self.entries@.len(),
                numbers@.len() == listing@.len(),
                forall|a: int|
                    0 <= a < listing@.len() ==> (#[trigger] numbers@[a]) as nat == sort_key_of(
                        entries_view(listing@)[a].0,
                    ),
                forall|a: int, b: int|
                    0 <= a < b < numbers@.len() ==> (#[trigger] numbers@[a]) <= (
                    #[trigger] numbers@[b]),
                entries_view(listing@).to_multiset() == self@.take(i as int).to_multiset(),
                forall|k: nat|
                    with_sort_key(entries_view(listing@), k) == with_sort_key(
                        self@.take(i as int),
                        k,
                    ),
            decreases n - i,
        {
            let entry = &self.entries[i];
            let number = sort_key(entry.key.as_str());
            let mut pos: usize = 0;
            while pos < numbers.len() && numbers[pos] <= number
                invariant
                    pos <= numbers@.len(),
                    forall|a: int| 0 <= a < pos ==> (#[trigger] numbers@[a]) <= number,
                decreases numbers@.len() - pos,
            {
                pos = pos + 1;
            }
            let copy = KeyedItem { key: entry.key.clone(), value: entry.value.clone() };
            let ghost x = self@[i as int];
            let ghost sorted = entries_view(listing@);
            let ghost seen = self@.take(i as int);
            let ghost ranks = numbers@;
            assert forall|j: int| pos <= j < sorted.len() implies sort_key_of(
                (#[trigger] sorted[j]).0,
            ) > number by {
                assert(ranks[pos as int] <= ranks[j]);
            }
            listing.insert(pos, copy);
            numbers.insert(pos, number);
            proof {
                assert(copy@ == x);
                assert(numbers@ =~= ranks.insert(pos as int, number));
                assert(entries_view(listing@) =~= sorted.insert(pos as int, x));
                assert(self@.take(i + 1) =~= seen.push(x));
                to_multiset_insert(sorted, pos as int, x);
                to_multiset_build(seen, x);
                assert forall|k: nat|
                    with_sort_key(entries_view(listing@), k) == with_sort_key(
                        self@.take(i + 1),
                        k,
                    ) by {
                    lemma_insert_keeps_groups(sorted, pos as int, x, k);
                    seen.lemma_filter_push(x, has_sort_key(k));
                }
            }
            i = i + 1;
        }
        assert(self@.take(n as int) =~= self@);
        assert forall|a: int, b: int| 0 <= a < b < listing@.len() implies sort_key_of(
            (#[trigger] entries_view(listing@)[a]).0,
        ) <= sort_key_of((#[trigger] entries_view(listing@)[b]).0) by {
            assert(numbers@[a] <= numbers@[b]);
        }
        listing
    }
}

} // verus!
