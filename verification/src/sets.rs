//! Ordered sets of bytes and of 16-bit words.

use vstd::prelude::*;

verus! {

/// A set of bytes.
pub struct ByteSet {
    present: Vec<bool>,
}

/// The members of a set of bytes in ascending order.
pub open spec fn ascending_bytes(set: Set<u8>) -> Seq<u8> {
    Seq::new(256, |i: int| i as u8).filter(|byte: u8| set.contains(byte))
}

impl View for ByteSet {
    type V = Set<u8>;

    closed spec fn view(&self) -> Set<u8> {
        Set::new(|byte: u8| self.present@[byte as int])
    }
}

impl ByteSet {
    #[verifier::type_invariant]
    spec fn wf(self) -> bool {
        self.present@.len() == 256
    }

    /// The empty set.
    pub fn new() -> (set: Self)
        ensures
            set@ == Set::<u8>::empty(),
    {
        let mut present: Vec<bool> = Vec::new();
        let mut i: usize = 0;
        while i < 256
            invariant
                i <= 256,
                present@.len() == i,
                forall|k: int| 0 <= k < i ==> !present@[k],
            decreases 256 - i,
        {
            present.push(false);
            i = i + 1;
        }
        let set = ByteSet { present };
        assert(set@ =~= Set::<u8>::empty());
        set
    }

    /// Whether `byte` is a member.
    pub fn contains(&self, byte: u8) -> (found: bool)
        ensures
            found == self@.contains(byte),
    {
        proof {
            use_type_invariant(&*self);
        }
        self.present[byte as usize]
    }

    /// Adds `byte` and says whether it was new.
    pub fn insert(&mut self, byte: u8) -> (fresh: bool)
        ensures
            fresh == !old(self)@.contains(byte),
            final(self)@ == old(self)@.insert(byte),
    {
        proof {
            use_type_invariant(&*self);
        }
        let fresh = !self.present[byte as usize];
        let mut present: Vec<bool> = Vec::new();
        let mut i: usize = 0;
        while i < 256
            invariant
                i <= 256,
                self.present@.len() == 256,
                present@.len() == i,
                forall|k: int| 0 <= k < i ==> present@[k] == (self.present@[k] || k == byte),
            decreases 256 - i,
        {
            present.push(self.present[i] || i == byte as usize);
            i = i + 1;
        }
        *self = ByteSet { present };
        assert(self@ =~= old(self)@.insert(byte));
        fresh
    }

    /// Whether both sets have the same members.
    pub fn same(&self, other: &ByteSet) -> (equal: bool)
        ensures
            equal == (self@ == other@),
    {
        proof {
            use_type_invariant(&*self);
            use_type_invariant(&*other);
        }
        let mut i: usize = 0;
        while i < 256
            invariant
                i <= 256,
                self.present@.len() == 256,
                other.present@.len() == 256,
                forall|k: int| 0 <= k < i ==> self.present@[k] == other.present@[k],
            decreases 256 - i,
        {
            if self.present[i] != other.present[i] {
                assert(self@.contains(i as u8) != other@.contains(i as u8));
                return false;
            }
            i = i + 1;
        }
        assert(self@ =~= other@);
        true
    }

    /// The members in ascending order.
    pub fn to_vec(&self) -> (members: Vec<u8>)
        ensures
            members@ == ascending_bytes(self@),
    {
        proof {
            use_type_invariant(&*self);
        }
        let ghost all = Seq::new(256, |i: int| i as u8);
        let ghost pred = |byte: u8| self@.contains(byte);
        let mut members: Vec<u8> = Vec::new();
        let mut i: usize = 0;
        assert(all.take(0).filter(pred) =~= Seq::<u8>::empty());
        while i < 256
            invariant
                i <= 256,
                self.present@.len() == 256,
                all == Seq::new(256, |i: int| i as u8),
                pred == (|byte: u8| self@.contains(byte)),
                members@ == all.take(i as int).filter(pred),
            decreases 256 - i,
        {
            proof {
                assert(all.take(i + 1) =~= all.take(i as int).push(i as u8));
                all.take(i as int).lemma_filter_push(i as u8, pred);
            }
            if self.present[i] {
                members.push(i as u8);
            }
            i = i + 1;
        }
        assert(all.take(256) =~= all);
        members
    }
}

/// The members of a set in ascending order: each member comes before every larger one.
pub proof fn lemma_ascending_bytes(set: Set<u8>)
    ensures
        forall|i: int, j: int|
            0 <= i < j < ascending_bytes(set).len() ==> ascending_bytes(set)[i] < ascending_bytes(
                set,
            )[j],
        forall|byte: u8| #[trigger] ascending_bytes(set).contains(byte) <==> set.contains(byte),
        ascending_bytes(set).len() <= 256,
{
    let all = Seq::new(256, |i: int| i as u8);
    let pred = |byte: u8| set.contains(byte);
    let key = |byte: u8| byte as int;
    lemma_filter_ascending(all, key, pred);
    assert forall|i: int, j: int|
        0 <= i < j < ascending_bytes(set).len() implies ascending_bytes(set)[i] < ascending_bytes(
        set,
    )[j] by {
        assert(key(all.filter(pred)[i]) < key(all.filter(pred)[j]));
    }
    all.lemma_filter_len(pred);
    assert forall|byte: u8| #[trigger] ascending_bytes(set).contains(byte) <==> set.contains(
        byte,
    ) by {
        assert(all[byte as int] == byte);
        if set.contains(byte) {
            all.lemma_filter_contains(pred, byte as int);
        }
        if ascending_bytes(set).contains(byte) {
            let i = choose|i: int|
                0 <= i < ascending_bytes(set).len() && ascending_bytes(set)[i] == byte;
            all.lemma_filter_pred(pred, i);
        }
    }
}

/// Filtering keeps the order of what it keeps.
proof fn lemma_filter_ascending<T>(
    all: Seq<T>,
    key: spec_fn(T) -> int,
    pred: spec_fn(T) -> bool,
)
    requires
        forall|i: int, j: int| 0 <= i < j < all.len() ==> key(all[i]) < key(all[j]),
    ensures
        forall|i: int, j: int|
            0 <= i < j < all.filter(pred).len() ==> key(all.filter(pred)[i]) < key(
                all.filter(pred)[j],
            ),
        forall|i: int|
            0 <= i < all.filter(pred).len() ==> all.contains(#[trigger] all.filter(pred)[i]),
    decreases all.len(),
{
    reveal(Seq::filter);
    if all.len() > 0 {
        let init = all.drop_last();
        lemma_filter_ascending(init, key, pred);
        assert forall|i: int| 0 <= i < all.filter(pred).len() implies all.contains(
            #[trigger] all.filter(pred)[i],
        ) by {
            if i < init.filter(pred).len() {
                let item = init.filter(pred)[i];
                assert(init.contains(item));
                let k = choose|k: int| 0 <= k < init.len() && init[k] == item;
                assert(all[k] == item);
            } else {
                assert(all[all.len() - 1] == all.filter(pred)[i]);
            }
        }
        assert forall|i: int, j: int|
            0 <= i < j < all.filter(pred).len() implies key(all.filter(pred)[i]) < key(
            all.filter(pred)[j],
        ) by {
            if j >= init.filter(pred).len() {
                let item = init.filter(pred)[i];
                assert(init.contains(item));
                let k = choose|k: int| 0 <= k < init.len() && init[k] == item;
                assert(key(all[k]) < key(all[all.len() - 1]));
            }
        }
    }
}

/// Whether `words` is strictly increasing.
pub open spec fn strictly_increasing(words: Seq<u16>) -> bool {
    forall|i: int, j: int| 0 <= i < j < words.len() ==> words[i] < words[j]
}

/// The distinct members of `words` in ascending order.
pub open spec fn ascending_words(words: Seq<u16>) -> Seq<u16> {
    choose|sorted: Seq<u16>| #[trigger]
        strictly_increasing(sorted) && sorted.to_set() == words.to_set()
}

/// The distinct members of words in ascending order are strictly increasing, and they are the
/// members of the words.
pub proof fn lemma_ascending_words(words: Seq<u16>)
    ensures
        strictly_increasing(ascending_words(words)),
        ascending_words(words).to_set() == words.to_set(),
{
    let all = Seq::new(65536, |i: int| i as u16);
    let pred = |word: u16| words.contains(word);
    let key = |word: u16| word as int;
    let sorted = all.filter(pred);
    lemma_filter_ascending(all, key, pred);
    assert(strictly_increasing(sorted)) by {
        assert forall|i: int, j: int| 0 <= i < j < sorted.len() implies sorted[i] < sorted[j] by {
            assert(key(sorted[i]) < key(sorted[j]));
        }
    }
    assert forall|word: u16| sorted.to_set().contains(word) <==> words.to_set().contains(word) by {
        assert(all[word as int] == word);
        if words.contains(word) {
            all.lemma_filter_contains(pred, word as int);
        }
        if sorted.contains(word) {
            let i = choose|i: int| 0 <= i < sorted.len() && sorted[i] == word;
            all.lemma_filter_pred(pred, i);
        }
    }
    assert(sorted.to_set() =~= words.to_set());
}

/// Two strictly increasing sequences with the same members are equal.
pub proof fn lemma_increasing_unique(a: Seq<u16>, b: Seq<u16>)
    requires
        strictly_increasing(a),
        strictly_increasing(b),
        a.to_set() == b.to_set(),
    ensures
        a == b,
    decreases a.len(),
{
    assert(forall|x: u16| a.contains(x) <==> a.to_set().contains(x));
    assert(forall|x: u16| b.contains(x) <==> b.to_set().contains(x));
    if a.len() == 0 {
        if b.len() > 0 {
            assert(b.contains(b[0]));
        }
    } else if b.len() == 0 {
        assert(a.contains(a[0]));
    } else {
        assert(a.contains(a.last()));
        assert(b.contains(b.last()));
        assert(b.contains(a.last()));
        assert(a.contains(b.last()));
        assert(a.last() == b.last());
        let a1 = a.drop_last();
        let b1 = b.drop_last();
        assert forall|x: u16| a1.to_set().contains(x) <==> b1.to_set().contains(x) by {
            if a1.contains(x) {
                let k = choose|k: int| 0 <= k < a1.len() && a1[k] == x;
                assert(a[k] == x);
                assert(b.contains(x));
                let m = choose|m: int| 0 <= m < b.len() && b[m] == x;
                assert(b1[m] == x);
            }
            if b1.contains(x) {
                let k = choose|k: int| 0 <= k < b1.len() && b1[k] == x;
                assert(b[k] == x);
                assert(a.contains(x));
                let m = choose|m: int| 0 <= m < a.len() && a[m] == x;
                assert(a1[m] == x);
            }
        }
        assert(a1.to_set() =~= b1.to_set());
        lemma_increasing_unique(a1, b1);
        assert(a =~= a1.push(a.last()));
        assert(b =~= b1.push(b.last()));
    }
}

/// Adds a word to a strictly increasing vector unless it is there already.
pub fn insert_word(sorted: &mut Vec<u16>, word: u16)
    requires
        strictly_increasing(old(sorted)@),
    ensures
        strictly_increasing(final(sorted)@),
        final(sorted)@.to_set() == old(sorted)@.to_set().insert(word),
        final(sorted)@.len() <= old(sorted)@.len() + 1,
{
    let mut i: usize = 0;
    while i < sorted.len() && sorted[i] < word
        invariant
            i <= sorted@.len(),
            sorted@ == old(sorted)@,
            forall|k: int| 0 <= k < i ==> sorted@[k] < word,
        decreases sorted@.len() - i,
    {
        i = i + 1;
    }
    let ghost before = sorted@;
    if i < sorted.len() && sorted[i] == word {
        assert(before.contains(word));
        assert(before.to_set() =~= before.to_set().insert(word));
        return ;
    }
    sorted.insert(i, word);
    proof {
        assert(sorted@ == before.insert(i as int, word));
        assert forall|x: u16| sorted@.to_set().contains(x) <==> before.to_set().insert(
            word,
        ).contains(x) by {
            if sorted@.contains(x) {
                let k = choose|k: int| 0 <= k < sorted@.len() && sorted@[k] == x;
                if k < i {
                    assert(before[k] == x);
                } else if k > i {
                    assert(before[k - 1] == x);
                }
            }
            if before.contains(x) {
                let k = choose|k: int| 0 <= k < before.len() && before[k] == x;
                if k < i {
                    assert(sorted@[k] == x);
                } else {
                    assert(sorted@[k + 1] == x);
                }
            }
            if x == word {
                assert(sorted@[i as int] == x);
            }
        }
        assert(sorted@.to_set() =~= before.to_set().insert(word));
    }
}

} // verus!
