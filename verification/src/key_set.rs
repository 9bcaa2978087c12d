//! The set of key strings that decides which records are kept.

use vstd::prelude::*;
use vstd::utf8::{encode_utf8, encode_utf8_decode_utf8};

verus! {

/// Expected observations per key and day at five-minute granularity.
pub const OBSERVATIONS_PER_KEY: usize = 288;

/// `a` comes before `b` and they part at index `i`: they agree up to `i`,
/// and there `a` ends while `b` goes on, or `a` has the smaller byte.
spec fn precedes_at(a: Seq<u8>, b: Seq<u8>, i: int) -> bool {
    &&& 0 <= i <= a.len()
    &&& i <= b.len()
    &&& forall|j: int| 0 <= j < i ==> a[j] == b[j]
    &&& if i == a.len() {
        i < b.len()
    } else {
        i < b.len() && a[i] < b[i]
    }
}

/// `a` comes before `b` in the order of their bytes.
spec fn precedes(a: Seq<u8>, b: Seq<u8>) -> bool {
    exists|i: int| precedes_at(a, b, i)
}

proof fn lemma_precedes_transitive(a: Seq<u8>, b: Seq<u8>, c: Seq<u8>)
    requires
        precedes(a, b),
        precedes(b, c),
    ensures
        precedes(a, c),
{
    let i = choose|i: int| precedes_at(a, b, i);
    let k = choose|k: int| precedes_at(b, c, k);
    let m = if i <= k {
        i
    } else {
        k
    };
    assert(precedes_at(a, c, m));
}

proof fn lemma_precedes_differs(a: Seq<u8>, b: Seq<u8>)
    requires
        precedes(a, b),
    ensures
        a != b,
        !precedes(b, a),
{
    let i = choose|i: int| precedes_at(a, b, i);
    if precedes(b, a) {
        let k = choose|k: int| precedes_at(b, a, k);
        if i < k {
            assert(b[i] == a[i]);
        } else if k < i {
            assert(a[k] == b[k]);
        }
    }
}

/// Two texts with the same bytes are the same text.
proof fn lemma_same_bytes(a: Seq<char>, b: Seq<char>)
    requires
        encode_utf8(a) == encode_utf8(b),
    ensures
        a == b,
{
    encode_utf8_decode_utf8(a);
    encode_utf8_decode_utf8(b);
}

/// How one byte string stands to another.
enum Rank {
    Before,
    Same,
    After,
}

/// Ranks `a` against `b` by the first byte in which they differ.
fn rank(a: &[u8], b: &[u8]) -> (r: Rank)
    ensures
        r is Before ==> precedes(a@, b@),
        r is Same ==> a@ == b@,
        r is After ==> precedes(b@, a@),
{
    let mut i: usize = 0;
    while i < a.len() && i < b.len() && a[i] == b[i]
        invariant
            i <= a@.len(),
            i <= b@.len(),
            forall|j: int| 0 <= j < i ==> a@[j] == b@[j],
        decreases a@.len() - i,
    {
        i = i + 1;
    }
    if i == a.len() {
        if i == b.len() {
            assert(a@ =~= b@);
            Rank::Same
        } else {
            assert(precedes_at(a@, b@, i as int));
            Rank::Before
        }
    } else if i == b.len() {
        assert(precedes_at(b@, a@, i as int));
        Rank::After
    } else if a[i] < b[i] {
        assert(precedes_at(a@, b@, i as int));
        Rank::Before
    } else {
        assert(precedes_at(b@, a@, i as int));
        Rank::After
    }
}

/// A set of key strings, built once and read-only afterwards.
///
/// The keys are held in the order of their bytes, each once, so that a key
/// is found by halving and the number of stored strings is the size of the
/// set.
pub struct KeySet {
    keys: Vec<String>,
}

impl View for KeySet {
    type V = Set<Seq<char>>;

    closed spec fn view(&self) -> Set<Seq<char>> {
        self.texts().to_set()
    }
}

impl KeySet {
    /// The keys as they are stored.
    spec fn texts(&self) -> Seq<Seq<char>> {
        self.keys@.map_values(|s: String| s@)
    }

    /// The keys are stored in ascending order, none twice.
    pub closed spec fn wf(&self) -> bool {
        forall|i: int, j: int|
            0 <= i < j < self.texts().len() ==> precedes(
                encode_utf8(#[trigger] self.texts()[i]),
                encode_utf8(#[trigger] self.texts()[j]),
            )
    }

    /// The target quota of a run over this key set: its size times the
    /// expected observations per key.
    pub open spec fn spec_quota(&self) -> nat {
        self@.len() * (OBSERVATIONS_PER_KEY as nat)
    }

    /// A well-formed key set is finite.
    pub proof fn lemma_finite(&self)
        requires
            self.wf(),
        ensures
            self@.finite(),
    {
        vstd::seq_lib::seq_to_set_is_finite(self.texts());
    }

    proof fn lemma_len(&self)
        requires
            self.wf(),
        ensures
            self@.len() == self.keys@.len(),
    {
        let texts = self.texts();
        assert forall|i: int, j: int| 0 <= i < texts.len() && 0 <= j < texts.len() && i != j implies texts[i]
            != texts[j] by {
            if i < j {
                lemma_precedes_differs(encode_utf8(texts[i]), encode_utf8(texts[j]));
            } else {
                lemma_precedes_differs(encode_utf8(texts[j]), encode_utf8(texts[i]));
            }
        }
        texts.unique_seq_to_set();
    }

    /// The empty key set.
    pub fn new() -> (s: KeySet)
        ensures
            s.wf(),
            s@ == Set::<Seq<char>>::empty(),
    {
        let s = KeySet { keys: Vec::new() };
        assert(s.texts() =~= Seq::<Seq<char>>::empty());
        assert(s@ =~= Set::<Seq<char>>::empty());
        s
    }

    /// Looks for `key` by halving. Where it is found, says at which index;
    /// where it is not, says at which index it would have to be stored.
    fn locate(&self, key: &String) -> (place: (bool, usize))
        requires
            self.wf(),
        ensures
            place.1 <= self.texts().len(),
            place.0 ==> place.1 < self.texts().len() && self.texts()[place.1 as int] == key@,
            !place.0 ==> forall|j: int|
                0 <= j < place.1 ==> precedes(
                    encode_utf8(#[trigger] self.texts()[j]),
                    encode_utf8(key@),
                ),
            !place.0 ==> forall|j: int|
                place.1 <= j < self.texts().len() ==> precedes(
                    encode_utf8(key@),
                    encode_utf8(#[trigger] self.texts()[j]),
                ),
    {
        let ghost texts = self.texts();
        let wanted = key.as_str().as_bytes();
        let mut low: usize = 0;
        let mut high: usize = self.keys.len();
        while low < high
            invariant
                low <= high <= self.keys@.len(),
                texts == self.texts(),
                self.wf(),
                wanted@ == encode_utf8(key@),
                forall|j: int| 0 <= j < low ==> precedes(encode_utf8(#[trigger] texts[j]), wanted@),
                forall|j: int|
                    high <= j < texts.len() ==> precedes(wanted@, encode_utf8(#[trigger] texts[j])),
            decreases high - low,
        {
            let middle = low + (high - low) / 2;
            let stored = self.keys[middle].as_str().as_bytes();
            assert(stored@ == encode_utf8(texts[middle as int]));
            match rank(stored, wanted) {
                Rank::Same => {
                    proof {
                        lemma_same_bytes(texts[middle as int], key@);
                    }
                    return (true, middle);
                },
                Rank::Before => {
                    assert forall|j: int| 0 <= j < middle + 1 implies precedes(
                        encode_utf8(#[trigger] texts[j]),
                        wanted@,
                    ) by {
                        if j < middle {
                            lemma_precedes_transitive(encode_utf8(texts[j]), stored@, wanted@);
                        }
                    }
                    low = middle + 1;
                },
                Rank::After => {
                    assert forall|j: int| middle <= j < texts.len() implies precedes(
                        wanted@,
                        encode_utf8(#[trigger] texts[j]),
                    ) by {
                        if middle < j {
                            lemma_precedes_transitive(wanted@, stored@, encode_utf8(texts[j]));
                        }
                    }
                    high = middle;
                },
            }
        }
        (false, low)
    }

    /// A key that `locate` does not find is not in the set.
    proof fn lemma_absent(&self, key: Seq<char>, at: int)
        requires
            0 <= at <= self.texts().len(),
            forall|j: int|
                0 <= j < at ==> precedes(encode_utf8(#[trigger] self.texts()[j]), encode_utf8(key)),
            forall|j: int|
                at <= j < self.texts().len() ==> precedes(
                    encode_utf8(key),
                    encode_utf8(#[trigger] self.texts()[j]),
                ),
        ensures
            !self@.contains(key),
    {
        let texts = self.texts();
        if texts.contains(key) {
            let j = choose|j: int| 0 <= j < texts.len() && texts[j] == key;
            if j < at {
                lemma_precedes_differs(encode_utf8(texts[j]), encode_utf8(key));
            } else {
                lemma_precedes_differs(encode_utf8(key), encode_utf8(texts[j]));
            }
        }
    }

    /// Whether `key` is in the set.
    pub fn contains(&self, key: &String) -> (found: bool)
        requires
            self.wf(),
        ensures
            found == self@.contains(key@),
    {
        let (found, at) = self.locate(key);
        proof {
            if found {
                assert(self.texts().contains(key@));
            } else {
                self.lemma_absent(key@, at as int);
            }
        }
        found
    }

    /// Adds `key`; says whether it was new.
    pub fn insert(&mut self, key: String) -> (added: bool)
        requires
            old(self).wf(),
        ensures
            final(self).wf(),
            final(self)@ == old(self)@.insert(key@),
            added == !old(self)@.contains(key@),
    {
        let (found, at) = self.locate(&key);
        if found {
            assert(self.texts().contains(key@));
            assert(self@.insert(key@) =~= self@);
            false
        } else {
            let ghost before = self.texts();
            proof {
                self.lemma_absent(key@, at as int);
            }
            self.keys.insert(at, key);
            proof {
                let after = self.texts();
                assert(after =~= before.insert(at as int, key@));
                assert forall|i: int, j: int| 0 <= i < j < after.len() implies precedes(
                    encode_utf8(#[trigger] after[i]),
                    encode_utf8(#[trigger] after[j]),
                ) by {
                    if j < at {
                        assert(after[i] == before[i] && after[j] == before[j]);
                    } else if j == at {
                        assert(after[i] == before[i]);
                    } else if i < at {
                        assert(after[i] == before[i] && after[j] == before[j - 1]);
                    } else if i == at {
                        assert(after[j] == before[j - 1]);
                    } else {
                        assert(after[i] == before[i - 1] && after[j] == before[j - 1]);
                    }
                }
                assert(after.to_set() =~= before.to_set().insert(key@)) by {
                    assert forall|k: Seq<char>| after.to_set().contains(k) implies before.to_set().insert(
                        key@,
                    ).contains(k) by {
                        let j = choose|j: int| 0 <= j < after.len() && after[j] == k;
                        if j < at {
                            assert(before[j] == k);
                        } else if j > at {
                            assert(before[j - 1] == k);
                        }
                    }
                    assert forall|k: Seq<char>| before.to_set().insert(key@).contains(
                        k,
                    ) implies after.to_set().contains(k) by {
                        if k == key@ {
                            assert(after[at as int] == k);
                        } else {
                            let j = choose|j: int| 0 <= j < before.len() && before[j] == k;
                            if j < at {
                                assert(after[j] == k);
                            } else {
                                assert(after[j + 1] == k);
                            }
                        }
                    }
                }
            }
            true
        }
    }

    /// The number of keys.
    pub fn len(&self) -> (n: usize)
        requires
            self.wf(),
        ensures
            n == self@.len(),
    {
        proof {
            self.lemma_len();
        }
        self.keys.len()
    }

    /// The target quota, where it fits the machine's word.
    pub fn quota(&self) -> (q: Option<usize>)
        requires
            self.wf(),
        ensures
            q is Some <==> self.spec_quota() <= usize::MAX,
            q matches Some(n) ==> n == self.spec_quota(),
    {
        let n = self.len();
        n.checked_mul(OBSERVATIONS_PER_KEY)
    }
}

} // verus!
