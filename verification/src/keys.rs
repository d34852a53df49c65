//! A table of distinct keys, each a tuple of values, numbered in the order in
//! which they first came. Grouping, joining and duplicate removal go through
//! it.

use rustc_hash::FxHashMap;
use vstd::prelude::*;

use crate::value::{clone_row, rows_same, Value, ValueView};

verus! {

/// `rustc_hash::FxBuildHasher`, the hasher of every `FxHashMap`.
#[verifier::external_type_specification]
#[verifier::external_body]
pub struct ExFxBuildHasher(rustc_hash::FxBuildHasher);

/// `FxHashMap::default` makes a map with no entry.
#[verifier::external_body]
fn digests_new() -> (table: FxHashMap<u64, usize>)
    ensures
        table@.dom() == Set::<u64>::empty(),
{
    FxHashMap::default()
}

/// `FxHashMap::get` finds the number stored under `digest`, if there is one.
#[verifier::external_body]
fn digests_get(table: &FxHashMap<u64, usize>, digest: u64) -> (found: Option<usize>)
    ensures
        found == (if table@.dom().contains(digest) {
            Some(table@[digest])
        } else {
            None
        }),
{
    table.get(&digest).copied()
}

/// `FxHashMap::insert` stores `number` under `digest`, in place of what was
/// there, and leaves every other entry.
#[verifier::external_body]
fn digests_insert(table: &mut FxHashMap<u64, usize>, digest: u64, number: usize)
    ensures
        final(table)@ == old(table)@.insert(digest, number),
{
    table.insert(digest, number);
}

/// One step of a digest.
pub open spec fn digest_step(digest: u64, word: u64) -> u64 {
    (digest ^ word).wrapping_mul(0x100000001b3)
}

/// The digest of `bytes`, continued from `start`.
pub open spec fn digest_bytes(start: u64, bytes: Seq<u8>) -> u64
    decreases bytes.len(),
{
    if bytes.len() == 0 {
        start
    } else {
        digest_step(digest_bytes(start, bytes.drop_last()), bytes.last() as u64)
    }
}

/// The digest of one value, continued from `start`.
pub open spec fn digest_value(start: u64, value: ValueView) -> u64 {
    match value {
        ValueView::Int(n) => digest_step(digest_step(start, 1), n as u64),
        ValueView::Float(bits) => digest_step(digest_step(start, 2), bits),
        ValueView::Bool(b) => digest_step(digest_step(start, 3), if b { 1 } else { 0 }),
        ValueView::Str(s) => digest_bytes(digest_step(start, 4), vstd::utf8::encode_utf8(s)),
        ValueView::DateTime(n) => digest_step(digest_step(start, 5), n as u64),
        ValueView::Uuid(u) => digest_bytes(digest_step(start, 6), u),
        ValueView::Bytes(b) => digest_bytes(digest_step(start, 7), b),
        ValueView::Json(b) => digest_bytes(digest_step(start, 8), b),
        ValueView::Empty => digest_step(start, 9),
    }
}

/// The digest of a key.
pub open spec fn digest_key(key: Seq<ValueView>) -> u64
    decreases key.len(),
{
    if key.len() == 0 {
        0xcbf29ce484222325
    } else {
        digest_value(digest_key(key.drop_last()), key.last())
    }
}

fn step(digest: u64, word: u64) -> (out: u64)
    ensures
        out == digest_step(digest, word),
{
    (digest ^ word).wrapping_mul(0x100000001b3)
}

fn slice_digest(start: u64, bytes: &[u8]) -> (out: u64)
    ensures
        out == digest_bytes(start, bytes@),
{
    let mut out: u64 = start;
    let mut i: usize = 0;
    while i < bytes.len()
        invariant
            i <= bytes.len(),
            out == digest_bytes(start, bytes@.take(i as int)),
        decreases bytes.len() - i,
    {
        assert(bytes@.take(i as int + 1).drop_last() =~= bytes@.take(i as int));
        out = step(out, bytes[i] as u64);
        i = i + 1;
    }
    assert(bytes@.take(bytes.len() as int) =~= bytes@);
    out
}

fn value_digest(start: u64, value: &Value) -> (out: u64)
    ensures
        out == digest_value(start, value.deep_view()),
{
    match value {
        Value::Int(n) => step(step(start, 1), *n as u64),
        Value::Float(bits) => step(step(start, 2), *bits),
        Value::Bool(b) => step(step(start, 3), if *b { 1 } else { 0 }),
        Value::Str(s) => slice_digest(step(start, 4), s.as_str().as_bytes()),
        Value::DateTime(n) => step(step(start, 5), *n as u64),
        Value::Uuid(u) => slice_digest(step(start, 6), u.as_slice()),
        Value::Bytes(b) => slice_digest(step(start, 7), b.as_slice()),
        Value::Json(b) => slice_digest(step(start, 8), b.as_slice()),
        Value::Empty => step(start, 9),
    }
}

fn key_digest(key: &Vec<Value>) -> (out: u64)
    ensures
        out == digest_key(key.deep_view()),
{
    let mut out: u64 = 0xcbf29ce484222325;
    let mut i: usize = 0;
    while i < key.len()
        invariant
            i <= key.len(),
            out == digest_key(key.deep_view().take(i as int)),
        decreases key.len() - i,
    {
        assert(key.deep_view().take(i as int + 1).drop_last() =~= key.deep_view().take(i as int));
        out = value_digest(out, &key[i]);
        i = i + 1;
    }
    assert(key.deep_view().take(key.len() as int) =~= key.deep_view());
    out
}

/// Distinct keys, numbered from zero in the order of their first appearance.
pub struct KeyTable {
    digests: FxHashMap<u64, usize>,
    buckets: Vec<Vec<usize>>,
    keys: Vec<Vec<Value>>,
}

impl View for KeyTable {
    type V = Seq<Seq<ValueView>>;

    /// The keys, each at its number.
    closed spec fn view(&self) -> Seq<Seq<ValueView>> {
        self.keys.deep_view()
    }
}

impl KeyTable {
    /// The keys are distinct, and each is filed under its digest.
    pub closed spec fn wf(&self) -> bool {
        &&& self@.no_duplicates()
        &&& forall|d: u64| #[trigger]
            self.digests@.dom().contains(d) ==> self.digests@[d] < self.buckets.len()
        &&& forall|b: int, j: int|
            0 <= b < self.buckets.len() && 0 <= j < self.buckets[b].len()
                ==> #[trigger] self.buckets[b][j] < self.keys.len()
        &&& forall|i: int|
            0 <= i < self.keys.len() ==> self.files(#[trigger] digest_key(self.keys[i].deep_view()), i)
    }

    /// Key `i` stands in the bucket of `digest`.
    closed spec fn files(&self, digest: u64, i: int) -> bool {
        &&& self.digests@.dom().contains(digest)
        &&& exists|j: int|
            0 <= j < self.buckets[self.digests@[digest] as int].len()
                && #[trigger] self.buckets[self.digests@[digest] as int][j] == i
    }

    /// A table with no key.
    pub fn new() -> (table: KeyTable)
        ensures
            table.wf(),
            table@ == Seq::<Seq<ValueView>>::empty(),
    {
        let table = KeyTable { digests: digests_new(), buckets: Vec::new(), keys: Vec::new() };
        assert(table@ =~= Seq::<Seq<ValueView>>::empty());
        table
    }

    /// How many keys there are.
    pub fn len(&self) -> (n: usize)
        ensures
            n == self@.len(),
    {
        self.keys.len()
    }

    /// A copy of key `number`.
    pub fn key(&self, number: usize) -> (key: Vec<Value>)
        requires
            number < self@.len(),
        ensures
            key.deep_view() == self@[number as int],
    {
        clone_row(&self.keys[number])
    }

    /// The number of `key`, if it is in the table.
    pub fn find(&self, key: &Vec<Value>) -> (number: Option<usize>)
        requires
            self.wf(),
        ensures
            match number {
                Some(n) => n < self@.len() && self@[n as int] == key.deep_view(),
                None => !self@.contains(key.deep_view()),
            },
    {
        let digest: u64 = key_digest(key);
        match digests_get(&self.digests, digest) {
            None => {
                assert(!self@.contains(key.deep_view())) by {
                    if self@.contains(key.deep_view()) {
                        let i = choose|i: int| 0 <= i < self@.len() && self@[i] == key.deep_view();
                        assert(self.files(digest_key(self.keys[i].deep_view()), i));
                    }
                }
                None
            },
            Some(b) => {
                let bucket: &Vec<usize> = &self.buckets[b];
                let mut j: usize = 0;
                while j < bucket.len()
                    invariant
                        self.wf(),
                        b < self.buckets.len(),
                        *bucket == self.buckets[b as int],
                        j <= bucket.len(),
                        forall|i: int|
                            0 <= i < j ==> self.keys[#[trigger] bucket[i] as int].deep_view()
                                != key.deep_view(),
                    decreases bucket.len() - j,
                {
                    let number: usize = bucket[j];
                    assert(self.buckets[b as int][j as int] < self.keys.len());
                    if rows_same(&self.keys[number], key) {
                        return Some(number);
                    }
                    j = j + 1;
                }
                assert(!self@.contains(key.deep_view())) by {
                    if self@.contains(key.deep_view()) {
                        let i = choose|i: int| 0 <= i < self@.len() && self@[i] == key.deep_view();
                        assert(self.files(digest_key(self.keys[i].deep_view()), i));
                    }
                }
                None
            },
        }
    }

    /// The number of `key`, which is added at the end if it is new.
    pub fn find_or_insert(&mut self, key: Vec<Value>) -> (number: usize)
        requires
            old(self).wf(),
        ensures
            final(self).wf(),
            number < final(self)@.len(),
            final(self)@[number as int] == key.deep_view(),
            final(self)@ == (if old(self)@.contains(key.deep_view()) {
                old(self)@
            } else {
                old(self)@.push(key.deep_view())
            }),
    {
        match self.find(&key) {
            Some(number) => {
                assert(self@[number as int] == key.deep_view());
                number
            },
            None => {
                let digest: u64 = key_digest(&key);
                let number: usize = self.keys.len();
                let ghost kv = key.deep_view();
                match digests_get(&self.digests, digest) {
                    Some(b) => {
                        self.buckets[b].push(number);
                    },
                    None => {
                        let mut bucket: Vec<usize> = Vec::new();
                        bucket.push(number);
                        digests_insert(&mut self.digests, digest, self.buckets.len());
                        self.buckets.push(bucket);
                    },
                }
                self.keys.push(key);
                proof {
                    assert(self@ =~= old(self)@.push(kv));
                    let b = self.digests@[digest] as int;
                    assert(self.buckets[b][self.buckets[b].len() - 1] == number);
                    assert forall|i: int| 0 <= i < self.keys.len() implies self.files(
                        #[trigger] digest_key(self.keys[i].deep_view()),
                        i,
                    ) by {
                        if i < number {
                            assert(old(self).keys[i] == self.keys[i]);
                            let d = digest_key(old(self).keys[i].deep_view());
                            assert(old(self).files(d, i));
                            let ob = old(self).digests@[d] as int;
                            let j = choose|j: int|
                                0 <= j < old(self).buckets[ob].len()
                                    && #[trigger] old(self).buckets[ob][j] == i;
                            assert(self.digests@[d] == ob);
                            assert(self.buckets[ob][j] == i);
                        } else {
                            assert(self.keys[i].deep_view() == kv);
                            assert(digest_key(kv) == digest);
                        }
                    }
                }
                number
            },
        }
    }
}

} // verus!
