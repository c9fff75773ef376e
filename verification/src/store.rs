//! The shared data store: opaque byte-string keys mapped to typed items — a
//! scalar entry with optional absolute expiry, or an append-log stream.
//! Reads honor expiry; stream appends keep ids strictly increasing.

use vstd::prelude::*;

use vstd::string::StringSliceAdditionalSpecFns;

use crate::stream::{
    id_le, id_lt, ids_strictly_increasing, stream_view, spec_build_id, build_stream_id, Stream,
    StreamData, StreamId,
};

verus! {

/// A scalar value: its bytes, the relative expiry it was set with, and the
/// absolute time (milliseconds since the epoch) past which reads treat it as
/// absent.
#[derive(Debug)]
pub struct Entry {
    pub value: Vec<u8>,
    pub expiry_time: Option<u64>,
    pub expiry_at: Option<u64>,
}

/// The mathematical shape of a scalar entry.
pub struct EntryV {
    pub value: Seq<u8>,
    pub expiry_time: Option<u64>,
    pub expiry_at: Option<u64>,
}

impl View for Entry {
    type V = EntryV;

    open spec fn view(&self) -> EntryV {
        EntryV { value: self.value@, expiry_time: self.expiry_time, expiry_at: self.expiry_at }
    }
}

/// Whether a scalar entry is visible at time `now`: it is until its expiry
/// time, and forever if it has none.
pub open spec fn entry_live(e: EntryV, now: u64) -> bool {
    match e.expiry_at {
        Some(t) => now < t,
        None => true,
    }
}

impl Entry {
    /// Builds an entry at time `now`; a relative expiry becomes the absolute
    /// time `now + expiry`, saturating at the largest representable time.
    pub fn new(value: Vec<u8>, expiry: Option<u64>, now: u64) -> (r: Entry)
        ensures
            r@.value == value@,
            r@.expiry_time == expiry,
            r@.expiry_at == match expiry {
                Some(e) => Some(
                    if e > u64::MAX - now {
                        u64::MAX
                    } else {
                        (now + e) as u64
                    },
                ),
                None => None::<u64>,
            },
    {
        match expiry {
            Some(e) => {
                let at = if e > u64::MAX - now {
                    u64::MAX
                } else {
                    now + e
                };
                Entry { value, expiry_time: Some(e), expiry_at: Some(at) }
            },
            None => Entry { value, expiry_time: None, expiry_at: None },
        }
    }
}

/// What a key maps to: a scalar entry or a stream.
#[derive(Debug)]
pub enum StoreItem {
    KeyValueEntry(Entry),
    Stream(Stream),
}

/// The mathematical shape of a store item.
pub enum ItemV {
    Scalar(EntryV),
    Stream(Seq<(StreamId, Seq<(Seq<u8>, Seq<u8>)>)>),
}

impl View for StoreItem {
    type V = ItemV;

    open spec fn view(&self) -> ItemV {
        match self {
            StoreItem::KeyValueEntry(e) => ItemV::Scalar(e@),
            StoreItem::Stream(s) => ItemV::Stream(s@),
        }
    }
}

/// Typed items report their kind by name.
pub trait EntryValue {
    spec fn value_type_spec(&self) -> Seq<u8>;

    fn value_type(&self) -> (r: Vec<u8>)
        ensures
            r@ == self.value_type_spec(),
    ;
}

/// `string`, as TYPE spells the scalar kind.
pub open spec fn type_name_string() -> Seq<u8> {
    seq![115u8, 116u8, 114u8, 105u8, 110u8, 103u8]
}

/// `stream`, as TYPE spells the log kind.
pub open spec fn type_name_stream() -> Seq<u8> {
    seq![115u8, 116u8, 114u8, 101u8, 97u8, 109u8]
}

/// `none`, as TYPE spells an absent key.
pub open spec fn type_name_none() -> Seq<u8> {
    seq![110u8, 111u8, 110u8, 101u8]
}

impl EntryValue for Entry {
    open spec fn value_type_spec(&self) -> Seq<u8> {
        type_name_string()
    }

    fn value_type(&self) -> (r: Vec<u8>)
    {
        let mut v: Vec<u8> = Vec::new();
        v.push(115u8);
        v.push(116u8);
        v.push(114u8);
        v.push(105u8);
        v.push(110u8);
        v.push(103u8);
        proof {
            assert(v@ =~= type_name_string());
        }
        v
    }
}

impl EntryValue for StoreItem {
    open spec fn value_type_spec(&self) -> Seq<u8> {
        match self {
            StoreItem::KeyValueEntry(_) => type_name_string(),
            StoreItem::Stream(_) => type_name_stream(),
        }
    }

    fn value_type(&self) -> (r: Vec<u8>)
    {
        match self {
            StoreItem::KeyValueEntry(e) => e.value_type(),
            StoreItem::Stream(_) => {
                let mut v: Vec<u8> = Vec::new();
                v.push(115u8);
                v.push(116u8);
                v.push(114u8);
                v.push(101u8);
                v.push(97u8);
                v.push(109u8);
                proof {
                    assert(v@ =~= type_name_stream());
                }
                v
            },
        }
    }
}

/// Why a stream append was refused.
#[derive(Debug, PartialEq, Eq, Structural, Clone, Copy)]
pub enum StoreError {
    IdZero,
    IdNotGreater,
}

/// `ERR The ID specified in XADD must be greater than 0-0`.
pub open spec fn msg_id_zero() -> Seq<u8> {
    "ERR The ID specified in XADD must be greater than 0-0".spec_bytes()
}

/// `ERR The ID specified in XADD is equal or smaller than the target stream
/// top item`.
pub open spec fn msg_id_not_greater() -> Seq<u8> {
    "ERR The ID specified in XADD is equal or smaller than the target stream top item".spec_bytes()
}

impl StoreError {
    /// The exact wire text of this error.
    pub fn message(&self) -> (r: Vec<u8>)
        ensures
            r@ == match self {
                StoreError::IdZero => msg_id_zero(),
                StoreError::IdNotGreater => msg_id_not_greater(),
            },
    {
        match self {
            StoreError::IdZero => {
                vstd::string::StrSliceExecFns::as_bytes_vec(
                    "ERR The ID specified in XADD must be greater than 0-0",
                )
            },
            StoreError::IdNotGreater => {
                vstd::string::StrSliceExecFns::as_bytes_vec(
                    "ERR The ID specified in XADD is equal or smaller than the target stream top item",
                )
            },
        }
    }
}

/// The item stored under a key, first match in the association list.
pub open spec fn assoc_get(s: Seq<(Seq<u8>, ItemV)>, key: Seq<u8>) -> Option<ItemV>
    decreases s.len(),
{
    if s.len() == 0 {
        None
    } else if s.first().0 == key {
        Some(s.first().1)
    } else {
        assoc_get(s.drop_first(), key)
    }
}

/// The keyed mapping of names to items.
#[derive(Debug)]
pub struct Store {
    pub data: Vec<(Vec<u8>, StoreItem)>,
}

impl Store {
    /// The store as an association of key bytes to item shapes, in insertion
    /// order.
    pub open spec fn assoc(&self) -> Seq<(Seq<u8>, ItemV)> {
        self.data@.map_values(|p: (Vec<u8>, StoreItem)| (p.0@, p.1@))
    }

    /// What a key maps to.
    pub open spec fn spec_get(&self, key: Seq<u8>) -> Option<ItemV> {
        assoc_get(self.assoc(), key)
    }

    /// Every key appears once, and every stream in the store has strictly
    /// increasing entry ids.
    pub open spec fn wf(&self) -> bool {
        &&& forall|i: int, j: int|
            0 <= i < j < self.assoc().len() ==> (#[trigger] self.assoc()[i]).0 != (
            #[trigger] self.assoc()[j]).0
        &&& forall|i: int|
            0 <= i < self.assoc().len() ==> match (#[trigger] self.assoc()[i]).1 {
                ItemV::Stream(es) => ids_strictly_increasing(es),
                ItemV::Scalar(_) => true,
            }
    }

    /// An empty store.
    pub fn new() -> (r: Store)
        ensures
            r.wf(),
            forall|k: Seq<u8>| r.spec_get(k) is None,
            r.assoc().len() == 0,
    {
        let data: Vec<(Vec<u8>, StoreItem)> = Vec::new();
        let r = Store { data };
        proof {
            assert(r.assoc() =~= Seq::<(Seq<u8>, ItemV)>::empty());
        }
        r
    }

    /// Index of the key in the association list, if present.
    fn index_of(&self, key: &[u8]) -> (r: Option<usize>)
        ensures
            match r {
                Some(i) => {
                    &&& i < self.assoc().len()
                    &&& self.assoc()[i as int].0 == key@
                    &&& self.spec_get(key@) == Some(self.assoc()[i as int].1)
                    &&& forall|j: int| 0 <= j < i ==> (#[trigger] self.assoc()[j]).0 != key@
                },
                None => self.spec_get(key@) is None && (forall|j: int|
                    0 <= j < self.assoc().len() ==> (#[trigger] self.assoc()[j]).0 != key@),
            },
    {
        let mut i: usize = 0;
        proof {
            assert(self.assoc().subrange(0, self.assoc().len() as int) =~= self.assoc());
        }
        #[verifier::loop_isolation(false)]
        while i < self.data.len()
            invariant
                i <= self.data@.len(),
                assoc_get(self.assoc(), key@) == assoc_get(
                    self.assoc().subrange(i as int, self.assoc().len() as int),
                    key@,
                ),
                forall|j: int| 0 <= j < i ==> (#[trigger] self.assoc()[j]).0 != key@,
            decreases self.data@.len() - i,
        {
            let hit = compare_bytes(&self.data[i].0, key);
            proof {
                let suffix = self.assoc().subrange(i as int, self.assoc().len() as int);
                assert(suffix.first() == self.assoc()[i as int]);
                assert(suffix.drop_first() =~= self.assoc().subrange(
                    i + 1,
                    self.assoc().len() as int,
                ));
            }
            if hit {
                return Some(i);
            }
            i = i + 1;
        }
        proof {
            assert(self.assoc().subrange(
                self.assoc().len() as int,
                self.assoc().len() as int,
            ) =~= Seq::<(Seq<u8>, ItemV)>::empty());
        }
        None
    }

    /// Stores a scalar under the key, overwriting any item of either kind.
    pub fn set_kv(&mut self, key: Vec<u8>, entry: Entry) -> (r: Result<(), StoreError>)
        requires
            old(self).wf(),
        ensures
            r is Ok,
            final(self).wf(),
            final(self).spec_get(key@) == Some(ItemV::Scalar(entry@)),
            forall|k: Seq<u8>|
                k != key@ ==> #[trigger] final(self).spec_get(k) == old(self).spec_get(k),
    {
        let item = StoreItem::KeyValueEntry(entry);
        self.put(key, item);
        Ok(())
    }

    /// Stores an item under the key, replacing in place or appending.
    fn put(&mut self, key: Vec<u8>, item: StoreItem)
        requires
            old(self).wf(),
            match item@ {
                ItemV::Stream(es) => ids_strictly_increasing(es),
                ItemV::Scalar(_) => true,
            },
        ensures
            final(self).wf(),
            final(self).spec_get(key@) == Some(item@),
            forall|k: Seq<u8>|
                k != key@ ==> #[trigger] final(self).spec_get(k) == old(self).spec_get(k),
    {
        let ghost old_assoc = self.assoc();
        match self.index_of(&key) {
            Some(i) => {
                self.data.set(i, (key, item));
                proof {
                    let new_assoc = self.assoc();
                    assert(new_assoc =~= old_assoc.update(i as int, (key@, item@)));
                    lemma_assoc_update(old_assoc, i as int, key@, item@);
                }
            },
            None => {
                self.data.push((key, item));
                proof {
                    let new_assoc = self.assoc();
                    assert(new_assoc =~= old_assoc.push((key@, item@)));
                    lemma_assoc_push(old_assoc, key@, item@);
                }
            },
        }
    }

    /// Reads the scalar under the key, as visible at time `now`: absent,
    /// expired and stream-valued keys all read as nothing.
    pub fn get_kv(&self, key: &[u8], now: u64) -> (r: Option<&Entry>)
        ensures
            match self.spec_get(key@) {
                Some(ItemV::Scalar(e)) => if entry_live(e, now) {
                    r matches Some(found) && found@ == e
                } else {
                    r is None
                },
                _ => r is None,
            },
    {
        match self.index_of(key) {
            Some(i) => {
                match &self.data[i].1 {
                    StoreItem::KeyValueEntry(e) => {
                        match e.expiry_at {
                            Some(t) => {
                                if now < t {
                                    Some(e)
                                } else {
                                    None
                                }
                            },
                            None => Some(e),
                        }
                    },
                    StoreItem::Stream(_) => None,
                }
            },
            None => None,
        }
    }

    /// Reads the raw item under a key, of either kind, with no regard to
    /// expiry.
    pub fn get_store_item(&self, key: &[u8]) -> (r: Option<&StoreItem>)
        ensures
            match r {
                Some(item) => self.spec_get(key@) == Some(item@),
                None => self.spec_get(key@) is None,
            },
    {
        match self.index_of(key) {
            Some(i) => Some(&self.data[i].1),
            None => None,
        }
    }

    /// Reads the stream under a key; scalar-valued and absent keys hold
    /// none.
    pub fn get_stream(&self, key: &[u8]) -> (r: Option<&Stream>)
        ensures
            match r {
                Some(stream) => self.spec_get(key@) == Some(ItemV::Stream(stream@)),
                None => !(self.spec_get(key@) matches Some(ItemV::Stream(_))),
            },
    {
        match self.index_of(key) {
            Some(i) => {
                match &self.data[i].1 {
                    StoreItem::Stream(s) => Some(s),
                    StoreItem::KeyValueEntry(_) => None,
                }
            },
            None => None,
        }
    }


    /// Removes whatever the key holds, of either kind, reporting whether
    /// anything was there.
    pub fn del(&mut self, key: &[u8]) -> (r: bool)
        requires
            old(self).wf(),
        ensures
            final(self).wf(),
            final(self).spec_get(key@) is None,
            r == (old(self).spec_get(key@) is Some),
            forall|k: Seq<u8>|
                k != key@ ==> #[trigger] final(self).spec_get(k) == old(self).spec_get(k),
    {
        let ghost old_assoc = self.assoc();
        match self.index_of(key) {
            Some(i) => {
                let _removed = self.data.remove(i);
                proof {
                    assert(self.assoc() =~= old_assoc.remove(i as int));
                    lemma_assoc_remove(old_assoc, i as int);
                }
                true
            },
            None => false,
        }
    }


    /// How many of the listed keys a deletion of all of them removes: the
    /// distinct ones the store holds.
    pub open spec fn spec_del_count(&self, keys: Seq<Seq<u8>>) -> nat
        decreases keys.len(),
    {
        if keys.len() == 0 {
            0
        } else {
            self.spec_del_count(keys.drop_last()) + (if self.spec_get(keys.last()) is Some
                && !keys.drop_last().contains(keys.last()) {
                1nat
            } else {
                0nat
            })
        }
    }

    /// Removes every listed key, reporting how many items that removed.
    pub fn del_keys(&mut self, keys: &Vec<Vec<u8>>) -> (r: usize)
        requires
            old(self).wf(),
        ensures
            final(self).wf(),
            r == old(self).spec_del_count(keys@.map_values(|k: Vec<u8>| k@)),
            forall|k: Seq<u8>|
                #[trigger] final(self).spec_get(k) == if keys@.map_values(
                    |kk: Vec<u8>| kk@,
                ).contains(k) {
                    None
                } else {
                    old(self).spec_get(k)
                },
    {
        let ghost keys_v = keys@.map_values(|k: Vec<u8>| k@);
        let mut count: usize = 0;
        let mut i: usize = 0;
        proof {
            assert(keys_v.take(0) =~= Seq::<Seq<u8>>::empty());
        }
        #[verifier::loop_isolation(false)]
        while i < keys.len()
            invariant
                i <= keys@.len(),
                keys_v == keys@.map_values(|k: Vec<u8>| k@),
                self.wf(),
                count == old(self).spec_del_count(keys_v.take(i as int)),
                count <= i,
                forall|k: Seq<u8>|
                    #[trigger] self.spec_get(k) == if keys_v.take(i as int).contains(k) {
                        None
                    } else {
                        old(self).spec_get(k)
                    },
            decreases keys@.len() - i,
        {
            let removed = self.del(&keys[i]);
            proof {
                let prefix = keys_v.take(i as int);
                let now_prefix = keys_v.take(i + 1);
                assert(now_prefix.drop_last() =~= prefix);
                assert(now_prefix.last() == keys_v[i as int]);
                assert(removed == (old(self).spec_get(keys_v[i as int]) is Some && !prefix.contains(
                    keys_v[i as int],
                )));
                assert forall|k: Seq<u8>| true implies #[trigger] self.spec_get(k) == (
                if now_prefix.contains(k) {
                    None
                } else {
                    old(self).spec_get(k)
                }) by {
                    if now_prefix.contains(k) {
                        if k == keys_v[i as int] {
                        } else {
                            let w = choose|w: int|
                                0 <= w < now_prefix.len() && now_prefix[w] == k;
                            assert(prefix[w] == k);
                            assert(prefix.contains(k));
                        }
                    } else {
                        assert(!prefix.contains(k)) by {
                            if prefix.contains(k) {
                                let w = choose|w: int|
                                    0 <= w < prefix.len() && prefix[w] == k;
                                assert(now_prefix[w] == k);
                            }
                        }
                    }
                }
            }
            if removed {
                count = count + 1;
            }
            i = i + 1;
        }
        proof {
            assert(keys_v.take(keys_v.len() as int) =~= keys_v);
        }
        count
    }

    /// The number of keys of either kind.
    pub fn len(&self) -> (r: usize)
        ensures
            r == self.assoc().len(),
    {
        self.data.len()
    }

    /// Whether the store holds no keys at all.
    pub fn is_empty(&self) -> (r: bool)
        ensures
            r == (self.assoc().len() == 0),
    {
        self.len() == 0
    }

    /// All keys, in insertion order.
    pub fn keys(&self) -> (r: Vec<Vec<u8>>)
        ensures
            r@.map_values(|k: Vec<u8>| k@) == self.assoc().map_values(
                |p: (Seq<u8>, ItemV)| p.0,
            ),
    {
        let mut out: Vec<Vec<u8>> = Vec::new();
        let mut i: usize = 0;
        #[verifier::loop_isolation(false)]
        while i < self.data.len()
            invariant
                i <= self.data@.len(),
                out@.map_values(|k: Vec<u8>| k@) == self.assoc().map_values(
                    |p: (Seq<u8>, ItemV)| p.0,
                ).take(i as int),
            decreases self.data@.len() - i,
        {
            out.push(self.data[i].0.clone());
            proof {
                assert(out@.map_values(|k: Vec<u8>| k@) =~= self.assoc().map_values(
                    |p: (Seq<u8>, ItemV)| p.0,
                ).take(i + 1));
            }
            i = i + 1;
        }
        proof {
            let full = self.assoc().map_values(|p: (Seq<u8>, ItemV)| p.0);
            assert(full.take(full.len() as int) =~= full);
        }
        out
    }
}

/// Bytewise equality of two byte strings.
pub fn compare_bytes(a: &[u8], b: &[u8]) -> (r: bool)
    ensures
        r == (a@ == b@),
{
    if a.len() != b.len() {
        proof {
            assert(a@.len() != b@.len());
        }
        return false;
    }
    let mut i: usize = 0;
    while i < a.len()
        invariant
            i <= a@.len(),
            a@.len() == b@.len(),
            forall|j: int| 0 <= j < i ==> a@[j] == b@[j],
        decreases a@.len() - i,
    {
        if a[i] != b[i] {
            return false;
        }
        i = i + 1;
    }
    proof {
        assert(a@ =~= b@);
    }
    true
}

proof fn lemma_assoc_get_is_first_hit(s: Seq<(Seq<u8>, ItemV)>, key: Seq<u8>, i: int)
    requires
        0 <= i < s.len(),
        s[i].0 == key,
        forall|j: int| 0 <= j < i ==> (#[trigger] s[j]).0 != key,
    ensures
        assoc_get(s, key) == Some(s[i].1),
    decreases s.len(),
{
    if i == 0 {
    } else {
        assert(s.drop_first()[i - 1] == s[i]);
        assert(forall|j: int|
            0 <= j < i - 1 ==> (#[trigger] s.drop_first()[j]).0 == s[j + 1].0);
        lemma_assoc_get_is_first_hit(s.drop_first(), key, i - 1);
    }
}

proof fn lemma_assoc_get_absent(s: Seq<(Seq<u8>, ItemV)>, key: Seq<u8>)
    requires
        forall|j: int| 0 <= j < s.len() ==> (#[trigger] s[j]).0 != key,
    ensures
        assoc_get(s, key) is None,
    decreases s.len(),
{
    if s.len() > 0 {
        assert(forall|j: int|
            0 <= j < s.drop_first().len() ==> (#[trigger] s.drop_first()[j]).0 == s[j + 1].0);
        lemma_assoc_get_absent(s.drop_first(), key);
    }
}

proof fn lemma_assoc_update(s: Seq<(Seq<u8>, ItemV)>, i: int, key: Seq<u8>, item: ItemV)
    requires
        0 <= i < s.len(),
        s[i].0 == key,
        forall|a: int, b: int| 0 <= a < b < s.len() ==> (#[trigger] s[a]).0 != (
        #[trigger] s[b]).0,
    ensures
        assoc_get(s.update(i, (key, item)), key) == Some(item),
        forall|k: Seq<u8>|
            k != key ==> #[trigger] assoc_get(s.update(i, (key, item)), k) == assoc_get(s, k),
        forall|a: int, b: int|
            0 <= a < b < s.update(i, (key, item)).len() ==> (#[trigger] s.update(
                i,
                (key, item),
            )[a]).0 != (#[trigger] s.update(i, (key, item))[b]).0,
{
    let t = s.update(i, (key, item));
    assert(t[i].0 == key);
    assert(forall|j: int| 0 <= j < t.len() && j != i ==> t[j] == s[j]);
    lemma_assoc_get_is_first_hit(t, key, i);
    assert forall|k: Seq<u8>| k != key implies #[trigger] assoc_get(t, k) == assoc_get(
        s,
        k,
    ) by {
        lemma_assoc_get_pointwise(s, t, k);
    }
}

proof fn lemma_assoc_push(s: Seq<(Seq<u8>, ItemV)>, key: Seq<u8>, item: ItemV)
    requires
        forall|j: int| 0 <= j < s.len() ==> (#[trigger] s[j]).0 != key,
        forall|a: int, b: int| 0 <= a < b < s.len() ==> (#[trigger] s[a]).0 != (
        #[trigger] s[b]).0,
    ensures
        assoc_get(s.push((key, item)), key) == Some(item),
        forall|k: Seq<u8>|
            k != key ==> #[trigger] assoc_get(s.push((key, item)), k) == assoc_get(s, k),
        forall|a: int, b: int|
            0 <= a < b < s.push((key, item)).len() ==> (#[trigger] s.push(
                (key, item),
            )[a]).0 != (#[trigger] s.push((key, item))[b]).0,
{
    let t = s.push((key, item));
    assert(t[s.len() as int].0 == key);
    lemma_assoc_get_is_first_hit(t, key, s.len() as int);
    assert forall|k: Seq<u8>| k != key implies #[trigger] assoc_get(t, k) == assoc_get(
        s,
        k,
    ) by {
        lemma_assoc_get_pointwise_push(s, k, (key, item));
    }
}

/// Two association lists that agree at every index with key `k` up to the
/// shorter length agree on `k`'s lookup: specialised to an update that does
/// not touch `k`.
proof fn lemma_assoc_get_pointwise(s: Seq<(Seq<u8>, ItemV)>, t: Seq<(Seq<u8>, ItemV)>, k: Seq<u8>)
    requires
        s.len() == t.len(),
        forall|j: int| 0 <= j < s.len() && (#[trigger] s[j]).0 == k ==> t[j] == s[j],
        forall|j: int| 0 <= j < s.len() && (#[trigger] t[j]).0 == k ==> t[j] == s[j],
    ensures
        assoc_get(t, k) == assoc_get(s, k),
    decreases s.len(),
{
    if s.len() > 0 {
        if s.first().0 == k || t.first().0 == k {
            assert(t[0] == s[0]);
        } else {
            assert(forall|j: int|
                0 <= j < s.drop_first().len() ==> (#[trigger] s.drop_first()[j]) == s[j + 1]);
            assert(forall|j: int|
                0 <= j < t.drop_first().len() ==> (#[trigger] t.drop_first()[j]) == t[j + 1]);
            lemma_assoc_get_pointwise(s.drop_first(), t.drop_first(), k);
        }
    }
}

proof fn lemma_assoc_get_pointwise_push(
    s: Seq<(Seq<u8>, ItemV)>,
    k: Seq<u8>,
    tail: (Seq<u8>, ItemV),
)
    requires
        tail.0 != k,
    ensures
        assoc_get(s.push(tail), k) == assoc_get(s, k),
    decreases s.len(),
{
    let t = s.push(tail);
    if s.len() == 0 {
        assert(t.first() == tail);
        assert(t.drop_first() =~= Seq::<(Seq<u8>, ItemV)>::empty());
        assert(assoc_get(Seq::<(Seq<u8>, ItemV)>::empty(), k) is None);
        assert(s =~= Seq::<(Seq<u8>, ItemV)>::empty());
    } else {
        assert(t.first() == s.first());
        assert(t.drop_first() =~= s.drop_first().push(tail));
        lemma_assoc_get_pointwise_push(s.drop_first(), k, tail);
    }
}


/// Validity of appending `id` to whatever the key holds: `0-0` is never
/// valid; against a non-empty stream, the id must exceed the newest entry's.
pub open spec fn spec_validate(item: Option<ItemV>, id: StreamId) -> Result<(), StoreError> {
    if id == (StreamId { ms: 0, seq: 0 }) {
        Err(StoreError::IdZero)
    } else {
        match item {
            Some(ItemV::Stream(es)) => if es.len() > 0 && !id_lt(es.last().0, id) {
                Err(StoreError::IdNotGreater)
            } else {
                Ok(())
            },
            _ => Ok(()),
        }
    }
}

/// Whether an id falls within inclusive XRANGE bounds; an absent bound does
/// not constrain.
pub open spec fn in_xrange(
    id: StreamId,
    start: Option<StreamId>,
    end: Option<StreamId>,
) -> bool {
    &&& match start {
        Some(s) => id_le(s, id),
        None => true,
    }
    &&& match end {
        Some(e) => id_le(id, e),
        None => true,
    }
}

impl Store {
    /// Checks that `id` may be appended to the stream under `key`, yielding
    /// the exact domain error otherwise.
    pub fn validate_stream(&self, key: &[u8], id: StreamId) -> (r: Result<(), StoreError>)
        ensures
            r == spec_validate(self.spec_get(key@), id),
    {
        if id.ms == 0 && id.seq == 0 {
            return Err(StoreError::IdZero);
        }
        match self.get_stream(key) {
            Some(stream) => {
                match stream.last_id() {
                    Some(last) => {
                        if last.lt(&id) {
                            Ok(())
                        } else {
                            Err(StoreError::IdNotGreater)
                        }
                    },
                    None => Ok(()),
                }
            },
            None => {
                proof {
                    match self.spec_get(key@) {
                        Some(ItemV::Stream(_)) => {
                            assert(false);
                        },
                        _ => {},
                    }
                }
                Ok(())
            },
        }
    }

    /// The newest id in the stream under `key`, if the key holds a
    /// non-empty stream.
    pub open spec fn spec_last_id(&self, key: Seq<u8>) -> Option<StreamId> {
        match self.spec_get(key) {
            Some(ItemV::Stream(es)) => if es.len() > 0 {
                Some(es.last().0)
            } else {
                None
            },
            _ => None,
        }
    }

    /// Derives the concrete id an XADD pattern denotes against the stream
    /// currently under `key`.
    pub fn generate_stream_id(&self, key: &[u8], id_pattern: &[u8], now: u64) -> (r: Option<
        StreamId,
    >)
        ensures
            r == spec_build_id(id_pattern@, self.spec_last_id(key@), now),
    {
        match self.get_stream(key) {
            Some(stream) => {
                let last = stream.last_id();
                match last {
                    Some(l) => build_stream_id(id_pattern, Some(&l), now),
                    None => build_stream_id(id_pattern, None, now),
                }
            },
            None => {
                proof {
                    match self.spec_get(key@) {
                        Some(ItemV::Stream(_)) => {
                            assert(false);
                        },
                        _ => {},
                    }
                }
                build_stream_id(id_pattern, None, now)
            },
        }
    }

    /// Appends an entry to the stream under `key`, creating the stream if
    /// the key is absent or holds a scalar. The caller has validated the id.
    pub fn set_stream(&mut self, key: Vec<u8>, id: StreamId, stream_data: StreamData) -> (r:
        Result<(), StoreError>)
        requires
            old(self).wf(),
            id != (StreamId { ms: 0, seq: 0 }),
            match old(self).spec_get(key@) {
                Some(ItemV::Stream(es)) => es.len() == 0 || id_lt(es.last().0, id),
                _ => true,
            },
        ensures
            r is Ok,
            final(self).wf(),
            final(self).spec_get(key@) == Some(
                ItemV::Stream(
                    match old(self).spec_get(key@) {
                        Some(ItemV::Stream(es)) => es.push((id, stream_data@)),
                        _ => seq![(id, stream_data@)],
                    },
                ),
            ),
            forall|k: Seq<u8>|
                k != key@ ==> #[trigger] final(self).spec_get(k) == old(self).spec_get(k),
    {
        let ghost old_assoc = self.assoc();
        let idx = match self.index_of(&key) {
            Some(i) => {
                match &self.data[i].1 {
                    StoreItem::Stream(_) => Some(i),
                    StoreItem::KeyValueEntry(_) => None,
                }
            },
            None => None,
        };
        match idx {
            Some(i) => {
                let (stored_key, item) = self.data.remove(i);
                proof {
                    assert(self.assoc() =~= old_assoc.remove(i as int));
                    lemma_assoc_remove(old_assoc, i as int);
                }
                match item {
                    StoreItem::Stream(mut stream) => {
                        let ghost old_entries = stream@;
                        stream.entries.push((id, stream_data));
                        proof {
                            assert(stream@ =~= old_entries.push((id, stream_data@)));
                            assert forall|a: int, b: int|
                                0 <= a < b < stream@.len() implies id_lt(
                                #[trigger] stream@[a].0,
                                #[trigger] stream@[b].0,
                            ) by {
                                if b < stream@.len() - 1 {
                                } else {
                                    assert(id_lt(old_entries[a].0, id) || a == old_entries.len()
                                        - 1);
                                }
                            }
                        }
                        self.put(stored_key, StoreItem::Stream(stream));
                        Ok(())
                    },
                    StoreItem::KeyValueEntry(_) => {
                        proof {
                            assert(false);
                        }
                        Err(StoreError::IdZero)
                    },
                }
            },
            None => {
                let mut entries: Vec<(StreamId, StreamData)> = Vec::new();
                entries.push((id, stream_data));
                let ghost ev = stream_view(entries@);
                proof {
                    assert(ev =~= seq![(id, stream_data@)]);
                }
                let stream = Stream { entries };
                self.put(key, StoreItem::Stream(stream));
                Ok(())
            },
        }
    }

    /// The entries of the stream under `key` whose ids fall within the
    /// inclusive bounds; an absent bound reads from the start or to the end.
    pub fn get_stream_range(
        &self,
        key: &[u8],
        start: Option<StreamId>,
        end: Option<StreamId>,
    ) -> (r: Option<Stream>)
        ensures
            match self.spec_get(key@) {
                Some(ItemV::Stream(es)) => r matches Some(st) && st@ == es.filter(
                    (|e: (StreamId, Seq<(Seq<u8>, Seq<u8>)>)| in_xrange(e.0, start, end)),
                ),
                _ => r is None,
            },
    {
        match self.get_stream(key) {
            None => {
                proof {
                    match self.spec_get(key@) {
                        Some(ItemV::Stream(_)) => {
                            assert(false);
                        },
                        _ => {},
                    }
                }
                None
            },
            Some(stream) => {
                let st = filter_stream_entries(stream, RangeMode::Range(start, end));
                proof {
                    let p1 = (|e: (StreamId, Seq<(Seq<u8>, Seq<u8>)>)| keeps(
                        RangeMode::Range(start, end),
                        e.0,
                    ));
                    let p2 = (|e: (StreamId, Seq<(Seq<u8>, Seq<u8>)>)| in_xrange(
                        e.0,
                        start,
                        end,
                    ));
                    assert(p1 =~= p2);
                }
                Some(st)
            },
        }
    }

    /// The entries of the stream under `key` with ids strictly greater than
    /// `id`, as XREAD returns them.
    pub fn get_stream_after_id(&self, key: &[u8], id: &StreamId) -> (r: Option<Stream>)
        ensures
            match self.spec_get(key@) {
                Some(ItemV::Stream(es)) => r matches Some(st) && st@ == es.filter(
                    (|e: (StreamId, Seq<(Seq<u8>, Seq<u8>)>)| id_lt(*id, e.0)),
                ),
                _ => r is None,
            },
    {
        match self.get_stream(key) {
            None => {
                proof {
                    match self.spec_get(key@) {
                        Some(ItemV::Stream(_)) => {
                            assert(false);
                        },
                        _ => {},
                    }
                }
                None
            },
            Some(stream) => {
                let st = filter_stream_entries(stream, RangeMode::After(*id));
                proof {
                    let p1 = (|e: (StreamId, Seq<(Seq<u8>, Seq<u8>)>)| keeps(
                        RangeMode::After(*id),
                        e.0,
                    ));
                    let p2 = (|e: (StreamId, Seq<(Seq<u8>, Seq<u8>)>)| id_lt(*id, e.0));
                    assert(p1 =~= p2);
                }
                Some(st)
            },
        }
    }
}

/// Which entries a read keeps: those within inclusive bounds, or those
/// strictly after an id.
pub enum RangeMode {
    Range(Option<StreamId>, Option<StreamId>),
    After(StreamId),
}

/// Whether a read in the given mode keeps an entry with this id.
pub open spec fn keeps(mode: RangeMode, id: StreamId) -> bool {
    match mode {
        RangeMode::Range(start, end) => in_xrange(id, start, end),
        RangeMode::After(after) => id_lt(after, id),
    }
}

/// Copies the entries the mode keeps, in order.
fn filter_stream_entries(stream: &Stream, mode: RangeMode) -> (r: Stream)
    ensures
        r@ == stream@.filter((|e: (StreamId, Seq<(Seq<u8>, Seq<u8>)>)| keeps(mode, e.0))),
{
    let ghost spec_pred = (|e: (StreamId, Seq<(Seq<u8>, Seq<u8>)>)| keeps(mode, e.0));
    let mut out: Vec<(StreamId, StreamData)> = Vec::new();
    let mut i: usize = 0;
    proof {
        assert(stream@.take(0) =~= Seq::<(StreamId, Seq<(Seq<u8>, Seq<u8>)>)>::empty());
        reveal(Seq::filter);
    }
    #[verifier::loop_isolation(false)]
    while i < stream.entries.len()
        invariant
            i <= stream.entries@.len(),
            stream_view(out@) == stream@.take(i as int).filter(spec_pred),
        decreases stream.entries@.len() - i,
    {
        let entry_id = stream.entries[i].0;
        let kept = match &mode {
            RangeMode::Range(start, end) => {
                let lower_ok = match start {
                    Some(st) => st.lt(&entry_id) || (st.ms == entry_id.ms && st.seq
                        == entry_id.seq),
                    None => true,
                };
                let upper_ok = match end {
                    Some(en) => entry_id.lt(en) || (en.ms == entry_id.ms && en.seq
                        == entry_id.seq),
                    None => true,
                };
                lower_ok && upper_ok
            },
            RangeMode::After(after) => after.lt(&entry_id),
        };
        proof {
            assert(kept == spec_pred(stream@[i as int]));
            reveal(Seq::filter);
            assert(stream@.take(i + 1).drop_last() =~= stream@.take(i as int));
            assert(stream@.take(i + 1).last() == stream@[i as int]);
        }
        if kept {
            let fields = duplicate_stream_data(&stream.entries[i].1);
            out.push((entry_id, fields));
            proof {
                assert(stream_view(out@) =~= stream@.take(i + 1).filter(spec_pred));
            }
        } else {
            proof {
                assert(stream_view(out@) =~= stream@.take(i + 1).filter(spec_pred));
            }
        }
        i = i + 1;
    }
    proof {
        assert(stream@.take(stream.entries@.len() as int) =~= stream@);
    }
    Stream { entries: out }
}

/// A deep copy of entry fields, preserving their order.
pub fn duplicate_stream_data(data: &StreamData) -> (r: StreamData)
    ensures
        r@ == data@,
{
    let mut out: Vec<(Vec<u8>, Vec<u8>)> = Vec::new();
    let mut i: usize = 0;
    #[verifier::loop_isolation(false)]
    while i < data.data.len()
        invariant
            i <= data.data@.len(),
            out@.map_values(|p: (Vec<u8>, Vec<u8>)| (p.0@, p.1@)) == data@.take(i as int),
        decreases data.data@.len() - i,
    {
        out.push((data.data[i].0.clone(), data.data[i].1.clone()));
        proof {
            assert(out@.map_values(|p: (Vec<u8>, Vec<u8>)| (p.0@, p.1@)) =~= data@.take(i
                + 1));
        }
        i = i + 1;
    }
    proof {
        assert(data@.take(data.data@.len() as int) =~= data@);
    }
    StreamData { data: out }
}

proof fn lemma_assoc_remove(s: Seq<(Seq<u8>, ItemV)>, i: int)
    requires
        0 <= i < s.len(),
        forall|a: int, b: int| 0 <= a < b < s.len() ==> (#[trigger] s[a]).0 != (
        #[trigger] s[b]).0,
    ensures
        assoc_get(s.remove(i), s[i].0) is None,
        forall|k: Seq<u8>|
            k != s[i].0 ==> #[trigger] assoc_get(s.remove(i), k) == assoc_get(s, k),
        forall|a: int, b: int|
            0 <= a < b < s.remove(i).len() ==> (#[trigger] s.remove(i)[a]).0 != (
            #[trigger] s.remove(i)[b]).0,
    decreases s.len(),
{
    let t = s.remove(i);
    assert(forall|j: int| 0 <= j < i ==> #[trigger] t[j] == s[j]);
    assert(forall|j: int| i <= j < t.len() ==> #[trigger] t[j] == s[j + 1]);
    assert forall|j: int| 0 <= j < t.len() implies (#[trigger] t[j]).0 != s[i].0 by {
        if j < i {
            assert(s[j].0 != s[i].0);
        } else {
            assert(s[j + 1].0 != s[i].0);
        }
    }
    lemma_assoc_get_absent(t, s[i].0);
    assert forall|k: Seq<u8>| k != s[i].0 implies #[trigger] assoc_get(t, k) == assoc_get(
        s,
        k,
    ) by {
        lemma_assoc_get_skip_one(s, i, k);
    }
}

/// Removing an entry whose key is not `k` leaves `k`'s lookup unchanged.
proof fn lemma_assoc_get_skip_one(s: Seq<(Seq<u8>, ItemV)>, i: int, k: Seq<u8>)
    requires
        0 <= i < s.len(),
        s[i].0 != k,
    ensures
        assoc_get(s.remove(i), k) == assoc_get(s, k),
    decreases s.len(),
{
    let t = s.remove(i);
    if i == 0 {
        assert(t =~= s.drop_first());
    } else {
        assert(t.first() == s.first());
        assert(t.drop_first() =~= s.drop_first().remove(i - 1));
        lemma_assoc_get_skip_one(s.drop_first(), i - 1, k);
    }
}

/// Looking a key up lands on an actual element of the association list.
pub proof fn lemma_assoc_get_index(s: Seq<(Seq<u8>, ItemV)>, k: Seq<u8>)
    requires
        assoc_get(s, k) is Some,
    ensures
        exists|i: int|
            0 <= i < s.len() && #[trigger] s[i] == (k, assoc_get(s, k)->Some_0),
    decreases s.len(),
{
    if s.len() > 0 {
        if s.first().0 == k {
            assert(s[0] == (k, assoc_get(s, k)->Some_0));
        } else {
            lemma_assoc_get_index(s.drop_first(), k);
            let i = choose|i: int|
                0 <= i < s.drop_first().len() && #[trigger] s.drop_first()[i] == (
                k,
                assoc_get(s.drop_first(), k)->Some_0,
            );
            assert(s[i + 1] == (k, assoc_get(s, k)->Some_0));
        }
    }
}

/// Law: within any stream held by a well-formed store, an entry appended
/// earlier has a strictly smaller id than any entry appended later.
pub proof fn lemma_stream_entries_ordered(
    store: &Store,
    key: Seq<u8>,
    es: Seq<(StreamId, Seq<(Seq<u8>, Seq<u8>)>)>,
    i: int,
    j: int,
)
    requires
        store.wf(),
        store.spec_get(key) == Some(ItemV::Stream(es)),
        0 <= i < j < es.len(),
    ensures
        id_lt(es[i].0, es[j].0),
{
    lemma_assoc_get_index(store.assoc(), key);
    let idx = choose|idx: int|
        0 <= idx < store.assoc().len() && #[trigger] store.assoc()[idx] == (
        key,
        assoc_get(store.assoc(), key)->Some_0,
    );
    assert(store.assoc()[idx].1 == ItemV::Stream(es));
    assert(ids_strictly_increasing(es));
}


/// Law: an XADD whose derived id is the sentinel `0-0` is refused, whatever
/// the key holds — and a refused append leaves the store unchanged, as the
/// append path only runs on a validated id.
pub proof fn lemma_zero_id_never_appends(item: Option<ItemV>)
    ensures
        spec_validate(item, StreamId { ms: 0, seq: 0 }) == Err::<(), StoreError>(
            StoreError::IdZero,
        ),
{
}

/// Law: a scalar set at `t_set` with a relative expiry `t` reads as absent
/// at any time from `t_set + t` on.
pub proof fn lemma_expired_entry_reads_absent(value: Seq<u8>, t_set: u64, t: u64, t_read: u64)
    requires
        t_read >= crate::command::spec_expiry_at(t_set, t),
    ensures
        !entry_live(
            EntryV {
                value,
                expiry_time: Some(t),
                expiry_at: Some(crate::command::spec_expiry_at(t_set, t)),
            },
            t_read,
        ),
{
}

} // verus!
