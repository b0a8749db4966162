use vstd::prelude::*;

use crate::capsule::{
    empty_capsule, room_for, with_images, with_texts, Capsule, CapsuleView, lemma_with_images_wf,
    lemma_with_texts_wf,
};
use crate::codec::{within_bound, MAX_VALUE_SIZE};
use crate::error::StoreError;
use crate::types::{anonymous_bytes, CapsuleStats, Identity, Image, ImageView, Text, TextView};

verus! {

/// What the index holds, seen as a map from identity bytes to capsules.
pub type IndexView = Map<Seq<u8>, CapsuleView>;

/// A valid index: the anonymous identity owns nothing and every capsule meets
/// its invariant.
pub open spec fn index_valid(m: IndexView) -> bool {
    &&& !m.contains_key(anonymous_bytes())
    &&& forall|k: Seq<u8>| #[trigger] m.contains_key(k) ==> m[k].wf()
}

/// The list `pairs` holds each key once and holds exactly the entries of `m`.
pub open spec fn lists(pairs: Seq<(Seq<u8>, CapsuleView)>, m: IndexView) -> bool {
    &&& forall|i: int, j: int| 0 <= i < j < pairs.len() ==> pairs[i].0 != pairs[j].0
    &&& forall|i: int|
        0 <= i < pairs.len() ==> m.contains_key(#[trigger] pairs[i].0) && m[pairs[i].0]
            == pairs[i].1
    &&& forall|k: Seq<u8>| #[trigger]
        m.contains_key(k) ==> exists|i: int| 0 <= i < pairs.len() && pairs[i].0 == k
}

pub open spec fn pairs_view(v: Seq<(Identity, Capsule)>) -> Seq<(Seq<u8>, CapsuleView)> {
    v.map_values(|p: (Identity, Capsule)| (p.0@, p.1@))
}

/// The capsule that `key` writes into: its own, or a new one on a first write.
pub open spec fn current(m: IndexView, key: Seq<u8>) -> CapsuleView {
    if m.contains_key(key) {
        m[key]
    } else {
        empty_capsule()
    }
}

/// The records of `s` that `ids` selects, in stored order; absent ids select all.
pub open spec fn select_texts(s: Seq<TextView>, ids: Option<Seq<u64>>) -> Seq<TextView> {
    match ids {
        None => s,
        Some(ids) => s.filter(|t: TextView| ids.contains(t.id)),
    }
}

/// The records of `s` that `ids` selects, in stored order; absent ids select all.
pub open spec fn select_images(s: Seq<ImageView>, ids: Option<Seq<u64>>) -> Seq<ImageView> {
    match ids {
        None => s,
        Some(ids) => s.filter(|i: ImageView| ids.contains(i.id)),
    }
}

pub open spec fn opt_ids(ids: Option<Vec<u64>>) -> Option<Seq<u64>> {
    match ids {
        Some(v) => Some(v@),
        None => None,
    }
}

/// The outcome of staging `n` new records for `key`.
pub open spec fn stage_outcome(m: IndexView, key: Seq<u8>, n: nat) -> Result<(), StoreError> {
    if key == anonymous_bytes() {
        Err(StoreError::Unauthorized)
    } else if !room_for(current(m, key), n) {
        Err(StoreError::IdsExhausted)
    } else {
        Ok(())
    }
}

/// The outcome of committing capsule `c`, whose encoding has `len` bytes, for `key`.
pub open spec fn commit_outcome(key: Seq<u8>, c: CapsuleView, len: nat) -> Result<(), StoreError> {
    if key == anonymous_bytes() {
        Err(StoreError::Unauthorized)
    } else if !c.wf() {
        Err(StoreError::CorruptRecord)
    } else if !within_bound(len) {
        Err(StoreError::EncodingTooLarge)
    } else {
        Ok(())
    }
}

/// The outcome of reading back the records of a capsule of which `n` exist.
pub open spec fn retrieve_outcome(m: IndexView, key: Seq<u8>, n: nat) -> Result<(), StoreError> {
    if key == anonymous_bytes() {
        Err(StoreError::Unauthorized)
    } else if !m.contains_key(key) {
        Err(StoreError::NotFound)
    } else if n == 0 {
        Err(StoreError::Empty)
    } else {
        Ok(())
    }
}

/// The outcome of rebuilding an index from a list of entries.
pub open spec fn restore_accepts(pairs: Seq<(Seq<u8>, CapsuleView)>) -> bool {
    &&& forall|i: int, j: int| 0 <= i < j < pairs.len() ==> pairs[i].0 != pairs[j].0
    &&& forall|i: int| 0 <= i < pairs.len() ==> (#[trigger] pairs[i]).0 != anonymous_bytes()
    &&& forall|i: int| 0 <= i < pairs.len() ==> (#[trigger] pairs[i]).1.wf()
}

/// The persistent map from caller identity to capsule.
pub struct CapsuleIndex {
    entries: Vec<(Identity, Capsule)>,
    contents: Ghost<IndexView>,
}

impl View for CapsuleIndex {
    type V = IndexView;

    closed spec fn view(&self) -> IndexView {
        self.contents@
    }
}

impl CapsuleIndex {
    pub closed spec fn wf(&self) -> bool {
        &&& lists(pairs_view(self.entries@), self.contents@)
        &&& index_valid(self.contents@)
    }

    /// A well-formed index always has a valid view.
    pub proof fn lemma_valid(&self)
        requires
            self.wf(),
        ensures
            index_valid(self@),
    {
    }

    /// An index with no capsules.
    pub fn new() -> (r: CapsuleIndex)
        ensures
            r.wf(),
            r@ == Map::<Seq<u8>, CapsuleView>::empty(),
    {
        CapsuleIndex { entries: Vec::new(), contents: Ghost(Map::empty()) }
    }

    fn find(&self, key: &Identity) -> (r: Option<usize>)
        requires
            self.wf(),
        ensures
            match r {
                Some(i) => i < self.entries@.len() && self.entries@[i as int].0@ == key@
                    && self@.contains_key(key@) && self@[key@] == self.entries@[i as int].1@,
                None => !self@.contains_key(key@),
            },
    {
        let ghost pv = pairs_view(self.entries@);
        let mut i: usize = 0;
        while i < self.entries.len()
            invariant
                self.wf(),
                pv == pairs_view(self.entries@),
                i <= self.entries@.len(),
                forall|j: int| 0 <= j < i ==> self.entries@[j].0@ != key@,
            decreases self.entries@.len() - i,
        {
            if self.entries[i].0.same(key) {
                assert(pv[i as int].0 == key@);
                return Some(i);
            }
            i += 1;
        }
        proof {
            if self@.contains_key(key@) {
                let j = choose|j: int| 0 <= j < pv.len() && pv[j].0 == key@;
                assert(self.entries@[j].0@ == key@);
            }
        }
        None
    }

    /// The caller's capsule with `texts` appended under fresh ids, ready to be
    /// encoded and committed; the index itself is not changed.
    pub fn stage_texts(&self, caller: &Identity, texts: &Vec<Text>) -> (r: Result<Capsule, StoreError>)
        requires
            self.wf(),
        ensures
            match r {
                Ok(c) => stage_outcome(self@, caller@, texts@.len()) is Ok && c@ == with_texts(
                    current(self@, caller@),
                    texts@.map_values(|t: Text| t@),
                ) && c@.wf(),
                Err(e) => stage_outcome(self@, caller@, texts@.len()) == Err::<(), StoreError>(e),
            },
    {
        if caller.is_anonymous() {
            return Err(StoreError::Unauthorized);
        }
        let mut c = match self.find(caller) {
            Some(i) => self.entries[i].1.copy(),
            None => Capsule::new(),
        };
        proof {
            self.lemma_valid();
        }
        if c.metadata.id_generator > u64::MAX - texts.len() as u64 {
            return Err(StoreError::IdsExhausted);
        }
        proof {
            lemma_with_texts_wf(c@, texts@.map_values(|t: Text| t@));
        }
        c.append_texts(texts);
        Ok(c)
    }

    /// The caller's capsule with `images` appended under fresh ids, ready to be
    /// encoded and committed; the index itself is not changed.
    pub fn stage_images(&self, caller: &Identity, images: &Vec<Image>) -> (r: Result<Capsule, StoreError>)
        requires
            self.wf(),
        ensures
            match r {
                Ok(c) => stage_outcome(self@, caller@, images@.len()) is Ok && c@ == with_images(
                    current(self@, caller@),
                    images@.map_values(|i: Image| i@),
                ) && c@.wf(),
                Err(e) => stage_outcome(self@, caller@, images@.len()) == Err::<(), StoreError>(e),
            },
    {
        if caller.is_anonymous() {
            return Err(StoreError::Unauthorized);
        }
        let mut c = match self.find(caller) {
            Some(i) => self.entries[i].1.copy(),
            None => Capsule::new(),
        };
        proof {
            self.lemma_valid();
        }
        if c.metadata.id_generator > u64::MAX - images.len() as u64 {
            return Err(StoreError::IdsExhausted);
        }
        proof {
            lemma_with_images_wf(c@, images@.map_values(|i: Image| i@));
        }
        c.append_images(images);
        Ok(c)
    }

    /// Stores `capsule`, whose encoding is `encoded_len` bytes long, as the
    /// caller's capsule. On any error the index is left as it was.
    pub fn commit(&mut self, caller: &Identity, capsule: Capsule, encoded_len: u64) -> (r: Result<(), StoreError>)
        requires
            old(self).wf(),
        ensures
            final(self).wf(),
            r == commit_outcome(caller@, capsule@, encoded_len as nat),
            r is Ok ==> final(self)@ == old(self)@.insert(caller@, capsule@),
            r is Err ==> final(self)@ == old(self)@,
    {
        if caller.is_anonymous() {
            return Err(StoreError::Unauthorized);
        }
        if !capsule.check_ids() {
            return Err(StoreError::CorruptRecord);
        }
        if encoded_len > MAX_VALUE_SIZE {
            return Err(StoreError::EncodingTooLarge);
        }
        let ghost old_pv = pairs_view(self.entries@);
        let ghost m = self.contents@.insert(caller@, capsule@);
        match self.find(caller) {
            Some(i) => {
                self.entries.set(i, (caller.copy(), capsule));
                proof {
                    let pv = pairs_view(self.entries@);
                    assert(pv =~= old_pv.update(i as int, (caller@, m[caller@])));
                    assert forall|a: int, b: int| 0 <= a < b < pv.len() implies pv[a].0 != pv[b].0 by {
                        assert(old_pv[i as int].0 == caller@);
                    }
                    assert forall|a: int| 0 <= a < pv.len() implies m.contains_key(#[trigger] pv[a].0)
                        && m[pv[a].0] == pv[a].1 by {
                        if a != i {
                            assert(old_pv[a].0 != old_pv[i as int].0);
                        }
                    }
                    assert forall|k: Seq<u8>| #[trigger] m.contains_key(k) implies exists|j: int|
                        0 <= j < pv.len() && pv[j].0 == k by {
                        if k != caller@ {
                            let j = choose|j: int| 0 <= j < old_pv.len() && old_pv[j].0 == k;
                            assert(pv[j].0 == k);
                        } else {
                            assert(pv[i as int].0 == k);
                        }
                    }
                }
            },
            None => {
                self.entries.push((caller.copy(), capsule));
                proof {
                    let pv = pairs_view(self.entries@);
                    assert(pv =~= old_pv.push((caller@, m[caller@])));
                    assert forall|a: int, b: int| 0 <= a < b < pv.len() implies pv[a].0 != pv[b].0 by {
                        if b == old_pv.len() {
                            assert(old(self)@.contains_key(old_pv[a].0));
                        }
                    }
                    assert forall|a: int| 0 <= a < pv.len() implies m.contains_key(#[trigger] pv[a].0)
                        && m[pv[a].0] == pv[a].1 by {
                        if a < old_pv.len() {
                            assert(old(self)@.contains_key(old_pv[a].0));
                        }
                    }
                    assert forall|k: Seq<u8>| #[trigger] m.contains_key(k) implies exists|j: int|
                        0 <= j < pv.len() && pv[j].0 == k by {
                        if k != caller@ {
                            let j = choose|j: int| 0 <= j < old_pv.len() && old_pv[j].0 == k;
                            assert(pv[j].0 == k);
                        } else {
                            assert(pv[old_pv.len() as int].0 == k);
                        }
                    }
                }
            },
        }
        self.contents = Ghost(m);
        Ok(())
    }
}


fn contains_id(ids: &Vec<u64>, id: u64) -> (r: bool)
    ensures
        r == ids@.contains(id),
{
    let mut i: usize = 0;
    while i < ids.len()
        invariant
            i <= ids@.len(),
            forall|j: int| 0 <= j < i ==> ids@[j] != id,
        decreases ids@.len() - i,
    {
        if ids[i] == id {
            assert(ids@[i as int] == id);
            return true;
        }
        i += 1;
    }
    false
}

/// Copies the texts of `s` that `ids` selects, in stored order.
fn filter_texts(s: &Vec<Text>, ids: &Option<Vec<u64>>) -> (r: Vec<Text>)
    ensures
        r@.map_values(|t: Text| t@) == select_texts(s@.map_values(|t: Text| t@), opt_ids(*ids)),
{
    let ghost sv = s@.map_values(|t: Text| t@);
    let mut r: Vec<Text> = Vec::new();
    let mut i: usize = 0;
    while i < s.len()
        invariant
            i <= s@.len(),
            sv == s@.map_values(|t: Text| t@),
            r@.map_values(|t: Text| t@) == select_texts(sv.subrange(0, i as int), opt_ids(*ids)),
        decreases s@.len() - i,
    {
        let ghost before = r@.map_values(|t: Text| t@);
        let keep = match ids {
            Some(v) => contains_id(v, s[i].id),
            None => true,
        };
        if keep {
            r.push(s[i].copy());
            assert(r@.map_values(|t: Text| t@) =~= before.push(sv[i as int]));
        } else {
            assert(r@.map_values(|t: Text| t@) =~= before);
        }
        proof {
            let p = sv.subrange(0, i + 1);
            assert(p.drop_last() =~= sv.subrange(0, i as int));
            assert(p.last() == sv[i as int]);
            reveal(Seq::filter);
        }
        i += 1;
    }
    assert(sv.subrange(0, i as int) =~= sv);
    r
}

/// Copies the images of `s` that `ids` selects, in stored order.
fn filter_images(s: &Vec<Image>, ids: &Option<Vec<u64>>) -> (r: Vec<Image>)
    ensures
        r@.map_values(|m: Image| m@) == select_images(s@.map_values(|m: Image| m@), opt_ids(*ids)),
{
    let ghost sv = s@.map_values(|m: Image| m@);
    let mut r: Vec<Image> = Vec::new();
    let mut i: usize = 0;
    while i < s.len()
        invariant
            i <= s@.len(),
            sv == s@.map_values(|m: Image| m@),
            r@.map_values(|m: Image| m@) == select_images(sv.subrange(0, i as int), opt_ids(*ids)),
        decreases s@.len() - i,
    {
        let ghost before = r@.map_values(|m: Image| m@);
        let keep = match ids {
            Some(v) => contains_id(v, s[i].id),
            None => true,
        };
        if keep {
            r.push(s[i].copy());
            assert(r@.map_values(|m: Image| m@) =~= before.push(sv[i as int]));
        } else {
            assert(r@.map_values(|m: Image| m@) =~= before);
        }
        proof {
            let p = sv.subrange(0, i + 1);
            assert(p.drop_last() =~= sv.subrange(0, i as int));
            assert(p.last() == sv[i as int]);
            reveal(Seq::filter);
        }
        i += 1;
    }
    assert(sv.subrange(0, i as int) =~= sv);
    r
}

impl CapsuleIndex {
    /// The caller's texts that `ids` selects (all of them when `ids` is absent),
    /// in the order they were stored.
    pub fn retrieve_texts(&self, caller: &Identity, ids: Option<Vec<u64>>) -> (r: Result<Vec<Text>, StoreError>)
        requires
            self.wf(),
        ensures
            match r {
                Ok(v) => retrieve_outcome(self@, caller@, current(self@, caller@).texts.len()) is Ok
                    && v@.map_values(|t: Text| t@) == select_texts(self@[caller@].texts, opt_ids(ids)),
                Err(e) => retrieve_outcome(self@, caller@, current(self@, caller@).texts.len())
                    == Err::<(), StoreError>(e),
            },
    {
        if caller.is_anonymous() {
            return Err(StoreError::Unauthorized);
        }
        match self.find(caller) {
            None => Err(StoreError::NotFound),
            Some(i) => {
                let c = &self.entries[i].1;
                if c.texts.len() == 0 {
                    return Err(StoreError::Empty);
                }
                Ok(filter_texts(&c.texts, &ids))
            },
        }
    }

    /// The caller's images that `ids` selects (all of them when `ids` is absent),
    /// in the order they were stored.
    pub fn retrieve_images(&self, caller: &Identity, ids: Option<Vec<u64>>) -> (r: Result<Vec<Image>, StoreError>)
        requires
            self.wf(),
        ensures
            match r {
                Ok(v) => retrieve_outcome(self@, caller@, current(self@, caller@).images.len()) is Ok
                    && v@.map_values(|m: Image| m@) == select_images(self@[caller@].images, opt_ids(ids)),
                Err(e) => retrieve_outcome(self@, caller@, current(self@, caller@).images.len())
                    == Err::<(), StoreError>(e),
            },
    {
        if caller.is_anonymous() {
            return Err(StoreError::Unauthorized);
        }
        match self.find(caller) {
            None => Err(StoreError::NotFound),
            Some(i) => {
                let c = &self.entries[i].1;
                if c.images.len() == 0 {
                    return Err(StoreError::Empty);
                }
                Ok(filter_images(&c.images, &ids))
            },
        }
    }

    /// How many images and texts the caller's capsule holds; zero for both when
    /// it has none. Never fails.
    pub fn retrieve_capsule_stats(&self, caller: &Identity) -> (r: CapsuleStats)
        requires
            self.wf(),
        ensures
            r.total_images == current(self@, caller@).images.len(),
            r.total_texts == current(self@, caller@).texts.len(),
    {
        match self.find(caller) {
            None => CapsuleStats { total_images: 0, total_texts: 0 },
            Some(i) => {
                let c = &self.entries[i].1;
                CapsuleStats { total_images: c.images.len() as u64, total_texts: c.texts.len() as u64 }
            },
        }
    }

    /// Every identity with its capsule, each once: what a restart must bring back.
    pub fn snapshot(&self) -> (r: Vec<(Identity, Capsule)>)
        requires
            self.wf(),
        ensures
            lists(pairs_view(r@), self@),
    {
        let ghost pv = pairs_view(self.entries@);
        let mut r: Vec<(Identity, Capsule)> = Vec::new();
        let mut i: usize = 0;
        while i < self.entries.len()
            invariant
                self.wf(),
                pv == pairs_view(self.entries@),
                i <= self.entries@.len(),
                r@.len() == i,
                forall|k: int| 0 <= k < i ==> r@[k].0@ == self.entries@[k].0@ && r@[k].1@ == self.entries@[k].1@,
            decreases self.entries@.len() - i,
        {
            let e = &self.entries[i];
            r.push((e.0.copy(), e.1.copy()));
            i += 1;
        }
        assert(pairs_view(r@) =~= pv);
        r
    }

    /// Rebuilds an index from the entries of a snapshot. Refuses, as a corrupt
    /// record, a list that names an identity twice, names the anonymous
    /// identity, or holds a capsule that breaks its invariant.
    pub fn restore(pairs: Vec<(Identity, Capsule)>) -> (r: Result<CapsuleIndex, StoreError>)
        ensures
            restore_accepts(pairs_view(pairs@)) ==> r is Ok,
            !restore_accepts(pairs_view(pairs@)) ==> r is Err && r->Err_0 == StoreError::CorruptRecord,
            r is Ok ==> r->Ok_0.wf() && lists(pairs_view(pairs@), r->Ok_0@),
    {
        let ghost pv = pairs_view(pairs@);
        let mut idx = CapsuleIndex::new();
        let mut i: usize = 0;
        while i < pairs.len()
            invariant
                idx.wf(),
                pv == pairs_view(pairs@),
                i <= pairs@.len(),
                restore_accepts(pv.subrange(0, i as int)),
                lists(pv.subrange(0, i as int), idx@),
            decreases pairs@.len() - i,
        {
            let ghost before = idx@;
            let (key, c) = (&pairs[i].0, &pairs[i].1);
            assert(pv[i as int] == (key@, c@));
            if key.is_anonymous() || !c.check_ids() {
                assert(!restore_accepts(pv));
                return Err(StoreError::CorruptRecord);
            }
            if idx.find(key).is_some() {
                proof {
                    let j = choose|j: int| 0 <= j < i && pv.subrange(0, i as int)[j].0 == key@;
                    assert(pv[j].0 == pv[i as int].0);
                }
                return Err(StoreError::CorruptRecord);
            }
            let ghost sub = pv.subrange(0, i as int);
            let res = idx.commit(key, c.copy(), 0);
            assert(res is Ok);
            proof {
                let next = pv.subrange(0, i + 1);
                assert(next =~= sub.push(pv[i as int]));
                assert forall|a: int, b: int| 0 <= a < b < next.len() implies next[a].0 != next[b].0 by {
                    if b == i {
                        assert(before.contains_key(sub[a].0));
                    }
                }
                assert forall|a: int| 0 <= a < next.len() implies idx@.contains_key(#[trigger] next[a].0)
                    && idx@[next[a].0] == next[a].1 by {
                    if a < i {
                        assert(before.contains_key(sub[a].0));
                    }
                }
                assert forall|k: Seq<u8>| #[trigger] idx@.contains_key(k) implies exists|j: int|
                    0 <= j < next.len() && next[j].0 == k by {
                    if k != key@ {
                        let j = choose|j: int| 0 <= j < sub.len() && sub[j].0 == k;
                        assert(next[j].0 == k);
                    } else {
                        assert(next[i as int].0 == k);
                    }
                }
            }
            i += 1;
        }
        assert(pv.subrange(0, i as int) =~= pv);
        Ok(idx)
    }
}

} // verus!
