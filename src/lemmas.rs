use vstd::prelude::*;

use crate::capsule::{
    image_ids, lemma_with_images_wf, lemma_with_texts_wf, room_for, stamp_images, stamp_texts,
    text_ids, with_images, with_texts, CapsuleView,
};
use crate::codec::within_bound;
use crate::error::StoreError;
use crate::index::{
    commit_outcome, current, index_valid, lists, restore_accepts, retrieve_outcome, select_images,
    select_texts, stage_outcome, IndexView,
};
use crate::types::{anonymous_bytes, ImageView, TextView};

verus! {

/// Storing texts or images for a caller, then committing the result, keeps every
/// capsule valid: within each capsule the text ids, and the image ids, are pairwise
/// distinct and strictly increasing in the order the records were stored, and each
/// record stored later has a larger id than every record stored before it.
pub proof fn lemma_store_keeps_ids_unique(
    m: IndexView,
    key: Seq<u8>,
    texts: Seq<TextView>,
    images: Seq<ImageView>,
)
    requires
        index_valid(m),
        key != anonymous_bytes(),
        room_for(current(m, key), texts.len()),
        room_for(with_texts(current(m, key), texts), images.len()),
    ensures
        ({
            let c1 = with_texts(current(m, key), texts);
            let c2 = with_images(c1, images);
            &&& index_valid(m.insert(key, c1))
            &&& index_valid(m.insert(key, c2))
            &&& forall|i: int, j: int|
                0 <= i < j < text_ids(c2.texts).len() ==> text_ids(c2.texts)[i] < text_ids(
                    c2.texts,
                )[j]
            &&& forall|i: int, j: int|
                0 <= i < j < image_ids(c2.images).len() ==> image_ids(c2.images)[i] < image_ids(
                    c2.images,
                )[j]
        }),
{
    let c0 = current(m, key);
    if m.contains_key(key) {
        assert(c0.wf());
    } else {
        assert(text_ids(c0.texts) =~= Seq::<u64>::empty());
        assert(image_ids(c0.images) =~= Seq::<u64>::empty());
    }
    lemma_with_texts_wf(c0, texts);
    let c1 = with_texts(c0, texts);
    lemma_with_images_wf(c1, images);
    let c2 = with_images(c1, images);
    assert forall|k: Seq<u8>| #[trigger] m.insert(key, c1).contains_key(k) implies m.insert(
        key,
        c1,
    )[k].wf() by {
        if k != key {
            assert(m.contains_key(k));
        }
    }
    assert forall|k: Seq<u8>| #[trigger] m.insert(key, c2).contains_key(k) implies m.insert(
        key,
        c2,
    )[k].wf() by {
        if k != key {
            assert(m.contains_key(k));
        }
    }
}

/// Storing texts never removes or reorders what was stored before: the earlier
/// texts stay as they were, in front, followed by the new ones in input order with
/// their contents and metadata unchanged; the images are untouched. The same holds
/// of storing images.
pub proof fn lemma_store_appends(c: CapsuleView, texts: Seq<TextView>, images: Seq<ImageView>)
    requires
        room_for(c, texts.len()),
        room_for(c, images.len()),
    ensures
        with_texts(c, texts).texts.len() == c.texts.len() + texts.len(),
        with_texts(c, texts).texts.subrange(0, c.texts.len() as int) == c.texts,
        with_texts(c, texts).images == c.images,
        forall|i: int|
            0 <= i < texts.len() ==> {
                let t = #[trigger] with_texts(c, texts).texts[c.texts.len() + i];
                t.content == texts[i].content && t.metadata == texts[i].metadata
            },
        with_images(c, images).images.len() == c.images.len() + images.len(),
        with_images(c, images).images.subrange(0, c.images.len() as int) == c.images,
        with_images(c, images).texts == c.texts,
        forall|i: int|
            0 <= i < images.len() ==> {
                let m = #[trigger] with_images(c, images).images[c.images.len() + i];
                m.content == images[i].content && m.metadata == images[i].metadata
            },
{
    let g = c.metadata.id_generator as int;
    assert(with_texts(c, texts).texts.subrange(0, c.texts.len() as int) =~= c.texts);
    assert(with_images(c, images).images.subrange(0, c.images.len() as int) =~= c.images);
    assert forall|i: int| 0 <= i < texts.len() implies {
        let t = #[trigger] with_texts(c, texts).texts[c.texts.len() + i];
        t.content == texts[i].content && t.metadata == texts[i].metadata
    } by {
        assert(with_texts(c, texts).texts[c.texts.len() + i] == stamp_texts(texts, g)[i]);
    }
    assert forall|i: int| 0 <= i < images.len() implies {
        let m = #[trigger] with_images(c, images).images[c.images.len() + i];
        m.content == images[i].content && m.metadata == images[i].metadata
    } by {
        assert(with_images(c, images).images[c.images.len() + i] == stamp_images(images, g)[i]);
    }
}

/// Retrieving with a set of ids yields exactly the stored records whose id is in
/// the set, and no others; with no set it yields every stored record in stored
/// order.
pub proof fn lemma_filter_exact(
    ts: Seq<TextView>,
    ms: Seq<ImageView>,
    ids: Seq<u64>,
)
    ensures
        select_texts(ts, None) == ts,
        select_images(ms, None) == ms,
        forall|t: TextView|
            #[trigger] select_texts(ts, Some(ids)).contains(t) <==> ts.contains(t) && ids.contains(
                t.id,
            ),
        forall|m: ImageView|
            #[trigger] select_images(ms, Some(ids)).contains(m) <==> ms.contains(m)
                && ids.contains(m.id),
{
    broadcast use vstd::seq_lib::group_filter_ensures;

    let pt = |t: TextView| ids.contains(t.id);
    let pm = |m: ImageView| ids.contains(m.id);
    assert forall|t: TextView| #[trigger] select_texts(ts, Some(ids)).contains(t) <==> ts.contains(
        t,
    ) && ids.contains(t.id) by {
        if select_texts(ts, Some(ids)).contains(t) {
            ts.lemma_filter_contains_rev(pt, t);
            let k = choose|k: int| 0 <= k < ts.filter(pt).len() && ts.filter(pt)[k] == t;
            assert(pt(ts.filter(pt)[k]));
        }
        if ts.contains(t) && ids.contains(t.id) {
            let k = choose|k: int| 0 <= k < ts.len() && ts[k] == t;
            ts.lemma_filter_contains(pt, k);
        }
    }
    assert forall|m: ImageView| #[trigger] select_images(ms, Some(ids)).contains(m) <==> ms.contains(
        m,
    ) && ids.contains(m.id) by {
        if select_images(ms, Some(ids)).contains(m) {
            ms.lemma_filter_contains_rev(pm, m);
            let k = choose|k: int| 0 <= k < ms.filter(pm).len() && ms.filter(pm)[k] == m;
            assert(pm(ms.filter(pm)[k]));
        }
        if ms.contains(m) && ids.contains(m.id) {
            let k = choose|k: int| 0 <= k < ms.len() && ms[k] == m;
            ms.lemma_filter_contains(pm, k);
        }
    }
}

/// What a snapshot lists, restoring accepts, and the index it rebuilds holds
/// exactly the capsules that were saved: every caller gets back the texts and
/// images it had before the restart.
pub proof fn lemma_restore_after_snapshot(
    pairs: Seq<(Seq<u8>, CapsuleView)>,
    m: IndexView,
    restored: IndexView,
)
    requires
        index_valid(m),
        lists(pairs, m),
        lists(pairs, restored),
    ensures
        restore_accepts(pairs),
        restored == m,
{
    assert forall|i: int| 0 <= i < pairs.len() implies (#[trigger] pairs[i]).0 != anonymous_bytes() by {
        assert(m.contains_key(pairs[i].0));
    }
    assert forall|i: int| 0 <= i < pairs.len() implies (#[trigger] pairs[i]).1.wf() by {
        assert(m.contains_key(pairs[i].0));
    }
    assert forall|k: Seq<u8>| #[trigger] restored.contains_key(k) <==> m.contains_key(k) by {
        if restored.contains_key(k) {
            let i = choose|i: int| 0 <= i < pairs.len() && pairs[i].0 == k;
            assert(m.contains_key(pairs[i].0));
        }
        if m.contains_key(k) {
            let i = choose|i: int| 0 <= i < pairs.len() && pairs[i].0 == k;
            assert(restored.contains_key(pairs[i].0));
        }
    }
    assert forall|k: Seq<u8>| #[trigger] restored.contains_key(k) implies restored[k] == m[k] by {
        let i = choose|i: int| 0 <= i < pairs.len() && pairs[i].0 == k;
        assert(restored.contains_key(pairs[i].0));
    }
    assert(restored =~= m);
}

/// Every operation that requires an authenticated caller refuses the anonymous
/// identity as unauthorized, before anything else is looked at.
pub proof fn lemma_anonymous_rejected(m: IndexView, c: CapsuleView, n: nat, len: nat)
    ensures
        stage_outcome(m, anonymous_bytes(), n) == Err::<(), StoreError>(StoreError::Unauthorized),
        commit_outcome(anonymous_bytes(), c, len) == Err::<(), StoreError>(
            StoreError::Unauthorized,
        ),
        retrieve_outcome(m, anonymous_bytes(), n) == Err::<(), StoreError>(
            StoreError::Unauthorized,
        ),
{
}

/// A valid capsule whose encoding exceeds the ceiling is refused as too large.
pub proof fn lemma_oversize_rejected(key: Seq<u8>, c: CapsuleView, len: nat)
    requires
        key != anonymous_bytes(),
        c.wf(),
        !within_bound(len),
    ensures
        commit_outcome(key, c, len) == Err::<(), StoreError>(StoreError::EncodingTooLarge),
{
}

} // verus!
