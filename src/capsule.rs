use vstd::prelude::*;

use crate::types::{
    CapsuleMetadata, CapsuleMetadataView, Image, ImageView, Settings, SettingsView, Text, TextView,
};

verus! {

/// One caller's archive: its texts and images in insertion order, its settings
/// and its metadata.
pub struct Capsule {
    pub texts: Vec<Text>,
    pub images: Vec<Image>,
    pub settings: Settings,
    pub metadata: CapsuleMetadata,
}

pub struct CapsuleView {
    pub texts: Seq<TextView>,
    pub images: Seq<ImageView>,
    pub settings: SettingsView,
    pub metadata: CapsuleMetadataView,
}

impl View for Capsule {
    type V = CapsuleView;

    open spec fn view(&self) -> CapsuleView {
        CapsuleView {
            texts: self.texts@.map_values(|t: Text| t@),
            images: self.images@.map_values(|i: Image| i@),
            settings: self.settings@,
            metadata: self.metadata@,
        }
    }
}

/// The ids of a sequence of texts.
pub open spec fn text_ids(s: Seq<TextView>) -> Seq<u64> {
    s.map_values(|t: TextView| t.id)
}

/// The ids of a sequence of images.
pub open spec fn image_ids(s: Seq<ImageView>) -> Seq<u64> {
    s.map_values(|i: ImageView| i.id)
}

/// Ids that increase strictly along the sequence and were all drawn before `next`.
pub open spec fn ids_fresh_below(ids: Seq<u64>, next: u64) -> bool {
    &&& forall|i: int, j: int| 0 <= i < j < ids.len() ==> ids[i] < ids[j]
    &&& forall|i: int| 0 <= i < ids.len() ==> ids[i] < next
}

impl CapsuleView {
    /// The capsule invariant: text ids and image ids are each strictly increasing
    /// and below the generator, so the generator never hands out a used id.
    pub open spec fn wf(self) -> bool {
        &&& ids_fresh_below(text_ids(self.texts), self.metadata.id_generator)
        &&& ids_fresh_below(image_ids(self.images), self.metadata.id_generator)
    }
}

/// A capsule as it is created on a caller's first write.
pub open spec fn empty_capsule() -> CapsuleView {
    CapsuleView {
        texts: Seq::empty(),
        images: Seq::empty(),
        settings: SettingsView { language: None, visibility: Seq::empty() },
        metadata: CapsuleMetadataView {
            description: None,
            creation_date: None,
            name: Seq::empty(),
            id_generator: 0,
        },
    }
}

/// The texts `new` as stored: their ids replaced by consecutive ids from `first`.
pub open spec fn stamp_texts(new: Seq<TextView>, first: int) -> Seq<TextView> {
    Seq::new(
        new.len(),
        |i: int| TextView { id: (first + i) as u64, content: new[i].content, metadata: new[i].metadata },
    )
}

/// The images `new` as stored: their ids replaced by consecutive ids from `first`.
pub open spec fn stamp_images(new: Seq<ImageView>, first: int) -> Seq<ImageView> {
    Seq::new(
        new.len(),
        |i: int| ImageView { id: (first + i) as u64, content: new[i].content, metadata: new[i].metadata },
    )
}

/// The generator after drawing `n` ids.
pub open spec fn advanced(m: CapsuleMetadataView, n: nat) -> CapsuleMetadataView {
    CapsuleMetadataView {
        description: m.description,
        creation_date: m.creation_date,
        name: m.name,
        id_generator: (m.id_generator + n) as u64,
    }
}

/// `c` with the texts `new` appended under fresh ids.
pub open spec fn with_texts(c: CapsuleView, new: Seq<TextView>) -> CapsuleView {
    CapsuleView {
        texts: c.texts + stamp_texts(new, c.metadata.id_generator as int),
        images: c.images,
        settings: c.settings,
        metadata: advanced(c.metadata, new.len()),
    }
}

/// `c` with the images `new` appended under fresh ids.
pub open spec fn with_images(c: CapsuleView, new: Seq<ImageView>) -> CapsuleView {
    CapsuleView {
        texts: c.texts,
        images: c.images + stamp_images(new, c.metadata.id_generator as int),
        settings: c.settings,
        metadata: advanced(c.metadata, new.len()),
    }
}

/// Whether `n` more ids can be drawn from `c`'s generator.
pub open spec fn room_for(c: CapsuleView, n: nat) -> bool {
    c.metadata.id_generator + n <= u64::MAX
}

/// Appending texts keeps the capsule invariant.
pub proof fn lemma_with_texts_wf(c: CapsuleView, new: Seq<TextView>)
    requires
        c.wf(),
        room_for(c, new.len()),
    ensures
        with_texts(c, new).wf(),
{
    let r = with_texts(c, new);
    let g = c.metadata.id_generator as int;
    assert(text_ids(r.texts) =~= text_ids(c.texts) + text_ids(stamp_texts(new, g)));
    assert forall|i: int, j: int| 0 <= i < j < text_ids(r.texts).len() implies text_ids(
        r.texts,
    )[i] < text_ids(r.texts)[j] by {
        if j >= c.texts.len() && i < c.texts.len() {
            assert(text_ids(r.texts)[i] == text_ids(c.texts)[i]);
        }
    }
    assert(image_ids(r.images) == image_ids(c.images));
}

/// Appending images keeps the capsule invariant.
pub proof fn lemma_with_images_wf(c: CapsuleView, new: Seq<ImageView>)
    requires
        c.wf(),
        room_for(c, new.len()),
    ensures
        with_images(c, new).wf(),
{
    let r = with_images(c, new);
    let g = c.metadata.id_generator as int;
    assert(image_ids(r.images) =~= image_ids(c.images) + image_ids(stamp_images(new, g)));
    assert forall|i: int, j: int| 0 <= i < j < image_ids(r.images).len() implies image_ids(
        r.images,
    )[i] < image_ids(r.images)[j] by {
        if j >= c.images.len() && i < c.images.len() {
            assert(image_ids(r.images)[i] == image_ids(c.images)[i]);
        }
    }
    assert(text_ids(r.texts) == text_ids(c.texts));
}

impl Capsule {
    /// An empty capsule whose generator starts at zero.
    pub fn new() -> (r: Capsule)
        ensures
            r@ == empty_capsule(),
            r@.wf(),
    {
        let r = Capsule {
            texts: Vec::new(),
            images: Vec::new(),
            settings: Settings::new(),
            metadata: CapsuleMetadata::new(),
        };
        assert(r@.texts =~= Seq::<TextView>::empty());
        assert(r@.images =~= Seq::<ImageView>::empty());
        assert(r@.settings.visibility =~= Seq::<Seq<u8>>::empty());
        assert(r@.metadata.name =~= Seq::<char>::empty());
        r
    }

    /// Returns the generator's current value and advances it by one.
    pub fn next_id(&mut self) -> (r: u64)
        requires
            old(self).metadata.id_generator < u64::MAX,
        ensures
            r == old(self).metadata.id_generator,
            final(self)@ == (CapsuleView { metadata: advanced(old(self)@.metadata, 1), ..old(self)@ }),
    {
        let r = self.metadata.id_generator;
        self.metadata.id_generator = r + 1;
        r
    }

    /// Appends `new` under fresh ids, in input order; the ids they carried are not kept.
    pub fn append_texts(&mut self, new: &Vec<Text>)
        requires
            room_for(old(self)@, new@.len()),
        ensures
            final(self)@ == with_texts(old(self)@, new@.map_values(|t: Text| t@)),
    {
        let ghost start = self@;
        let ghost nv = new@.map_values(|t: Text| t@);
        let ghost g = start.metadata.id_generator as int;
        let mut i: usize = 0;
        while i < new.len()
            invariant
                i <= new@.len(),
                nv == new@.map_values(|t: Text| t@),
                g == start.metadata.id_generator as int,
                g + new@.len() <= u64::MAX,
                self@ == with_texts(start, nv.subrange(0, i as int)),
            decreases new@.len() - i,
        {
            let ghost before = self@;
            let id = self.next_id();
            let t = &new[i];
            self.texts.push(Text { id, content: t.content.clone(), metadata: t.metadata.copy() });
            proof {
                assert(nv.subrange(0, i + 1) =~= nv.subrange(0, i as int).push(nv[i as int]));
                let item = TextView { id: (g + i) as u64, content: nv[i as int].content, metadata: nv[i as int].metadata };
                assert(self@.texts =~= before.texts.push(item));
                assert(stamp_texts(nv.subrange(0, i + 1), g) =~= stamp_texts(nv.subrange(0, i as int), g).push(item));
                assert(self@.texts =~= with_texts(start, nv.subrange(0, i + 1)).texts);
            }
            i += 1;
        }
        assert(nv.subrange(0, i as int) =~= nv);
    }

    /// Appends `new` under fresh ids, in input order; the ids they carried are not kept.
    pub fn append_images(&mut self, new: &Vec<Image>)
        requires
            room_for(old(self)@, new@.len()),
        ensures
            final(self)@ == with_images(old(self)@, new@.map_values(|i: Image| i@)),
    {
        let ghost start = self@;
        let ghost nv = new@.map_values(|i: Image| i@);
        let ghost g = start.metadata.id_generator as int;
        let mut i: usize = 0;
        while i < new.len()
            invariant
                i <= new@.len(),
                nv == new@.map_values(|i: Image| i@),
                g == start.metadata.id_generator as int,
                g + new@.len() <= u64::MAX,
                self@ == with_images(start, nv.subrange(0, i as int)),
            decreases new@.len() - i,
        {
            let ghost before = self@;
            let id = self.next_id();
            let m = &new[i];
            self.images.push(Image { id, content: crate::types::copy_bytes(&m.content), metadata: m.metadata.copy() });
            proof {
                assert(nv.subrange(0, i + 1) =~= nv.subrange(0, i as int).push(nv[i as int]));
                let item = ImageView { id: (g + i) as u64, content: nv[i as int].content, metadata: nv[i as int].metadata };
                assert(self@.images =~= before.images.push(item));
                assert(stamp_images(nv.subrange(0, i + 1), g) =~= stamp_images(nv.subrange(0, i as int), g).push(item));
                assert(self@.images =~= with_images(start, nv.subrange(0, i + 1)).images);
            }
            i += 1;
        }
        assert(nv.subrange(0, i as int) =~= nv);
    }
}

} // verus!

verus! {

fn ids_increasing(ids: &Vec<u64>, next: u64) -> (r: bool)
    ensures
        r == ids_fresh_below(ids@, next),
{
    let mut i: usize = 0;
    while i < ids.len()
        invariant
            i <= ids@.len(),
            forall|a: int, b: int| 0 <= a < b < i ==> ids@[a] < ids@[b],
            forall|a: int| 0 <= a < i ==> ids@[a] < next,
        decreases ids@.len() - i,
    {
        if ids[i] >= next {
            return false;
        }
        if i > 0 && ids[i - 1] >= ids[i] {
            return false;
        }
        assert forall|a: int, b: int| 0 <= a < b < i + 1 implies ids@[a] < ids@[b] by {
            if b == i && a < i - 1 {
                assert(ids@[a] < ids@[i - 1]);
            }
        }
        i += 1;
    }
    true
}

impl Capsule {
    /// Whether the capsule meets its invariant.
    pub fn check_ids(&self) -> (r: bool)
        ensures
            r == self@.wf(),
    {
        let mut t: Vec<u64> = Vec::new();
        let mut i: usize = 0;
        while i < self.texts.len()
            invariant
                i <= self.texts@.len(),
                t@ == text_ids(self@.texts).subrange(0, i as int),
            decreases self.texts@.len() - i,
        {
            t.push(self.texts[i].id);
            assert(t@ =~= text_ids(self@.texts).subrange(0, i + 1));
            i += 1;
        }
        assert(t@ =~= text_ids(self@.texts));
        let mut m: Vec<u64> = Vec::new();
        let mut j: usize = 0;
        while j < self.images.len()
            invariant
                j <= self.images@.len(),
                m@ == image_ids(self@.images).subrange(0, j as int),
            decreases self.images@.len() - j,
        {
            m.push(self.images[j].id);
            assert(m@ =~= image_ids(self@.images).subrange(0, j + 1));
            j += 1;
        }
        assert(m@ =~= image_ids(self@.images));
        ids_increasing(&t, self.metadata.id_generator) && ids_increasing(&m, self.metadata.id_generator)
    }

    pub fn copy(&self) -> (r: Capsule)
        ensures
            r@ == self@,
    {
        let mut texts: Vec<Text> = Vec::new();
        let mut i: usize = 0;
        while i < self.texts.len()
            invariant
                i <= self.texts@.len(),
                texts@.len() == i,
                forall|k: int| 0 <= k < i ==> texts@[k]@ == self.texts@[k]@,
            decreases self.texts@.len() - i,
        {
            texts.push(self.texts[i].copy());
            i += 1;
        }
        let mut images: Vec<Image> = Vec::new();
        let mut j: usize = 0;
        while j < self.images.len()
            invariant
                j <= self.images@.len(),
                images@.len() == j,
                forall|k: int| 0 <= k < j ==> images@[k]@ == self.images@[k]@,
            decreases self.images@.len() - j,
        {
            images.push(self.images[j].copy());
            j += 1;
        }
        let r = Capsule {
            texts,
            images,
            settings: self.settings.copy(),
            metadata: self.metadata.copy(),
        };
        assert(r@.texts =~= self@.texts);
        assert(r@.images =~= self@.images);
        r
    }
}

} // verus!
