use vstd::prelude::*;

verus! {

/// The calling identity, held as the raw bytes of its principal.
pub struct Identity {
    pub bytes: Vec<u8>,
}

/// The principal tag byte that marks the anonymous caller.
pub const ANONYMOUS_TAG: u8 = 4;

/// The anonymous principal is the single tag byte.
pub open spec fn anonymous_bytes() -> Seq<u8> {
    seq![ANONYMOUS_TAG]
}

impl View for Identity {
    type V = Seq<u8>;

    open spec fn view(&self) -> Seq<u8> {
        self.bytes@
    }
}

pub fn copy_bytes(v: &Vec<u8>) -> (r: Vec<u8>)
    ensures
        r@ == v@,
{
    let mut r: Vec<u8> = Vec::new();
    let mut i: usize = 0;
    while i < v.len()
        invariant
            i <= v@.len(),
            r@ == v@.subrange(0, i as int),
        decreases v@.len() - i,
    {
        r.push(v[i]);
        i += 1;
    }
    assert(r@ =~= v@);
    r
}

impl Identity {
    pub fn copy(&self) -> (r: Identity)
        ensures
            r@ == self@,
    {
        Identity { bytes: copy_bytes(&self.bytes) }
    }

    /// Whether this identity is the anonymous sentinel.
    pub fn is_anonymous(&self) -> (r: bool)
        ensures
            r == (self@ == anonymous_bytes()),
    {
        if self.bytes.len() == 1 && self.bytes[0] == ANONYMOUS_TAG {
            assert(self@ =~= anonymous_bytes());
            true
        } else {
            false
        }
    }

    /// Whether two identities are the same principal.
    pub fn same(&self, other: &Identity) -> (r: bool)
        ensures
            r == (self@ == other@),
    {
        if self.bytes.len() != other.bytes.len() {
            return false;
        }
        let mut i: usize = 0;
        while i < self.bytes.len()
            invariant
                self@.len() == other@.len(),
                i <= self@.len(),
                forall|j: int| 0 <= j < i ==> self@[j] == other@[j],
            decreases self@.len() - i,
        {
            if self.bytes[i] != other.bytes[i] {
                return false;
            }
            i += 1;
        }
        assert(self@ =~= other@);
        true
    }
}

pub open spec fn opt_chars(o: Option<String>) -> Option<Seq<char>> {
    match o {
        Some(s) => Some(s@),
        None => None,
    }
}

pub open spec fn strings_view(v: Vec<String>) -> Seq<Seq<char>> {
    Seq::new(v@.len(), |i: int| v@[i]@)
}

pub open spec fn opt_strings(o: Option<Vec<String>>) -> Option<Seq<Seq<char>>> {
    match o {
        Some(v) => Some(strings_view(v)),
        None => None,
    }
}

pub open spec fn identities_view(v: Vec<Identity>) -> Seq<Seq<u8>> {
    Seq::new(v@.len(), |i: int| v@[i]@)
}

pub open spec fn opt_identities(o: Option<Vec<Identity>>) -> Option<Seq<Seq<u8>>> {
    match o {
        Some(v) => Some(identities_view(v)),
        None => None,
    }
}

pub open spec fn opt_bytes(o: Option<Vec<u8>>) -> Option<Seq<u8>> {
    match o {
        Some(v) => Some(v@),
        None => None,
    }
}

fn copy_opt_string(o: &Option<String>) -> (r: Option<String>)
    ensures
        opt_chars(r) == opt_chars(*o),
{
    match o {
        Some(s) => Some(s.clone()),
        None => None,
    }
}

fn copy_strings(v: &Vec<String>) -> (r: Vec<String>)
    ensures
        strings_view(r) == strings_view(*v),
{
    let mut r: Vec<String> = Vec::new();
    let mut i: usize = 0;
    while i < v.len()
        invariant
            i <= v@.len(),
            r@.len() == i,
            forall|j: int| 0 <= j < i ==> r@[j]@ == v@[j]@,
        decreases v@.len() - i,
    {
        r.push(v[i].clone());
        i += 1;
    }
    assert(strings_view(r) =~= strings_view(*v));
    r
}

fn copy_opt_strings(o: &Option<Vec<String>>) -> (r: Option<Vec<String>>)
    ensures
        opt_strings(r) == opt_strings(*o),
{
    match o {
        Some(v) => Some(copy_strings(v)),
        None => None,
    }
}

pub fn copy_identities(v: &Vec<Identity>) -> (r: Vec<Identity>)
    ensures
        identities_view(r) == identities_view(*v),
{
    let mut r: Vec<Identity> = Vec::new();
    let mut i: usize = 0;
    while i < v.len()
        invariant
            i <= v@.len(),
            r@.len() == i,
            forall|j: int| 0 <= j < i ==> r@[j]@ == v@[j]@,
        decreases v@.len() - i,
    {
        r.push(v[i].copy());
        i += 1;
    }
    assert(identities_view(r) =~= identities_view(*v));
    r
}

fn copy_opt_identities(o: &Option<Vec<Identity>>) -> (r: Option<Vec<Identity>>)
    ensures
        opt_identities(r) == opt_identities(*o),
{
    match o {
        Some(v) => Some(copy_identities(v)),
        None => None,
    }
}

fn copy_opt_bytes(o: &Option<Vec<u8>>) -> (r: Option<Vec<u8>>)
    ensures
        opt_bytes(r) == opt_bytes(*o),
{
    match o {
        Some(v) => Some(copy_bytes(v)),
        None => None,
    }
}

/// Descriptive fields of a stored text or image; none of them affects the index.
pub struct Metadata {
    pub file_name: String,
    pub file_type: String,
    pub file_size: u64,
    pub description: Option<String>,
    pub date: Option<String>,
    pub place: Option<String>,
    pub tags: Option<Vec<String>>,
    pub people: Option<Vec<String>>,
    pub visibility: Option<Vec<Identity>>,
    pub preview: Option<Vec<u8>>,
}

pub struct MetadataView {
    pub file_name: Seq<char>,
    pub file_type: Seq<char>,
    pub file_size: u64,
    pub description: Option<Seq<char>>,
    pub date: Option<Seq<char>>,
    pub place: Option<Seq<char>>,
    pub tags: Option<Seq<Seq<char>>>,
    pub people: Option<Seq<Seq<char>>>,
    pub visibility: Option<Seq<Seq<u8>>>,
    pub preview: Option<Seq<u8>>,
}

impl View for Metadata {
    type V = MetadataView;

    open spec fn view(&self) -> MetadataView {
        MetadataView {
            file_name: self.file_name@,
            file_type: self.file_type@,
            file_size: self.file_size,
            description: opt_chars(self.description),
            date: opt_chars(self.date),
            place: opt_chars(self.place),
            tags: opt_strings(self.tags),
            people: opt_strings(self.people),
            visibility: opt_identities(self.visibility),
            preview: opt_bytes(self.preview),
        }
    }
}

impl Metadata {
    pub fn copy(&self) -> (r: Metadata)
        ensures
            r@ == self@,
    {
        Metadata {
            file_name: self.file_name.clone(),
            file_type: self.file_type.clone(),
            file_size: self.file_size,
            description: copy_opt_string(&self.description),
            date: copy_opt_string(&self.date),
            place: copy_opt_string(&self.place),
            tags: copy_opt_strings(&self.tags),
            people: copy_opt_strings(&self.people),
            visibility: copy_opt_identities(&self.visibility),
            preview: copy_opt_bytes(&self.preview),
        }
    }
}

/// A stored text record.
pub struct Text {
    pub id: u64,
    pub content: String,
    pub metadata: Metadata,
}

pub struct TextView {
    pub id: u64,
    pub content: Seq<char>,
    pub metadata: MetadataView,
}

impl View for Text {
    type V = TextView;

    open spec fn view(&self) -> TextView {
        TextView { id: self.id, content: self.content@, metadata: self.metadata@ }
    }
}

impl Text {
    pub fn copy(&self) -> (r: Text)
        ensures
            r@ == self@,
    {
        Text { id: self.id, content: self.content.clone(), metadata: self.metadata.copy() }
    }
}

/// A stored image record.
pub struct Image {
    pub id: u64,
    pub content: Vec<u8>,
    pub metadata: Metadata,
}

pub struct ImageView {
    pub id: u64,
    pub content: Seq<u8>,
    pub metadata: MetadataView,
}

impl View for Image {
    type V = ImageView;

    open spec fn view(&self) -> ImageView {
        ImageView { id: self.id, content: self.content@, metadata: self.metadata@ }
    }
}

impl Image {
    pub fn copy(&self) -> (r: Image)
        ensures
            r@ == self@,
    {
        Image { id: self.id, content: copy_bytes(&self.content), metadata: self.metadata.copy() }
    }
}

/// Capsule-level preferences.
pub struct Settings {
    pub language: Option<String>,
    pub visibility: Vec<Identity>,
}

pub struct SettingsView {
    pub language: Option<Seq<char>>,
    pub visibility: Seq<Seq<u8>>,
}

impl View for Settings {
    type V = SettingsView;

    open spec fn view(&self) -> SettingsView {
        SettingsView {
            language: opt_chars(self.language),
            visibility: identities_view(self.visibility),
        }
    }
}

impl Settings {
    pub fn new() -> (r: Settings)
        ensures
            r@.language is None,
            r@.visibility.len() == 0,
    {
        Settings { language: None, visibility: Vec::new() }
    }

    pub fn copy(&self) -> (r: Settings)
        ensures
            r@ == self@,
    {
        Settings {
            language: copy_opt_string(&self.language),
            visibility: copy_identities(&self.visibility),
        }
    }
}

/// Capsule-level metadata, including the identifier generator.
pub struct CapsuleMetadata {
    pub description: Option<String>,
    pub creation_date: Option<String>,
    pub name: String,
    pub id_generator: u64,
}

pub struct CapsuleMetadataView {
    pub description: Option<Seq<char>>,
    pub creation_date: Option<Seq<char>>,
    pub name: Seq<char>,
    pub id_generator: u64,
}

impl View for CapsuleMetadata {
    type V = CapsuleMetadataView;

    open spec fn view(&self) -> CapsuleMetadataView {
        CapsuleMetadataView {
            description: opt_chars(self.description),
            creation_date: opt_chars(self.creation_date),
            name: self.name@,
            id_generator: self.id_generator,
        }
    }
}

impl CapsuleMetadata {
    pub fn new() -> (r: CapsuleMetadata)
        ensures
            r@.description is None,
            r@.creation_date is None,
            r@.name.len() == 0,
            r@.id_generator == 0,
    {
        CapsuleMetadata {
            description: None,
            creation_date: None,
            name: String::new(),
            id_generator: 0,
        }
    }

    pub fn copy(&self) -> (r: CapsuleMetadata)
        ensures
            r@ == self@,
    {
        CapsuleMetadata {
            description: copy_opt_string(&self.description),
            creation_date: copy_opt_string(&self.creation_date),
            name: self.name.clone(),
            id_generator: self.id_generator,
        }
    }
}

/// Aggregate figures over the whole store.
pub struct Statistics {
    pub total_users: u64,
    pub total_memory: u64,
}

/// How many records one capsule holds.
pub struct CapsuleStats {
    pub total_images: u64,
    pub total_texts: u64,
}

} // verus!
