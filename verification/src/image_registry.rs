use vstd::prelude::*;
use vstd::string::StringExecFns;
use crate::fs_facts::{FileSystemError, ProbedFile};
use crate::path_text::same_text;
use crate::supported_image::{
    hidden_dotfile_path, is_hidden_dotfile, is_supported_image, supported_image_path,
};

verus! {

/// An opaque identifier that stands for an approved image in image URLs.
#[derive(Debug, PartialEq, Eq, Hash)]
pub struct ImageId(String);

impl View for ImageId {
    type V = Seq<char>;

    closed spec fn view(&self) -> Seq<char> {
        self.0@
    }
}

impl Clone for ImageId {
    fn clone(&self) -> (copy: Self)
        ensures
            copy@ == self@,
    {
        ImageId(self.0.clone())
    }
}

impl ImageId {
    pub fn from_opaque(value: &str) -> (id: Self)
        ensures
            id@ == value@,
    {
        ImageId(<String as StringExecFns>::from_str(value))
    }

    pub fn as_str(&self) -> (text: &str)
        ensures
            text@ == self@,
    {
        self.0.as_str()
    }
}

/// A character that opaque image ids are made of: a lowercase hexadecimal
/// digit or a hyphen.
pub open spec fn is_opaque_id_char(c: char) -> bool {
    ('0' <= c && c <= '9') || ('a' <= c && c <= 'f') || c == '-'
}

/// Text in the hyphenated lowercase form of a UUID, as `Uuid`'s `Display`
/// writes it: 36 characters, hyphens at 8, 13, 18 and 23, lowercase
/// hexadecimal digits elsewhere.
pub open spec fn is_uuid_text(text: Seq<char>) -> bool {
    &&& text.len() == 36
    &&& forall|i: int|
        0 <= i < 36 ==> if i == 8 || i == 13 || i == 18 || i == 23 {
            #[trigger] text[i] == '-'
        } else {
            is_opaque_id_char(text[i]) && text[i] != '-'
        }
}

/// Text that ids handed out by the registry satisfy: nonempty, made only of
/// lowercase hexadecimal digits and hyphens.
pub open spec fn is_opaque_id_text(text: Seq<char>) -> bool {
    &&& text.len() > 0
    &&& forall|i: int| 0 <= i < text.len() ==> is_opaque_id_char(#[trigger] text[i])
}

/// Calls `uuid::Uuid::new_v4` and formats the UUID with `to_string`, which
/// `uuid` writes in the hyphenated lowercase form. The value is random: the
/// contract states only its form.
#[verifier::external_body]
fn random_uuid_text() -> (text: String)
    ensures
        is_uuid_text(text@),
{
    uuid::Uuid::new_v4().to_string()
}

/// A supported image file the image protocol may serve, with its id.
#[derive(Debug)]
pub struct ApprovedImage {
    id: ImageId,
    path: String,
}

impl ApprovedImage {
    pub closed spec fn spec_id(&self) -> Seq<char> {
        self.id@
    }

    pub closed spec fn spec_path(&self) -> Seq<char> {
        self.path@
    }

    pub fn id(&self) -> (id: &ImageId)
        ensures
            id@ == self.spec_id(),
    {
        &self.id
    }

    pub fn path(&self) -> (path: &str)
        ensures
            path@ == self.spec_path(),
    {
        self.path.as_str()
    }
}

/// Why an image could not be approved.
#[derive(Debug, Clone, Copy, PartialEq, Eq, Structural)]
pub enum ImageRegistryError {
    HiddenImage,
    UnsupportedImage,
    FileSystem(FileSystemError),
}

#[derive(Debug)]
struct RegistryEntry {
    id: ImageId,
    path: String,
}

/// The id-to-path table of the entries, in order.
spec fn entries_map(entries: Seq<RegistryEntry>) -> Map<Seq<char>, Seq<char>>
    decreases entries.len(),
{
    if entries.len() == 0 {
        Map::empty()
    } else {
        entries_map(entries.drop_last()).insert(entries.last().id@, entries.last().path@)
    }
}

closed spec fn distinct_entries(entries: Seq<RegistryEntry>) -> bool {
    forall|i: int, j: int|
        0 <= i < entries.len() && 0 <= j < entries.len() && i != j ==> entries[i].id@
            != entries[j].id@ && entries[i].path@ != entries[j].path@
}

/// The path an approval is revoked for: `path` resolved, or `path` itself
/// where it could not be resolved.
pub open spec fn resolved_or(path: Seq<char>, resolved: Result<String, FileSystemError>) -> Seq<char> {
    match resolved {
        Ok(canonical) => canonical@,
        Err(_) => path,
    }
}

/// The id that `table` gives to `path`, if any.
pub open spec fn id_of_path(table: Map<Seq<char>, Seq<char>>, path: Seq<char>) -> Option<Seq<char>> {
    if exists|id: Seq<char>| table.contains_key(id) && table[id] == path {
        Some(choose|id: Seq<char>| table.contains_key(id) && table[id] == path)
    } else {
        None
    }
}

/// No two ids of `table` stand for the same path.
pub open spec fn one_id_per_path(table: Map<Seq<char>, Seq<char>>) -> bool {
    forall|a: Seq<char>, b: Seq<char>|
        table.contains_key(a) && table.contains_key(b) && table[a] == table[b] ==> a == b
}

/// The images approved for serving, each under its own opaque id.
///
/// The entries are kept in a vector whose ids and paths are each distinct,
/// rather than in two `HashMap`s: vstd specifies `HashMap` only for keys
/// whose hashing it models (integers, `bool`, boxes of them), and a `String`
/// key is not among them, so nothing could be proved of a lookup by id or
/// by path.
#[derive(Debug)]
pub struct ApprovedImageRegistry {
    entries: Vec<RegistryEntry>,
}

proof fn lemma_entries_map_facts(entries: Seq<RegistryEntry>)
    requires
        distinct_entries(entries),
    ensures
        forall|k: int|
            0 <= k < entries.len() ==> entries_map(entries).contains_key(#[trigger] entries[k].id@)
                && entries_map(entries)[entries[k].id@] == entries[k].path@,
        forall|id: Seq<char>|
            #[trigger] entries_map(entries).contains_key(id) ==> exists|k: int|
                0 <= k < entries.len() && entries[k].id@ == id,
    decreases entries.len(),
{
    if entries.len() > 0 {
        let rest = entries.drop_last();
        assert(distinct_entries(rest));
        lemma_entries_map_facts(rest);
        assert forall|k: int| 0 <= k < entries.len() implies entries_map(entries).contains_key(
            #[trigger] entries[k].id@,
        ) && entries_map(entries)[entries[k].id@] == entries[k].path@ by {
            if k < entries.len() - 1 {
                assert(rest[k] == entries[k]);
                assert(entries[k].id@ != entries.last().id@);
            }
        }
        assert forall|id: Seq<char>| #[trigger]
            entries_map(entries).contains_key(id) implies exists|k: int|
            0 <= k < entries.len() && entries[k].id@ == id by {
            if id != entries.last().id@ {
                assert(entries_map(rest).contains_key(id));
                let k = choose|k: int| 0 <= k < rest.len() && rest[k].id@ == id;
                assert(entries[k] == rest[k]);
            }
        }
    }
}

proof fn lemma_entries_map_remove(entries: Seq<RegistryEntry>, k: int)
    requires
        distinct_entries(entries),
        0 <= k < entries.len(),
    ensures
        distinct_entries(entries.remove(k)),
        entries_map(entries.remove(k)) == entries_map(entries).remove(entries[k].id@),
{
    let removed = entries.remove(k);
    assert(distinct_entries(removed)) by {
        assert forall|i: int, j: int|
            0 <= i < removed.len() && 0 <= j < removed.len() && i != j implies removed[i].id@
            != removed[j].id@ && removed[i].path@ != removed[j].path@ by {
            let oi = if i < k { i } else { i + 1 };
            let oj = if j < k { j } else { j + 1 };
            assert(removed[i] == entries[oi]);
            assert(removed[j] == entries[oj]);
        }
    }
    lemma_entries_map_facts(entries);
    lemma_entries_map_facts(removed);
    let left = entries_map(removed);
    let right = entries_map(entries).remove(entries[k].id@);
    assert forall|id: Seq<char>| left.contains_key(id) <==> right.contains_key(id) by {
        if left.contains_key(id) {
            let i = choose|i: int| 0 <= i < removed.len() && removed[i].id@ == id;
            let oi = if i < k { i } else { i + 1 };
            assert(removed[i] == entries[oi]);
        }
        if right.contains_key(id) {
            let i = choose|i: int| 0 <= i < entries.len() && entries[i].id@ == id;
            assert(i != k);
            let ri = if i < k { i } else { i - 1 };
            assert(removed[ri] == entries[i]);
        }
    }
    assert forall|id: Seq<char>| left.contains_key(id) implies left[id] == right[id] by {
        let i = choose|i: int| 0 <= i < removed.len() && removed[i].id@ == id;
        let oi = if i < k { i } else { i + 1 };
        assert(removed[i] == entries[oi]);
    }
    assert(left =~= right);
}

proof fn lemma_entries_map_paths(entries: Seq<RegistryEntry>)
    requires
        distinct_entries(entries),
    ensures
        one_id_per_path(entries_map(entries)),
        forall|path: Seq<char>|
            (forall|k: int| 0 <= k < entries.len() ==> #[trigger] entries[k].path@ != path)
                ==> id_of_path(entries_map(entries), path) is None,
        forall|k: int|
            0 <= k < entries.len() ==> id_of_path(entries_map(entries), #[trigger] entries[k].path@)
                == Some(entries[k].id@),
{
    lemma_entries_map_facts(entries);
    let table = entries_map(entries);
    assert forall|a: Seq<char>, b: Seq<char>|
        table.contains_key(a) && table.contains_key(b) && table[a] == table[b] implies a == b by {
        let i = choose|i: int| 0 <= i < entries.len() && entries[i].id@ == a;
        let j = choose|j: int| 0 <= j < entries.len() && entries[j].id@ == b;
        assert(table[a] == entries[i].path@);
        assert(table[b] == entries[j].path@);
    }
    assert forall|path: Seq<char>|
        (forall|k: int| 0 <= k < entries.len() ==> #[trigger] entries[k].path@ != path) implies id_of_path(
        table,
        path,
    ) is None by {
        if exists|id: Seq<char>| table.contains_key(id) && table[id] == path {
            let id = choose|id: Seq<char>| table.contains_key(id) && table[id] == path;
            let i = choose|i: int| 0 <= i < entries.len() && entries[i].id@ == id;
            assert(entries[i].path@ == path);
        }
    }
    assert forall|k: int| 0 <= k < entries.len() implies id_of_path(table, #[trigger] entries[k].path@)
        == Some(entries[k].id@) by {
        let path = entries[k].path@;
        assert(table.contains_key(entries[k].id@) && table[entries[k].id@] == path);
        let id = choose|id: Seq<char>| table.contains_key(id) && table[id] == path;
        assert(table[id] == table[entries[k].id@]);
    }
}

impl View for ApprovedImageRegistry {
    type V = Map<Seq<char>, Seq<char>>;

    /// The approved images: each id with the canonical path it stands for.
    closed spec fn view(&self) -> Map<Seq<char>, Seq<char>> {
        entries_map(self.entries@)
    }
}

impl Default for ApprovedImageRegistry {
    fn default() -> (registry: Self)
        ensures
            registry@ == Map::<Seq<char>, Seq<char>>::empty(),
    {
        ApprovedImageRegistry { entries: Vec::new() }
    }
}

impl ApprovedImageRegistry {
    #[verifier::type_invariant]
    closed spec fn well_formed(self) -> bool {
        &&& distinct_entries(self.entries@)
        &&& forall|k: int| 0 <= k < self.entries@.len() ==> is_opaque_id_text(#[trigger] self.entries@[k].id@)
    }

    /// No two ids stand for the same path, and every id is opaque text.
    pub fn check_well_formed(&self)
        ensures
            one_id_per_path(self@),
            forall|id: Seq<char>| #[trigger] self@.contains_key(id) ==> is_opaque_id_text(id),
    {
        proof {
            use_type_invariant(self);
            lemma_entries_map_paths(self.entries@);
            lemma_entries_map_facts(self.entries@);
            assert forall|id: Seq<char>| #[trigger] self@.contains_key(id) implies is_opaque_id_text(id) by {
                let k = choose|k: int| 0 <= k < self.entries@.len() && self.entries@[k].id@ == id;
            }
        }
    }

    fn index_of_id(&self, id: &str) -> (index: Option<usize>)
        ensures
            match index {
                Some(k) => k < self.entries@.len() && self.entries@[k as int].id@ == id@,
                None => forall|k: int| 0 <= k < self.entries@.len() ==> #[trigger] self.entries@[k].id@ != id@,
            },
    {
        let mut i: usize = 0;
        while i < self.entries.len()
            invariant
                i <= self.entries@.len(),
                forall|k: int| 0 <= k < i ==> #[trigger] self.entries@[k].id@ != id@,
            decreases self.entries@.len() - i,
        {
            if same_text(self.entries[i].id.as_str(), id) {
                return Some(i);
            }
            i = i + 1;
        }
        None
    }

    fn index_of_path(&self, path: &str) -> (index: Option<usize>)
        ensures
            match index {
                Some(k) => k < self.entries@.len() && self.entries@[k as int].path@ == path@,
                None => forall|k: int| 0 <= k < self.entries@.len() ==> #[trigger] self.entries@[k].path@ != path@,
            },
    {
        let mut i: usize = 0;
        while i < self.entries.len()
            invariant
                i <= self.entries@.len(),
                forall|k: int| 0 <= k < i ==> #[trigger] self.entries@[k].path@ != path@,
            decreases self.entries@.len() - i,
        {
            if same_text(self.entries[i].path.as_str(), path) {
                return Some(i);
            }
            i = i + 1;
        }
        None
    }

    /// The canonical path that `id` stands for, if it is approved.
    pub fn path_for(&self, id: &ImageId) -> (path: Option<&str>)
        ensures
            match path {
                Some(p) => self@.contains_key(id@) && self@[id@] == p@,
                None => !self@.contains_key(id@),
            },
    {
        proof {
            use_type_invariant(self);
            lemma_entries_map_facts(self.entries@);
        }
        match self.index_of_id(id.as_str()) {
            Some(k) => Some(self.entries[k].path.as_str()),
            None => None,
        }
    }

    /// Revokes every approval.
    pub fn clear(&mut self)
        ensures
            final(self)@ == Map::<Seq<char>, Seq<char>>::empty(),
    {
        self.entries = Vec::new();
    }

    /// Revokes the approval of the image at `path`, if it has one. `resolved`
    /// is the outcome of resolving `path`; where that failed, `path` itself is
    /// revoked.
    pub fn revoke_path(&mut self, path: &str, resolved: &Result<String, FileSystemError>)
        ensures
            final(self)@ == match id_of_path(old(self)@, resolved_or(path@, *resolved)) {
                Some(id) => old(self)@.remove(id),
                None => old(self)@,
            },
    {
        proof {
            use_type_invariant(&*self);
            lemma_entries_map_paths(self.entries@);
        }
        let target: &str = match resolved {
            Ok(canonical) => canonical.as_str(),
            Err(_) => path,
        };
        match self.index_of_path(target) {
            Some(k) => {
                let mut entries: Vec<RegistryEntry> = Vec::new();
                std::mem::swap(&mut entries, &mut self.entries);
                proof {
                    lemma_entries_map_remove(entries@, k as int);
                }
                entries.remove(k);
                self.entries = entries;
            },
            None => {},
        }
    }

    /// The drawn text as an id, where no approved image has it already.
    pub fn fresh_drawn_id(&self, drawn: String) -> (id: Option<ImageId>)
        ensures
            match id {
                Some(id) => id@ == drawn@ && !self@.contains_key(drawn@),
                None => self@.contains_key(drawn@),
            },
    {
        proof {
            use_type_invariant(self);
            lemma_entries_map_facts(self.entries@);
        }
        match self.index_of_id(drawn.as_str()) {
            Some(_) => None,
            None => Some(ImageId(drawn)),
        }
    }

    /// A fresh opaque id: a random UUID no approved image has. Should
    /// `u64::MAX` draws all be taken, the id is built longer than every
    /// approved id instead.
    fn new_image_id(&self) -> (id: ImageId)
        ensures
            !self@.contains_key(id@),
            is_opaque_id_text(id@),
    {
        proof {
            use_type_invariant(self);
            lemma_entries_map_facts(self.entries@);
        }
        let mut attempts: u64 = 0;
        while attempts < u64::MAX
            decreases u64::MAX - attempts,
        {
            let text: String = random_uuid_text();
            let ghost drawn = text@;
            if let Some(id) = self.fresh_drawn_id(text) {
                proof {
                    assert forall|i: int| 0 <= i < drawn.len() implies is_opaque_id_char(#[trigger] drawn[i]) by {
                        assert(i == 8 || i == 13 || i == 18 || i == 23 || is_opaque_id_char(drawn[i]));
                    }
                }
                return id;
            }
            attempts = attempts + 1;
        }
        let mut text: String = random_uuid_text();
        proof {
            assert forall|i: int| 0 <= i < text@.len() implies is_opaque_id_char(#[trigger] text@[i]) by {
                assert(i == 8 || i == 13 || i == 18 || i == 23 || is_opaque_id_char(text@[i]));
            }
        }
        let mut k: usize = 0;
        while k < self.entries.len()
            invariant
                k <= self.entries@.len(),
                forall|j: int| 0 <= j < k ==> #[trigger] self.entries@[j].id@.len() < text@.len(),
                is_opaque_id_text(text@),
                forall|j: int| 0 <= j < self.entries@.len() ==> is_opaque_id_text(#[trigger] self.entries@[j].id@),
            decreases self.entries@.len() - k,
        {
            let ghost before = text@;
            let ghost added = self.entries@[k as int].id@;
            text.append(self.entries[k].id.as_str());
            proof {
                assert forall|i: int| 0 <= i < text@.len() implies is_opaque_id_char(#[trigger] text@[i]) by {
                    if i < before.len() {
                        assert(text@[i] == before[i]);
                    } else {
                        assert(text@[i] == added[i - before.len()]);
                    }
                }
            }
            k = k + 1;
        }
        proof {
            use_type_invariant(self);
            lemma_entries_map_facts(self.entries@);
            assert forall|id: Seq<char>| self@.contains_key(id) implies id != text@ by {
                let j = choose|j: int| 0 <= j < self.entries@.len() && self.entries@[j].id@ == id;
                assert(self.entries@[j].id@.len() < text@.len());
            }
        }
        ImageId(text)
    }

    /// Approves the supported image at `path`. `file` is the outcome of
    /// resolving `path` and querying the file there. An image that is already
    /// approved keeps its id; otherwise it gets a fresh one.
    pub fn approve_path(&mut self, path: &str, file: &Result<ProbedFile, FileSystemError>) -> (approved:
        Result<ApprovedImage, ImageRegistryError>)
        ensures
            approval_outcome(old(self)@, final(self)@, path@, *file, approved),
    {
        if is_hidden_dotfile(path) {
            return Err(ImageRegistryError::HiddenImage);
        }
        if !is_supported_image(path) {
            return Err(ImageRegistryError::UnsupportedImage);
        }
        let probed = match file {
            Err(e) => return Err(ImageRegistryError::FileSystem(*e)),
            Ok(probed) => probed,
        };
        if !probed.metadata.is_file {
            return Err(ImageRegistryError::UnsupportedImage);
        }
        proof {
            use_type_invariant(&*self);
            lemma_entries_map_paths(self.entries@);
            lemma_entries_map_facts(self.entries@);
        }
        let canonical: String = probed.canonical_path.clone();
        if let Some(k) = self.index_of_path(canonical.as_str()) {
            return Ok(ApprovedImage { id: self.entries[k].id.clone(), path: canonical });
        }
        let id: ImageId = self.new_image_id();
        let ghost old_entries = self.entries@;
        let mut entries: Vec<RegistryEntry> = Vec::new();
        std::mem::swap(&mut entries, &mut self.entries);
        entries.push(RegistryEntry { id: id.clone(), path: canonical.clone() });
        proof {
            assert(entries@.drop_last() =~= old_entries);
            assert forall|i: int, j: int|
                0 <= i < entries@.len() && 0 <= j < entries@.len() && i != j implies entries@[i].id@
                != entries@[j].id@ && entries@[i].path@ != entries@[j].path@ by {
                if i < old_entries.len() && j < old_entries.len() {
                    assert(entries@[i] == old_entries[i]);
                    assert(entries@[j] == old_entries[j]);
                } else if i < old_entries.len() {
                    assert(entries@[i] == old_entries[i]);
                    assert(old_entries[i].path@ != canonical@);
                } else {
                    assert(entries@[j] == old_entries[j]);
                    assert(old_entries[j].path@ != canonical@);
                }
            }
        }
        self.entries = entries;
        Ok(ApprovedImage { id, path: canonical })
    }
}

/// What approving `path` does: see `ApprovedImageRegistry::approve_path`.
pub open spec fn approval_outcome(
    before: Map<Seq<char>, Seq<char>>,
    after: Map<Seq<char>, Seq<char>>,
    path: Seq<char>,
    file: Result<ProbedFile, FileSystemError>,
    approved: Result<ApprovedImage, ImageRegistryError>,
) -> bool {
    if hidden_dotfile_path(path) {
        approved == Err::<ApprovedImage, _>(ImageRegistryError::HiddenImage) && after == before
    } else if !supported_image_path(path) {
        approved == Err::<ApprovedImage, _>(ImageRegistryError::UnsupportedImage) && after == before
    } else {
        match file {
            Err(e) => approved == Err::<ApprovedImage, _>(ImageRegistryError::FileSystem(e)) && after
                == before,
            Ok(probed) => if !probed.metadata.is_file {
                approved == Err::<ApprovedImage, _>(ImageRegistryError::UnsupportedImage) && after
                    == before
            } else {
                approved matches Ok(image) && image.spec_path() == probed.canonical_path@
                    && is_opaque_id_text(image.spec_id()) && match id_of_path(
                    before,
                    probed.canonical_path@,
                ) {
                    Some(id) => image.spec_id() == id && after == before,
                    None => !before.contains_key(image.spec_id()) && after == before.insert(
                        image.spec_id(),
                        probed.canonical_path@,
                    ),
                }
            },
        }
    }
}

} // verus!

verus! {

/// An approved image resolves: after a successful approval the registry maps
/// the image's id to its canonical path.
pub proof fn lemma_approved_image_resolves(
    before: Map<Seq<char>, Seq<char>>,
    after: Map<Seq<char>, Seq<char>>,
    path: Seq<char>,
    file: Result<ProbedFile, FileSystemError>,
    image: ApprovedImage,
)
    requires
        approval_outcome(before, after, path, file, Ok(image)),
    ensures
        after.contains_key(image.spec_id()),
        after[image.spec_id()] == image.spec_path(),
        file matches Ok(probed) && image.spec_path() == probed.canonical_path@,
{
    let probed = file->Ok_0;
    if let Some(id) = id_of_path(before, probed.canonical_path@) {
        assert(exists|i: Seq<char>| before.contains_key(i) && before[i] == probed.canonical_path@);
    }
}

/// Approval keeps the registry's validity: no two ids stand for one path.
pub proof fn lemma_approval_keeps_one_id_per_path(
    before: Map<Seq<char>, Seq<char>>,
    after: Map<Seq<char>, Seq<char>>,
    path: Seq<char>,
    file: Result<ProbedFile, FileSystemError>,
    approved: Result<ApprovedImage, ImageRegistryError>,
)
    requires
        one_id_per_path(before),
        approval_outcome(before, after, path, file, approved),
    ensures
        one_id_per_path(after),
{
    if let Ok(image) = approved {
        let canonical = file->Ok_0.canonical_path@;
        if id_of_path(before, canonical) is None {
            assert forall|a: Seq<char>, b: Seq<char>|
                after.contains_key(a) && after.contains_key(b) && after[a] == after[b] implies a
                == b by {
                if a != b && a != image.spec_id() && b != image.spec_id() {
                    assert(before[a] == before[b]);
                }
                if a != b && (a == image.spec_id() || b == image.spec_id()) {
                    let other = if a == image.spec_id() { b } else { a };
                    assert(before.contains_key(other) && before[other] == canonical);
                }
            }
        }
    }
}

/// Approving the same file again gives back the same id and changes nothing.
pub proof fn lemma_approval_is_stable(
    before: Map<Seq<char>, Seq<char>>,
    middle: Map<Seq<char>, Seq<char>>,
    after: Map<Seq<char>, Seq<char>>,
    path: Seq<char>,
    file: Result<ProbedFile, FileSystemError>,
    first: ApprovedImage,
    second: ApprovedImage,
)
    requires
        one_id_per_path(before),
        approval_outcome(before, middle, path, file, Ok(first)),
        approval_outcome(middle, after, path, file, Ok(second)),
    ensures
        second.spec_id() == first.spec_id(),
        after == middle,
{
    lemma_approved_image_resolves(before, middle, path, file, first);
    lemma_approval_keeps_one_id_per_path(before, middle, path, file, Ok(first));
    let canonical = file->Ok_0.canonical_path@;
    assert(middle.contains_key(first.spec_id()) && middle[first.spec_id()] == canonical);
    let found = choose|id: Seq<char>| middle.contains_key(id) && middle[id] == canonical;
    assert(id_of_path(middle, canonical) == Some(found));
    assert(middle[found] == middle[first.spec_id()]);
}

/// Once the approval of a path is revoked, no id stands for that path.
pub proof fn lemma_revoked_path_is_unknown(
    before: Map<Seq<char>, Seq<char>>,
    path: Seq<char>,
    id: Seq<char>,
)
    requires
        one_id_per_path(before),
    ensures
        ({
            let after = match id_of_path(before, path) {
                Some(old_id) => before.remove(old_id),
                None => before,
            };
            after.contains_key(id) ==> after[id] != path
        }),
{
    if let Some(old_id) = id_of_path(before, path) {
        assert(before.contains_key(old_id) && before[old_id] == path);
        if before.remove(old_id).contains_key(id) && before[id] == path {
            assert(id == old_id);
        }
    } else {
        if before.contains_key(id) && before[id] == path {
            assert(exists|i: Seq<char>| before.contains_key(i) && before[i] == path);
        }
    }
}

} // verus!
