//! Asset paths, asset errors, decoded images and the in-memory asset bundle.
use vstd::prelude::*;

use crate::text::{
    chars_less, chars_lt, chars_of, lemma_chars_lt_asymmetric, lemma_chars_lt_irreflexive,
    lemma_chars_lt_total, lemma_chars_lt_transitive,
};

verus! {

/// Whether a `..` segment starts at position `i` of a slash-separated path.
pub open spec fn is_parent_segment_at(path: Seq<char>, i: int) -> bool {
    &&& 0 <= i
    &&& i + 2 <= path.len()
    &&& path[i] == '.'
    &&& path[i + 1] == '.'
    &&& (i == 0 || path[i - 1] == '/')
    &&& (i + 2 == path.len() || path[i + 2] == '/')
}

/// A path inside an asset root: non-empty, relative, and never climbing out
/// of the root through a `..` segment.
pub open spec fn is_valid_asset_path(path: Seq<char>) -> bool {
    &&& path.len() > 0
    &&& path[0] != '/'
    &&& forall|i: int| !#[trigger] is_parent_segment_at(path, i)
}

/// What an asset error says, with its path as characters.
#[verifier::ext_equal]
pub enum AssetErrorView {
    InvalidPath(Seq<char>),
    NotFound(Seq<char>),
    ImageDecode(Seq<char>),
}

/// Why an asset could not be named, found or decoded.
#[derive(Debug, Clone, PartialEq, Eq)]
pub enum AssetError {
    /// The requested path is not a valid path inside an asset root.
    InvalidPath(String),
    /// No asset is stored under the path.
    NotFound(String),
    /// The bytes stored under the path are not a decodable image.
    ImageDecode(String),
}

impl View for AssetError {
    type V = AssetErrorView;

    open spec fn view(&self) -> AssetErrorView {
        match self {
            AssetError::InvalidPath(path) => AssetErrorView::InvalidPath(path@),
            AssetError::NotFound(path) => AssetErrorView::NotFound(path@),
            AssetError::ImageDecode(path) => AssetErrorView::ImageDecode(path@),
        }
    }
}

impl AssetErrorView {
    pub open spec fn message(self) -> Seq<char> {
        match self {
            AssetErrorView::InvalidPath(path) => "invalid asset path: "@ + path,
            AssetErrorView::NotFound(path) => "asset not found: "@ + path,
            AssetErrorView::ImageDecode(path) => "failed to decode image: "@ + path,
        }
    }
}

impl AssetError {
    /// The human-readable description of the error.
    pub fn message(&self) -> (text: String)
        ensures
            text@ == self@.message(),
    {
        let (mut text, path) = match self {
            AssetError::InvalidPath(path) => ("invalid asset path: ".to_owned(), path),
            AssetError::NotFound(path) => ("asset not found: ".to_owned(), path),
            AssetError::ImageDecode(path) => ("failed to decode image: ".to_owned(), path),
        };
        text.append(path.as_str());
        text
    }
}

/// A validated relative path inside an asset root.
#[derive(Debug, Clone, PartialEq, Eq, Hash)]
pub struct AssetPath {
    path: String,
}

impl View for AssetPath {
    type V = Seq<char>;

    closed spec fn view(&self) -> Seq<char> {
        self.path@
    }
}

fn has_parent_segment(path: &[char]) -> (found: bool)
    ensures
        found == exists|i: int| is_parent_segment_at(path@, i),
{
    let n = path.len();
    let mut i: usize = 0;
    while n >= 2 && i <= n - 2
        invariant
            n == path@.len(),
            i <= n,
            forall|j: int| 0 <= j < i ==> !#[trigger] is_parent_segment_at(path@, j),
        decreases n - i,
    {
        if path[i] == '.' && path[i + 1] == '.' && (i == 0 || path[i - 1] == '/') && (i + 2 == n
            || path[i + 2] == '/') {
            assert(is_parent_segment_at(path@, i as int));
            return true;
        }
        i = i + 1;
    }
    assert forall|j: int| !#[trigger] is_parent_segment_at(path@, j) by {
        if 0 <= j < i {
        } else if i <= j {
            assert(j + 2 > n);
        }
    }
    false
}

impl AssetPath {
    /// Validates `path` as a path inside an asset root.
    pub fn new(path: &str) -> (result: Result<AssetPath, AssetError>)
        ensures
            is_valid_asset_path(path@) ==> (result matches Ok(asset_path) && asset_path@ == path@),
            !is_valid_asset_path(path@) ==> (result matches Err(error) && error@
                == AssetErrorView::InvalidPath(path@)),
    {
        let chars = chars_of(path);
        if chars.len() == 0 || chars[0] == '/' || has_parent_segment(chars.as_slice()) {
            return Err(AssetError::InvalidPath(path.to_owned()));
        }
        Ok(AssetPath { path: path.to_owned() })
    }

    /// The path as text.
    pub fn as_str(&self) -> (text: &str)
        ensures
            text@ == self@,
    {
        self.path.as_str()
    }
}

/// A decoded image as tightly packed RGBA8 pixels.
#[derive(Debug, Clone, PartialEq, Eq)]
pub struct ImageData {
    width: u32,
    height: u32,
    pixels: Vec<u8>,
}

impl ImageData {
    pub closed spec fn spec_width(&self) -> u32 {
        self.width
    }

    pub closed spec fn spec_height(&self) -> u32 {
        self.height
    }

    pub closed spec fn pixels(&self) -> Seq<u8> {
        self.pixels@
    }

    #[verifier::when_used_as_spec(spec_width)]
    pub fn width(&self) -> (width: u32)
        ensures
            width == self.spec_width(),
    {
        self.width
    }

    #[verifier::when_used_as_spec(spec_height)]
    pub fn height(&self) -> (height: u32)
        ensures
            height == self.spec_height(),
    {
        self.height
    }

    pub fn pixels_rgba8(&self) -> (pixels: &[u8])
        ensures
            pixels@ == self.pixels(),
    {
        self.pixels.as_slice()
    }

    /// A copy of the pixels.
    pub fn to_pixels(&self) -> (pixels: Vec<u8>)
        ensures
            pixels@ == self.pixels(),
    {
        self.pixels.clone()
    }

    /// Accepts a decoder's output as image data when it holds exactly four
    /// bytes per pixel; a failed decode, or a buffer of another size, is an
    /// `ImageDecode` error for `path`.
    pub fn from_decoded(path: &str, decoded: Option<(u32, u32, Vec<u8>)>) -> (result: Result<
        ImageData,
        AssetError,
    >)
        ensures
            is_rgba8_image(decoded_view(decoded)) ==> (result matches Ok(image) && decoded
                matches Some((w, h, p)) && image.width() == w && image.height() == h
                && image.pixels() == p@),
            !is_rgba8_image(decoded_view(decoded)) ==> (result matches Err(error) && error@
                == AssetErrorView::ImageDecode(path@)),
    {
        match decoded {
            Some((width, height, pixels)) => {
                let n: usize = pixels.len();
                let pixel_count = (width as u64).checked_mul(height as u64);
                let byte_count = match pixel_count {
                    Some(count) => count.checked_mul(4),
                    None => None,
                };
                proof {
                    assert(width * height * 4 == (width * height) * 4);
                    if width * height > u64::MAX {
                        assert(width * height * 4 > u64::MAX) by (nonlinear_arith)
                            requires
                                width * height > u64::MAX,
                        ;
                    }
                }
                match byte_count {
                    Some(len) => {
                        assert(len == width * height * 4);
                        if n as u64 == len {
                            Ok(ImageData { width, height, pixels })
                        } else {
                            Err(AssetError::ImageDecode(path.to_owned()))
                        }
                    },
                    None => {
                        assert(width * height * 4 > u64::MAX);
                        Err(AssetError::ImageDecode(path.to_owned()))
                    },
                }
            },
            None => Err(AssetError::ImageDecode(path.to_owned())),
        }
    }
}

/// A decoder's output with its pixel buffer as a sequence.
pub open spec fn decoded_view(decoded: Option<(u32, u32, Vec<u8>)>) -> Option<(u32, u32, Seq<u8>)> {
    match decoded {
        Some((w, h, p)) => Some((w, h, p@)),
        None => None,
    }
}

/// Whether a decoder's output is an image with four bytes per pixel.
pub open spec fn is_rgba8_image(decoded: Option<(u32, u32, Seq<u8>)>) -> bool {
    decoded matches Some((w, h, p)) && p.len() == w * h * 4
}

/// Calls `image::load_from_memory` and converts the image to RGBA8. Which
/// decoder reads the bytes is decided by format-detection hooks that any code
/// in the process may register, so the contract does not tie the outcome to
/// the bytes: it claims only what holds of every outcome, that an RGBA8
/// buffer holds four bytes per pixel.
#[verifier::external_body]
fn decode_rgba8(bytes: &[u8]) -> (decoded: Option<(u32, u32, Vec<u8>)>)
    ensures
        decoded is Some ==> is_rgba8_image(decoded_view(decoded)),
{
    match image::load_from_memory(bytes) {
        Ok(image) => {
            let rgba = image.to_rgba8();
            Some((rgba.width(), rgba.height(), rgba.into_raw()))
        },
        Err(_) => None,
    }
}

/// Decodes the image bytes stored for `path` with the `image` crate: an
/// image of four bytes per pixel, or an `ImageDecode` error for `path`
/// where the decoder refuses the bytes. What the decoder makes of given
/// bytes is the decoder's, and `ImageData::from_decoded` states what
/// becomes of each outcome.
pub fn decode_image(path: &str, bytes: &[u8]) -> (result: Result<ImageData, AssetError>)
    ensures
        match result {
            Ok(image) => image.pixels().len() == image.width() * image.height() * 4,
            Err(error) => error@ == AssetErrorView::ImageDecode(path@),
        },
{
    let decoded = decode_rgba8(bytes);
    ImageData::from_decoded(path, decoded)
}

/// Whether the entries' paths are strictly increasing, so each path occurs once.
pub open spec fn paths_sorted(entries: Seq<(String, Vec<u8>)>) -> bool {
    forall|i: int, j: int|
        0 <= i < j < entries.len() ==> chars_lt(#[trigger] entries[i].0@, #[trigger] entries[j].0@)
}

/// Whether some entry is stored under `path`.
pub open spec fn has_path(entries: Seq<(String, Vec<u8>)>, path: Seq<char>) -> bool {
    exists|i: int| 0 <= i < entries.len() && #[trigger] entries[i].0@ == path
}

/// An index of an entry stored under `path`, where there is one.
pub open spec fn index_of_path(entries: Seq<(String, Vec<u8>)>, path: Seq<char>) -> int {
    choose|i: int| 0 <= i < entries.len() && #[trigger] entries[i].0@ == path
}

/// The path-to-bytes map that the entries hold.
pub open spec fn entries_map(entries: Seq<(String, Vec<u8>)>) -> Map<Seq<char>, Seq<u8>> {
    Map::new(
        |path: Seq<char>| has_path(entries, path),
        |path: Seq<char>| entries[index_of_path(entries, path)].1@,
    )
}

proof fn lemma_sorted_distinct(entries: Seq<(String, Vec<u8>)>, i: int, j: int)
    requires
        paths_sorted(entries),
        0 <= i < entries.len(),
        0 <= j < entries.len(),
        entries[i].0@ == entries[j].0@,
    ensures
        i == j,
{
    if i < j {
        lemma_chars_lt_irreflexive(entries[i].0@);
    } else if j < i {
        lemma_chars_lt_irreflexive(entries[i].0@);
    }
}

proof fn lemma_entries_map_at(entries: Seq<(String, Vec<u8>)>, i: int)
    requires
        paths_sorted(entries),
        0 <= i < entries.len(),
    ensures
        entries_map(entries).contains_key(entries[i].0@),
        entries_map(entries)[entries[i].0@] == entries[i].1@,
{
    let path = entries[i].0@;
    assert(has_path(entries, path));
    let j = index_of_path(entries, path);
    lemma_sorted_distinct(entries, i, j);
    assert(entries_map(entries)[path] == entries[j].1@);
}

/// Asset bytes held in memory under their asset paths, ordered by path, for
/// platforms that load assets without a filesystem.
#[derive(Debug, PartialEq, Eq)]
pub struct AssetBundle {
    entries: Vec<(String, Vec<u8>)>,
}

impl View for AssetBundle {
    type V = Map<Seq<char>, Seq<u8>>;

    closed spec fn view(&self) -> Map<Seq<char>, Seq<u8>> {
        entries_map(self.entries@)
    }
}

impl AssetBundle {
    #[verifier::type_invariant]
    spec fn sorted(&self) -> bool {
        paths_sorted(self.entries@)
    }

    /// An empty bundle.
    pub fn new() -> (bundle: AssetBundle)
        ensures
            bundle@ == Map::<Seq<char>, Seq<u8>>::empty(),
    {
        let bundle = AssetBundle { entries: Vec::new() };
        assert(bundle@ =~= Map::<Seq<char>, Seq<u8>>::empty());
        bundle
    }

    /// The index of the first entry whose path does not order before `path`.
    fn position(&self, path: &[char]) -> (index: usize)
        ensures
            index <= self.entries@.len(),
            forall|j: int| 0 <= j < index ==> chars_lt(#[trigger] self.entries@[j].0@, path@),
            index < self.entries@.len() ==> !chars_lt(self.entries@[index as int].0@, path@),
    {
        let mut i: usize = 0;
        while i < self.entries.len()
            invariant
                i <= self.entries@.len(),
                forall|j: int| 0 <= j < i ==> chars_lt(#[trigger] self.entries@[j].0@, path@),
            decreases self.entries@.len() - i,
        {
            let key = chars_of(self.entries[i].0.as_str());
            if !chars_less(key.as_slice(), path) {
                return i;
            }
            i = i + 1;
        }
        i
    }

    /// The index of the entry stored under `path`, if there is one.
    fn find(&self, path: &[char]) -> (found: Option<usize>)
        ensures
            found matches Some(i) ==> i < self.entries@.len() && self.entries@[i as int].0@
                == path@,
            found is None ==> !has_path(self.entries@, path@),
    {
        proof {
            use_type_invariant(self);
        }
        let i = self.position(path);
        if i < self.entries.len() {
            let key = chars_of(self.entries[i].0.as_str());
            if crate::text::chars_equal(key.as_slice(), path) {
                return Some(i);
            }
        }
        proof {
            if has_path(self.entries@, path@) {
                let j = choose|j: int|
                    0 <= j < self.entries@.len() && #[trigger] self.entries@[j].0@ == path@;
                if j < i {
                    lemma_chars_lt_irreflexive(path@);
                } else if j > i {
                    lemma_chars_lt_total(self.entries@[i as int].0@, path@);
                    lemma_chars_lt_asymmetric(self.entries@[i as int].0@, path@);
                }
            }
        }
        None
    }

    /// Stores `bytes` under `asset_path` and hands back what was stored there
    /// before.
    pub fn insert(&mut self, asset_path: AssetPath, bytes: Vec<u8>) -> (previous: Option<Vec<u8>>)
        ensures
            final(self)@ == old(self)@.insert(asset_path@, bytes@),
            previous matches Some(old_bytes) ==> old(self)@.contains_key(asset_path@)
                && old_bytes@ == old(self)@[asset_path@],
            previous is None ==> !old(self)@.contains_key(asset_path@),
    {
        proof {
            use_type_invariant(&*self);
        }
        let ghost old_entries = self.entries@;
        let path = chars_of(asset_path.as_str());
        let i = self.position(path.as_slice());
        let mut entries: Vec<(String, Vec<u8>)> = Vec::new();
        std::mem::swap(&mut entries, &mut self.entries);
        assert(entries@ == old_entries);
        let mut exact = false;
        if i < entries.len() {
            let key = chars_of(entries[i].0.as_str());
            exact = crate::text::chars_equal(key.as_slice(), path.as_slice());
        }
        let new_entry = (asset_path.path, bytes);
        if exact {
            let (_, old_bytes) = entries.remove(i);
            entries.insert(i, new_entry);
            proof {
                assert(entries@ =~= old_entries.update(i as int, new_entry));
                lemma_entries_map_at(old_entries, i as int);
                self.lemma_update_keeps_order(old_entries, i as int, new_entry);
            }
            self.entries = entries;
            Some(old_bytes)
        } else {
            entries.insert(i, new_entry);
            proof {
                self.lemma_insert_keeps_order(old_entries, i as int, new_entry);
            }
            self.entries = entries;
            None
        }
    }

    proof fn lemma_update_keeps_order(
        &self,
        old_entries: Seq<(String, Vec<u8>)>,
        i: int,
        entry: (String, Vec<u8>),
    )
        requires
            paths_sorted(old_entries),
            0 <= i < old_entries.len(),
            old_entries[i].0@ == entry.0@,
        ensures
            paths_sorted(old_entries.update(i, entry)),
            entries_map(old_entries.update(i, entry)) == entries_map(old_entries).insert(
                entry.0@,
                entry.1@,
            ),
    {
        let new_entries = old_entries.update(i, entry);
        assert(paths_sorted(new_entries)) by {
            assert forall|a: int, b: int| 0 <= a < b < new_entries.len() implies chars_lt(
                #[trigger] new_entries[a].0@,
                #[trigger] new_entries[b].0@,
            ) by {
                assert(chars_lt(old_entries[a].0@, old_entries[b].0@));
            }
        }
        let m = entries_map(old_entries).insert(entry.0@, entry.1@);
        assert forall|k: Seq<char>| #[trigger] entries_map(new_entries).contains_key(k)
            <==> m.contains_key(k) by {
            if has_path(old_entries, k) {
                let j = choose|j: int| 0 <= j < old_entries.len() && #[trigger] old_entries[j].0@ == k;
                assert(new_entries[j].0@ == k);
            }
            if has_path(new_entries, k) {
                let j = choose|j: int| 0 <= j < new_entries.len() && #[trigger] new_entries[j].0@ == k;
                assert(old_entries[j].0@ == k);
            }
        }
        assert forall|k: Seq<char>| #[trigger] entries_map(new_entries).contains_key(k)
            implies entries_map(new_entries)[k] == m[k] by {
            let j = choose|j: int| 0 <= j < new_entries.len() && #[trigger] new_entries[j].0@ == k;
            lemma_entries_map_at(new_entries, j);
            if j != i {
                assert(old_entries[j].0@ == k);
                if k == entry.0@ {
                    lemma_sorted_distinct(old_entries, i, j);
                }
                lemma_entries_map_at(old_entries, j);
            }
        }
        assert(entries_map(new_entries) =~= m);
    }

    proof fn lemma_insert_keeps_order(
        &self,
        old_entries: Seq<(String, Vec<u8>)>,
        i: int,
        entry: (String, Vec<u8>),
    )
        requires
            paths_sorted(old_entries),
            0 <= i <= old_entries.len(),
            forall|j: int| 0 <= j < i ==> chars_lt(#[trigger] old_entries[j].0@, entry.0@),
            i < old_entries.len() ==> !chars_lt(old_entries[i].0@, entry.0@),
            i < old_entries.len() ==> old_entries[i].0@ != entry.0@,
        ensures
            paths_sorted(old_entries.insert(i, entry)),
            !has_path(old_entries, entry.0@),
            entries_map(old_entries.insert(i, entry)) == entries_map(old_entries).insert(
                entry.0@,
                entry.1@,
            ),
    {
        let new_entries = old_entries.insert(i, entry);
        if i < old_entries.len() {
            lemma_chars_lt_total(old_entries[i].0@, entry.0@);
        }
        assert forall|j: int| i <= j < old_entries.len() implies chars_lt(
            entry.0@,
            #[trigger] old_entries[j].0@,
        ) by {
            if j > i {
                assert(chars_lt(old_entries[i].0@, old_entries[j].0@));
                lemma_chars_lt_transitive(entry.0@, old_entries[i].0@, old_entries[j].0@);
            }
        }
        assert(!has_path(old_entries, entry.0@)) by {
            if has_path(old_entries, entry.0@) {
                let j = choose|j: int|
                    0 <= j < old_entries.len() && #[trigger] old_entries[j].0@ == entry.0@;
                lemma_chars_lt_irreflexive(entry.0@);
            }
        }
        assert(paths_sorted(new_entries)) by {
            assert forall|a: int, b: int| 0 <= a < b < new_entries.len() implies chars_lt(
                #[trigger] new_entries[a].0@,
                #[trigger] new_entries[b].0@,
            ) by {
                if b < i {
                    assert(chars_lt(old_entries[a].0@, old_entries[b].0@));
                } else if b == i {
                    assert(chars_lt(old_entries[a].0@, entry.0@));
                } else if a < i {
                    assert(chars_lt(old_entries[a].0@, entry.0@));
                    assert(chars_lt(entry.0@, old_entries[b - 1].0@));
                    lemma_chars_lt_transitive(old_entries[a].0@, entry.0@, old_entries[b - 1].0@);
                } else if a == i {
                    assert(chars_lt(entry.0@, old_entries[b - 1].0@));
                } else {
                    assert(chars_lt(old_entries[a - 1].0@, old_entries[b - 1].0@));
                }
            }
        }
        let m = entries_map(old_entries).insert(entry.0@, entry.1@);
        assert forall|k: Seq<char>| #[trigger] entries_map(new_entries).contains_key(k)
            <==> m.contains_key(k) by {
            if has_path(old_entries, k) {
                let j = choose|j: int| 0 <= j < old_entries.len() && #[trigger] old_entries[j].0@ == k;
                if j < i {
                    assert(new_entries[j].0@ == k);
                } else {
                    assert(new_entries[j + 1].0@ == k);
                }
            }
            if k == entry.0@ {
                assert(new_entries[i].0@ == k);
            }
            if has_path(new_entries, k) {
                let j = choose|j: int| 0 <= j < new_entries.len() && #[trigger] new_entries[j].0@ == k;
                if j < i {
                    assert(old_entries[j].0@ == k);
                } else if j > i {
                    assert(old_entries[j - 1].0@ == k);
                }
            }
        }
        assert forall|k: Seq<char>| #[trigger] entries_map(new_entries).contains_key(k)
            implies entries_map(new_entries)[k] == m[k] by {
            let j = choose|j: int| 0 <= j < new_entries.len() && #[trigger] new_entries[j].0@ == k;
            lemma_entries_map_at(new_entries, j);
            if j < i {
                assert(new_entries[j] == old_entries[j]);
                assert(old_entries[j].0@ == k);
                assert(k != entry.0@);
                lemma_entries_map_at(old_entries, j);
            } else if j > i {
                assert(new_entries[j] == old_entries[j - 1]);
                assert(old_entries[j - 1].0@ == k);
                assert(k != entry.0@);
                lemma_entries_map_at(old_entries, j - 1);
            } else {
                assert(new_entries[j] == entry);
            }
        }
        assert(entries_map(new_entries) =~= m);
    }

    /// Whether bytes are stored under `asset_path`.
    pub fn contains(&self, asset_path: &AssetPath) -> (present: bool)
        ensures
            present == self@.contains_key(asset_path@),
    {
        let path = chars_of(asset_path.as_str());
        self.find(path.as_slice()).is_some()
    }

    /// The bytes stored under `asset_path`.
    pub fn read_bytes(&self, asset_path: &AssetPath) -> (result: Result<&[u8], AssetError>)
        ensures
            self@.contains_key(asset_path@) ==> (result matches Ok(bytes) && bytes@
                == self@[asset_path@]),
            !self@.contains_key(asset_path@) ==> (result matches Err(error) && error@
                == AssetErrorView::NotFound(asset_path@)),
    {
        proof {
            use_type_invariant(self);
        }
        let path = chars_of(asset_path.as_str());
        match self.find(path.as_slice()) {
            Some(i) => {
                proof {
                    lemma_entries_map_at(self.entries@, i as int);
                }
                Ok(self.entries[i].1.as_slice())
            },
            None => Err(AssetError::NotFound(asset_path.as_str().to_owned())),
        }
    }

    /// Decodes the image stored under `asset_path`: `NotFound` where nothing
    /// is stored there; otherwise what `decode_image` gives for its bytes.
    pub fn load_image(&self, asset_path: &AssetPath) -> (result: Result<ImageData, AssetError>)
        ensures
            !self@.contains_key(asset_path@) ==> (result matches Err(error) && error@
                == AssetErrorView::NotFound(asset_path@)),
            self@.contains_key(asset_path@) ==> match result {
                Ok(image) => image.pixels().len() == image.width() * image.height() * 4,
                Err(error) => error@ == AssetErrorView::ImageDecode(asset_path@),
            },
    {
        let bytes = self.read_bytes(asset_path)?;
        decode_image(asset_path.as_str(), bytes)
    }
}

impl Clone for AssetBundle {
    fn clone(&self) -> (copy: AssetBundle)
        ensures
            copy@ == self@,
    {
        proof {
            use_type_invariant(self);
        }
        let mut entries: Vec<(String, Vec<u8>)> = Vec::new();
        let mut i: usize = 0;
        while i < self.entries.len()
            invariant
                i <= self.entries@.len(),
                paths_sorted(self.entries@),
                entries@.len() == i,
                forall|j: int|
                    0 <= j < i ==> (#[trigger] entries@[j]).0@ == self.entries@[j].0@
                        && entries@[j].1@ == self.entries@[j].1@,
            decreases self.entries@.len() - i,
        {
            let key = self.entries[i].0.clone();
            let bytes = self.entries[i].1.clone();
            assert(bytes@ =~= self.entries@[i as int].1@);
            entries.push((key, bytes));
            i = i + 1;
        }
        proof {
            assert forall|a: int, b: int| 0 <= a < b < entries@.len() implies chars_lt(
                #[trigger] entries@[a].0@,
                #[trigger] entries@[b].0@,
            ) by {
                assert(chars_lt(self.entries@[a].0@, self.entries@[b].0@));
            }
            assert forall|k: Seq<char>| #[trigger] entries_map(entries@).contains_key(k)
                <==> entries_map(self.entries@).contains_key(k) by {
                if has_path(entries@, k) {
                    let j = index_of_path(entries@, k);
                    assert(self.entries@[j].0@ == k);
                }
                if has_path(self.entries@, k) {
                    let j = index_of_path(self.entries@, k);
                    assert(entries@[j].0@ == k);
                }
            }
            assert forall|k: Seq<char>| #[trigger] entries_map(entries@).contains_key(k)
                implies entries_map(entries@)[k] == entries_map(self.entries@)[k] by {
                let j = index_of_path(entries@, k);
                lemma_entries_map_at(entries@, j);
                lemma_entries_map_at(self.entries@, j);
            }
            assert(entries_map(entries@) =~= entries_map(self.entries@));
        }
        AssetBundle { entries }
    }
}

impl Default for AssetBundle {
    fn default() -> (bundle: AssetBundle)
        ensures
            bundle@ == Map::<Seq<char>, Seq<u8>>::empty(),
    {
        AssetBundle::new()
    }
}

/// Reading a bundle after an insert gives the inserted bytes under the
/// inserted path and leaves every other path as it was.
pub proof fn lemma_read_after_insert(bundle: Map<Seq<char>, Seq<u8>>, path: Seq<char>, bytes: Seq<u8>)
    ensures
        bundle.insert(path, bytes).contains_key(path),
        bundle.insert(path, bytes)[path] == bytes,
        forall|other: Seq<char>|
            other != path ==> (#[trigger] bundle.insert(path, bytes).contains_key(other) == bundle.contains_key(other)
                && (bundle.contains_key(other) ==> bundle.insert(path, bytes)[other] == bundle[other])),
{
}

} // verus!
