//! Textures and sounds by asset path: a requested path is checked and looked
//! up in its cache, a loaded image becomes a texture with the next texture
//! id, and a loaded sound's handle is remembered.
use vstd::prelude::*;

use crate::assets::{is_valid_asset_path, AssetPath, ImageData};
use crate::paths::{
    ensure_asset_scheme, spec_asset_scheme_error, spec_virtual_path, PathError, PathErrorView, VirtualPath,
};
use crate::render_types::{spec_rgba8_refusal, spec_rgba_len, RenderError, TextureData, TextureId};
use crate::assets::AssetErrorView;
use crate::audio_types::{AssetHandle, SoundAsset};
use crate::keyed::{by_name, find_name, names_of, upsert_name};

verus! {

/// Texture data as its id, size and pixels.
pub type TextureParts = (TextureId, u32, u32, Seq<u8>);

/// The parts of texture data.
pub open spec fn texture_parts(data: TextureData) -> TextureParts {
    (data.id(), data.width(), data.height(), data.pixels())
}

/// A loaded texture.
#[derive(Debug)]
pub struct Texture {
    data: TextureData,
}

impl View for Texture {
    type V = TextureParts;

    closed spec fn view(&self) -> TextureParts {
        texture_parts(self.data)
    }
}

impl Texture {
    pub fn id(&self) -> (id: TextureId)
        ensures
            id == self@.0,
    {
        self.data.id()
    }

    pub fn data(&self) -> (data: &TextureData)
        ensures
            texture_parts(*data) == self@,
    {
        &self.data
    }
}

impl Clone for Texture {
    fn clone(&self) -> (copy: Texture)
        ensures
            copy@ == self@,
    {
        Texture { data: self.data.copy() }
    }
}

/// The asset path a requested texture or sound path names: it must use
/// `asset://` or no scheme, and what follows must be a valid asset path.
pub open spec fn spec_requested_asset_path(requested: Seq<char>) -> Result<Seq<char>, PathErrorView> {
    match spec_virtual_path(requested) {
        None => Err(PathErrorView::UnsupportedScheme { requested }),
        Some((scheme, rel)) => match spec_asset_scheme_error(scheme, requested, rel) {
            Some(error) => Err(error),
            None => if is_valid_asset_path(rel) {
                Ok(rel)
            } else {
                Err(PathErrorView::InvalidAssetPath(AssetErrorView::InvalidPath(rel)))
            },
        },
    }
}

/// What a texture request finds: the cached texture, or the asset path to
/// load it from.
#[derive(Debug)]
pub enum TextureLookup {
    Cached(Texture),
    Load(AssetPath),
}

/// What a sound request finds: the handle of the sound loaded before, or
/// the asset path to load it from.
#[derive(Debug)]
pub enum SoundLookup {
    Cached(AssetHandle<SoundAsset>),
    Load(AssetPath),
}

/// Textures and sounds loaded so far, by asset path, and the next texture id.
pub struct Assets {
    next_texture_id: u64,
    textures: Vec<(String, Texture)>,
    sounds: Vec<(String, AssetHandle<SoundAsset>)>,
}

/// The asset paths of the cache, in order.
pub open spec fn cache_keys(textures: Seq<(String, Texture)>) -> Seq<Seq<char>> {
    textures.map_values(|entry: (String, Texture)| entry.0@)
}

/// The cached textures by asset path.
pub open spec fn cache_map(textures: Seq<(String, Texture)>) -> Map<Seq<char>, TextureParts> {
    Map::new(
        |path: Seq<char>| cache_keys(textures).contains(path),
        |path: Seq<char>| textures[cache_keys(textures).index_of(path)].1@,
    )
}

/// The texture state: the next texture id and the cached textures.
pub struct AssetsView {
    pub next_texture_id: u64,
    pub textures: Map<Seq<char>, TextureParts>,
    pub sounds: Map<Seq<char>, AssetHandle<SoundAsset>>,
}

impl View for Assets {
    type V = AssetsView;

    closed spec fn view(&self) -> AssetsView {
        AssetsView {
            next_texture_id: self.next_texture_id,
            textures: cache_map(self.textures@),
            sounds: by_name(self.sounds@),
        }
    }
}

/// Checks a requested path and gives the asset path it names.
fn requested_asset_path(requested: &str) -> (result: Result<AssetPath, PathError>)
    ensures
        match spec_requested_asset_path(requested@) {
            Err(error) => result matches Err(e) && e@ == error,
            Ok(path) => result matches Ok(asset) && asset@ == path,
        },
{
    let virtual_path = match VirtualPath::parse(requested) {
        Ok(path) => path,
        Err(error) => return Err(error),
    };
    match ensure_asset_scheme(&virtual_path) {
        Ok(()) => {},
        Err(error) => return Err(error),
    }
    let asset = match AssetPath::new(virtual_path.relative_path()) {
        Ok(asset) => asset,
        Err(error) => return Err(PathError::InvalidAssetPath(error)),
    };
    Ok(asset)
}

/// What a texture request finds, as views: the cached texture, or the asset
/// path to load it from.
pub enum TextureLookupView {
    Cached(TextureParts),
    Load(Seq<char>),
}

/// What a texture lookup gave, as views.
pub open spec fn lookup_view(result: Result<TextureLookup, PathError>) -> Result<TextureLookupView, PathErrorView> {
    match result {
        Ok(TextureLookup::Cached(texture)) => Ok(TextureLookupView::Cached(texture@)),
        Ok(TextureLookup::Load(asset)) => Ok(TextureLookupView::Load(asset@)),
        Err(error) => Err(error@),
    }
}

/// What a request for a texture finds in state `state`: the path's error,
/// else the texture cached under the asset path it names, else that asset
/// path to load.
pub open spec fn spec_texture_lookup(state: AssetsView, requested: Seq<char>) -> Result<
    TextureLookupView,
    PathErrorView,
> {
    match spec_requested_asset_path(requested) {
        Err(error) => Err(error),
        Ok(path) => if state.textures.contains_key(path) {
            Ok(TextureLookupView::Cached(state.textures[path]))
        } else {
            Ok(TextureLookupView::Load(path))
        },
    }
}

/// What a texture load gave: the texture, or the id it was offered and the
/// reason it was refused.
pub open spec fn load_outcome(result: Result<Texture, RenderError>) -> Result<TextureParts, (u64, Seq<char>)> {
    match result {
        Ok(texture) => Ok(texture@),
        Err(RenderError::InvalidTextureData { id, reason }) => Err((id@, reason@)),
    }
}

/// Loading an image of the given size and pixels as the texture of an asset
/// path, from state `before` to state `after` with `outcome`: the id counter
/// moves on by one and the sounds stay; the texture data is refused exactly
/// when RGBA8 data of that size and byte count is, with the offered id and
/// the reason, and the cache stays; otherwise the texture has the offered
/// id, the image's size and pixels, and is cached under the path.
pub open spec fn spec_texture_load(
    before: AssetsView,
    path: Seq<char>,
    width: u32,
    height: u32,
    pixels: Seq<u8>,
    after: AssetsView,
    outcome: Result<TextureParts, (u64, Seq<char>)>,
) -> bool {
    &&& after.next_texture_id == before.next_texture_id + 1
    &&& after.sounds == before.sounds
    &&& match spec_rgba8_refusal(width, height, pixels.len()) {
        Some(reason) => outcome == Err::<TextureParts, (u64, Seq<char>)>((before.next_texture_id, reason))
            && after.textures == before.textures,
        None => outcome matches Ok(texture) && texture.0@ == before.next_texture_id && texture.1 == width
            && texture.2 == height && texture.3 == pixels && after.textures == before.textures.insert(path, texture),
    }
}

impl Assets {
    #[verifier::type_invariant]
    spec fn keys_distinct(&self) -> bool {
        &&& cache_keys(self.textures@).no_duplicates()
        &&& names_of(self.sounds@).no_duplicates()
    }

    /// No textures; the first one gets id 1.
    pub fn new() -> (assets: Assets)
        ensures
            assets@.next_texture_id == 1,
            assets@.textures == Map::<Seq<char>, TextureParts>::empty(),
            assets@.sounds == Map::<Seq<char>, AssetHandle<SoundAsset>>::empty(),
    {
        let assets = Assets { next_texture_id: 1, textures: Vec::new(), sounds: Vec::new() };
        assert(assets@.textures =~= Map::<Seq<char>, TextureParts>::empty());
        assert(assets@.sounds =~= Map::<Seq<char>, AssetHandle<SoundAsset>>::empty());
        assets
    }

    fn position(&self, path: &str) -> (found: Option<usize>)
        ensures
            match found {
                Some(i) => i < self.textures@.len() && self.textures@[i as int].0@ == path@ && cache_keys(
                    self.textures@,
                ).index_of(path@) == i,
                None => !cache_keys(self.textures@).contains(path@),
            },
    {
        proof {
            use_type_invariant(self);
        }
        let wanted = path.to_owned();
        let mut i: usize = 0;
        while i < self.textures.len()
            invariant
                i <= self.textures@.len(),
                wanted@ == path@,
                cache_keys(self.textures@).no_duplicates(),
                forall|j: int| 0 <= j < i ==> cache_keys(self.textures@)[j] != path@,
            decreases self.textures@.len() - i,
        {
            assert(cache_keys(self.textures@)[i as int] == self.textures@[i as int].0@);
            if self.textures[i].0 == wanted {
                proof {
                    let keys = cache_keys(self.textures@);
                    assert(keys[i as int] == path@);
                    keys.index_of_first_ensures(path@);
                    assert(keys.contains(path@));
                    let k = keys.index_of(path@);
                    if k != i {
                        assert(keys[k] == keys[i as int]);
                    }
                }
                return Some(i);
            }
            i = i + 1;
        }
        None
    }

    /// The id the next loaded texture gets.
    pub fn next_texture_id(&self) -> (id: u64)
        ensures
            id == self@.next_texture_id,
    {
        self.next_texture_id
    }

    /// Checks a requested texture path and looks it up: the cached texture
    /// where the asset path was loaded before, else the asset path to load.
    pub fn texture(&self, requested: &str) -> (result: Result<TextureLookup, PathError>)
        ensures
            lookup_view(result) == spec_texture_lookup(self@, requested@),
    {
        let asset = match requested_asset_path(requested) {
            Ok(asset) => asset,
            Err(error) => return Err(error),
        };
        match self.position(asset.as_str()) {
            Some(i) => {
                let texture = self.textures[i].1.clone();
                proof {
                    assert(cache_keys(self.textures@)[i as int] == asset@);
                    assert(cache_keys(self.textures@).contains(asset@));
                    assert(self@.textures.contains_key(asset@));
                    assert(self@.textures[asset@] == self.textures@[i as int].1@);
                }
                Ok(TextureLookup::Cached(texture))
            },
            None => {
                assert(!self@.textures.contains_key(asset@));
                Ok(TextureLookup::Load(asset))
            },
        }
    }

    /// Checks a requested sound path and looks it up: the handle of the
    /// sound loaded from that asset path before, else the asset path to load.
    pub fn sound(&self, requested: &str) -> (result: Result<SoundLookup, PathError>)
        ensures
            match spec_requested_asset_path(requested@) {
                Err(error) => result matches Err(e) && e@ == error,
                Ok(path) => if self@.sounds.contains_key(path) {
                    result matches Ok(SoundLookup::Cached(sound)) && sound == self@.sounds[path]
                } else {
                    result matches Ok(SoundLookup::Load(asset)) && asset@ == path
                },
            },
    {
        proof {
            use_type_invariant(self);
        }
        let asset = match requested_asset_path(requested) {
            Ok(asset) => asset,
            Err(error) => return Err(error),
        };
        match find_name(&self.sounds, asset.as_str()) {
            Some(i) => {
                let sound = self.sounds[i].1;
                assert(names_of(self.sounds@)[i as int] == asset@);
                Ok(SoundLookup::Cached(sound))
            },
            None => Ok(SoundLookup::Load(asset)),
        }
    }

    /// Remembers the handle of the sound loaded from an asset path.
    pub fn remember_sound(&mut self, path: &AssetPath, sound: AssetHandle<SoundAsset>)
        ensures
            final(self)@.sounds == old(self)@.sounds.insert(path@, sound),
            final(self)@.textures == old(self)@.textures,
            final(self)@.next_texture_id == old(self)@.next_texture_id,
    {
        proof {
            use_type_invariant(&*self);
        }
        let mut sounds = Vec::new();
        std::mem::swap(&mut sounds, &mut self.sounds);
        upsert_name(&mut sounds, path.as_str(), sound);
        self.sounds = sounds;
    }

    /// Makes a loaded image the texture of its asset path, with the next
    /// texture id, and caches it; image data that cannot make a texture is
    /// refused, with that id and the reason, and nothing changes but the id
    /// counter.
    pub fn load_texture(&mut self, path: &AssetPath, image: &ImageData) -> (result: Result<Texture, RenderError>)
        requires
            old(self)@.next_texture_id < u64::MAX,
        ensures
            spec_texture_load(
                old(self)@,
                path@,
                image.spec_width(),
                image.spec_height(),
                image.pixels(),
                final(self)@,
                load_outcome(result),
            ),
    {
        proof {
            use_type_invariant(&*self);
        }
        let id = TextureId::new(self.next_texture_id);
        self.next_texture_id = self.next_texture_id + 1;
        let pixels = image.to_pixels();
        let data = match TextureData::rgba8(id, image.width(), image.height(), pixels) {
            Ok(data) => data,
            Err(error) => return Err(error),
        };
        let texture = Texture { data };
        let copy = texture.clone();
        let ghost before = self.textures@;
        match self.position(path.as_str()) {
            Some(i) => {
                let mut textures = Vec::new();
                std::mem::swap(&mut textures, &mut self.textures);
                textures.set(i, (path.as_str().to_owned(), copy));
                proof {
                    let keys = cache_keys(textures@);
                    assert(cache_keys(before)[i as int] == path@);
                    assert(keys =~= cache_keys(before).update(i as int, path@));
                    assert(keys =~= cache_keys(before));
                    assert forall|p: Seq<char>| #[trigger] cache_map(textures@).contains_key(p) <==> cache_map(before).insert(path@, texture@).contains_key(p) by {
                    }
                    assert forall|p: Seq<char>| #[trigger] cache_map(textures@).contains_key(p) implies cache_map(textures@)[p] == cache_map(before).insert(path@, texture@)[p] by {
                        if p != path@ {
                            let k = keys.index_of(p);
                            keys.index_of_first_ensures(p);
                            assert(k != i);
                        }
                    }
                    assert(cache_map(textures@) =~= cache_map(before).insert(path@, texture@));
                }
                self.textures = textures;
            },
            None => {
                let mut textures = Vec::new();
                std::mem::swap(&mut textures, &mut self.textures);
                textures.push((path.as_str().to_owned(), copy));
                proof {
                    let keys = cache_keys(textures@);
                    assert(keys =~= cache_keys(before).push(path@));
                    assert(keys.no_duplicates()) by {
                        assert forall|a: int, b: int| 0 <= a < b < keys.len() implies keys[a] != keys[b] by {
                            if b == before.len() {
                                assert(cache_keys(before)[a] == keys[a]);
                            }
                        }
                    }
                    assert forall|p: Seq<char>| #[trigger] cache_map(textures@).contains_key(p) <==> cache_map(before).insert(path@, texture@).contains_key(p) by {
                        if cache_keys(before).contains(p) {
                            let k = choose|k: int| 0 <= k < cache_keys(before).len() && cache_keys(before)[k] == p;
                            assert(keys[k] == p);
                        }
                        if p == path@ {
                            assert(keys[before.len() as int] == p);
                        }
                        if keys.contains(p) && p != path@ {
                            let k = choose|k: int| 0 <= k < keys.len() && keys[k] == p;
                            assert(cache_keys(before)[k] == p);
                        }
                    }
                    assert forall|p: Seq<char>| #[trigger] cache_map(textures@).contains_key(p) implies cache_map(textures@)[p] == cache_map(before).insert(path@, texture@)[p] by {
                        keys.index_of_first_ensures(p);
                        let k = keys.index_of(p);
                        if p == path@ {
                            assert(keys[before.len() as int] == p);
                            if k < before.len() {
                                assert(cache_keys(before)[k] == p);
                            }
                        } else {
                            assert(k < before.len());
                            assert(cache_keys(before)[k] == p);
                            cache_keys(before).index_of_first_ensures(p);
                            let k2 = cache_keys(before).index_of(p);
                            assert(keys[k2] == p);
                        }
                    }
                    assert(cache_map(textures@) =~= cache_map(before).insert(path@, texture@));
                }
                self.textures = textures;
            },
        }
        Ok(texture)
    }
}

/// What the cache stores is what later requests find: after a texture is
/// loaded for an asset path, or a sound's handle remembered for one, a
/// request naming that path finds exactly it in the cache, and requests for
/// other paths find what they found before.
pub proof fn lemma_cache_serves_what_was_stored(
    before: AssetsView,
    texture_path: Seq<char>,
    texture: TextureParts,
    sound_path: Seq<char>,
    sound: AssetHandle<SoundAsset>,
    requested: Seq<char>,
)
    ensures
        spec_requested_asset_path(requested) == Ok::<Seq<char>, PathErrorView>(texture_path) ==> {
            let after = before.textures.insert(texture_path, texture);
            after.contains_key(texture_path) && after[texture_path] == texture
        },
        forall|other: Seq<char>| other != texture_path ==> #[trigger] before.textures.insert(texture_path, texture).contains_key(other)
            == before.textures.contains_key(other),
        spec_requested_asset_path(requested) == Ok::<Seq<char>, PathErrorView>(sound_path) ==> {
            let after = before.sounds.insert(sound_path, sound);
            after.contains_key(sound_path) && after[sound_path] == sound
        },
        forall|other: Seq<char>| other != sound_path ==> #[trigger] before.sounds.insert(sound_path, sound).contains_key(other)
            == before.sounds.contains_key(other),
{
}

/// Textures are loaded once per asset path. Take requests `first` and
/// `again` naming one asset path (with or without `asset://`) and `other`
/// naming another, neither cached. `first` leads to a load; loading an image
/// that can make RGBA8 texture data succeeds with the next id and the
/// image's size and pixels. `again` is then served that texture from the
/// cache, and `other` still leads to a load. Loading an acceptable image for
/// it succeeds with the following id, and `again` is still served the first
/// texture.
pub proof fn lemma_texture_loaded_once(
    s0: AssetsView,
    s1: AssetsView,
    s2: AssetsView,
    first: Seq<char>,
    again: Seq<char>,
    other: Seq<char>,
    image1: (u32, u32, Seq<u8>),
    outcome1: Result<TextureParts, (u64, Seq<char>)>,
    image2: (u32, u32, Seq<u8>),
    outcome2: Result<TextureParts, (u64, Seq<char>)>,
)
    requires
        spec_requested_asset_path(first) is Ok,
        spec_requested_asset_path(again) == spec_requested_asset_path(first),
        spec_requested_asset_path(other) is Ok,
        spec_requested_asset_path(other) != spec_requested_asset_path(first),
        !s0.textures.contains_key(spec_requested_asset_path(first)->Ok_0),
        !s0.textures.contains_key(spec_requested_asset_path(other)->Ok_0),
        spec_rgba8_refusal(image1.0, image1.1, image1.2.len()) is None,
        spec_texture_load(s0, spec_requested_asset_path(first)->Ok_0, image1.0, image1.1, image1.2, s1, outcome1),
        spec_rgba8_refusal(image2.0, image2.1, image2.2.len()) is None,
        spec_texture_load(s1, spec_requested_asset_path(other)->Ok_0, image2.0, image2.1, image2.2, s2, outcome2),
    ensures
        spec_texture_lookup(s0, first) == Ok::<TextureLookupView, PathErrorView>(
            TextureLookupView::Load(spec_requested_asset_path(first)->Ok_0),
        ),
        outcome1 matches Ok(texture) && texture.0@ == s0.next_texture_id && texture.1 == image1.0
            && texture.2 == image1.1 && texture.3 == image1.2,
        spec_texture_lookup(s1, again) == Ok::<TextureLookupView, PathErrorView>(
            TextureLookupView::Cached(outcome1->Ok_0),
        ),
        spec_texture_lookup(s1, other) == Ok::<TextureLookupView, PathErrorView>(
            TextureLookupView::Load(spec_requested_asset_path(other)->Ok_0),
        ),
        outcome2 matches Ok(texture) && texture.0@ == s0.next_texture_id + 1,
        spec_texture_lookup(s2, again) == Ok::<TextureLookupView, PathErrorView>(
            TextureLookupView::Cached(outcome1->Ok_0),
        ),
        s2.next_texture_id == s0.next_texture_id + 2,
{
}

} // verus!
