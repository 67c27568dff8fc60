//! The maps of the engine and the client: the texture caches, where
//! textures are created once per asset and found again by the asset id
//! (each entry holds the image view of the texture and the descriptor set
//! it is drawn with), and the maps from names to indices.

use vstd::prelude::*;

verus! {

/// The hasher of the `fnv` crate.
#[verifier::external_type_specification]
#[verifier::external_body]
pub struct ExFnvHasher(fnv::FnvHasher);

/// A builder of default hashers of type `H`.
#[verifier::external_type_specification]
#[verifier::external_body]
#[verifier::reject_recursive_types(H)]
pub struct ExBuildHasherDefault<H>(core::hash::BuildHasherDefault<H>);

/// A map from asset id to (image view, descriptor set).
pub type TextureMap = fnv::FnvHashMap<u64, (u64, u64)>;

/// The entries of a texture map: asset id to (image view, descriptor set).
pub uninterp spec fn texture_map_contents(m: TextureMap) -> Map<u64, (u64, u64)>;

/// `FnvHashMap::default()`: a map without entries.
#[verifier::external_body]
fn texture_map_new() -> (r: TextureMap)
    ensures
        texture_map_contents(r) =~= Map::empty(),
{
    fnv::FnvHashMap::default()
}

/// `HashMap::get` on the map: the entry of `key`, if there is one.
#[verifier::external_body]
fn texture_map_get(m: &TextureMap, key: u64) -> (r: Option<(u64, u64)>)
    ensures
        texture_map_contents(*m).contains_key(key) ==> r == Some(texture_map_contents(*m)[key]),
        !texture_map_contents(*m).contains_key(key) ==> r is None,
{
    match m.get(&key) {
        Some(v) => Some(*v),
        None => None,
    }
}

/// `HashMap::insert` on the map: `key` now has the entry `value`, the other
/// entries stay. The previous entry it returns is dropped.
#[verifier::external_body]
fn texture_map_insert(m: &mut TextureMap, key: u64, value: (u64, u64))
    ensures
        texture_map_contents(*final(m)) == texture_map_contents(*old(m)).insert(key, value),
{
    m.insert(key, value);
}

/// Textures created so far, by asset id.
pub struct TextureCache {
    pub textures: TextureMap,
}

impl TextureCache {
    /// The entries of the cache.
    pub open spec fn contents(&self) -> Map<u64, (u64, u64)> {
        texture_map_contents(self.textures)
    }

    /// A cache without textures.
    pub fn new() -> (c: Self)
        ensures
            c.contents() == Map::<u64, (u64, u64)>::empty(),
    {
        TextureCache { textures: texture_map_new() }
    }

    /// The image view and descriptor set of the texture of asset `id`, if it
    /// was created already.
    pub fn cached(&self, id: u64) -> (r: Option<(u64, u64)>)
        ensures
            r == if self.contents().contains_key(id) {
                Some(self.contents()[id])
            } else {
                None
            },
    {
        texture_map_get(&self.textures, id)
    }

    /// Records the texture of asset `id`.
    pub fn store(&mut self, id: u64, view: u64, set: u64)
        ensures
            final(self).contents() == old(self).contents().insert(id, (view, set)),
    {
        texture_map_insert(&mut self.textures, id, (view, set));
    }
}

/// A texture stored in the cache is found again, with the view and set it
/// was stored with, and storing it leaves the other textures as they were.
pub proof fn lemma_store_then_cached(contents: Map<u64, (u64, u64)>, id: u64, view: u64, set: u64, other: u64)
    requires
        other != id,
    ensures
        contents.insert(id, (view, set)).contains_key(id),
        contents.insert(id, (view, set))[id] == (view, set),
        contents.insert(id, (view, set)).contains_key(other) == contents.contains_key(other),
        contents.contains_key(other) ==> contents.insert(id, (view, set))[other] == contents[other],
{
}


/// A map from names to indices.
pub type NameMap = fnv::FnvHashMap<String, u32>;

/// The entries of a name map.
pub uninterp spec fn name_map_contents(m: NameMap) -> Map<Seq<char>, u32>;

/// `FnvHashMap::default()`: a map without entries.
#[verifier::external_body]
fn name_map_new() -> (r: NameMap)
    ensures
        name_map_contents(r) =~= Map::empty(),
{
    fnv::FnvHashMap::default()
}

/// `HashMap::get` on the map with a name: the index of the name, if there
/// is one. Names are compared as strings.
#[verifier::external_body]
fn name_map_get(m: &NameMap, key: &str) -> (r: Option<u32>)
    ensures
        name_map_contents(*m).contains_key(key@) ==> r == Some(name_map_contents(*m)[key@]),
        !name_map_contents(*m).contains_key(key@) ==> r is None,
{
    match m.get(key) {
        Some(v) => Some(*v),
        None => None,
    }
}

/// `HashMap::insert` on the map with a copy of the name: the name now has
/// the index `value`, the other names stay.
#[verifier::external_body]
fn name_map_insert(m: &mut NameMap, key: &str, value: u32)
    ensures
        name_map_contents(*final(m)) == name_map_contents(*old(m)).insert(key@, value),
{
    m.insert(key.to_string(), value);
}

/// `HashMap::clear`: no entry is left.
#[verifier::external_body]
fn name_map_clear(m: &mut NameMap)
    ensures
        name_map_contents(*final(m)) =~= Map::empty(),
{
    m.clear();
}

/// Indices by name.
pub struct NameIndex {
    pub map: NameMap,
}

impl NameIndex {
    /// The entries.
    pub open spec fn contents(&self) -> Map<Seq<char>, u32> {
        name_map_contents(self.map)
    }

    /// No name yet.
    pub fn new() -> (n: Self)
        ensures
            n.contents() == Map::<Seq<char>, u32>::empty(),
    {
        NameIndex { map: name_map_new() }
    }

    /// The index of `name`, if it has one.
    pub fn get(&self, name: &str) -> (r: Option<u32>)
        ensures
            r == if self.contents().contains_key(name@) {
                Some(self.contents()[name@])
            } else {
                None
            },
    {
        name_map_get(&self.map, name)
    }

    /// Gives `name` the index `index`.
    pub fn insert(&mut self, name: &str, index: u32)
        ensures
            final(self).contents() == old(self).contents().insert(name@, index),
    {
        name_map_insert(&mut self.map, name, index);
    }

    /// Forgets every name.
    pub fn clear(&mut self)
        ensures
            final(self).contents() == Map::<Seq<char>, u32>::empty(),
    {
        name_map_clear(&mut self.map);
    }
}

} // verus!
