//! A block-level cache of a parsed `.mat` file: each block keeps its parse
//! and whether an edit may have changed it since.
use vstd::prelude::*;
use crate::diagnostics::TextRange;
use crate::text::to_owned_string;
use crate::uri_map::UriMap;
use crate::parser::{
    clone_material, clone_shader, error_view, shaders_view, MatFile, MatFileView, Material, MaterialView, ParseError,
    ShaderBlock, ShaderBlockView,
};

verus! {

/// Block-level cache for a parsed `.mat` file.
pub struct BlockCache {
    pub version: i32,
    pub material: Result<Material, ParseError>,
    pub material_valid: bool,
    pub shaders: Vec<(ShaderBlock, bool)>,
    /// (start_line, end_line) of the material block.
    pub material_range: (u32, u32),
    /// (start_line, end_line) of each shader block.
    pub shader_ranges: Vec<(u32, u32)>,
}

pub struct BlockCacheView {
    pub version: i32,
    pub material: Result<MaterialView, (Seq<char>, TextRange)>,
    pub material_valid: bool,
    pub shaders: Seq<(ShaderBlockView, bool)>,
    pub material_range: (u32, u32),
    pub shader_ranges: Seq<(u32, u32)>,
}

pub open spec fn cached_shaders_view(s: Seq<(ShaderBlock, bool)>) -> Seq<(ShaderBlockView, bool)> {
    s.map_values(|e: (ShaderBlock, bool)| (e.0@, e.1))
}

impl View for BlockCache {
    type V = BlockCacheView;

    open spec fn view(&self) -> BlockCacheView {
        BlockCacheView {
            version: self.version,
            material: match self.material {
                Ok(m) => Ok(m@),
                Err(e) => Err(error_view(e)),
            },
            material_valid: self.material_valid,
            shaders: cached_shaders_view(self.shaders@),
            material_range: self.material_range,
            shader_ranges: self.shader_ranges@,
        }
    }
}

/// Whether two closed line ranges share a line.
pub open spec fn overlap(a_start: u32, a_end: u32, b_start: u32, b_end: u32) -> bool {
    !(a_end < b_start || a_start > b_end)
}

/// The first shader range that a change overlaps.
pub open spec fn first_overlap(ranges: Seq<(u32, u32)>, s: u32, e: u32) -> Option<int>
    decreases ranges.len(),
{
    if ranges.len() == 0 {
        None
    } else if overlap(s, e, ranges[0].0, ranges[0].1) {
        Some(0)
    } else {
        match first_overlap(ranges.drop_first(), s, e) {
            Some(i) => Some(i + 1),
            None => None,
        }
    }
}

/// The cache built from a parse: every block valid.
pub open spec fn cache_of(version: i32, m: MatFileView) -> BlockCacheView {
    BlockCacheView {
        version,
        material: Ok(m.material),
        material_valid: true,
        shaders: m.shaders.map_values(|b: ShaderBlockView| (b, true)),
        material_range: (m.material.range.start.line, m.material.range.end.line),
        shader_ranges: m.shaders.map_values(|b: ShaderBlockView| (b.range.start.line, b.range.end.line)),
    }
}

/// The cache after a change of lines `s..=e`: the material block is no
/// longer valid when the change overlaps it, nor is the first shader block
/// it overlaps, nor any block after that one.
pub open spec fn invalidated(v: BlockCacheView, s: u32, e: u32) -> BlockCacheView {
    let first = first_overlap(v.shader_ranges, s, e);
    BlockCacheView {
        material_valid: v.material_valid && !overlap(s, e, v.material_range.0, v.material_range.1),
        shaders: Seq::new(v.shaders.len(), |i: int| (v.shaders[i].0, v.shaders[i].1 && match first {
            Some(f) => i < f,
            None => true,
        })),
        ..v
    }
}

pub open spec fn fully_valid(v: BlockCacheView) -> bool {
    v.material_valid && forall|i: int| 0 <= i < v.shaders.len() ==> (#[trigger] v.shaders[i]).1
}

pub open spec fn material_only_valid(v: BlockCacheView) -> bool {
    v.material_valid && forall|i: int| 0 <= i < v.shaders.len() ==> !(#[trigger] v.shaders[i]).1
}

/// The file rebuilt from a fully valid cache whose material parsed.
pub open spec fn rebuilt(v: BlockCacheView) -> Option<MatFileView> {
    if fully_valid(v) {
        match v.material {
            Ok(m) => Some(MatFileView { material: m, shaders: v.shaders.map_values(|e: (ShaderBlockView, bool)| e.0), errors: seq![] }),
            Err(_) => None,
        }
    } else {
        None
    }
}

/// Whether two closed line ranges share a line.
pub fn ranges_overlap(a_start: u32, a_end: u32, b_start: u32, b_end: u32) -> (r: bool)
    ensures
        r == overlap(a_start, a_end, b_start, b_end),
{
    !(a_end < b_start || a_start > b_end)
}

impl BlockCache {
    /// The cache of a parse, with every block valid.
    pub fn from_matfile(version: i32, matfile: MatFile) -> (r: Self)
        ensures
            r@ == cache_of(version, matfile@),
    {
        let material_range = (matfile.material.range.start.line, matfile.material.range.end.line);
        let ghost sv = shaders_view(matfile.shaders@);
        let mut shader_ranges: Vec<(u32, u32)> = Vec::new();
        let mut shaders: Vec<(ShaderBlock, bool)> = Vec::new();
        let mut rest = matfile.shaders;
        let ghost mut i: int = 0;
        assert(sv.take(0) =~= Seq::<ShaderBlockView>::empty());
        assert(cached_shaders_view(shaders@) =~= Seq::<(ShaderBlockView, bool)>::empty());
        while rest.len() > 0
            invariant
                0 <= i <= sv.len(),
                shaders_view(rest@) == sv.skip(i),
                cached_shaders_view(shaders@) == sv.take(i).map_values(|b: ShaderBlockView| (b, true)),
                shader_ranges@ == sv.take(i).map_values(|b: ShaderBlockView| (b.range.start.line, b.range.end.line)),
            decreases rest.len(),
        {
            let ghost before = rest@;
            assert(shaders_view(before).len() == before.len());
            let b = rest.remove(0);
            proof {
                assert(sv[i] == shaders_view(before)[0]);
                assert forall|j: int| 0 <= j < rest@.len() implies shaders_view(rest@)[j] == sv.skip(i + 1)[j] by {
                    assert(rest@[j] == before[j + 1]);
                    assert(sv.skip(i)[j + 1] == shaders_view(before)[j + 1]);
                }
                assert(shaders_view(rest@) =~= sv.skip(i + 1));
                assert(sv.take(i + 1) =~= sv.take(i).push(sv[i]));
            }
            shader_ranges.push((b.range.start.line, b.range.end.line));
            let ghost prev = shaders@;
            shaders.push((b, true));
            proof {
                assert(cached_shaders_view(shaders@) =~= cached_shaders_view(prev).push((b@, true)));
                assert(sv.take(i + 1).map_values(|b: ShaderBlockView| (b, true)) =~= sv.take(i).map_values(
                    |b: ShaderBlockView| (b, true),
                ).push((sv[i], true)));
                assert(sv.take(i + 1).map_values(|b: ShaderBlockView| (b.range.start.line, b.range.end.line)) =~= sv.take(
                    i,
                ).map_values(|b: ShaderBlockView| (b.range.start.line, b.range.end.line)).push((sv[i].range.start.line, sv[i].range.end.line)));
                i = i + 1;
            }
        }
        assert(sv.take(i) =~= sv);
        BlockCache {
            version,
            material: Ok(matfile.material),
            material_valid: true,
            shaders,
            material_range,
            shader_ranges,
        }
    }

    /// Marks the blocks that a change of lines `change_start_line..=change_end_line` may
    /// have touched as no longer valid.
    pub fn invalidate_blocks(&mut self, change_start_line: u32, change_end_line: u32)
        ensures
            final(self)@ == invalidated(old(self)@, change_start_line, change_end_line),
    {
        if ranges_overlap(change_start_line, change_end_line, self.material_range.0, self.material_range.1) {
            self.material_valid = false;
        }
        let ghost ranges = self.shader_ranges@;
        let mut first: Option<usize> = None;
        let mut i: usize = 0;
        assert(ranges.skip(0) =~= ranges);
        while i < self.shader_ranges.len()
            invariant_except_break
                first is None,
                first_overlap(ranges, change_start_line, change_end_line) == match first_overlap(ranges.skip(i as int), change_start_line, change_end_line) {
                    Some(k) => Some(k + i),
                    None => None,
                },
            invariant
                i <= ranges.len(),
                ranges == self.shader_ranges@,
            ensures
                first_overlap(ranges, change_start_line, change_end_line) == match first {
                    Some(f) => Some(f as int),
                    None => None,
                },
            decreases self.shader_ranges.len() - i,
        {
            assert(ranges.skip(i as int).drop_first() =~= ranges.skip(i + 1));
            assert(ranges.skip(i as int)[0] == ranges[i as int]);
            let (s, e) = self.shader_ranges[i];
            if ranges_overlap(change_start_line, change_end_line, s, e) {
                first = Some(i);
                break;
            }
            i = i + 1;
        }
        let ghost mid = self@;
        match first {
            Some(f) => {
                let mut j = f;
                while j < self.shaders.len()
                    invariant
                        f <= j,
                        self@ == (BlockCacheView { shaders: self@.shaders, ..mid }),
                        self@.shaders.len() == mid.shaders.len(),
                        forall|k: int| 0 <= k < self@.shaders.len() ==> (#[trigger] self@.shaders[k]).0 == mid.shaders[k].0,
                        forall|k: int| 0 <= k < self@.shaders.len() ==> (#[trigger] self@.shaders[k]).1 == (mid.shaders[k].1
                            && !(f <= k < j)),
                    decreases self.shaders.len() - j,
                {
                    let ghost before = self@;
                    let mut entry = self.shaders.remove(j);
                    entry.1 = false;
                    self.shaders.insert(j, entry);
                    proof {
                        assert forall|k: int| 0 <= k < self@.shaders.len() implies (#[trigger] self@.shaders[k]) == (if k == j {
                            (before.shaders[k].0, false)
                        } else {
                            before.shaders[k]
                        }) by {
                            if k < j {
                                assert(self.shaders@[k] == before_vec_at(self.shaders@, k));
                            }
                        }
                    }
                    j = j + 1;
                }
            },
            None => {},
        }
        assert(self@.shaders =~= invalidated(old(self)@, change_start_line, change_end_line).shaders);
    }

    /// Whether every block is valid.
    pub fn is_fully_valid(&self) -> (r: bool)
        ensures
            r == fully_valid(self@),
    {
        if !self.material_valid {
            return false;
        }
        let mut i: usize = 0;
        while i < self.shaders.len()
            invariant
                i <= self.shaders@.len(),
                forall|k: int| 0 <= k < i ==> (#[trigger] self@.shaders[k]).1,
            decreases self.shaders.len() - i,
        {
            if !self.shaders[i].1 {
                assert(!self@.shaders[i as int].1);
                return false;
            }
            i = i + 1;
        }
        true
    }

    /// Whether the material block is valid and no shader block is.
    pub fn is_material_only_valid(&self) -> (r: bool)
        ensures
            r == material_only_valid(self@),
    {
        if !self.material_valid {
            return false;
        }
        let mut i: usize = 0;
        while i < self.shaders.len()
            invariant
                i <= self.shaders@.len(),
                forall|k: int| 0 <= k < i ==> !(#[trigger] self@.shaders[k]).1,
            decreases self.shaders.len() - i,
        {
            if self.shaders[i].1 {
                assert(self@.shaders[i as int].1);
                return false;
            }
            i = i + 1;
        }
        true
    }

    /// The file rebuilt from the cache; `None` unless every block is valid
    /// and the material parsed.
    pub fn to_matfile(&self) -> (r: Option<MatFile>)
        ensures
            match rebuilt(self@) {
                Some(v) => r is Some && r.unwrap()@ == v,
                None => r is None,
            },
    {
        if !self.is_fully_valid() {
            return None;
        }
        let material = match &self.material {
            Ok(m) => clone_material(m),
            Err(_) => return None,
        };
        let mut shaders: Vec<ShaderBlock> = Vec::new();
        let mut i: usize = 0;
        while i < self.shaders.len()
            invariant
                i <= self.shaders@.len(),
                shaders_view(shaders@) == self@.shaders.take(i as int).map_values(|e: (ShaderBlockView, bool)| e.0),
            decreases self.shaders.len() - i,
        {
            let b = clone_shader(&self.shaders[i].0);
            let ghost prev = shaders@;
            shaders.push(b);
            assert(shaders_view(shaders@) =~= shaders_view(prev).push(b@));
            assert(self@.shaders.take(i + 1).map_values(|e: (ShaderBlockView, bool)| e.0) =~= self@.shaders.take(i as int).map_values(
                |e: (ShaderBlockView, bool)| e.0,
            ).push(self@.shaders[i as int].0));
            i = i + 1;
        }
        assert(self@.shaders.take(i as int) =~= self@.shaders);
        let errors: Vec<ParseError> = Vec::new();
        assert(crate::parser::errors_view(errors@) =~= Seq::<(Seq<char>, TextRange)>::empty());
        Some(MatFile { material, shaders, errors })
    }

    /// Takes a new version after a change of lines
    /// `change_start_line..=change_end_line`, invalidating the blocks it may have touched.
    pub fn handle_change(&mut self, new_version: i32, change_start_line: u32, change_end_line: u32)
        ensures
            final(self)@ == invalidated(BlockCacheView { version: new_version, ..old(self)@ }, change_start_line, change_end_line),
    {
        self.version = new_version;
        self.invalidate_blocks(change_start_line, change_end_line);
    }
}

pub open spec fn before_vec_at(s: Seq<(ShaderBlock, bool)>, k: int) -> (ShaderBlock, bool) {
    s[k]
}

/// Invalidation never makes a block valid again, and keeps every block's
/// parse.
pub proof fn lemma_invalidate_only_lowers(v: BlockCacheView, s: u32, e: u32)
    ensures
        invalidated(v, s, e).material_valid ==> v.material_valid,
        invalidated(v, s, e).shaders.len() == v.shaders.len(),
        forall|i: int| 0 <= i < v.shaders.len() ==> (#[trigger] invalidated(v, s, e).shaders[i]).1 ==> v.shaders[i].1,
        forall|i: int| 0 <= i < v.shaders.len() ==> (#[trigger] invalidated(v, s, e).shaders[i]).0 == v.shaders[i].0,
        invalidated(v, s, e).material == v.material,
{
}

/// A change inside a shader block's lines invalidates that block and every
/// block after it; the blocks before the first block it touches keep their
/// validity.
pub proof fn lemma_invalidate_from_first(v: BlockCacheView, s: u32, e: u32)
    requires
        v.shader_ranges.len() == v.shaders.len(),
    ensures
        match first_overlap(v.shader_ranges, s, e) {
            Some(f) => forall|i: int| f <= i < v.shaders.len() ==> !(#[trigger] invalidated(v, s, e).shaders[i]).1,
            None => invalidated(v, s, e).shaders == v.shaders,
        },
        forall|i: int| 0 <= i < v.shaders.len() && !overlap(s, e, v.shader_ranges[i].0, v.shader_ranges[i].1)
            && (forall|j: int| 0 <= j < i ==> !overlap(s, e, #[trigger] v.shader_ranges[j].0, v.shader_ranges[j].1))
            ==> (#[trigger] invalidated(v, s, e).shaders[i]) == v.shaders[i],
{
    lemma_first_overlap(v.shader_ranges, s, e);
    if first_overlap(v.shader_ranges, s, e) is None {
        assert(invalidated(v, s, e).shaders =~= v.shaders);
    }
}

/// The first overlapping range is one that overlaps, and no range before it
/// does.
pub proof fn lemma_first_overlap(ranges: Seq<(u32, u32)>, s: u32, e: u32)
    ensures
        match first_overlap(ranges, s, e) {
            Some(f) => 0 <= f < ranges.len() && overlap(s, e, ranges[f].0, ranges[f].1)
                && forall|j: int| 0 <= j < f ==> !overlap(s, e, #[trigger] ranges[j].0, ranges[j].1),
            None => forall|j: int| 0 <= j < ranges.len() ==> !overlap(s, e, #[trigger] ranges[j].0, ranges[j].1),
        },
    decreases ranges.len(),
{
    if ranges.len() > 0 {
        lemma_first_overlap(ranges.drop_first(), s, e);
        assert forall|j: int| 1 <= j < ranges.len() implies #[trigger] ranges[j] == ranges.drop_first()[j - 1] by {}
    }
}

/// A cache built from a parse gives back that parse, without its errors.
pub proof fn lemma_cache_round_trip(version: i32, m: MatFileView)
    ensures
        fully_valid(cache_of(version, m)),
        rebuilt(cache_of(version, m)) == Some(MatFileView { errors: seq![], ..m }),
{
    let c = cache_of(version, m);
    assert(c.shaders.map_values(|e: (ShaderBlockView, bool)| e.0) =~= m.shaders);
}

/// The caches of the open documents, by document URI.
pub struct BlockCacheManager {
    caches: UriMap<BlockCache>,
}

impl View for BlockCacheManager {
    type V = Map<Seq<char>, BlockCacheView>;

    closed spec fn view(&self) -> Map<Seq<char>, BlockCacheView> {
        self.caches@.map_values(|c: BlockCache| c@)
    }
}

impl BlockCacheManager {
    pub closed spec fn wf(&self) -> bool {
        self.caches.wf()
    }

    /// A manager with no caches.
    pub fn new() -> (r: Self)
        ensures
            r.wf(),
            r@ == Map::<Seq<char>, BlockCacheView>::empty(),
    {
        let r = BlockCacheManager { caches: UriMap::new() };
        assert(r@ =~= Map::<Seq<char>, BlockCacheView>::empty());
        r
    }

    /// The cache of a document.
    pub fn get(&self, uri: &str) -> (r: Option<&BlockCache>)
        requires
            self.wf(),
        ensures
            match r {
                Some(c) => self@.contains_key(uri@) && c@ == self@[uri@],
                None => !self@.contains_key(uri@),
            },
    {
        self.caches.get(uri)
    }

    /// Sets the cache of a document, replacing any it had.
    pub fn insert(&mut self, uri: String, cache: BlockCache)
        requires
            old(self).wf(),
        ensures
            final(self).wf(),
            final(self)@ == old(self)@.insert(uri@, cache@),
    {
        let ghost k = uri@;
        let ghost v = cache@;
        self.caches.insert(uri, cache);
        assert(self@ =~= old(self)@.insert(k, v));
    }

    /// Drops the cache of a document.
    pub fn remove(&mut self, uri: &str)
        requires
            old(self).wf(),
        ensures
            final(self).wf(),
            final(self)@ == old(self)@.remove(uri@),
    {
        let _ = self.caches.remove(uri);
        assert(self@ =~= old(self)@.remove(uri@));
    }

    /// Takes a document's new version after a change of lines
    /// `change_start_line..=change_end_line`, invalidating the blocks it may
    /// have touched; nothing happens for a document without a cache.
    pub fn handle_change(&mut self, uri: &str, new_version: i32, change_start_line: u32, change_end_line: u32)
        requires
            old(self).wf(),
        ensures
            final(self).wf(),
            final(self)@ == if old(self)@.contains_key(uri@) {
                old(self)@.insert(uri@, invalidated(BlockCacheView { version: new_version, ..old(self)@[uri@] }, change_start_line, change_end_line))
            } else {
                old(self)@
            },
    {
        let ghost old_m = self.caches@;
        match self.caches.remove(uri) {
            Some(mut cache) => {
                cache.handle_change(new_version, change_start_line, change_end_line);
                let ghost cv = cache@;
                self.caches.insert(to_owned_string(uri), cache);
                assert(self.caches@ =~= old_m.insert(uri@, cache));
                assert(self@ =~= old(self)@.insert(uri@, cv));
            },
            None => {
                assert(self@ =~= old(self)@);
            },
        }
    }

    /// Drops every cache.
    pub fn clear_all(&mut self)
        ensures
            final(self).wf(),
            final(self)@ == Map::<Seq<char>, BlockCacheView>::empty(),
    {
        self.caches.clear();
        assert(self@ =~= Map::<Seq<char>, BlockCacheView>::empty());
    }
}

impl Default for BlockCacheManager {
    fn default() -> (r: Self)
        ensures
            r.wf(),
            r@ == Map::<Seq<char>, BlockCacheView>::empty(),
    {
        Self::new()
    }
}

/// A change that does not touch the material block's lines (an edit in a
/// shader block) leaves the material block's parse and validity as they
/// were.
pub proof fn lemma_shader_edit_keeps_material(v: BlockCacheView, s: u32, e: u32)
    requires
        !overlap(s, e, v.material_range.0, v.material_range.1),
    ensures
        invalidated(v, s, e).material_valid == v.material_valid,
        invalidated(v, s, e).material == v.material,
{
}

/// The cache set for a document is the one its manager gives back, and
/// setting it leaves every other document's cache as it was; a removed
/// cache is gone.
pub proof fn lemma_manager_insert_get(m: Map<Seq<char>, BlockCacheView>, uri: Seq<char>, cache: BlockCacheView, other: Seq<char>)
    requires
        other != uri,
    ensures
        m.insert(uri, cache).contains_key(uri),
        m.insert(uri, cache)[uri] == cache,
        m.insert(uri, cache).contains_key(other) == m.contains_key(other),
        m.contains_key(other) ==> m.insert(uri, cache)[other] == m[other],
        !m.insert(uri, cache).remove(uri).contains_key(uri),
{
}

} // verus!
