//! The state of the open documents: their texts, the block caches of their
//! parses and their semantic tokens, and when a cache may answer.
use vstd::prelude::*;
use crate::block_cache::{cache_of, invalidated, rebuilt, BlockCache, BlockCacheManager, BlockCacheView};
use crate::diagnostics::TextRange;
use crate::document::{edited_lines, edited_text, Document};
use crate::lexer::Lexer;
use crate::lexer_spec::lexes;
use crate::parser::{
    clone_material, clone_matfile, material_result_matches, parse_material_tokens, parse_tokens, spec_parse,
    spec_parse_material, MatFile, MatFileView, Material, ParseError,
};
use crate::semantic_tokens::{generate_semantic_tokens, tokens_data_of, TokenData};
use crate::text::{chars_to_string, str_eq, to_owned_string, utf8_len};
use crate::token::Token;
use crate::uri_map::UriMap;

verus! {

broadcast use vstd::string::group_string_axioms;

/// The character of a decimal digit.
pub open spec fn digit_char(d: nat) -> char {
    if d == 0 { '0' } else if d == 1 { '1' } else if d == 2 { '2' } else if d == 3 { '3' } else if d == 4 { '4' }
    else if d == 5 { '5' } else if d == 6 { '6' } else if d == 7 { '7' } else if d == 8 { '8' } else { '9' }
}

/// The decimal digits of a number, most significant first.
pub open spec fn decimal_digits(n: nat) -> Seq<char>
    decreases n,
{
    if n < 10 { seq![digit_char(n)] } else { decimal_digits(n / 10).push(digit_char(n % 10)) }
}

/// A number written in decimal, with a minus sign when it is negative.
pub open spec fn decimal(v: i32) -> Seq<char> {
    if v < 0 { seq!['-'] + decimal_digits((-v) as nat) } else { decimal_digits(v as nat) }
}

fn digit_of(d: u64) -> (r: char)
    requires
        d < 10,
    ensures
        r == digit_char(d as nat),
{
    if d == 0 { '0' } else if d == 1 { '1' } else if d == 2 { '2' } else if d == 3 { '3' } else if d == 4 { '4' }
    else if d == 5 { '5' } else if d == 6 { '6' } else if d == 7 { '7' } else if d == 8 { '8' } else { '9' }
}

pub(crate) fn push_decimal_digits(out: &mut Vec<char>, n: u64)
    ensures
        final(out)@ == old(out)@ + decimal_digits(n as nat),
    decreases n,
{
    if n >= 10 {
        push_decimal_digits(out, n / 10);
    }
    out.push(digit_of(n % 10));
}

/// A version written in decimal: the result id of semantic tokens.
pub fn version_id(v: i32) -> (r: String)
    ensures
        r@ == decimal(v),
{
    let mut out: Vec<char> = Vec::new();
    if v < 0 {
        out.push('-');
        let n: u64 = (0i64 - v as i64) as u64;
        push_decimal_digits(&mut out, n);
    } else {
        push_decimal_digits(&mut out, v as u64);
    }
    assert(out@ =~= decimal(v));
    chars_to_string(out.as_slice())
}

/// The semantic tokens last computed for a document.
pub struct SemanticTokensCache {
    pub version: i32,
    pub result_id: String,
    pub data: Vec<TokenData>,
}

/// One edit of a semantic tokens array: `delete_count` entries from
/// `start` are replaced with `data`.
pub struct SemanticTokensEdit {
    pub start: u32,
    pub delete_count: u32,
    pub data: Option<Vec<TokenData>>,
}

/// What a semantic tokens cache holds: its version, result id and data.
pub type TokensCacheView = (i32, Seq<char>, Seq<TokenData>);

/// What a reply of semantic tokens holds: its result id and data.
pub type TokensReplyView = (Seq<char>, Seq<TokenData>);

/// The open documents with their caches.
pub struct ServerState {
    documents: UriMap<Document>,
    block_cache_manager: BlockCacheManager,
    semantic_tokens_cache: UriMap<SemanticTokensCache>,
}

/// `m` is the parse of the tokens of `text`.
pub open spec fn parses_to(text: Seq<char>, m: MatFileView) -> bool {
    exists|toks: Seq<Token>| lexes(text, toks) && spec_parse(toks) == Some(m)
}

/// `r` is the material parse of the tokens of `text`.
pub open spec fn material_parses_to(text: Seq<char>, r: Result<Material, ParseError>) -> bool {
    exists|toks: Seq<Token>| #![trigger lexes(text, toks)]
        lexes(text, toks) && spec_parse_material(toks, 0, None) is Some
            && material_result_matches(r, spec_parse_material(toks, 0, None).unwrap().0)
}

/// The parser cannot take the tokens of `text` to the end: they hold a
/// token it cannot read, or it would never finish the material or the file
/// on them.
pub open spec fn unparsable(text: Seq<char>) -> bool {
    exists|toks: Seq<Token>| #![trigger lexes(text, toks)]
        lexes(text, toks) && !(spec_parse_material(toks, 0, None) is Some && spec_parse(toks) is Some)
}

/// The cache of `uri` answers for the material of `version`.
pub open spec fn material_hit(caches: Map<Seq<char>, BlockCacheView>, uri: Seq<char>, version: i32) -> bool {
    caches.contains_key(uri) && caches[uri].version == version && caches[uri].material_valid
}

/// The cache of `uri` answers for the whole file of `version`.
pub open spec fn file_hit(caches: Map<Seq<char>, BlockCacheView>, uri: Seq<char>, version: i32) -> bool {
    caches.contains_key(uri) && caches[uri].version == version && crate::block_cache::fully_valid(caches[uri])
}

/// The semantic tokens cache of `uri` is of `version`.
pub open spec fn tokens_hit(caches: Map<Seq<char>, TokensCacheView>, uri: Seq<char>, version: i32) -> bool {
    caches.contains_key(uri) && caches[uri].0 == version
}

impl ServerState {
    /// The open documents, by URI.
    pub closed spec fn docs(&self) -> Map<Seq<char>, Document> {
        self.documents@
    }

    /// The block caches, by URI.
    pub closed spec fn caches(&self) -> Map<Seq<char>, BlockCacheView> {
        self.block_cache_manager@
    }

    /// The semantic tokens caches, by URI.
    pub closed spec fn token_caches(&self) -> Map<Seq<char>, TokensCacheView> {
        self.semantic_tokens_cache@.map_values(|c: SemanticTokensCache| (c.version, c.result_id@, c.data@))
    }

    /// Every document is well formed and short enough to be read by the
    /// lexer.
    pub open spec fn docs_ok(docs: Map<Seq<char>, Document>) -> bool {
        forall|k: Seq<char>| #[trigger] docs.contains_key(k) ==> docs[k].wf() && docs[k].text@.len() < u32::MAX
    }

    pub closed spec fn wf(&self) -> bool {
        &&& self.documents.wf()
        &&& self.block_cache_manager.wf()
        &&& self.semantic_tokens_cache.wf()
        &&& Self::docs_ok(self.documents@)
    }

    /// No documents and no caches.
    pub fn new() -> (r: Self)
        ensures
            r.wf(),
            r.docs() == Map::<Seq<char>, Document>::empty(),
            r.caches() == Map::<Seq<char>, BlockCacheView>::empty(),
            r.token_caches() == Map::<Seq<char>, TokensCacheView>::empty(),
    {
        let r = ServerState {
            documents: UriMap::new(),
            block_cache_manager: BlockCacheManager::new(),
            semantic_tokens_cache: UriMap::new(),
        };
        assert(r.token_caches() =~= Map::<Seq<char>, TokensCacheView>::empty());
        r
    }

    /// The document of a URI.
    pub fn get_document(&self, uri: &str) -> (r: Option<&Document>)
        requires
            self.wf(),
        ensures
            match r {
                Some(d) => self.docs().contains_key(uri@) && *d == self.docs()[uri@],
                None => !self.docs().contains_key(uri@),
            },
    {
        self.documents.get(uri)
    }

    /// Whether the diagnostics a change asked for are due: the quiet time
    /// has passed since the change, and the document is still open at the
    /// version that change made (a later change asks again).
    pub fn diagnostics_due(&self, uri: &str, version: i32, elapsed_ms: u64, debounce_ms: u64) -> (r: bool)
        requires
            self.wf(),
        ensures
            r == (elapsed_ms >= debounce_ms && self.docs().contains_key(uri@) && self.docs()[uri@].version == version),
    {
        if elapsed_ms < debounce_ms {
            return false;
        }
        match self.documents.get(uri) {
            Some(d) => d.version == version,
            None => false,
        }
    }

    /// The URIs of the open documents, each once.
    pub fn document_uris(&self) -> (r: Vec<String>)
        requires
            self.wf(),
        ensures
            forall|k: Seq<char>| self.docs().contains_key(k) <==> exists|i: int| 0 <= i < r@.len() && (#[trigger] r@[i])@ == k,
            forall|i: int, j: int| 0 <= i < j < r@.len() ==> (#[trigger] r@[i])@ != (#[trigger] r@[j])@,
    {
        self.documents.keys()
    }

    /// Opens (or replaces) a document.
    pub fn insert_document(&mut self, uri: String, document: Document)
        requires
            old(self).wf(),
            document.wf(),
            document.text@.len() < u32::MAX,
        ensures
            final(self).wf(),
            final(self).docs() == old(self).docs().insert(uri@, document),
            final(self).caches() == old(self).caches(),
            final(self).token_caches() == old(self).token_caches(),
    {
        self.documents.insert(uri, document);
    }

    /// Closes a document and drops its block cache.
    pub fn remove_document(&mut self, uri: &str)
        requires
            old(self).wf(),
        ensures
            final(self).wf(),
            final(self).docs() == old(self).docs().remove(uri@),
            final(self).caches() == old(self).caches().remove(uri@),
            final(self).token_caches() == old(self).token_caches(),
    {
        let _ = self.documents.remove(uri);
        self.block_cache_manager.remove(uri);
    }

    /// Applies a change to an open document: the text between two positions
    /// (or the whole text) is replaced and the version taken; then the
    /// blocks of its cache that the change's lines touch are invalidated.
    /// A change to a document that is not open does nothing.
    pub fn apply_change(&mut self, uri: &str, range: Option<TextRange>, text: String, version: i32)
        requires
            old(self).wf(),
            old(self).docs().contains_key(uri@) ==> 2 * utf8_len(old(self).docs()[uri@].text@) + utf8_len(text@) < u32::MAX,
        ensures
            final(self).wf(),
            final(self).token_caches() == old(self).token_caches(),
            old(self).docs().contains_key(uri@) ==> {
                let d = final(self).docs()[uri@];
                &&& final(self).docs() == old(self).docs().insert(uri@, d)
                &&& d.text@ == edited_text(old(self).docs()[uri@].text@, range, text@)
                &&& d.version == version
                &&& final(self).caches() == if old(self).caches().contains_key(uri@) {
                    old(self).caches().insert(uri@, invalidated(
                        BlockCacheView { version, ..old(self).caches()[uri@] },
                        edited_lines(range).0,
                        edited_lines(range).1,
                    ))
                } else {
                    old(self).caches()
                }
            },
            !old(self).docs().contains_key(uri@) ==> final(self).docs() == old(self).docs() && final(self).caches()
                == old(self).caches(),
    {
        let ghost docs = self.documents@;
        match self.documents.remove(uri) {
            Some(mut doc) => {
                proof {
                    assert(docs.contains_key(uri@));
                    crate::text::lemma_utf8_len_ge(doc.text@);
                    crate::text::lemma_utf8_len_ge(text@);
                }
                let ghost old_text = doc.text@;
                let ghost new_text = text@;
                let lines = doc.apply_edit(range, text, version);
                proof {
                    lemma_edited_len(old_text, range, new_text);
                }
                self.documents.insert(to_owned_string(uri), doc);
                proof {
                    assert(self.documents@ =~= docs.insert(uri@, doc));
                    assert forall|k: Seq<char>| #[trigger] self.documents@.contains_key(k) implies self.documents@[k].wf()
                        && self.documents@[k].text@.len() < u32::MAX by {
                        if k != uri@ {
                            assert(docs.contains_key(k));
                        }
                    }
                }
                self.block_cache_manager.handle_change(uri, version, lines.0, lines.1);
            },
            None => {
                assert(self.documents@ =~= docs);
            },
        }
    }

    /// The material of a document: from its block cache when that is of
    /// the document's version with a valid material block (nothing when
    /// that material did not parse); otherwise parsed anew, and the cache
    /// rebuilt from a full parse. Nothing for a document that is not open,
    /// nor for a text the parser cannot take to its end.
    pub fn parse_document(&mut self, uri: &str) -> (r: Option<Result<Material, ParseError>>)
        requires
            old(self).wf(),
        ensures
            final(self).wf(),
            final(self).docs() == old(self).docs(),
            final(self).token_caches() == old(self).token_caches(),
            !old(self).docs().contains_key(uri@) ==> r is None && final(self).caches() == old(self).caches(),
            old(self).docs().contains_key(uri@) ==> {
                let d = old(self).docs()[uri@];
                if material_hit(old(self).caches(), uri@, d.version) {
                    &&& final(self).caches() == old(self).caches()
                    &&& match old(self).caches()[uri@].material {
                        Ok(m) => r matches Some(Ok(mm)) && mm@ == m,
                        Err(_) => r is None,
                    }
                } else {
                    ||| r is Some && material_parses_to(d.text@, r.unwrap()) && exists|m: MatFileView| parses_to(d.text@, m)
                            && final(self).caches() == old(self).caches().insert(uri@, cache_of(d.version, m))
                    ||| r is None && unparsable(d.text@) && final(self).caches() == old(self).caches()
                }
            },
    {
        let (text, version) = match self.documents.get(uri) {
            Some(d) => (to_owned_string(d.text.as_str()), d.version),
            None => return None,
        };
        match self.block_cache_manager.get(uri) {
            Some(cache) => {
                if cache.version == version && cache.material_valid {
                    return match &cache.material {
                        Ok(m) => Some(Ok(clone_material(m))),
                        Err(_) => None,
                    };
                }
            },
            None => {},
        }
        let ghost docs = self.documents@;
        proof {
            assert(docs.contains_key(uri@));
        }
        let mut lexer = Lexer::new(text.as_str());
        let tokens = lexer.tokenize();
        let ghost t1 = tokens@;
        let result = parse_material_tokens(tokens);
        let mut lexer2 = Lexer::new(text.as_str());
        let tokens2 = lexer2.tokenize();
        let ghost t2 = tokens2@;
        let parsed = parse_tokens(tokens2);
        proof {
            assert(lexes(text@, t1));
            assert(lexes(text@, t2));
        }
        match (result, parsed) {
            (Some(res), Some(matfile)) => {
                let ghost mv = matfile@;
                let cache = BlockCache::from_matfile(version, matfile);
                self.block_cache_manager.insert(to_owned_string(uri), cache);
                proof {
                    assert(parses_to(text@, mv));
                    assert(material_parses_to(text@, res));
                }
                Some(res)
            },
            (r1, r2) => {
                proof {
                    if r1 is None {
                        assert(unparsable(text@));
                    } else {
                        assert(r2 is None);
                        assert(unparsable(text@));
                    }
                }
                None
            },
        }
    }

    /// The whole parse of a document: rebuilt from its block cache when that
    /// is of the document's version with every block valid (nothing when its
    /// material did not parse); otherwise parsed anew and the cache rebuilt.
    /// Nothing for a document that is not open, nor for a text the parser
    /// cannot take to its end.
    pub fn parse_full_document(&mut self, uri: &str) -> (r: Option<MatFile>)
        requires
            old(self).wf(),
        ensures
            final(self).wf(),
            final(self).docs() == old(self).docs(),
            final(self).token_caches() == old(self).token_caches(),
            !old(self).docs().contains_key(uri@) ==> r is None && final(self).caches() == old(self).caches(),
            old(self).docs().contains_key(uri@) ==> {
                let d = old(self).docs()[uri@];
                if file_hit(old(self).caches(), uri@, d.version) {
                    &&& final(self).caches() == old(self).caches()
                    &&& match rebuilt(old(self).caches()[uri@]) {
                        Some(m) => r is Some && r.unwrap()@ == m,
                        None => r is None,
                    }
                } else {
                    ||| r is Some && parses_to(d.text@, r.unwrap()@)
                            && final(self).caches() == old(self).caches().insert(uri@, cache_of(d.version, r.unwrap()@))
                    ||| r is None && (exists|toks: Seq<Token>| #![trigger lexes(d.text@, toks)] lexes(d.text@, toks)
                            && !(spec_parse(toks) is Some)) && final(self).caches() == old(self).caches()
                }
            },
    {
        let (text, version) = match self.documents.get(uri) {
            Some(d) => (to_owned_string(d.text.as_str()), d.version),
            None => return None,
        };
        match self.block_cache_manager.get(uri) {
            Some(cache) => {
                if cache.version == version && cache.is_fully_valid() {
                    return cache.to_matfile();
                }
            },
            None => {},
        }
        let mut lexer = Lexer::new(text.as_str());
        let tokens = lexer.tokenize();
        let ghost t = tokens@;
        proof {
            assert(lexes(text@, t));
        }
        match parse_tokens(tokens) {
            Some(matfile) => {
                let ghost mv = matfile@;
                let copy = clone_matfile(&matfile);
                let cache = BlockCache::from_matfile(version, copy);
                self.block_cache_manager.insert(to_owned_string(uri), cache);
                proof {
                    assert(parses_to(text@, mv));
                }
                Some(matfile)
            },
            None => None,
        }
    }

    /// The semantic tokens of a document with their result id: from the
    /// cache when it is of the document's version, otherwise computed anew
    /// (with the version in decimal as their id) and cached. Nothing for a
    /// document that is not open.
    pub fn get_semantic_tokens(&mut self, uri: &str) -> (r: Option<(String, Vec<TokenData>)>)
        requires
            old(self).wf(),
        ensures
            final(self).wf(),
            final(self).docs() == old(self).docs(),
            final(self).caches() == old(self).caches(),
            !old(self).docs().contains_key(uri@) ==> r is None && final(self).token_caches() == old(self).token_caches(),
            old(self).docs().contains_key(uri@) ==> {
                let d = old(self).docs()[uri@];
                &&& r is Some
                &&& if tokens_hit(old(self).token_caches(), uri@, d.version) {
                    &&& final(self).token_caches() == old(self).token_caches()
                    &&& r.unwrap().0@ == old(self).token_caches()[uri@].1
                    &&& r.unwrap().1@ == old(self).token_caches()[uri@].2
                } else {
                    &&& r.unwrap().0@ == decimal(d.version)
                    &&& tokens_data_of(d.text@, r.unwrap().1@)
                    &&& final(self).token_caches() == old(self).token_caches().insert(uri@, (d.version, decimal(d.version), r.unwrap().1@))
                }
            },
    {
        let (text, version) = match self.documents.get(uri) {
            Some(d) => (to_owned_string(d.text.as_str()), d.version),
            None => return None,
        };
        match self.semantic_tokens_cache.get(uri) {
            Some(cache) => {
                if cache.version == version {
                    return Some((to_owned_string(cache.result_id.as_str()), copy_token_data(&cache.data)));
                }
            },
            None => {},
        }
        let data = generate_semantic_tokens(text.as_str());
        let result_id = version_id(version);
        self.store_tokens(uri, version, &result_id, &data);
        Some((result_id, data))
    }

    fn store_tokens(&mut self, uri: &str, version: i32, result_id: &String, data: &Vec<TokenData>)
        requires
            old(self).wf(),
        ensures
            final(self).wf(),
            final(self).docs() == old(self).docs(),
            final(self).caches() == old(self).caches(),
            final(self).token_caches() == old(self).token_caches().insert(uri@, (version, result_id@, data@)),
    {
        let entry = SemanticTokensCache { version, result_id: to_owned_string(result_id.as_str()), data: copy_token_data(data) };
        let ghost ev = entry;
        self.semantic_tokens_cache.insert(to_owned_string(uri), entry);
        assert(self.token_caches() =~= old(self).token_caches().insert(uri@, (version, result_id@, data@)));
    }

    /// The semantic tokens of a document as a change from an earlier reply:
    /// when the cache is still that reply (same id, same version), the same
    /// id and no edits; otherwise the tokens computed anew, given whole and
    /// as one edit that inserts them all at the start, and cached. Nothing
    /// for a document that is not open.
    pub fn get_semantic_tokens_delta(&mut self, uri: &str, previous_result_id: &str) -> (r: Option<(String, bool, Vec<TokenData>, Vec<SemanticTokensEdit>)>)
        requires
            old(self).wf(),
        ensures
            final(self).wf(),
            final(self).docs() == old(self).docs(),
            final(self).caches() == old(self).caches(),
            !old(self).docs().contains_key(uri@) ==> r is None && final(self).token_caches() == old(self).token_caches(),
            old(self).docs().contains_key(uri@) ==> {
                let d = old(self).docs()[uri@];
                let t = old(self).token_caches();
                &&& r is Some
                &&& r.unwrap().1
                &&& if t.contains_key(uri@) && t[uri@].1 == previous_result_id@ && t[uri@].0 == d.version {
                    &&& final(self).token_caches() == t
                    &&& r.unwrap().0@ == previous_result_id@
                    &&& r.unwrap().2@.len() == 0
                    &&& r.unwrap().3@.len() == 0
                } else {
                    &&& r.unwrap().0@ == decimal(d.version)
                    &&& tokens_data_of(d.text@, r.unwrap().2@)
                    &&& r.unwrap().3@.len() == 1
                    &&& r.unwrap().3@[0].start == 0
                    &&& r.unwrap().3@[0].delete_count == 0
                    &&& r.unwrap().3@[0].data matches Some(v) && v@ == r.unwrap().2@
                    &&& final(self).token_caches() == t.insert(uri@, (d.version, decimal(d.version), r.unwrap().2@))
                }
            },
    {
        let (text, version) = match self.documents.get(uri) {
            Some(d) => (to_owned_string(d.text.as_str()), d.version),
            None => return None,
        };
        match self.semantic_tokens_cache.get(uri) {
            Some(cache) => {
                if str_eq(cache.result_id.as_str(), previous_result_id) && cache.version == version {
                    return Some((to_owned_string(previous_result_id), true, Vec::new(), Vec::new()));
                }
            },
            None => {},
        }
        let data = generate_semantic_tokens(text.as_str());
        let result_id = version_id(version);
        let mut edits: Vec<SemanticTokensEdit> = Vec::new();
        edits.push(SemanticTokensEdit { start: 0, delete_count: 0, data: Some(copy_token_data(&data)) });
        self.store_tokens(uri, version, &result_id, &data);
        Some((result_id, true, data, edits))
    }
}

/// A copy of semantic token data.
fn copy_token_data(v: &Vec<TokenData>) -> (r: Vec<TokenData>)
    ensures
        r@ == v@,
{
    let mut out: Vec<TokenData> = Vec::new();
    let mut i: usize = 0;
    while i < v.len()
        invariant
            i <= v@.len(),
            out@ == v@.take(i as int),
        decreases v.len() - i,
    {
        out.push(v[i]);
        assert(v@.take(i + 1) =~= v@.take(i as int).push(v@[i as int]));
        i = i + 1;
    }
    assert(v@.take(i as int) =~= v@);
    out
}

/// An edit's text is no longer than the old text twice over and the new
/// text together.
proof fn lemma_edited_len(c: Seq<char>, range: Option<TextRange>, n: Seq<char>)
    ensures
        edited_text(c, range, n).len() <= 2 * c.len() + n.len(),
{
    match range {
        Some(r) => {
            let s = crate::document::position_index(c, r.start.line as int, r.start.character as int);
            let e = crate::document::position_index(c, r.end.line as int, r.end.character as int);
            crate::document::lemma_position_index_bounds(c, r.start.line as int, r.start.character as int);
            crate::document::lemma_position_index_bounds(c, r.end.line as int, r.end.character as int);
        },
        None => {},
    }
}

/// Semantic tokens stored for a version are what a later request of the same
/// version is given, with the same result id, as long as the document keeps
/// that version: the entry a miss stores is a hit for that version.
pub proof fn lemma_tokens_repeat(t: Map<Seq<char>, TokensCacheView>, uri: Seq<char>, version: i32, id: Seq<char>, data: Seq<TokenData>)
    ensures
        tokens_hit(t.insert(uri, (version, id, data)), uri, version),
        t.insert(uri, (version, id, data))[uri].1 == id,
        t.insert(uri, (version, id, data))[uri].2 == data,
{
}

/// The material cached from a parse of a version answers later requests of
/// that version: the cache built from a parse has a valid material block of
/// that version.
pub proof fn lemma_parse_cached(c: Map<Seq<char>, BlockCacheView>, uri: Seq<char>, version: i32, m: MatFileView)
    ensures
        material_hit(c.insert(uri, cache_of(version, m)), uri, version),
        file_hit(c.insert(uri, cache_of(version, m)), uri, version),
        c.insert(uri, cache_of(version, m))[uri].material == Ok::<crate::parser::MaterialView, (Seq<char>, TextRange)>(m.material),
{
    crate::block_cache::lemma_cache_round_trip(version, m);
}

} // verus!
