//! Signature help for the Filament shader API: the known signatures, the
//! function whose argument list the cursor is in, and the active parameter.
use vstd::prelude::*;
use crate::shader_symbols::{bytes, name_char, trim, trim_exec, lemma_first_stop};
use crate::text::{char_is_alphanumeric, char_len_utf8, char_utf8_len, chars_to_string, str_eq, str_to_chars, sub_chars, to_owned_string, utf8_len, lemma_utf8_len_push};

verus! {

broadcast use vstd::string::group_string_axioms;

/// Information about a function signature.
pub struct SignatureInfo {
    pub label: String,
    pub documentation: Option<String>,
    pub parameters: Vec<ParameterInfo>,
}

/// Information about a single parameter.
pub struct ParameterInfo {
    pub label: String,
    pub documentation: Option<String>,
}

pub struct SignatureView {
    pub label: Seq<char>,
    pub documentation: Option<Seq<char>>,
    pub parameters: Seq<(Seq<char>, Option<Seq<char>>)>,
}

pub open spec fn opt_str(o: Option<String>) -> Option<Seq<char>> {
    match o {
        Some(s) => Some(s@),
        None => None,
    }
}

impl View for SignatureInfo {
    type V = SignatureView;

    open spec fn view(&self) -> SignatureView {
        SignatureView {
            label: self.label@,
            documentation: opt_str(self.documentation),
            parameters: self.parameters@.map_values(|p: ParameterInfo| (p.label@, opt_str(p.documentation))),
        }
    }
}

pub open spec fn sig(label: Seq<char>, doc: Seq<char>, params: Seq<(Seq<char>, Option<Seq<char>>)>) -> SignatureView {
    SignatureView { label, documentation: Some(doc), parameters: params }
}

/// The known signatures.
pub open spec fn signature_of(name: Seq<char>) -> Option<SignatureView> {
    if name == "prepareMaterial"@ {
        Some(sig("prepareMaterial(inout MaterialInputs material)"@,
            "Must be called before modifying MaterialInputs in the fragment shader."@,
            seq![("material"@, Some("The material inputs structure to initialize."@))]))
    } else if name == "getUV0"@ {
        Some(sig("getUV0() -> vec2"@, "Returns the first UV coordinate set (uv0) for the current fragment."@, seq![]))
    } else if name == "getUV1"@ {
        Some(sig("getUV1() -> vec2"@, "Returns the second UV coordinate set (uv1) for the current fragment."@, seq![]))
    } else if name == "getWorldPosition"@ {
        Some(sig("getWorldPosition() -> vec3"@, "Returns the world-space position of the current fragment."@, seq![]))
    } else if name == "getWorldNormal"@ {
        Some(sig("getWorldNormal() -> vec3"@, "Returns the world-space normal of the current fragment."@, seq![]))
    } else if name == "texture"@ {
        Some(sig("texture(sampler2D sampler, vec2 coord) -> vec4"@, "GLSL built-in function for sampling textures."@,
            seq![("sampler"@, Some("The sampler to read from."@)), ("coord"@, Some("Texture coordinates."@))]))
    } else {
        None
    }
}

fn param(label: &str, doc: &str) -> (r: ParameterInfo)
    ensures
        r.label@ == label@,
        opt_str(r.documentation) == Some(doc@),
{
    ParameterInfo { label: to_owned_string(label), documentation: Some(to_owned_string(doc)) }
}

fn make_sig(label: &str, doc: &str, parameters: Vec<ParameterInfo>) -> (r: SignatureInfo)
    ensures
        r.label@ == label@,
        opt_str(r.documentation) == Some(doc@),
        r.parameters@ == parameters@,
{
    SignatureInfo { label: to_owned_string(label), documentation: Some(to_owned_string(doc)), parameters }
}

/// The lengths of the known functions' names, which tell them apart.
proof fn lemma_signature_names()
    ensures
        "prepareMaterial"@.len() == 15,
        "getUV0"@.len() == 6,
        "getUV1"@.len() == 6,
        "getWorldPosition"@.len() == 16,
        "getWorldNormal"@.len() == 14,
        "texture"@.len() == 7,
        "getUV0"@ != "getUV1"@,
{
    reveal_strlit("prepareMaterial");
    reveal_strlit("getUV0");
    reveal_strlit("getUV1");
    reveal_strlit("getWorldPosition");
    reveal_strlit("getWorldNormal");
    reveal_strlit("texture");
    assert("getUV0"@ =~= seq!['g', 'e', 't', 'U', 'V', '0']);
    assert("getUV1"@ =~= seq!['g', 'e', 't', 'U', 'V', '1']);
    assert("getUV0"@[5] == '0');
    assert("getUV1"@[5] == '1');
}

/// The known signatures, each under its function's name.
pub fn init_signatures() -> (r: Vec<(&'static str, SignatureInfo)>)
    ensures
        forall|i: int| 0 <= i < r@.len() ==> signature_of((#[trigger] r@[i]).0@) == Some(r@[i].1@),
        forall|w: Seq<char>| signature_of(w) is Some ==> exists|i: int| 0 <= i < r@.len() && (#[trigger] r@[i]).0@ == w,
{
    proof {
        lemma_signature_names();
    }
    let mut map: Vec<(&'static str, SignatureInfo)> = Vec::new();
    let p1 = vec![param("material", "The material inputs structure to initialize.")];
    let s1 = make_sig("prepareMaterial(inout MaterialInputs material)",
        "Must be called before modifying MaterialInputs in the fragment shader.", p1);
    assert(s1@.parameters =~= seq![("material"@, Some("The material inputs structure to initialize."@))]);
    map.push(("prepareMaterial", s1));
    let s2 = make_sig("getUV0() -> vec2", "Returns the first UV coordinate set (uv0) for the current fragment.", Vec::new());
    assert(s2@.parameters =~= seq![]);
    assert("getUV0"@ != "prepareMaterial"@) by {
        reveal_strlit("getUV0");
        reveal_strlit("prepareMaterial");
        assert("getUV0"@.len() == 6);
        assert("prepareMaterial"@.len() == 15);
    }
    assert(s2@.label == "getUV0() -> vec2"@);
    assert(s2@.documentation == Some("Returns the first UV coordinate set (uv0) for the current fragment."@));
    assert(signature_of("getUV0"@) == Some(s2@));
    map.push(("getUV0", s2));
    let s3 = make_sig("getUV1() -> vec2", "Returns the second UV coordinate set (uv1) for the current fragment.", Vec::new());
    assert(s3@.parameters =~= seq![]);
    assert("getUV1"@ != "prepareMaterial"@) by {
        reveal_strlit("getUV1");
        reveal_strlit("prepareMaterial");
        assert("getUV1"@.len() == 6);
        assert("prepareMaterial"@.len() == 15);
    }
    assert(signature_of("getUV1"@) == Some(s3@));
    map.push(("getUV1", s3));
    let s4 = make_sig("getWorldPosition() -> vec3", "Returns the world-space position of the current fragment.", Vec::new());
    assert(s4@.parameters =~= seq![]);
    map.push(("getWorldPosition", s4));
    let s5 = make_sig("getWorldNormal() -> vec3", "Returns the world-space normal of the current fragment.", Vec::new());
    assert(s5@.parameters =~= seq![]);
    map.push(("getWorldNormal", s5));
    let p6 = vec![param("sampler", "The sampler to read from."), param("coord", "Texture coordinates.")];
    let s6 = make_sig("texture(sampler2D sampler, vec2 coord) -> vec4", "GLSL built-in function for sampling textures.", p6);
    assert(s6@.parameters =~= seq![("sampler"@, Some("The sampler to read from."@)), ("coord"@, Some("Texture coordinates."@))]);
    map.push(("texture", s6));
    assert(signature_of(map@[0].0@) == Some(map@[0].1@));
    assert(signature_of(map@[1].0@) == Some(map@[1].1@));
    assert(signature_of(map@[2].0@) == Some(map@[2].1@));
    assert(signature_of(map@[3].0@) == Some(map@[3].1@));
    assert(signature_of(map@[4].0@) == Some(map@[4].1@));
    assert(signature_of(map@[5].0@) == Some(map@[5].1@));
    assert(map@[0].0@ == "prepareMaterial"@);
    assert(map@[1].0@ == "getUV0"@);
    assert(map@[2].0@ == "getUV1"@);
    assert(map@[3].0@ == "getWorldPosition"@);
    assert(map@[4].0@ == "getWorldNormal"@);
    assert(map@[5].0@ == "texture"@);
    map
}

/// The signature of a function by name.
pub fn get_signature(name: &str) -> (r: Option<SignatureInfo>)
    ensures
        match signature_of(name@) {
            Some(s) => r is Some && r.unwrap()@ == s,
            None => r is None,
        },
{
    let mut map = init_signatures();
    let mut i: usize = 0;
    while i < map.len()
        invariant
            i <= map@.len(),
            forall|k: int| 0 <= k < map@.len() ==> signature_of((#[trigger] map@[k]).0@) == Some(map@[k].1@),
            forall|w: Seq<char>| signature_of(w) is Some ==> exists|k: int| 0 <= k < map@.len() && (#[trigger] map@[k]).0@ == w,
            forall|k: int| 0 <= k < i ==> (#[trigger] map@[k]).0@ != name@,
        decreases map.len() - i,
    {
        if str_eq(map[i].0, name) {
            let (_, s) = map.remove(i);
            return Some(s);
        }
        i = i + 1;
    }
    None
}

/// The index of the character at which byte offset `b` falls, where it is
/// the start of a character (or the end).
pub open spec fn char_at_byte(c: Seq<char>, b: int) -> Option<int> {
    if exists|k: int| 0 <= k <= c.len() && bytes(c, k) == b {
        Some(choose|k: int| 0 <= k <= c.len() && bytes(c, k) == b)
    } else {
        None
    }
}

/// The index of the last occurrence of `ch`.
pub open spec fn last_index_of(s: Seq<char>, ch: char) -> Option<int>
    decreases s.len(),
{
    if s.len() == 0 {
        None
    } else if s.last() == ch {
        Some(s.len() - 1)
    } else {
        last_index_of(s.drop_last(), ch)
    }
}

/// The index of the last character that is not a name character.
pub open spec fn last_non_name(s: Seq<char>) -> Option<int>
    decreases s.len(),
{
    if s.len() == 0 {
        None
    } else if !name_char(s.last()) {
        Some(s.len() - 1)
    } else {
        last_non_name(s.drop_last())
    }
}

/// Whether a byte offset can cut the text: 0, past the end, or the start of
/// a character (or the end).
pub open spec fn offset_ok(c: Seq<char>, offset: int) -> bool {
    offset == 0 || offset > utf8_len(c) || char_at_byte(c, offset) is Some
}

/// Whether the text before the cursor can be read: the offset can cut the
/// text, and where a `(` precedes it, the last character that is not a name
/// character before that `(` is a one-byte one.
pub open spec fn function_name_readable(c: Seq<char>, offset: int) -> bool {
    offset_ok(c, offset) && (offset == 0 || offset > utf8_len(c) || match char_at_byte(c, offset) {
        None => true,
        Some(k) => match last_index_of(c.take(k), '(') {
            None => true,
            Some(p) => match last_non_name(c.take(p)) {
                None => true,
                Some(j) => char_utf8_len(c[j]) == 1,
            },
        },
    })
}

/// The name in front of the last `(` before the cursor.
pub open spec fn function_name_at(c: Seq<char>, offset: int) -> Option<Seq<char>> {
    if offset == 0 || offset > utf8_len(c) {
        None
    } else {
        match char_at_byte(c, offset) {
            None => None,
            Some(k) => match last_index_of(c.take(k), '(') {
                None => None,
                Some(p) => {
                    let start = match last_non_name(c.take(p)) {
                        Some(j) => j + 1,
                        None => 0,
                    };
                    let name = trim(c.subrange(start, p));
                    if name.len() == 0 { None } else { Some(name) }
                },
            },
        }
    }
}

/// The number of commas at nesting depth 0 in `s`, with the depth reached.
pub open spec fn comma_scan(s: Seq<char>) -> (int, int)
    decreases s.len(),
{
    if s.len() == 0 {
        (0, 0)
    } else {
        let r = comma_scan(s.drop_last());
        let ch = s.last();
        if ch == '(' {
            (r.0, r.1 + 1)
        } else if ch == ')' {
            (r.0, r.1 - 1)
        } else if ch == ',' && r.1 == 0 {
            (r.0 + 1, r.1)
        } else {
            r
        }
    }
}

/// The active parameter: the commas at depth 0 after the last `(` before
/// the cursor.
pub open spec fn active_parameter(c: Seq<char>, offset: int) -> int {
    if offset == 0 || offset > utf8_len(c) {
        0
    } else {
        match char_at_byte(c, offset) {
            None => 0,
            Some(k) => match last_index_of(c.take(k), '(') {
                None => 0,
                Some(p) => comma_scan(c.subrange(p + 1, k)).0,
            },
        }
    }
}

/// The character index at byte offset `b`, if a character starts there.
fn char_index(c: &[char], b: usize) -> (r: Option<usize>)
    ensures
        match char_at_byte(c@, b as int) {
            Some(k) => r is Some && r.unwrap() == k && k <= c@.len(),
            None => r is None,
        },
{
    let mut i: usize = 0;
    let mut n: usize = 0;
    assert(c@.take(0) =~= Seq::<char>::empty());
    while i < c.len() && n < b
        invariant
            i <= c@.len(),
            n == bytes(c@, i as int),
            n <= b,
            forall|k: int| 0 <= k < i ==> bytes(c@, k) < b,
        decreases c.len() - i,
    {
        proof {
            assert(c@.take(i + 1) =~= c@.take(i as int).push(c@[i as int]));
            lemma_utf8_len_push(c@.take(i as int), c@[i as int]);
        }
        let w = char_len_utf8(c[i]);
        if w > b - n {
            proof {
                lemma_bytes_mono(c@);
                assert forall|k: int| 0 <= k <= c@.len() implies bytes(c@, k) != b by {
                    if k > i + 1 {
                        assert(bytes(c@, i + 1) < bytes(c@, k));
                    } else if k == i as int {
                    }
                }
            }
            return None;
        }
        n = n + w;
        i = i + 1;
    }
    proof {
        lemma_bytes_mono(c@);
    }
    if n != b {
        proof {
            assert forall|k: int| 0 <= k <= c@.len() implies bytes(c@, k) != b by {
                if k > i {
                    assert(bytes(c@, i as int) < bytes(c@, k));
                }
            }
        }
    }
    if n == b {
        assert(bytes(c@, i as int) == b);
        proof {
            let k = choose|k: int| 0 <= k <= c@.len() && bytes(c@, k) == b;
            if k < i as int {
                assert(bytes(c@, k) < b);
            } else if k > i as int {
                assert(bytes(c@, k) > bytes(c@, i as int));
            }
        }
        Some(i)
    } else {
        None
    }
}

/// Byte counts grow strictly with the index.
proof fn lemma_bytes_mono(c: Seq<char>)
    ensures
        forall|x: int, y: int| 0 <= x < y <= c.len() ==> #[trigger] bytes(c, x) < #[trigger] bytes(c, y),
{
    assert forall|x: int, y: int| 0 <= x < y <= c.len() implies #[trigger] bytes(c, x) < #[trigger] bytes(c, y) by {
        crate::text::lemma_utf8_len_sub(c, x, y);
        crate::text::lemma_utf8_len_ge(c.subrange(x, y));
    }
}

pub(crate) fn last_index_exec(v: &[char], end: usize, ch: char) -> (r: Option<usize>)
    requires
        end <= v@.len(),
    ensures
        match last_index_of(v@.take(end as int), ch) {
            Some(k) => r is Some && r.unwrap() == k && k < end,
            None => r is None,
        },
{
    let mut j = end;
    while j > 0
        invariant
            j <= end <= v@.len(),
            last_index_of(v@.take(end as int), ch) == last_index_of(v@.take(j as int), ch),
        decreases j,
    {
        assert(v@.take(j as int).drop_last() =~= v@.take(j - 1));
        if v[j - 1] == ch {
            return Some(j - 1);
        }
        j = j - 1;
    }
    None
}

pub(crate) fn last_non_name_exec(v: &[char], end: usize) -> (r: Option<usize>)
    requires
        end <= v@.len(),
    ensures
        match last_non_name(v@.take(end as int)) {
            Some(k) => r is Some && r.unwrap() == k && k < end,
            None => r is None,
        },
{
    let mut j = end;
    while j > 0
        invariant
            j <= end <= v@.len(),
            last_non_name(v@.take(end as int)) == last_non_name(v@.take(j as int)),
        decreases j,
    {
        assert(v@.take(j as int).drop_last() =~= v@.take(j - 1));
        if !(char_is_alphanumeric(v[j - 1]) || v[j - 1] == '_') {
            return Some(j - 1);
        }
        j = j - 1;
    }
    None
}

/// Whether a byte offset lies past the end of the text.
fn past_end(c: &[char], b: usize) -> (r: bool)
    ensures
        r == (b > utf8_len(c@)),
{
    let mut i: usize = 0;
    let mut n: usize = 0;
    assert(c@.take(0) =~= Seq::<char>::empty());
    while i < c.len()
        invariant
            i <= c@.len(),
            n == bytes(c@, i as int),
            n <= b,
        decreases c.len() - i,
    {
        proof {
            assert(c@.take(i + 1) =~= c@.take(i as int).push(c@[i as int]));
            lemma_utf8_len_push(c@.take(i as int), c@[i as int]);
        }
        let w = char_len_utf8(c[i]);
        if w > b - n {
            proof {
                lemma_bytes_mono(c@);
                lemma_bytes_total(c@);
                if i + 1 < c@.len() {
                    assert(bytes(c@, i + 1) < bytes(c@, c@.len() as int));
                }
            }
            return false;
        }
        n = n + w;
        i = i + 1;
    }
    proof {
        lemma_bytes_total(c@);
    }
    n < b
}

/// Whether a byte offset can cut the text.
pub fn offset_ok_at(text: &str, cursor_offset: usize) -> (r: bool)
    ensures
        r == offset_ok(text@, cursor_offset as int),
{
    let c = str_to_chars(text);
    cursor_offset == 0 || past_end(c.as_slice(), cursor_offset) || char_index(c.as_slice(), cursor_offset).is_some()
}

/// Whether `find_function_name` can read the text at the offset.
pub fn function_name_readable_at(text: &str, cursor_offset: usize) -> (r: bool)
    ensures
        r == function_name_readable(text@, cursor_offset as int),
{
    let c = str_to_chars(text);
    if cursor_offset == 0 || past_end(c.as_slice(), cursor_offset) {
        return true;
    }
    match char_index(c.as_slice(), cursor_offset) {
        None => false,
        Some(k) => {
            match last_index_exec(c.as_slice(), k, '(') {
                None => true,
                Some(p) => {
                    assert(c@.take(k as int).take(p as int) =~= c@.take(p as int));
                    match last_non_name_exec(c.as_slice(), p) {
                        None => true,
                        Some(j) => char_len_utf8(c[j]) == 1,
                    }
                },
            }
        },
    }
}

proof fn lemma_bytes_total(c: Seq<char>)
    ensures
        bytes(c, c.len() as int) == utf8_len(c),
{
    assert(c.take(c.len() as int) =~= c);
}

/// The function whose argument list the cursor (a byte offset) is in: the
/// name in front of the last `(` before it.
pub fn find_function_name(text: &str, cursor_offset: usize) -> (r: Option<String>)
    requires
        function_name_readable(text@, cursor_offset as int),
    ensures
        match function_name_at(text@, cursor_offset as int) {
            Some(n) => r is Some && r.unwrap()@ == n,
            None => r is None,
        },
{
    let c = str_to_chars(text);
    if cursor_offset == 0 || past_end(c.as_slice(), cursor_offset) {
        return None;
    }
    let k = match char_index(c.as_slice(), cursor_offset) {
        None => {
            return None;
        },
        Some(k) => k,
    };
    proof {
        lemma_bytes_total(c@);
        lemma_bytes_mono(c@);
    }
    let p = match last_index_exec(c.as_slice(), k, '(') {
        None => {
            return None;
        },
        Some(p) => p,
    };
    assert(c@.take(k as int).take(p as int) =~= c@.take(p as int));
    let start = match last_non_name_exec(c.as_slice(), p) {
        Some(j) => j + 1,
        None => 0,
    };
    let part = sub_chars(c.as_slice(), start, p);
    let name = trim_exec(part.as_slice());
    if name.len() == 0 {
        return None;
    }
    Some(chars_to_string(name.as_slice()))
}

/// The active parameter of the call the cursor (a byte offset) is in: the
/// commas at nesting depth 0 after the last `(` before it. The text must be
/// shorter than `i32::MAX` characters.
pub fn compute_active_parameter(text: &str, cursor_offset: usize) -> (r: u32)
    requires
        text@.len() < i32::MAX,
        offset_ok(text@, cursor_offset as int),
    ensures
        r == active_parameter(text@, cursor_offset as int),
{
    let c = str_to_chars(text);
    if cursor_offset == 0 || past_end(c.as_slice(), cursor_offset) {
        return 0;
    }
    let k = match char_index(c.as_slice(), cursor_offset) {
        None => {
            return 0;
        },
        Some(k) => k,
    };
    proof {
        lemma_bytes_total(c@);
        lemma_bytes_mono(c@);
    }
    let p = match last_index_exec(c.as_slice(), k, '(') {
        None => {
            return 0;
        },
        Some(p) => p,
    };
    let mut comma_count: u32 = 0;
    let mut paren_depth: i32 = 0;
    let mut i = p + 1;
    let ghost base: int = p + 1;
    let ghost seg = c@.subrange(base, k as int);
    assert(k <= c@.len());
    assert(base <= k);
    assert(seg.len() == k - base);
    assert(seg.take(0) =~= Seq::<char>::empty());
    while i < k
        invariant
            base <= i <= k <= c@.len(),
            base == p + 1,
            c@.len() < i32::MAX,
            seg == c@.subrange(base, k as int),
            (comma_count as int, paren_depth as int) == comma_scan(seg.take(i - base)),
            comma_count <= i - base,
            -(i - base) <= paren_depth <= i - base,
        decreases k - i,
    {
        assert(seg.take(i + 1 - base).drop_last() =~= seg.take(i - base));
        assert(seg.take(i + 1 - base).last() == c@[i as int]);
        let ch = c[i];
        if ch == '(' {
            paren_depth = paren_depth + 1;
        } else if ch == ')' {
            paren_depth = paren_depth - 1;
        } else if ch == ',' && paren_depth == 0 {
            comma_count = comma_count + 1;
        }
        i = i + 1;
    }
    assert(seg.take(k - base) =~= seg);
    comma_count
}

} // verus!
