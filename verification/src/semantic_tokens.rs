//! Semantic token data for a `.mat` file: each classified token as its
//! distance from the previous one, its length and its class in the legend.
use vstd::prelude::*;
use crate::lexer::Lexer;
use crate::lexer_spec::{lexes, positions_ordered, pos_le, one_based};
use crate::schema::{lookup_keyword, spec_lookup_keyword, KeywordType};
use crate::text::{char_len_utf8, str_to_chars, utf8_len, lemma_utf8_len_push};
use crate::token::{Token, TokenType};

verus! {

/// The semantic tokens of the tokens of a text.
pub open spec fn tokens_data_of(text: Seq<char>, data: Seq<TokenData>) -> bool {
    exists|toks: Seq<Token>| #![trigger lexes(text, toks)] lexes(text, toks) && data == semantic_data(toks).0
}

/// One token of semantic token data, as relative positions.
#[derive(Debug, Clone, Copy, PartialEq, Eq, Structural)]
pub struct TokenData {
    pub delta_line: u32,
    pub delta_start: u32,
    pub length: u32,
    pub token_type: u32,
    pub token_modifiers_bitset: u32,
}

/// The legend index of a keyword class, if its words are highlighted.
pub open spec fn keyword_class_index(k: Option<KeywordType>) -> Option<u32> {
    match k {
        Some(KeywordType::MaterialProperty) => Some(1),
        Some(KeywordType::ParameterField) => Some(2),
        Some(KeywordType::ParameterType) => Some(4),
        Some(KeywordType::TopLevelBlock) | Some(KeywordType::BoolLiteral) | Some(KeywordType::NullLiteral) | None => None,
        Some(_) => Some(3),
    }
}

/// The legend index of a token, if it is highlighted.
pub open spec fn token_class(t: Token) -> Option<u32> {
    match t.token_type {
        TokenType::Comment => Some(0),
        TokenType::StringLiteral => Some(5),
        TokenType::NumberLiteral => Some(6),
        TokenType::BoolLiteral => Some(7),
        TokenType::BlockKeyword => Some(8),
        TokenType::Identifier => keyword_class_index(spec_lookup_keyword(t.value@)),
        _ => None,
    }
}

/// The data of the highlighted tokens of `toks`, with the 0-based line and
/// character of the last one (starting from line 0, character 0). A token's
/// 0-based place is its 1-based line and column less one each.
pub open spec fn semantic_data(toks: Seq<Token>) -> (Seq<TokenData>, u32, u32)
    decreases toks.len(),
{
    if toks.len() == 0 {
        (seq![], 0, 0)
    } else {
        let r = semantic_data(toks.drop_last());
        let t = toks.last();
        match token_class(t) {
            Some(tt) => {
                let line = (t.line - 1) as u32;
                let col = (t.column - 1) as u32;
                let delta_line = (line - r.1) as u32;
                let delta_start = if delta_line == 0 { (col - r.2) as u32 } else { col };
                (r.0.push(TokenData {
                    delta_line,
                    delta_start,
                    length: (utf8_len(t.value@) % 0x1_0000_0000) as u32,
                    token_type: tt,
                    token_modifiers_bitset: 0,
                }), line, col)
            },
            None => r,
        }
    }
}

fn token_class_exec(t: &Token) -> (r: Option<u32>)
    ensures
        r == token_class(*t),
{
    match t.token_type {
        TokenType::Comment => Some(0),
        TokenType::StringLiteral => Some(5),
        TokenType::NumberLiteral => Some(6),
        TokenType::BoolLiteral => Some(7),
        TokenType::BlockKeyword => Some(8),
        TokenType::Identifier => match lookup_keyword(t.value.as_str()) {
            Some(KeywordType::MaterialProperty) => Some(1),
            Some(KeywordType::ParameterField) => Some(2),
            Some(KeywordType::ParameterType) => Some(4),
            Some(KeywordType::TopLevelBlock) | Some(KeywordType::BoolLiteral) | Some(KeywordType::NullLiteral) | None => None,
            Some(_) => Some(3),
        },
        _ => None,
    }
}

/// The UTF-8 length of a text, cut to 32 bits (what `as u32` keeps).
pub(crate) fn byte_len_u32_chars(c: &[char]) -> (r: u32)
    ensures
        r == (utf8_len(c@) % 0x1_0000_0000) as u32,
{
    let mut n: u32 = 0;
    let mut i: usize = 0;
    assert(c@.take(0) =~= Seq::<char>::empty());
    while i < c.len()
        invariant
            i <= c@.len(),
            n == utf8_len(c@.take(i as int)) % 0x1_0000_0000,
        decreases c.len() - i,
    {
        let ghost a = utf8_len(c@.take(i as int)) as int;
        proof {
            assert(c@.take(i + 1) =~= c@.take(i as int).push(c@[i as int]));
            lemma_utf8_len_push(c@.take(i as int), c@[i as int]);
        }
        let w = char_len_utf8(c[i]) as u32;
        proof {
            let m: int = 0x1_0000_0000;
            vstd::arithmetic::div_mod::lemma_add_mod_noop_right(w as int, a, m);
            if n + w <= u32::MAX {
                vstd::arithmetic::div_mod::lemma_small_mod((n + w) as nat, m as nat);
            } else {
                vstd::arithmetic::div_mod::lemma_mod_add_multiples_vanish(n + w - m, m);
                vstd::arithmetic::div_mod::lemma_small_mod((n + w - m) as nat, m as nat);
            }
        }
        n = n.wrapping_add(w);
        i = i + 1;
    }
    assert(c@.take(i as int) =~= c@);
    n
}

/// The semantic token data of a sequence of tokens whose 1-based positions
/// never go backwards.
pub fn semantic_tokens_of(tokens: &Vec<Token>) -> (r: Vec<TokenData>)
    requires
        positions_ordered(tokens@),
        one_based(tokens@),
    ensures
        r@ == semantic_data(tokens@).0,
{
    let mut data: Vec<TokenData> = Vec::new();
    let mut last_line: u32 = 0;
    let mut last_char: u32 = 0;
    let mut i: usize = 0;
    let ghost mut last_idx: int = -1;
    assert(tokens@.take(0) =~= Seq::<Token>::empty());
    while i < tokens.len()
        invariant
            i <= tokens@.len(),
            positions_ordered(tokens@),
            one_based(tokens@),
            (data@, last_line, last_char) == semantic_data(tokens@.take(i as int)),
            -1 <= last_idx < i,
            last_idx == -1 ==> last_line == 0 && last_char == 0,
            last_idx >= 0 ==> last_line == tokens@[last_idx].line - 1 && last_char == tokens@[last_idx].column - 1,
        decreases tokens.len() - i,
    {
        assert(tokens@.take(i + 1).drop_last() =~= tokens@.take(i as int));
        let t = &tokens[i];
        match token_class_exec(t) {
            Some(tt) => {
                assert(tokens@[i as int].line >= 1 && tokens@[i as int].column >= 1);
                let line = t.line - 1;
                let col = t.column - 1;
                proof {
                    if last_idx >= 0 {
                        assert(pos_le(
                            (tokens@[last_idx].line as int, tokens@[last_idx].column as int),
                            (tokens@[i as int].line as int, tokens@[i as int].column as int),
                        ));
                    }
                }
                let cs = str_to_chars(t.value.as_str());
                let len = byte_len_u32_chars(cs.as_slice());
                let delta_line = line - last_line;
                let delta_start = if delta_line == 0 { col - last_char } else { col };
                data.push(TokenData { delta_line, delta_start, length: len, token_type: tt, token_modifiers_bitset: 0 });
                last_line = line;
                last_char = col;
                proof {
                    last_idx = i as int;
                }
            },
            None => {},
        }
        i = i + 1;
    }
    assert(tokens@.take(i as int) =~= tokens@);
    data
}

/// The semantic token data of a text: its tokens, each highlighted one
/// encoded relative to the previous one.
pub fn generate_semantic_tokens(text: &str) -> (r: Vec<TokenData>)
    requires
        text@.len() < u32::MAX,
    ensures
        tokens_data_of(text@, r@),
{
    let mut lexer = Lexer::new(text);
    let tokens = lexer.tokenize();
    let r = semantic_tokens_of(&tokens);
    assert(lexes(text@, tokens@));
    r
}

/// The names of the legend's token types, by index.
pub open spec fn legend() -> Seq<Seq<char>> {
    seq!["comment"@, "property"@, "parameter"@, "enumMember"@, "type"@, "string"@, "number"@, "keyword"@, "keyword"@]
}

/// The name in the legend of the kind of a token, if it is highlighted:
/// comments, strings and numbers by their own names, booleans and block
/// keywords as keywords, and identifiers by their keyword class: property
/// names as properties, parameter fields as parameters, parameter types as
/// types, and the values of the enumerated properties as enum members.
pub open spec fn legend_name(t: Token) -> Option<Seq<char>> {
    match t.token_type {
        TokenType::Comment => Some("comment"@),
        TokenType::StringLiteral => Some("string"@),
        TokenType::NumberLiteral => Some("number"@),
        TokenType::BoolLiteral => Some("keyword"@),
        TokenType::BlockKeyword => Some("keyword"@),
        TokenType::Identifier => match spec_lookup_keyword(t.value@) {
            Some(KeywordType::MaterialProperty) => Some("property"@),
            Some(KeywordType::ParameterField) => Some("parameter"@),
            Some(KeywordType::ParameterType) => Some("type"@),
            Some(KeywordType::TopLevelBlock) | Some(KeywordType::BoolLiteral) | Some(KeywordType::NullLiteral) | None => None,
            Some(_) => Some("enumMember"@),
        },
        _ => None,
    }
}

/// Each highlighted token gets a legend entry named for its kind (block
/// keywords, and only they, the second `keyword` entry), and a token is
/// highlighted exactly when its kind has a name in the legend.
pub proof fn lemma_token_class_names(t: Token)
    ensures
        token_class(t) is Some <==> legend_name(t) is Some,
        token_class(t) matches Some(c) ==> c < legend().len() && legend()[c as int] == legend_name(t)->0,
        token_class(t) matches Some(c) ==> (t.token_type == TokenType::BlockKeyword <==> c == 8),
{
    reveal_strlit("comment");
    reveal_strlit("property");
    reveal_strlit("parameter");
    reveal_strlit("enumMember");
    reveal_strlit("type");
    reveal_strlit("string");
    reveal_strlit("number");
    reveal_strlit("keyword");
}

pub fn token_types() -> (r: Vec<&'static str>)
    ensures
        r@.len() == 9,
        forall|i: int| 0 <= i < 9 ==> (#[trigger] r@[i])@ == legend()[i],
        r@[0]@ == "comment"@ && r@[1]@ == "property"@ && r@[2]@ == "parameter"@ && r@[3]@ == "enumMember"@
            && r@[4]@ == "type"@ && r@[5]@ == "string"@ && r@[6]@ == "number"@ && r@[7]@ == "keyword"@
            && r@[8]@ == "keyword"@,
{
    vec!["comment", "property", "parameter", "enumMember", "type", "string", "number", "keyword", "keyword"]
}

/// Every semantic token has a type of the legend and no modifiers.
pub proof fn lemma_token_types_in_legend(toks: Seq<Token>)
    ensures
        forall|i: int| 0 <= i < semantic_data(toks).0.len() ==> (#[trigger] semantic_data(toks).0[i]).token_type <= 8
            && semantic_data(toks).0[i].token_modifiers_bitset == 0,
    decreases toks.len(),
{
    if toks.len() > 0 {
        lemma_token_types_in_legend(toks.drop_last());
        let r = semantic_data(toks.drop_last());
        let d = semantic_data(toks).0;
        assert forall|i: int| 0 <= i < d.len() implies (#[trigger] d[i]).token_type <= 8 && d[i].token_modifiers_bitset == 0 by {
            if i < r.0.len() {
                assert(d[i] == r.0[i]);
            }
        }
    }
}

/// Every semantic token comes from a token of the text, and its type is the
/// legend entry named for that token's kind, with no modifiers; the data of
/// a highlighted last token is the last datum.
pub proof fn lemma_semantic_data_named(toks: Seq<Token>)
    ensures
        forall|i: int| 0 <= i < semantic_data(toks).0.len() ==> exists|j: int| {
            &&& 0 <= j < toks.len()
            &&& #[trigger] semantic_data(toks).0[i].token_type < legend().len()
            &&& legend_name(toks[j]) == Some(legend()[semantic_data(toks).0[i].token_type as int])
        },
        toks.len() > 0 && legend_name(toks.last()) is Some ==> semantic_data(toks).0.len() > 0
            && legend_name(toks.last()) == Some(legend()[semantic_data(toks).0.last().token_type as int]),
    decreases toks.len(),
{
    if toks.len() > 0 {
        lemma_semantic_data_named(toks.drop_last());
        lemma_token_class_names(toks.last());
        let r = semantic_data(toks.drop_last()).0;
        let d = semantic_data(toks).0;
        assert forall|i: int| 0 <= i < d.len() implies exists|j: int| {
            &&& 0 <= j < toks.len()
            &&& #[trigger] d[i].token_type < legend().len()
            &&& legend_name(toks[j]) == Some(legend()[d[i].token_type as int])
        } by {
            if i < r.len() {
                assert(d[i] == r[i]);
                let j = choose|j: int| {
                    &&& 0 <= j < toks.drop_last().len()
                    &&& #[trigger] r[i].token_type < legend().len()
                    &&& legend_name(toks.drop_last()[j]) == Some(legend()[r[i].token_type as int])
                };
                assert(toks.drop_last()[j] == toks[j]);
            } else {
                assert(toks[toks.len() - 1] == toks.last());
            }
        }
    }
}

} // verus!
