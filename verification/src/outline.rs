//! The outline of a `.mat` file and the symbols it offers to a workspace
//! search: the material, its parameters, and the functions, uniforms and
//! varyings of its shader blocks, placed in the document.
use vstd::prelude::*;
use crate::diagnostics::{TextPosition, TextRange};
use crate::navigation::{char_boundary, index_at_byte, index_of_byte, lemma_newlines_nonneg, line_col_of, newlines, offset_to_line_col};
use crate::parser::{params_view, shaders_view, MatFile, MatFileView, Material, MaterialView, ParameterView, ShaderBlock, ShaderBlockType, ShaderBlockView};
use crate::shader_symbols::{bytes, ShaderSymbol, ShaderSymbolKind, SymbolView};
use crate::text::{str_to_chars, string_push_str, to_owned_string, utf8_len};

verus! {

broadcast use vstd::string::group_string_axioms;

/// The kind of an outline or search symbol.
#[derive(Debug, Clone, Copy, PartialEq, Eq, Structural)]
pub enum OutlineKind {
    Object,
    Property,
    Function,
    Variable,
    Namespace,
}

/// A symbol inside a shader block's outline entry.
pub struct OutlineChild {
    pub name: String,
    pub detail: Option<String>,
    pub kind: OutlineKind,
    pub range: TextRange,
}

/// One top-level entry of a document's outline.
pub struct OutlineSymbol {
    pub name: String,
    pub detail: Option<String>,
    pub kind: OutlineKind,
    pub range: TextRange,
    pub children: Option<Vec<OutlineChild>>,
}

/// What an outline child holds: name, detail, kind and range.
pub type ChildView = (Seq<char>, Option<Seq<char>>, OutlineKind, TextRange);

/// What an outline entry holds, with its children.
pub type EntryView = (Seq<char>, Option<Seq<char>>, OutlineKind, TextRange, Option<Seq<ChildView>>);

pub open spec fn opt_string_view(o: Option<String>) -> Option<Seq<char>> {
    match o {
        Some(s) => Some(s@),
        None => None,
    }
}

pub open spec fn child_view(c: OutlineChild) -> ChildView {
    (c.name@, opt_string_view(c.detail), c.kind, c.range)
}

pub open spec fn children_view(s: Seq<OutlineChild>) -> Seq<ChildView> {
    s.map_values(|c: OutlineChild| child_view(c))
}

pub open spec fn entry_view(e: OutlineSymbol) -> EntryView {
    (e.name@, opt_string_view(e.detail), e.kind, e.range, match e.children {
        Some(v) => Some(children_view(v@)),
        None => None,
    })
}

pub open spec fn entries_view(s: Seq<OutlineSymbol>) -> Seq<EntryView> {
    s.map_values(|e: OutlineSymbol| entry_view(e))
}

/// The name of a block type, as it is spelled in Rust.
pub open spec fn block_type_name(t: ShaderBlockType) -> Seq<char> {
    match t {
        ShaderBlockType::Vertex => "Vertex"@,
        ShaderBlockType::Fragment => "Fragment"@,
        ShaderBlockType::Compute => "Compute"@,
        ShaderBlockType::Tool => "Tool"@,
    }
}

/// The label of a shader block: its type and ` shader`.
pub open spec fn block_label(t: ShaderBlockType) -> Seq<char> {
    block_type_name(t) + " shader"@
}

/// Whether a symbol is listed in outlines: functions, uniforms, varyings.
pub open spec fn listed(k: ShaderSymbolKind) -> bool {
    k == ShaderSymbolKind::Function || k == ShaderSymbolKind::Uniform || k == ShaderSymbolKind::Varying
}

/// Where a shader symbol stands in the document: on the line after the
/// block's start plus the line feeds before it, at the byte column after
/// the last of them, as wide as its name's bytes.
pub open spec fn symbol_range(sh: ShaderBlockView, sym: SymbolView) -> TextRange {
    let k = index_at_byte(sh.code, sym.byte_start);
    let lc = line_col_of(sh.code, k, sh.range.start.line + 1);
    TextRange {
        start: TextPosition { line: lc.0 as u32, character: lc.1 as u32 },
        end: TextPosition { line: lc.0 as u32, character: (lc.1 + (sym.byte_end - sym.byte_start)) as u32 },
    }
}

/// What placing a symbol needs: its start falls between characters of the
/// code, its end is not before its start, and its line and columns fit in
/// 32 bits.
pub open spec fn symbol_fits(sh: ShaderBlockView, sym: SymbolView) -> bool {
    let k = index_at_byte(sh.code, sym.byte_start);
    let lc = line_col_of(sh.code, k, sh.range.start.line + 1);
    &&& char_boundary(sh.code, sym.byte_start)
    &&& sym.byte_start <= sym.byte_end
    &&& utf8_len(sh.code) < u32::MAX
    &&& sh.range.start.line + 1 + newlines(sh.code.take(k)) <= u32::MAX
    &&& lc.1 + (sym.byte_end - sym.byte_start) <= u32::MAX
}

/// Every listed symbol of every block can be placed.
pub open spec fn shaders_fit(shaders: Seq<ShaderBlockView>) -> bool {
    forall|i: int, j: int| 0 <= i < shaders.len() && 0 <= j < shaders[i].symbols.len() && listed(shaders[i].symbols[j].kind)
        ==> #[trigger] symbol_fits(shaders[i], shaders[i].symbols[j])
}

/// The place of a shader symbol in the document.
pub fn symbol_position(sh: &ShaderBlock, sym: &ShaderSymbol) -> (r: TextRange)
    requires
        symbol_fits(sh@, sym@),
    ensures
        r == symbol_range(sh@, sym@),
{
    let c = str_to_chars(sh.code.as_str());
    let k = index_of_byte(c.as_slice(), sym.byte_start);
    proof {
        lemma_newlines_nonneg(c@.take(k as int));
    }
    let p = offset_to_line_col(c.as_slice(), k, sh.range.start.line + 1);
    let w = (sym.byte_end - sym.byte_start) as u32;
    TextRange { start: p, end: TextPosition { line: p.line, character: p.character + w } }
}

/// The outline child of a shader symbol, for the listed kinds.
pub open spec fn symbol_child(sh: ShaderBlockView, sym: SymbolView) -> Option<ChildView> {
    match sym.kind {
        ShaderSymbolKind::Function => Some((sym.name, None, OutlineKind::Function, symbol_range(sh, sym))),
        ShaderSymbolKind::Uniform => Some((sym.name, Some("uniform"@), OutlineKind::Variable, symbol_range(sh, sym))),
        ShaderSymbolKind::Varying => Some((sym.name, Some("varying"@), OutlineKind::Variable, symbol_range(sh, sym))),
        _ => None,
    }
}

/// The outline children of the first `n` symbols of a block.
pub open spec fn block_children(sh: ShaderBlockView, n: int) -> Seq<ChildView>
    decreases n,
{
    if n <= 0 {
        seq![]
    } else {
        block_children(sh, n - 1) + match symbol_child(sh, sh.symbols[n - 1]) {
            Some(c) => seq![c],
            None => seq![],
        }
    }
}

/// The outline entries of shader blocks: one per block that has children.
pub open spec fn block_entries(shaders: Seq<ShaderBlockView>) -> Seq<EntryView>
    decreases shaders.len(),
{
    if shaders.len() == 0 {
        seq![]
    } else {
        let sh = shaders.last();
        let ch = block_children(sh, sh.symbols.len() as int);
        block_entries(shaders.drop_last()) + if ch.len() > 0 {
            seq![(block_label(sh.block_type), None, OutlineKind::Namespace, sh.range, Some(ch))]
        } else {
            seq![]
        }
    }
}

/// Whether entries hold one for shader block `sh` (its label, no detail,
/// a namespace at the block's range) whose children hold `c`.
pub open spec fn holds_block_child(es: Seq<EntryView>, sh: ShaderBlockView, c: ChildView) -> bool {
    exists|e: int| {
        &&& 0 <= e < es.len()
        &&& (#[trigger] es[e]).0 == block_label(sh.block_type)
        &&& es[e].1 is None
        &&& es[e].2 == OutlineKind::Namespace
        &&& es[e].3 == sh.range
        &&& es[e].4 matches Some(ch) && ch.contains(c)
    }
}

/// The name a material goes by: its `name`, else `Material`.
pub open spec fn material_name(m: MaterialView) -> Seq<char> {
    match m.name {
        Some((n, _)) => n,
        None => "Material"@,
    }
}

/// The outline of a file: the material (with its shading model as detail),
/// each parameter (with its type), then each shader block with symbols.
pub open spec fn outline_spec(f: MatFileView) -> Seq<EntryView> {
    let m = f.material;
    seq![(material_name(m), match m.shading_model {
        Some((s, _)) => Some("shadingModel: "@ + s),
        None => None,
    }, OutlineKind::Object, m.range, Some(Seq::<ChildView>::empty()))]
        + m.parameters.map_values(|p: ParameterView| (p.name, Some("type: "@ + p.param_type), OutlineKind::Property, p.range, None::<Seq<ChildView>>))
        + block_entries(f.shaders)
}

fn block_type_string(t: ShaderBlockType) -> (r: String)
    ensures
        r@ == block_type_name(t),
{
    match t {
        ShaderBlockType::Vertex => to_owned_string("Vertex"),
        ShaderBlockType::Fragment => to_owned_string("Fragment"),
        ShaderBlockType::Compute => to_owned_string("Compute"),
        ShaderBlockType::Tool => to_owned_string("Tool"),
    }
}

/// The label of a shader block.
pub fn block_label_string(t: ShaderBlockType) -> (r: String)
    ensures
        r@ == block_label(t),
{
    let mut s = block_type_string(t);
    string_push_str(&mut s, " shader");
    s
}

fn concat(a: &str, b: &str) -> (r: String)
    ensures
        r@ == a@ + b@,
{
    let mut s = to_owned_string(a);
    string_push_str(&mut s, b);
    s
}

/// The outline children of a block.
fn block_children_exec(sh: &ShaderBlock) -> (r: Vec<OutlineChild>)
    requires
        forall|j: int| 0 <= j < sh@.symbols.len() && listed(sh@.symbols[j].kind) ==> #[trigger] symbol_fits(sh@, sh@.symbols[j]),
    ensures
        children_view(r@) == block_children(sh@, sh@.symbols.len() as int),
{
    let mut out: Vec<OutlineChild> = Vec::new();
    let mut j: usize = 0;
    while j < sh.symbols.len()
        invariant
            j <= sh.symbols@.len(),
            sh@.symbols.len() == sh.symbols@.len(),
            forall|q: int| 0 <= q < sh@.symbols.len() && listed(sh@.symbols[q].kind) ==> #[trigger] symbol_fits(sh@, sh@.symbols[q]),
            children_view(out@) == block_children(sh@, j as int),
        decreases sh.symbols.len() - j,
    {
        let sym = &sh.symbols[j];
        assert(sh@.symbols[j as int] == sym@);
        let ghost prev = out@;
        match sym.kind {
            ShaderSymbolKind::Function => {
                let r = symbol_position(sh, sym);
                out.push(OutlineChild { name: sym.name.clone(), detail: None, kind: OutlineKind::Function, range: r });
            },
            ShaderSymbolKind::Uniform => {
                let r = symbol_position(sh, sym);
                out.push(OutlineChild { name: sym.name.clone(), detail: Some(to_owned_string("uniform")), kind: OutlineKind::Variable, range: r });
            },
            ShaderSymbolKind::Varying => {
                let r = symbol_position(sh, sym);
                out.push(OutlineChild { name: sym.name.clone(), detail: Some(to_owned_string("varying")), kind: OutlineKind::Variable, range: r });
            },
            _ => {},
        }
        assert(children_view(out@) =~= block_children(sh@, j + 1));
        j = j + 1;
    }
    out
}

/// The outline of a parsed file.
pub fn document_symbols(matfile: &MatFile) -> (r: Vec<OutlineSymbol>)
    requires
        shaders_fit(matfile@.shaders),
    ensures
        entries_view(r@) == outline_spec(matfile@),
{
    let m = &matfile.material;
    let mut out: Vec<OutlineSymbol> = Vec::new();
    let name = match &m.name {
        Some(n) => n.value.clone(),
        None => to_owned_string("Material"),
    };
    let detail = match &m.shading_model {
        Some(s) => Some(concat("shadingModel: ", s.value.as_str())),
        None => None,
    };
    out.push(OutlineSymbol { name, detail, kind: OutlineKind::Object, range: m.range, children: Some(Vec::new()) });
    assert(children_view(Seq::<OutlineChild>::empty()) =~= Seq::<ChildView>::empty());
    let ghost pv = params_view(m.parameters@);
    let ghost pe = pv.map_values(|p: ParameterView| (p.name, Some("type: "@ + p.param_type), OutlineKind::Property, p.range, None::<Seq<ChildView>>));
    let ghost head = entries_view(out@);
    let mut i: usize = 0;
    while i < m.parameters.len()
        invariant
            i <= m.parameters@.len(),
            pv == params_view(m.parameters@),
            pe == pv.map_values(|p: ParameterView| (p.name, Some("type: "@ + p.param_type), OutlineKind::Property, p.range, None::<Seq<ChildView>>)),
            entries_view(out@) == head + pe.take(i as int),
        decreases m.parameters.len() - i,
    {
        let p = &m.parameters[i];
        let ghost prev = out@;
        out.push(OutlineSymbol {
            name: p.name.clone(),
            detail: Some(concat("type: ", p.param_type.as_str())),
            kind: OutlineKind::Property,
            range: p.range,
            children: None,
        });
        assert(entries_view(out@) =~= entries_view(prev).push(pe[i as int]));
        assert(pe.take(i + 1) =~= pe.take(i as int).push(pe[i as int]));
        i = i + 1;
    }
    assert(pe.take(i as int) =~= pe);
    let ghost head2 = entries_view(out@);
    let ghost sv = shaders_view(matfile.shaders@);
    let mut j: usize = 0;
    while j < matfile.shaders.len()
        invariant
            j <= matfile.shaders@.len(),
            sv == shaders_view(matfile.shaders@),
            shaders_fit(sv),
            entries_view(out@) == head2 + block_entries(sv.take(j as int)),
        decreases matfile.shaders.len() - j,
    {
        let sh = &matfile.shaders[j];
        assert(sv[j as int] == sh@);
        assert(sv.take(j + 1).drop_last() =~= sv.take(j as int));
        proof {
            assert forall|q: int| 0 <= q < sh@.symbols.len() && listed(sh@.symbols[q].kind) implies #[trigger] symbol_fits(sh@, sh@.symbols[q]) by {
                assert(symbol_fits(sv[j as int], sv[j as int].symbols[q]));
            }
        }
        let ch = block_children_exec(sh);
        let ghost prev = out@;
        if ch.len() > 0 {
            let ghost cv = children_view(ch@);
            out.push(OutlineSymbol { name: block_label_string(sh.block_type), detail: None, kind: OutlineKind::Namespace, range: sh.range, children: Some(ch) });
            assert(entries_view(out@) =~= entries_view(prev).push((block_label(sh@.block_type), None, OutlineKind::Namespace, sh@.range, Some(cv))));
        }
        assert(entries_view(out@) =~= head2 + block_entries(sv.take(j + 1)));
        j = j + 1;
    }
    assert(sv.take(j as int) =~= sv);
    assert(m@.parameters == pv);
    out
}

/// A symbol offered to a workspace search; the caller adds its document.
pub struct SymbolInfo {
    pub name: String,
    pub kind: OutlineKind,
    pub range: TextRange,
    pub container: Option<String>,
}

/// What a search symbol holds: name, kind, range and container.
pub type InfoView = (Seq<char>, OutlineKind, TextRange, Option<Seq<char>>);

pub open spec fn info_view(i: SymbolInfo) -> InfoView {
    (i.name@, i.kind, i.range, opt_string_view(i.container))
}

pub open spec fn infos_view(s: Seq<SymbolInfo>) -> Seq<InfoView> {
    s.map_values(|i: SymbolInfo| info_view(i))
}

/// The search symbols of a material: the material itself, then each
/// parameter, contained in the material.
pub open spec fn material_infos(m: MaterialView) -> Seq<InfoView> {
    seq![(material_name(m), OutlineKind::Object, m.range, None::<Seq<char>>)]
        + m.parameters.map_values(|p: ParameterView| (p.name, OutlineKind::Property, p.range, Some(material_name(m))))
}

/// The search symbols of a material.
pub fn material_symbol_infos(material: &Material) -> (r: Vec<SymbolInfo>)
    ensures
        infos_view(r@) == material_infos(material@),
{
    let name = match &material.name {
        Some(n) => n.value.clone(),
        None => to_owned_string("Material"),
    };
    let mut out: Vec<SymbolInfo> = Vec::new();
    out.push(SymbolInfo { name: name.clone(), kind: OutlineKind::Object, range: material.range, container: None });
    let ghost mn = material_name(material@);
    let ghost pv = params_view(material.parameters@);
    let ghost pe = pv.map_values(|p: ParameterView| (p.name, OutlineKind::Property, p.range, Some(mn)));
    let ghost head = infos_view(out@);
    let mut i: usize = 0;
    while i < material.parameters.len()
        invariant
            i <= material.parameters@.len(),
            name@ == mn,
            pv == params_view(material.parameters@),
            pe == pv.map_values(|p: ParameterView| (p.name, OutlineKind::Property, p.range, Some(mn))),
            infos_view(out@) == head + pe.take(i as int),
        decreases material.parameters.len() - i,
    {
        let p = &material.parameters[i];
        let ghost prev = out@;
        out.push(SymbolInfo { name: p.name.clone(), kind: OutlineKind::Property, range: p.range, container: Some(name.clone()) });
        assert(infos_view(out@) =~= infos_view(prev).push(pe[i as int]));
        assert(pe.take(i + 1) =~= pe.take(i as int).push(pe[i as int]));
        i = i + 1;
    }
    assert(pe.take(i as int) =~= pe);
    assert(material@.parameters == pv);
    out
}

/// The search symbol of a shader symbol, for the listed kinds: uniforms and
/// varyings are named with their kind in front.
pub open spec fn symbol_info(sh: ShaderBlockView, sym: SymbolView) -> Option<InfoView> {
    match sym.kind {
        ShaderSymbolKind::Function => Some((sym.name, OutlineKind::Function, symbol_range(sh, sym), Some(block_label(sh.block_type)))),
        ShaderSymbolKind::Uniform => Some(("uniform "@ + sym.name, OutlineKind::Variable, symbol_range(sh, sym), Some(block_label(sh.block_type)))),
        ShaderSymbolKind::Varying => Some(("varying "@ + sym.name, OutlineKind::Variable, symbol_range(sh, sym), Some(block_label(sh.block_type)))),
        _ => None,
    }
}

/// The search symbols of the first `n` symbols of a block.
pub open spec fn block_infos(sh: ShaderBlockView, n: int) -> Seq<InfoView>
    decreases n,
{
    if n <= 0 {
        seq![]
    } else {
        block_infos(sh, n - 1) + match symbol_info(sh, sh.symbols[n - 1]) {
            Some(i) => seq![i],
            None => seq![],
        }
    }
}

/// The search symbols of shader blocks, block by block.
pub open spec fn shader_infos(shaders: Seq<ShaderBlockView>) -> Seq<InfoView>
    decreases shaders.len(),
{
    if shaders.len() == 0 {
        seq![]
    } else {
        shader_infos(shaders.drop_last()) + block_infos(shaders.last(), shaders.last().symbols.len() as int)
    }
}

/// The search symbols of the shader blocks of a file.
pub fn shader_symbol_infos(matfile: &MatFile) -> (r: Vec<SymbolInfo>)
    requires
        shaders_fit(matfile@.shaders),
    ensures
        infos_view(r@) == shader_infos(matfile@.shaders),
{
    let ghost sv = shaders_view(matfile.shaders@);
    let mut out: Vec<SymbolInfo> = Vec::new();
    let mut j: usize = 0;
    while j < matfile.shaders.len()
        invariant
            j <= matfile.shaders@.len(),
            sv == shaders_view(matfile.shaders@),
            shaders_fit(sv),
            infos_view(out@) == shader_infos(sv.take(j as int)),
        decreases matfile.shaders.len() - j,
    {
        let sh = &matfile.shaders[j];
        assert(sv[j as int] == sh@);
        assert(sv.take(j + 1).drop_last() =~= sv.take(j as int));
        let ghost base = infos_view(out@);
        let label = block_label_string(sh.block_type);
        let mut q: usize = 0;
        while q < sh.symbols.len()
            invariant
                q <= sh.symbols@.len(),
                sh@ == sv[j as int],
                sh@.symbols.len() == sh.symbols@.len(),
                0 <= j < sv.len(),
                shaders_fit(sv),
                label@ == block_label(sh@.block_type),
                infos_view(out@) == base + block_infos(sh@, q as int),
            decreases sh.symbols.len() - q,
        {
            let sym = &sh.symbols[q];
            assert(sh@.symbols[q as int] == sym@);
            let ghost prev = out@;
            match sym.kind {
                ShaderSymbolKind::Function => {
                    assert(symbol_fits(sv[j as int], sv[j as int].symbols[q as int]));
                    let r = symbol_position(sh, sym);
                    out.push(SymbolInfo { name: sym.name.clone(), kind: OutlineKind::Function, range: r, container: Some(label.clone()) });
                    assert(infos_view(out@) =~= infos_view(prev).push(symbol_info(sh@, sym@).unwrap()));
                },
                ShaderSymbolKind::Uniform => {
                    assert(symbol_fits(sv[j as int], sv[j as int].symbols[q as int]));
                    let r = symbol_position(sh, sym);
                    out.push(SymbolInfo { name: concat("uniform ", sym.name.as_str()), kind: OutlineKind::Variable, range: r, container: Some(label.clone()) });
                    assert(infos_view(out@) =~= infos_view(prev).push(symbol_info(sh@, sym@).unwrap()));
                },
                ShaderSymbolKind::Varying => {
                    assert(symbol_fits(sv[j as int], sv[j as int].symbols[q as int]));
                    let r = symbol_position(sh, sym);
                    out.push(SymbolInfo { name: concat("varying ", sym.name.as_str()), kind: OutlineKind::Variable, range: r, container: Some(label.clone()) });
                    assert(infos_view(out@) =~= infos_view(prev).push(symbol_info(sh@, sym@).unwrap()));
                },
                _ => {},
            }
            assert(infos_view(out@) =~= base + block_infos(sh@, q + 1));
            q = q + 1;
        }
        assert(infos_view(out@) =~= shader_infos(sv.take(j + 1)));
        j = j + 1;
    }
    assert(sv.take(j as int) =~= sv);
    out
}

proof fn lemma_block_children_hold(sh: ShaderBlockView, n: int, i: int)
    requires
        0 <= i < n <= sh.symbols.len(),
        symbol_child(sh, sh.symbols[i]) is Some,
    ensures
        block_children(sh, n).contains(symbol_child(sh, sh.symbols[i])->0),
    decreases n,
{
    let r = block_children(sh, n - 1);
    let all = block_children(sh, n);
    let tail: Seq<ChildView> = match symbol_child(sh, sh.symbols[n - 1]) {
        Some(c) => seq![c],
        None => seq![],
    };
    assert(all == r + tail);
    if i == n - 1 {
        assert(all[r.len() as int] == symbol_child(sh, sh.symbols[i])->0);
    } else {
        lemma_block_children_hold(sh, n - 1, i);
        let v = choose|v: int| 0 <= v < r.len() && r[v] == symbol_child(sh, sh.symbols[i])->0;
        assert(all[v] == r[v]);
    }
}

proof fn lemma_block_entries_hold(shaders: Seq<ShaderBlockView>, j: int, c: ChildView)
    requires
        0 <= j < shaders.len(),
        block_children(shaders[j], shaders[j].symbols.len() as int).contains(c),
    ensures
        holds_block_child(block_entries(shaders), shaders[j], c),
    decreases shaders.len(),
{
    let sh = shaders.last();
    let ch = block_children(sh, sh.symbols.len() as int);
    let r = block_entries(shaders.drop_last());
    let all = block_entries(shaders);
    let tail: Seq<EntryView> = if ch.len() > 0 {
        seq![(block_label(sh.block_type), None, OutlineKind::Namespace, sh.range, Some(ch))]
    } else {
        seq![]
    };
    assert(all == r + tail);
    if j == shaders.len() - 1 {
        assert(ch.len() > 0);
        let e = r.len() as int;
        assert(all[e] == (block_label(sh.block_type), None::<Seq<char>>, OutlineKind::Namespace, sh.range, Some(ch)));
    } else {
        assert(shaders.drop_last()[j] == shaders[j]);
        lemma_block_entries_hold(shaders.drop_last(), j, c);
        let e = choose|e: int| {
            &&& 0 <= e < r.len()
            &&& (#[trigger] r[e]).0 == block_label(shaders[j].block_type)
            &&& r[e].1 is None
            &&& r[e].2 == OutlineKind::Namespace
            &&& r[e].3 == shaders[j].range
            &&& r[e].4 matches Some(ch) && ch.contains(c)
        };
        assert(all[e] == r[e]);
    }
}

/// The outline lists every function, uniform and varying of every shader
/// block, under an entry for that block (its label, a namespace at the
/// block's range): a function by its name with no detail, a uniform or a
/// varying as a variable with `uniform` or `varying` as its detail, each at
/// its place in the document.
pub proof fn lemma_outline_lists_shader_symbols(f: MatFileView, j: int, i: int)
    requires
        0 <= j < f.shaders.len(),
        0 <= i < f.shaders[j].symbols.len(),
        listed(f.shaders[j].symbols[i].kind),
    ensures
        ({
            let sh = f.shaders[j];
            let sym = sh.symbols[i];
            holds_block_child(outline_spec(f), sh, if sym.kind == ShaderSymbolKind::Function {
                (sym.name, None, OutlineKind::Function, symbol_range(sh, sym))
            } else if sym.kind == ShaderSymbolKind::Uniform {
                (sym.name, Some("uniform"@), OutlineKind::Variable, symbol_range(sh, sym))
            } else {
                (sym.name, Some("varying"@), OutlineKind::Variable, symbol_range(sh, sym))
            })
        }),
{
    let sh = f.shaders[j];
    let sym = sh.symbols[i];
    let c = symbol_child(sh, sym)->0;
    lemma_block_children_hold(sh, sh.symbols.len() as int, i);
    lemma_block_entries_hold(f.shaders, j, c);
    let be = block_entries(f.shaders);
    let all = outline_spec(f);
    let m = f.material;
    let head = seq![(material_name(m), match m.shading_model {
        Some((s, _)) => Some("shadingModel: "@ + s),
        None => None,
    }, OutlineKind::Object, m.range, Some(Seq::<ChildView>::empty()))]
        + m.parameters.map_values(|p: ParameterView| (p.name, Some("type: "@ + p.param_type), OutlineKind::Property, p.range, None::<Seq<ChildView>>));
    assert(all == head + be);
    let e = choose|e: int| {
        &&& 0 <= e < be.len()
        &&& (#[trigger] be[e]).0 == block_label(sh.block_type)
        &&& be[e].1 is None
        &&& be[e].2 == OutlineKind::Namespace
        &&& be[e].3 == sh.range
        &&& be[e].4 matches Some(ch) && ch.contains(c)
    };
    assert(all[head.len() + e] == be[e]);
}

/// The outline starts with the material, named by its `name` (else
/// `Material`), with its shading model as detail, and then lists each
/// parameter, in order, by its name with its type as detail.
pub proof fn lemma_outline_material_and_parameters(f: MatFileView, i: int)
    requires
        0 <= i < f.material.parameters.len(),
    ensures
        outline_spec(f)[0].0 == (match f.material.name { Some((n, _)) => n, None => "Material"@ }),
        outline_spec(f)[0].1 == (match f.material.shading_model { Some((s, _)) => Some("shadingModel: "@ + s), None => None }),
        outline_spec(f)[0].2 == OutlineKind::Object,
        outline_spec(f)[0].3 == f.material.range,
        outline_spec(f)[1 + i] == (f.material.parameters[i].name, Some("type: "@ + f.material.parameters[i].param_type),
            OutlineKind::Property, f.material.parameters[i].range, None::<Seq<ChildView>>),
{
}

} // verus!
