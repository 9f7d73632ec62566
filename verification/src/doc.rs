//! Search text of rich-text documents and questions, and child numbering.
use vstd::prelude::*;
use crate::json::{Json, JsonV, lemma_array_view};
use crate::text::{trim_spec, collapse_spec, is_ws, trim, collapse_whitespace, str_eq};

verus! {

/// `opt.unwrap_or(empty)` on text.
pub open spec fn or_empty(t: Option<Seq<char>>) -> Seq<char> {
    match t {
        Some(s) => s,
        None => Seq::empty(),
    }
}

/// The `type` tag of a node, `""` when absent.
pub open spec fn node_type(n: JsonV) -> Seq<char> {
    or_empty(n.field_text("type"@))
}

/// `node.attrs.latex`, `""` when absent.
pub open spec fn latex_of(n: JsonV) -> Seq<char> {
    match n.field("attrs"@) {
        Some(a) => or_empty(a.field_text("latex"@)),
        None => Seq::empty(),
    }
}

/// The text an inline node contributes to its paragraph.
pub open spec fn inline_text(c: JsonV) -> Seq<char> {
    let t = node_type(c);
    if t == "text"@ {
        or_empty(c.field_text("text"@))
    } else if t == "inlineMath"@ {
        seq![' '] + latex_of(c) + seq![' ']
    } else if t == "blank"@ {
        " ___ "@
    } else {
        Seq::empty()
    }
}

/// The concatenated text of the inline nodes `items[i..]`.
pub open spec fn inline_run(items: Seq<JsonV>, i: int) -> Seq<char>
    decreases items.len() - i,
{
    if i < 0 || i >= items.len() {
        Seq::empty()
    } else {
        inline_text(items[i]) + inline_run(items, i + 1)
    }
}

/// The part a block node adds to the document's text, if any.
pub open spec fn block_part(n: JsonV) -> Option<Seq<char>> {
    let t = node_type(n);
    if t == "paragraph"@ {
        Some(
            match n.field("content"@) {
                Some(JsonV::Array(items)) => inline_run(items, 0),
                _ => Seq::empty(),
            },
        )
    } else if t == "imageBlock"@ {
        Some(" [图] "@)
    } else if t == "mathBlock"@ {
        Some(seq![' '] + latex_of(n) + seq![' '])
    } else {
        None
    }
}

/// The parts of the blocks `nodes[i..]`, in order.
pub open spec fn block_parts(nodes: Seq<JsonV>, i: int) -> Seq<Seq<char>>
    decreases nodes.len() - i,
{
    if i < 0 || i >= nodes.len() {
        Seq::empty()
    } else {
        match block_part(nodes[i]) {
            Some(p) => seq![p] + block_parts(nodes, i + 1),
            None => block_parts(nodes, i + 1),
        }
    }
}

/// `parts.join(sep)`.
pub open spec fn join(parts: Seq<Seq<char>>, sep: Seq<char>) -> Seq<char>
    decreases parts.len(),
{
    if parts.len() == 0 {
        Seq::empty()
    } else if parts.len() == 1 {
        parts[0]
    } else {
        join(parts.drop_last(), sep) + sep + parts.last()
    }
}

/// The plain text of a document: its paragraphs (text, inline formulas,
/// blanks), images and display formulas joined by spaces, then trimmed.
/// Anything that is not an object with a `content` array gives `""`.
pub open spec fn plain_text_spec(doc: JsonV) -> Seq<char> {
    match doc {
        JsonV::Object(_) => match doc.field("content"@) {
            Some(JsonV::Array(nodes)) => trim_spec(join(block_parts(nodes, 0), " "@)),
            _ => Seq::empty(),
        },
        _ => Seq::empty(),
    }
}

/// The inline text of a paragraph node: its content's inline text, `""`
/// without a content array.
pub open spec fn para_inline(n: JsonV) -> Seq<char> {
    match n.field("content"@) {
        Some(JsonV::Array(items)) => inline_run(items, 0),
        _ => Seq::empty(),
    }
}

proof fn lemma_paragraph_parts(nodes: Seq<JsonV>, i: int)
    requires
        0 <= i <= nodes.len(),
        forall|j: int| 0 <= j < nodes.len() ==> node_type(#[trigger] nodes[j]) == "paragraph"@,
    ensures
        block_parts(nodes, i) == Seq::new((nodes.len() - i) as nat, |j: int| para_inline(nodes[i + j])),
    decreases nodes.len() - i,
{
    reveal_strlit("paragraph");
    if i < nodes.len() {
        lemma_paragraph_parts(nodes, i + 1);
        assert(node_type(nodes[i]) == "paragraph"@);
        assert(block_part(nodes[i]) == Some(para_inline(nodes[i])));
        assert(block_parts(nodes, i) =~= Seq::new((nodes.len() - i) as nat, |j: int| para_inline(nodes[i + j])));
    } else {
        assert(block_parts(nodes, i) =~= Seq::new((nodes.len() - i) as nat, |j: int| para_inline(nodes[i + j])));
    }
}

/// Law: the plain text of a document made of paragraphs is every
/// paragraph's inline text, in order, joined by single spaces and trimmed:
/// no paragraph is left out, whatever its position.
pub proof fn law_paragraphs_all_searchable(doc: JsonV, nodes: Seq<JsonV>)
    requires
        doc is Object,
        doc.field("content"@) == Some(JsonV::Array(nodes)),
        forall|j: int| 0 <= j < nodes.len() ==> node_type(#[trigger] nodes[j]) == "paragraph"@,
    ensures
        plain_text_spec(doc) == trim_spec(join(Seq::new(nodes.len(), |j: int| para_inline(nodes[j])), " "@)),
{
    lemma_paragraph_parts(nodes, 0);
    assert(Seq::new((nodes.len() - 0) as nat, |j: int| para_inline(nodes[0 + j])) =~= Seq::new(nodes.len(), |j: int| para_inline(nodes[j])));
}

/// What a top-level block of a known kind shows in the search text: a
/// paragraph its inline text, an image ` [图] `, a display formula its LaTeX
/// between spaces.
pub open spec fn known_block_text(n: JsonV) -> Seq<char> {
    if node_type(n) == "paragraph"@ {
        para_inline(n)
    } else if node_type(n) == "imageBlock"@ {
        " [图] "@
    } else {
        " "@ + latex_of(n) + " "@
    }
}

/// A paragraph, image or display-formula block.
pub open spec fn known_block(n: JsonV) -> bool {
    node_type(n) == "paragraph"@ || node_type(n) == "imageBlock"@ || node_type(n) == "mathBlock"@
}

proof fn lemma_known_parts(nodes: Seq<JsonV>, i: int)
    requires
        0 <= i <= nodes.len(),
        forall|j: int| 0 <= j < nodes.len() ==> known_block(#[trigger] nodes[j]),
    ensures
        block_parts(nodes, i) == Seq::new((nodes.len() - i) as nat, |j: int| known_block_text(nodes[i + j])),
    decreases nodes.len() - i,
{
    reveal_strlit(" ");
    if i < nodes.len() {
        lemma_known_parts(nodes, i + 1);
        assert(known_block(nodes[i]));
        assert(block_part(nodes[i]) == Some(known_block_text(nodes[i])));
    }
    assert(block_parts(nodes, i) =~= Seq::new((nodes.len() - i) as nat, |j: int| known_block_text(nodes[i + j])));
}

/// Law: the plain text of a document made of paragraphs, images and display
/// formulas shows every block, in order, joined by single spaces and
/// trimmed.
pub proof fn law_blocks_all_searchable(doc: JsonV, nodes: Seq<JsonV>)
    requires
        doc is Object,
        doc.field("content"@) == Some(JsonV::Array(nodes)),
        forall|j: int| 0 <= j < nodes.len() ==> known_block(#[trigger] nodes[j]),
    ensures
        plain_text_spec(doc) == trim_spec(join(Seq::new(nodes.len(), |j: int| known_block_text(nodes[j])), " "@)),
{
    lemma_known_parts(nodes, 0);
    assert(Seq::new((nodes.len() - 0) as nat, |j: int| known_block_text(nodes[0 + j])) =~= Seq::new(nodes.len(), |j: int| known_block_text(nodes[j])));
}

/// What an inline node shows in the search text: a text node its text, an
/// inline formula its LaTeX between spaces, a blank ` ___ `, anything else
/// nothing.
pub open spec fn shown_inline(c: JsonV) -> Seq<char> {
    if node_type(c) == "text"@ {
        or_empty(c.field_text("text"@))
    } else if node_type(c) == "inlineMath"@ {
        " "@ + latex_of(c) + " "@
    } else if node_type(c) == "blank"@ {
        " ___ "@
    } else {
        Seq::empty()
    }
}

proof fn lemma_inline_pieces(items: Seq<JsonV>, i: int)
    requires
        0 <= i <= items.len(),
    ensures
        inline_run(items, i) == Seq::new((items.len() - i) as nat, |j: int| shown_inline(items[i + j])).flatten(),
    decreases items.len() - i,
{
    reveal_strlit(" ");
    let ps = Seq::new((items.len() - i) as nat, |j: int| shown_inline(items[i + j]));
    if i < items.len() {
        lemma_inline_pieces(items, i + 1);
        assert(ps.drop_first() =~= Seq::new((items.len() - (i + 1)) as nat, |j: int| shown_inline(items[i + 1 + j])));
        assert(inline_text(items[i]) == shown_inline(items[i]));
        assert(ps.first() == shown_inline(items[i]));
    } else {
        assert(ps.len() == 0);
    }
}

/// Law: a paragraph's text is every one of its inline nodes' pieces, in
/// order, run together: text as written, inline formulas and blanks set off
/// by spaces.
pub proof fn law_paragraph_inline_all(items: Seq<JsonV>)
    ensures
        inline_run(items, 0) == Seq::new(items.len(), |j: int| shown_inline(items[j])).flatten(),
{
    lemma_inline_pieces(items, 0);
    assert(Seq::new((items.len() - 0) as nat, |j: int| shown_inline(items[0 + j])) =~= Seq::new(items.len(), |j: int| shown_inline(items[j])));
}

/// Law: joining keeps every part, in order, with the separator between each
/// two neighbours and nowhere else.
pub proof fn law_join_keeps_all(parts: Seq<Seq<char>>, sep: Seq<char>)
    requires
        parts.len() >= 1,
    ensures
        join(parts, sep) == parts[0] + Seq::new((parts.len() - 1) as nat, |j: int| sep + parts[j + 1]).flatten_alt(),
    decreases parts.len(),
{
    let n = parts.len();
    let tail = Seq::new((n - 1) as nat, |j: int| sep + parts[j + 1]);
    if n == 1 {
        assert(tail.len() == 0);
        assert(parts[0] + tail.flatten_alt() =~= parts[0]);
    } else {
        let d = parts.drop_last();
        law_join_keeps_all(d, sep);
        let dtail = Seq::new((d.len() - 1) as nat, |j: int| sep + d[j + 1]);
        assert(tail.drop_last() =~= dtail);
        assert(tail.last() == sep + parts.last());
        assert(tail.flatten_alt() == dtail.flatten_alt() + (sep + parts.last()));
        assert(d[0] == parts[0]);
        assert(join(parts, sep) == join(d, sep) + sep + parts.last());
        assert(join(parts, sep) =~= parts[0] + tail.flatten_alt());
    }
}

/// The views of a vector of strings.
pub open spec fn strs(v: Seq<String>) -> Seq<Seq<char>> {
    v.map_values(|s: String| s@)
}

/// Appends `sep` and `part` (just `part` when `acc` is still empty of parts).
fn join_push(acc: &mut String, first: bool, part: &str)
    ensures
        final(acc)@ == if first {
            old(acc)@ + part@
        } else {
            old(acc)@ + " "@ + part@
        },
{
    if !first {
        acc.append(" ");
    }
    acc.append(part);
}

/// `parts.join(" ")`.
pub fn join_spaces(parts: &Vec<String>) -> (r: String)
    ensures
        r@ == join(strs(parts@), " "@),
{
    let mut acc = String::new();
    let mut i: usize = 0;
    while i < parts.len()
        invariant
            0 <= i <= parts.len(),
            acc@ == join(strs(parts@).take(i as int), " "@),
        decreases parts.len() - i,
    {
        let ghost before = strs(parts@).take(i as int);
        join_push(&mut acc, i == 0, parts[i].as_str());
        proof {
            let after = strs(parts@).take(i + 1);
            assert(after.drop_last() =~= before);
            assert(after.last() == parts@[i as int]@);
            if i == 0 {
                assert(before.len() == 0);
                assert(after.len() == 1);
            }
        }
        i = i + 1;
    }
    assert(strs(parts@).take(parts.len() as int) =~= strs(parts@));
    acc
}

/// The type tag of a node, as exec text.
fn type_of(n: &Json) -> (r: String)
    ensures
        r@ == node_type(n@),
{
    match n.get_str("type") {
        Some(s) => s,
        None => String::new(),
    }
}

fn latex(n: &Json) -> (r: String)
    ensures
        r@ == latex_of(n@),
{
    match n.get("attrs") {
        Some(a) => match a.get_str("latex") {
            Some(s) => s,
            None => String::new(),
        },
        None => String::new(),
    }
}

fn inline_piece(c: &Json) -> (r: String)
    ensures
        r@ == inline_text(c@),
{
    let t = type_of(c);
    if str_eq(t.as_str(), "text") {
        match c.get_str("text") {
            Some(s) => s,
            None => String::new(),
        }
    } else if str_eq(t.as_str(), "inlineMath") {
        let l = latex(c);
        let r = crate::text::cat3(" ", l.as_str(), " ");
        proof {
            reveal_strlit(" ");
        }
        assert(r@ =~= seq![' '] + latex_of(c@) + seq![' ']);
        r
    } else if str_eq(t.as_str(), "blank") {
        crate::text::to_string(" ___ ")
    } else {
        String::new()
    }
}

fn paragraph_text(items: &Vec<Json>) -> (r: String)
    ensures
        r@ == inline_run(items@.map_values(|x: Json| x@), 0),
{
    let ghost iv = items@.map_values(|x: Json| x@);
    let mut s = String::new();
    let mut i: usize = 0;
    while i < items.len()
        invariant
            0 <= i <= items.len(),
            iv == items@.map_values(|x: Json| x@),
            inline_run(iv, 0) == s@ + inline_run(iv, i as int),
        decreases items.len() - i,
    {
        let p = inline_piece(&items[i]);
        s.append(p.as_str());
        i = i + 1;
    }
    s
}

fn block_piece(n: &Json) -> (r: Option<String>)
    ensures
        match r {
            Some(s) => block_part(n@) == Some(s@),
            None => block_part(n@) is None,
        },
{
    let t = type_of(n);
    if str_eq(t.as_str(), "paragraph") {
        match n.get("content") {
            Some(c) => match c.as_array() {
                Some(items) => Some(paragraph_text(items)),
                None => Some(String::new()),
            },
            None => Some(String::new()),
        }
    } else if str_eq(t.as_str(), "imageBlock") {
        Some(crate::text::to_string(" [图] "))
    } else if str_eq(t.as_str(), "mathBlock") {
        let l = latex(n);
        let r = crate::text::cat3(" ", l.as_str(), " ");
        proof {
            reveal_strlit(" ");
        }
        assert(r@ =~= seq![' '] + latex_of(n@) + seq![' ']);
        Some(r)
    } else {
        None
    }
}

/// Plain text of a rich-text document (see [`plain_text_spec`]).
pub fn plain_text_of_doc(doc: &Json) -> (r: String)
    ensures
        r@ == plain_text_spec(doc@),
{
    if !doc.is_object() {
        return String::new();
    }
    let nodes = match doc.get("content") {
        Some(c) => match c.as_array() {
            Some(v) => v,
            None => {
                return String::new();
            },
        },
        None => {
            return String::new();
        },
    };
    let ghost nv = nodes@.map_values(|x: Json| x@);
    let mut parts: Vec<String> = Vec::new();
    let mut i: usize = 0;
    while i < nodes.len()
        invariant
            0 <= i <= nodes.len(),
            nv == nodes@.map_values(|x: Json| x@),
            block_parts(nv, 0) == strs(parts@) + block_parts(nv, i as int),
        decreases nodes.len() - i,
    {
        let ghost before = strs(parts@);
        match block_piece(&nodes[i]) {
            Some(p) => {
                parts.push(p);
                assert(strs(parts@) =~= before.push(p@));
                assert(block_parts(nv, 0) =~= strs(parts@) + block_parts(nv, i + 1));
            },
            None => {},
        }
        i = i + 1;
    }
    assert(block_parts(nv, nodes.len() as int) =~= Seq::empty());
    assert(strs(parts@) =~= block_parts(nv, 0));
    let joined = join_spaces(&parts);
    trim(joined.as_str())
}


/// Plain text of an optional member (`Null` when absent).
pub open spec fn pt(v: Option<JsonV>) -> Seq<char> {
    plain_text_spec(
        match v {
            Some(x) => x,
            None => JsonV::Null,
        },
    )
}

/// Texts of the `content` of each option of an options array.
pub open spec fn option_parts(opts: Option<JsonV>) -> Seq<Seq<char>> {
    match opts {
        Some(JsonV::Array(os)) => Seq::new(os.len(), |i: int| pt(os[i].field("content"@))),
        _ => Seq::empty(),
    }
}

/// Text of `answer.reference` when present and not null.
pub open spec fn ref_part(q: JsonV) -> Seq<Seq<char>> {
    match q.field("answer"@) {
        Some(a) => match a.field("reference"@) {
            Some(r) => if r is Null {
                Seq::empty()
            } else {
                seq![plain_text_spec(r)]
            },
            None => Seq::empty(),
        },
        None => Seq::empty(),
    }
}

/// Text of `analysis` when present and not null.
pub open spec fn analysis_part(q: JsonV) -> Seq<Seq<char>> {
    match q.field("analysis"@) {
        Some(a) => if a is Null {
            Seq::empty()
        } else {
            seq![plain_text_spec(a)]
        },
        None => Seq::empty(),
    }
}

/// Stem, options, reference answer and analysis of one sub-question.
pub open spec fn child_parts(c: JsonV) -> Seq<Seq<char>> {
    seq![pt(c.field("stem"@))] + option_parts(c.field("options"@)) + ref_part(c) + analysis_part(c)
}

/// The parts of the children `cs[i..]`, in order.
pub open spec fn children_parts(cs: Seq<JsonV>, i: int) -> Seq<Seq<char>>
    decreases cs.len() - i,
{
    if i < 0 || i >= cs.len() {
        Seq::empty()
    } else {
        child_parts(cs[i]) + children_parts(cs, i + 1)
    }
}

/// The children that count for the search text: those of a material question.
pub open spec fn material_children(q: JsonV) -> Seq<JsonV> {
    if q.field_text("type"@) == Some("material"@) {
        match q.field("children"@) {
            Some(JsonV::Array(cs)) => cs,
            _ => Seq::empty(),
        }
    } else {
        Seq::empty()
    }
}

/// All the texts a question contributes, in the order they are joined.
pub open spec fn question_parts(q: JsonV) -> Seq<Seq<char>> {
    let cs = material_children(q);
    seq![pt(q.field("stem"@))] + children_parts(cs, 0) + (if cs.len() == 0 {
        option_parts(q.field("options"@))
    } else {
        Seq::empty()
    }) + ref_part(q) + analysis_part(q)
}

/// The search text of a question: its parts joined by spaces, each run of
/// whitespace collapsed to one space, then trimmed. The options of a material
/// question's own body do not count; those of its children do.
pub open spec fn aggregated_spec(q: JsonV) -> Seq<char> {
    trim_spec(collapse_spec(join(question_parts(q), " "@)))
}

fn push_all(parts: &mut Vec<String>, more: Vec<String>)
    ensures
        strs(final(parts)@) == strs(old(parts)@) + strs(more@),
{
    let mut more = more;
    let ghost m = strs(more@);
    let ghost start = strs(parts@);
    let mut i: usize = 0;
    let n = more.len();
    let mut rest: Vec<String> = Vec::new();
    std::mem::swap(&mut rest, &mut more);
    while i < n
        invariant
            0 <= i <= n,
            n == rest.len(),
            strs(rest@) == m,
            strs(parts@) == start + m.take(i as int),
        decreases n - i,
    {
        let c = rest[i].clone();
        assert(c@ == m[i as int]);
        let ghost before = strs(parts@);
        parts.push(c);
        assert(strs(parts@) =~= before.push(c@));
        assert(m.take(i + 1) =~= m.take(i as int).push(m[i as int]));
        assert(strs(parts@) =~= start + m.take(i + 1));
        i = i + 1;
    }
    assert(m.take(n as int) =~= m);
}

fn member_text(v: Option<&Json>) -> (r: String)
    ensures
        r@ == pt(
            match v {
                Some(x) => Some(x@),
                None => None,
            },
        ),
{
    match v {
        Some(x) => plain_text_of_doc(x),
        None => plain_text_of_doc(&Json::Null),
    }
}

fn option_texts(opts: Option<&Json>) -> (r: Vec<String>)
    ensures
        strs(r@) == option_parts(
            match opts {
                Some(x) => Some(x@),
                None => None,
            },
        ),
{
    let mut out: Vec<String> = Vec::new();
    match opts {
        Some(o) => match o.as_array() {
            Some(os) => {
                let ghost ov = os@.map_values(|x: Json| x@);
                let mut i: usize = 0;
                while i < os.len()
                    invariant
                        0 <= i <= os.len(),
                        ov == os@.map_values(|x: Json| x@),
                        strs(out@) =~= Seq::new(i as nat, |j: int| pt(ov[j].field("content"@))),
                    decreases os.len() - i,
                {
                    assert(ov[i as int] == os@[i as int]@);
                    let t = member_text(os[i].get("content"));
                    let ghost before = strs(out@);
                    out.push(t);
                    assert(strs(out@) =~= before.push(t@));
                    i = i + 1;
                }
            },
            None => {},
        },
        None => {},
    }
    out
}

fn ref_texts(q: &Json) -> (r: Vec<String>)
    ensures
        strs(r@) == ref_part(q@),
{
    let mut out: Vec<String> = Vec::new();
    match q.get("answer") {
        Some(a) => match a.get("reference") {
            Some(r) => {
                if !r.is_null() {
                    out.push(plain_text_of_doc(r));
                }
            },
            None => {},
        },
        None => {},
    }
    assert(strs(out@) =~= ref_part(q@));
    out
}

fn analysis_texts(q: &Json) -> (r: Vec<String>)
    ensures
        strs(r@) == analysis_part(q@),
{
    let mut out: Vec<String> = Vec::new();
    match q.get("analysis") {
        Some(a) => {
            if !a.is_null() {
                out.push(plain_text_of_doc(a));
            }
        },
        None => {},
    }
    assert(strs(out@) =~= analysis_part(q@));
    out
}

fn child_texts(c: &Json) -> (r: Vec<String>)
    ensures
        strs(r@) == child_parts(c@),
{
    let mut out: Vec<String> = Vec::new();
    out.push(member_text(c.get("stem")));
    push_all(&mut out, option_texts(c.get("options")));
    push_all(&mut out, ref_texts(c));
    push_all(&mut out, analysis_texts(c));
    assert(strs(out@) =~= child_parts(c@));
    out
}

/// Only plain spaces remain among the whitespace of a trimmed string whose
/// whitespace was plain spaces already.
proof fn lemma_trim_keeps_spaces(s: Seq<char>)
    requires
        forall|k: int| 0 <= k < s.len() && is_ws(#[trigger] s[k]) ==> s[k] == ' ',
        forall|k: int| 0 <= k < s.len() - 1 ==> !(is_ws(#[trigger] s[k]) && is_ws(s[k + 1])),
    ensures
        forall|k: int|
            0 <= k < trim_spec(s).len() && is_ws(#[trigger] trim_spec(s)[k]) ==> trim_spec(s)[k]
                == ' ',
        forall|k: int| 0 <= k < trim_spec(s).len() - 1 ==> !(is_ws(#[trigger] trim_spec(s)[k]) && is_ws(trim_spec(s)[k + 1])),
{
    let lo = crate::text::lead_ws(s, 0);
    crate::text::lemma_lead_ws_bounds(s, 0);
    crate::text::lemma_trail_ws_bounds(s, lo, s.len() as int);
    assert forall|k: int|
        0 <= k < trim_spec(s).len() && is_ws(#[trigger] trim_spec(s)[k]) implies trim_spec(s)[k]
        == ' ' by {
        assert(trim_spec(s)[k] == s[k + lo]);
    }
    assert forall|k: int| 0 <= k < trim_spec(s).len() - 1 implies !(is_ws(#[trigger] trim_spec(s)[k]) && is_ws(trim_spec(s)[k + 1])) by {
        assert(trim_spec(s)[k] == s[k + lo]);
        assert(trim_spec(s)[k + 1] == s[k + 1 + lo]);
    }
}

/// The search text of a question (see [`aggregated_spec`]).
pub fn aggregated_plain_text(q: &Json) -> (r: String)
    ensures
        r@ == aggregated_spec(q@),
        forall|k: int| 0 <= k < r@.len() && is_ws(#[trigger] r@[k]) ==> r@[k] == ' ',
        forall|k: int| 0 <= k < r@.len() - 1 ==> !(is_ws(#[trigger] r@[k]) && is_ws(r@[k + 1])),
{
    let mut parts: Vec<String> = Vec::new();
    parts.push(member_text(q.get("stem")));
    let is_material = match q.get_str("type") {
        Some(t) => str_eq(t.as_str(), "material"),
        None => false,
    };
    let empty: Vec<Json> = Vec::new();
    let children: &Vec<Json> = if is_material {
        match q.get("children") {
            Some(c) => match c.as_array() {
                Some(a) => a,
                None => &empty,
            },
            None => &empty,
        }
    } else {
        &empty
    };
    let ghost cs = children@.map_values(|x: Json| x@);
    assert(cs =~= material_children(q@));
    let ghost head = strs(parts@);
    let mut i: usize = 0;
    while i < children.len()
        invariant
            0 <= i <= children.len(),
            cs == children@.map_values(|x: Json| x@),
            head + children_parts(cs, 0) == strs(parts@) + children_parts(cs, i as int),
        decreases children.len() - i,
    {
        let ghost before = strs(parts@);
        push_all(&mut parts, child_texts(&children[i]));
        assert(children_parts(cs, i as int) == child_parts(cs[i as int]) + children_parts(
            cs,
            i + 1,
        ));
        assert(before + children_parts(cs, i as int) =~= strs(parts@) + children_parts(
            cs,
            i + 1,
        ));
        i = i + 1;
    }
    assert(children_parts(cs, children.len() as int) =~= Seq::empty());
    if children.len() == 0 {
        push_all(&mut parts, option_texts(q.get("options")));
    }
    push_all(&mut parts, ref_texts(q));
    push_all(&mut parts, analysis_texts(q));
    assert(strs(parts@) =~= question_parts(q@));
    let joined = join_spaces(&parts);
    let collapsed = collapse_whitespace(joined.as_str());
    proof {
        lemma_trim_keeps_spaces(collapsed@);
    }
    trim(collapsed.as_str())
}

/// A child that already carries a non-empty string `id`.
pub open spec fn has_id(c: JsonV) -> bool {
    match c.field_text("id"@) {
        Some(t) => t.len() > 0,
        None => false,
    }
}

/// Every child of the question is an object or null.
pub open spec fn children_ok(q: JsonV) -> bool {
    match q.field("children"@) {
        Some(JsonV::Array(cs)) => forall|i: int|
            0 <= i < cs.len() ==> (#[trigger] cs[i] is Object || cs[i] is Null),
        _ => true,
    }
}

/// The id given to the child at position `i` (counted from zero).
pub open spec fn child_id_spec(parent: Seq<char>, i: int) -> Seq<char> {
    parent + "_c"@ + crate::text::decimal((i + 1) as nat)
}

/// A child as numbering leaves it.
pub open spec fn numbered_child(old_c: JsonV, new_c: JsonV, parent: Seq<char>, i: int) -> bool {
    if has_id(old_c) {
        new_c == old_c
    } else {
        &&& new_c.is_object()
        &&& new_c.field("id"@) == Some(JsonV::Str(child_id_spec(parent, i)))
        &&& forall|k: Seq<char>| k != "id"@ ==> new_c.field(k) == old_c.field(k)
    }
}

/// Gives every child without a non-empty `id` the id `<parent>_c<position>`
/// (positions counted from one); children that have one keep it.
pub fn ensure_child_ids(q: &mut Json, parent_id: &str)
    requires
        children_ok(old(q)@),
    ensures
        !old(q)@.is_object() ==> final(q)@ == old(q)@,
        old(q)@.is_object() ==> final(q)@.is_object(),
        forall|k: Seq<char>| k != "children"@ ==> final(q)@.field(k) == old(q)@.field(k),
        match old(q)@.field("children"@) {
            Some(JsonV::Array(cs)) => match final(q)@.field("children"@) {
                Some(JsonV::Array(ns)) => ns.len() == cs.len() && forall|i: int|
                    0 <= i < cs.len() ==> numbered_child(
                        #[trigger] cs[i],
                        ns[i],
                        parent_id@,
                        i,
                    ),
                _ => false,
            },
            _ => final(q)@.field("children"@) == old(q)@.field("children"@),
        },
{
    let ghost q0 = q@;
    let mut out: Vec<Json> = Vec::new();
    {
        let ch = match q.get("children") {
            Some(c) => match c.as_array() {
                Some(v) => v,
                None => {
                    return ;
                },
            },
            None => {
                return ;
            },
        };
        let ghost cs = ch@.map_values(|x: Json| x@);
        assert(q0.field("children"@) == Some(JsonV::Array(cs)));
        assert(q0.is_object());
        let mut i: usize = 0;
        while i < ch.len()
            invariant
                0 <= i <= ch.len(),
                cs == ch@.map_values(|x: Json| x@),
                children_ok(q0),
                q0.field("children"@) == Some(JsonV::Array(cs)),
                out.len() == i,
                forall|j: int| 0 <= j < i ==> numbered_child(cs[j], (#[trigger] out@[j])@, parent_id@, j),
            decreases ch.len() - i,
        {
            let c = &ch[i];
            assert(cs[i as int] == c@);
            let needs = match c.get_str("id") {
                Some(s) => s.as_str().unicode_len() == 0,
                None => true,
            };
            if needs {
                let mut n = if c.is_null() {
                    Json::new_object()
                } else {
                    c.clone_json()
                };
                let num = crate::text::decimal_string((i + 1) as u64);
                let id = crate::text::cat3(parent_id, "_c", num.as_str());
                n.set("id", Json::Str(id));
                proof {
                    if c@ is Null {
                        assert forall|k: Seq<char>| k != "id"@ implies n@.field(k) == c@.field(k) by {
                            assert(crate::json::lookup(Seq::<(Seq<char>, JsonV)>::empty(), k, 0) is None);
                        }
                    }
                }
                out.push(n);
            } else {
                out.push(c.clone_json());
            }
            i = i + 1;
        }
    }
    proof {
        lemma_array_view(out);
    }
    let arr = Json::Array(out);
    q.set("children", arr);
}
} // verus!
