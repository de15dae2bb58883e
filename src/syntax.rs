//! Turning classified lines into a language-neutral syntax tree.
use vstd::prelude::*;
use crate::lines::{
    block_state, classify_exec, code_count, code_count_exec, span_view, spans_within, CommentSyntax,
    LineClass,
};
use crate::registry::{BlockStyle, GrammarAdapter, Visibility};
use crate::text::{
    chars_of, string_of, is_ws, is_ws_exec, skip_ws, skip_ws_exec, trim_end, trim_end_exec, word_end, word_end_exec,
};

verus! {

/// The grammar-defined tag of a node.
#[derive(Clone, Copy, Debug, PartialEq, Eq, Structural)]
pub enum NodeKind {
    Program,
    Import,
    Function,
    Type,
    Branch,
    Statement,
}

/// One code line, as the tree builder sees it. Text positions index the file's characters.
#[derive(Clone, Copy, Debug, PartialEq, Eq, Structural)]
pub struct LineItem {
    pub line: usize,
    pub col: usize,
    pub level: usize,
    pub kind: NodeKind,
    /// The line's text without surrounding whitespace is `[start, end)`.
    pub start: usize,
    pub end: usize,
    /// The word that decided the kind.
    pub key_start: usize,
    pub key_end: usize,
    /// The word after it: the declared name of a declaration.
    pub name_start: usize,
    pub name_end: usize,
    pub public: bool,
}

/// `s[i..e]` is one of `ws`.
pub open spec fn in_words(ws: Seq<Vec<char>>, s: Seq<char>, i: int, e: int) -> bool {
    exists|j: int| 0 <= j < ws.len() && (#[trigger] ws[j])@ == s.subrange(i, e)
}

/// First index in `[i, b)` that is neither whitespace nor a closing brace, or `b`.
pub open spec fn skip_lead(s: Seq<char>, i: int, b: int) -> int
    decreases b - i,
{
    if i < b && 0 <= i < s.len() && (is_ws(s[i]) || s[i] == '}') {
        skip_lead(s, i + 1, b)
    } else {
        i
    }
}

/// Past the word at `i` and the whitespace after it when that word is one of `ws`.
pub open spec fn skip_prefix(s: Seq<char>, i: int, b: int, ws: Seq<Vec<char>>) -> int {
    let e = word_end(s, i, b);
    if i < e && in_words(ws, s, i, e) {
        skip_ws(s, e, b)
    } else {
        i
    }
}

/// Where the word that decides the kind of the text `[f, b)` starts: past closing braces and
/// up to three prefix words.
pub open spec fn key_start(s: Seq<char>, f: int, b: int, ad: GrammarAdapter) -> int {
    let p = skip_lead(s, f, b);
    skip_prefix(
        s,
        skip_prefix(s, skip_prefix(s, p, b, ad.prefix_words@), b, ad.prefix_words@),
        b,
        ad.prefix_words@,
    )
}

pub open spec fn kind_of_word(s: Seq<char>, k: int, e: int, ad: GrammarAdapter) -> NodeKind {
    if k < e && in_words(ad.import_words@, s, k, e) {
        NodeKind::Import
    } else if k < e && in_words(ad.function_words@, s, k, e) {
        NodeKind::Function
    } else if k < e && in_words(ad.type_words@, s, k, e) {
        NodeKind::Type
    } else if k < e && in_words(ad.branch_words@, s, k, e) {
        NodeKind::Branch
    } else {
        NodeKind::Statement
    }
}

/// Whether a declaration on the text `[f, b)` whose name is `[n, ne)` is public.
pub open spec fn is_public(s: Seq<char>, f: int, b: int, n: int, ne: int, ad: GrammarAdapter) -> bool {
    match ad.visibility {
        Visibility::Marker => {
            let p = skip_lead(s, f, b);
            let e = word_end(s, p, b);
            p < e && in_words(ad.public_words@, s, p, e)
        },
        Visibility::Capitalized => n < ne && 'A' <= s[n] && s[n] <= 'Z',
        Visibility::NoUnderscore => n < ne && s[n] != '_',
    }
}

/// The item for the code line `line`, spanning `[a, b)`, at nesting level `level`.
pub open spec fn item_of(s: Seq<char>, a: int, b: int, line: int, level: int, ad: GrammarAdapter) -> LineItem {
    let f = skip_ws(s, a, b);
    let e = trim_end(s, f, b);
    let k = key_start(s, f, e, ad);
    let ke = word_end(s, k, e);
    let n = skip_ws(s, ke, e);
    let ne = word_end(s, n, e);
    LineItem {
        line: line as usize,
        col: (f - a) as usize,
        level: level as usize,
        kind: kind_of_word(s, k, ke, ad),
        start: f as usize,
        end: e as usize,
        key_start: k as usize,
        key_end: ke as usize,
        name_start: n as usize,
        name_end: ne as usize,
        public: is_public(s, f, e, n, ne, ad),
    }
}

/// Brace depth after the line `[a, b)`, starting from depth `d`; never below zero. Only
/// braces in code count; `in_block` tells whether a block comment is open at `a`.
pub open spec fn next_depth(s: Seq<char>, a: int, b: int, d: int, in_block: bool, cm: CommentSyntax) -> int {
    let up = d + code_count(s, a, b, '{', in_block, false, cm);
    let up = if up > usize::MAX {
        usize::MAX as int
    } else {
        up
    };
    let down = code_count(s, a, b, '}', in_block, false, cm);
    if up >= down {
        up - down
    } else {
        0
    }
}

/// Brace depth before line `k`: the braces of the code lines before it.
pub open spec fn depth_at(s: Seq<char>, spans: Seq<(int, int)>, cls: Seq<LineClass>, k: int, cm: CommentSyntax) -> int
    decreases k,
{
    if k <= 0 {
        0
    } else if cls[k - 1] == LineClass::Code {
        next_depth(
            s,
            spans[k - 1].0,
            spans[k - 1].1,
            depth_at(s, spans, cls, k - 1, cm),
            block_state(s, spans, k - 1, cm),
            cm,
        )
    } else {
        depth_at(s, spans, cls, k - 1, cm)
    }
}

/// Nesting level of line `k`: its brace depth, or its indentation.
pub open spec fn level_at(
    s: Seq<char>,
    spans: Seq<(int, int)>,
    cls: Seq<LineClass>,
    k: int,
    ad: GrammarAdapter,
) -> int {
    match ad.blocks {
        BlockStyle::Braces => depth_at(s, spans, cls, k, ad.comments),
        BlockStyle::Indentation => skip_ws(s, spans[k].0, spans[k].1) - spans[k].0,
    }
}

/// The items of the code lines among the first `k` lines.
pub open spec fn items_upto(
    s: Seq<char>,
    spans: Seq<(int, int)>,
    cls: Seq<LineClass>,
    k: int,
    ad: GrammarAdapter,
) -> Seq<LineItem>
    decreases k,
{
    if k <= 0 {
        Seq::empty()
    } else if cls[k - 1] == LineClass::Code {
        items_upto(s, spans, cls, k - 1, ad).push(
            item_of(s, spans[k - 1].0, spans[k - 1].1, k - 1, level_at(s, spans, cls, k - 1, ad), ad),
        )
    } else {
        items_upto(s, spans, cls, k - 1, ad)
    }
}

/// A closing brace on the line `[a, b)` finds no open block, the depth before it being `d`.
pub open spec fn underflows(s: Seq<char>, a: int, b: int, d: int, in_block: bool, cm: CommentSyntax) -> bool {
    let up = d + code_count(s, a, b, '{', in_block, false, cm);
    let up = if up > usize::MAX {
        usize::MAX as int
    } else {
        up
    };
    up < code_count(s, a, b, '}', in_block, false, cm)
}

/// The first code line from `k` on whose closing braces find no open block, or -1.
pub open spec fn first_underflow(s: Seq<char>, spans: Seq<(int, int)>, cls: Seq<LineClass>, k: int, cm: CommentSyntax) -> int
    decreases spans.len() - k,
{
    if k < 0 || k >= spans.len() || k >= cls.len() {
        -1
    } else if cls[k] == LineClass::Code && underflows(
        s,
        spans[k].0,
        spans[k].1,
        depth_at(s, spans, cls, k, cm),
        block_state(s, spans, k, cm),
        cm,
    ) {
        k
    } else {
        first_underflow(s, spans, cls, k + 1, cm)
    }
}

/// The non-fatal diagnostic of a brace language's file, as (line, column, message): the first
/// line with an unmatched closing brace, at its first non-blank character, or else a block still
/// open at the end of the last line. The tree is built either way.
pub open spec fn brace_diagnostic(s: Seq<char>, spans: Seq<(int, int)>, cls: Seq<LineClass>, ad: GrammarAdapter) -> Option<(int, int, Seq<char>)> {
    if ad.blocks != BlockStyle::Braces {
        None
    } else if first_underflow(s, spans, cls, 0, ad.comments) >= 0 {
        let k = first_underflow(s, spans, cls, 0, ad.comments);
        Some((k, skip_ws(s, spans[k].0, spans[k].1) - spans[k].0, "unmatched closing brace"@))
    } else if depth_at(s, spans, cls, spans.len() as int, ad.comments) > 0 {
        let k = spans.len() - 1;
        Some((k, spans[k].1 - spans[k].0, "unclosed block"@))
    } else {
        None
    }
}

/// A problem found in the input that did not stop the parse.
pub struct Diagnostic {
    pub line: usize,
    pub col: usize,
    pub message: String,
}

/// The diagnostic of a file's lines; see `brace_diagnostic`.
pub fn diagnose(s: &Vec<char>, spans: &Vec<(usize, usize)>, cls: &Vec<LineClass>, ad: &GrammarAdapter) -> (r: Option<Diagnostic>)
    requires
        spans_within(spans@, s@.len()),
        cls@.len() == spans@.len(),
    ensures
        match (r, brace_diagnostic(s@, span_view(spans@), cls@, *ad)) {
            (None, None) => true,
            (Some(d), Some(x)) => d.line as int == x.0 && d.col as int == x.1 && d.message@ == x.2,
            _ => false,
        },
{
    if let BlockStyle::Indentation = ad.blocks {
        return None;
    }
    let ghost sp = span_view(spans@);
    let mut depth: usize = 0;
    let mut inb = false;
    let mut k: usize = 0;
    while k < spans.len()
        invariant
            sp == span_view(spans@),
            spans_within(spans@, s@.len()),
            cls@.len() == spans@.len(),
            k <= spans@.len(),
            depth as int == depth_at(s@, sp, cls@, k as int, ad.comments),
            inb == block_state(s@, sp, k as int, ad.comments),
            first_underflow(s@, sp, cls@, k as int, ad.comments) == first_underflow(s@, sp, cls@, 0, ad.comments),
            ad.blocks == BlockStyle::Braces,
        decreases spans@.len() - k,
    {
        let (a, b) = spans[k];
        assert(spans_within(spans@, s@.len()) ==> spans@[k as int].0 <= spans@[k as int].1 <= s@.len());
        assert(sp[k as int] == (a as int, b as int));
        if cls[k] == LineClass::Code {
            let opens = code_count_exec(s, a, b, '{', inb, &ad.comments);
            let closes = code_count_exec(s, a, b, '}', inb, &ad.comments);
            let up = if opens > usize::MAX - depth {
                usize::MAX
            } else {
                depth + opens
            };
            if up < closes {
                assert(first_underflow(s@, sp, cls@, k as int, ad.comments) == k as int);
                let message = string_of(&chars_of("unmatched closing brace"));
                let col = skip_ws_exec(s, a, b) - a;
                return Some(Diagnostic { line: k, col, message });
            }
            depth = up - closes;
        }
        inb = classify_exec(s, a, b, inb, &ad.comments).1;
        k += 1;
    }
    assert(first_underflow(s@, sp, cls@, k as int, ad.comments) == -1);
    if depth > 0 {
        let (a, b) = spans[spans.len() - 1];
        assert(spans_within(spans@, s@.len()) ==> spans@[spans@.len() - 1].0 <= spans@[spans@.len() - 1].1);
        assert(sp[spans@.len() - 1] == (a as int, b as int));
        Some(Diagnostic { line: spans.len() - 1, col: b - a, message: string_of(&chars_of("unclosed block")) })
    } else {
        None
    }
}

/// Facts on items that the tree builder relies on: positions lie within a text of length
/// `len`, and lines are increasing and below `nlines`.
pub open spec fn items_ok(items: Seq<LineItem>, nlines: nat, len: nat) -> bool {
    &&& forall|i: int|
        0 <= i < items.len() ==> {
            &&& (#[trigger] items[i]).line < nlines
            &&& items[i].start <= items[i].end <= len
            &&& items[i].start <= items[i].key_start <= items[i].key_end <= items[i].end
            &&& items[i].key_end <= items[i].name_start <= items[i].name_end <= items[i].end
        }
    &&& forall|i: int, j: int| 0 <= i < j < items.len() ==> (#[trigger] items[i]).line < (#[trigger] items[j]).line
}

fn in_words_exec(ws: &Vec<Vec<char>>, s: &Vec<char>, i: usize, e: usize) -> (r: bool)
    requires
        i <= e <= s@.len(),
    ensures
        r == in_words(ws@, s@, i as int, e as int),
{
    let mut j: usize = 0;
    while j < ws.len()
        invariant
            i <= e <= s@.len(),
            j <= ws@.len(),
            forall|k: int| 0 <= k < j ==> (#[trigger] ws@[k])@ != s@.subrange(i as int, e as int),
        decreases ws@.len() - j,
    {
        let w = &ws[j];
        if w.len() == e - i {
            let mut k: usize = 0;
            let mut same = true;
            while k < w.len()
                invariant
                    w@.len() == e - i,
                    i <= e <= s@.len(),
                    k <= w@.len(),
                    same == (forall|m: int| 0 <= m < k ==> w@[m] == s@[i + m]),
                decreases w@.len() - k,
            {
                if w[k] != s[i + k] {
                    same = false;
                }
                k += 1;
            }
            if same {
                assert(w@ =~= s@.subrange(i as int, e as int));
                assert(ws@[j as int]@ == s@.subrange(i as int, e as int));
                return true;
            } else {
                assert(w@ != s@.subrange(i as int, e as int)) by {
                    let m = choose|m: int| 0 <= m < w@.len() && w@[m] != s@[i + m];
                    assert(s@.subrange(i as int, e as int)[m] == s@[i + m]);
                }
            }
        }
        j += 1;
    }
    false
}

fn skip_lead_exec(s: &Vec<char>, i: usize, b: usize) -> (r: usize)
    requires
        i <= b <= s@.len(),
    ensures
        r as int == skip_lead(s@, i as int, b as int),
        i <= r <= b,
{
    let mut k = i;
    while k < b && (is_ws_exec(s[k]) || s[k] == '}')
        invariant
            i <= k <= b <= s@.len(),
            skip_lead(s@, k as int, b as int) == skip_lead(s@, i as int, b as int),
        decreases b - k,
    {
        k += 1;
    }
    k
}

fn skip_prefix_exec(s: &Vec<char>, i: usize, b: usize, ws: &Vec<Vec<char>>) -> (r: usize)
    requires
        i <= b <= s@.len(),
    ensures
        r as int == skip_prefix(s@, i as int, b as int, ws@),
        i <= r <= b,
{
    let e = word_end_exec(s, i, b);
    if i < e && in_words_exec(ws, s, i, e) {
        skip_ws_exec(s, e, b)
    } else {
        i
    }
}

fn next_depth_exec(s: &Vec<char>, a: usize, b: usize, d: usize, inb: bool, cm: &CommentSyntax) -> (r: usize)
    requires
        a <= b <= s@.len(),
    ensures
        r as int == next_depth(s@, a as int, b as int, d as int, inb, *cm),
{
    let opens = code_count_exec(s, a, b, '{', inb, cm);
    let closes = code_count_exec(s, a, b, '}', inb, cm);
    let up = if opens > usize::MAX - d {
        usize::MAX
    } else {
        d + opens
    };
    if up >= closes {
        up - closes
    } else {
        0
    }
}

/// The item for one code line; see `item_of`.
pub fn item_exec(s: &Vec<char>, a: usize, b: usize, line: usize, level: usize, ad: &GrammarAdapter) -> (r: LineItem)
    requires
        a <= b <= s@.len(),
    ensures
        r == item_of(s@, a as int, b as int, line as int, level as int, *ad),
        a <= r.start <= r.key_start <= r.key_end <= r.name_start <= r.name_end <= r.end <= b,
        r.line == line,
{
    let f = skip_ws_exec(s, a, b);
    let e = trim_end_exec(s, f, b);
    let p = skip_lead_exec(s, f, e);
    let k = skip_prefix_exec(
        s,
        skip_prefix_exec(s, skip_prefix_exec(s, p, e, &ad.prefix_words), e, &ad.prefix_words),
        e,
        &ad.prefix_words,
    );
    let ke = word_end_exec(s, k, e);
    let n = skip_ws_exec(s, ke, e);
    let ne = word_end_exec(s, n, e);
    let kind = if k < ke && in_words_exec(&ad.import_words, s, k, ke) {
        NodeKind::Import
    } else if k < ke && in_words_exec(&ad.function_words, s, k, ke) {
        NodeKind::Function
    } else if k < ke && in_words_exec(&ad.type_words, s, k, ke) {
        NodeKind::Type
    } else if k < ke && in_words_exec(&ad.branch_words, s, k, ke) {
        NodeKind::Branch
    } else {
        NodeKind::Statement
    };
    let public = match ad.visibility {
        Visibility::Marker => {
            let pe = word_end_exec(s, p, e);
            p < pe && in_words_exec(&ad.public_words, s, p, pe)
        },
        Visibility::Capitalized => n < ne && 'A' <= s[n] && s[n] <= 'Z',
        Visibility::NoUnderscore => n < ne && s[n] != '_',
    };
    LineItem {
        line,
        col: f - a,
        level,
        kind,
        start: f,
        end: e,
        key_start: k,
        key_end: ke,
        name_start: n,
        name_end: ne,
        public,
    }
}

/// The items of the code lines of a file, in line order.
pub fn line_items(
    s: &Vec<char>,
    spans: &Vec<(usize, usize)>,
    cls: &Vec<LineClass>,
    ad: &GrammarAdapter,
) -> (r: Vec<LineItem>)
    requires
        spans_within(spans@, s@.len()),
        cls@.len() == spans@.len(),
    ensures
        r@ == items_upto(s@, span_view(spans@), cls@, spans@.len() as int, *ad),
        items_ok(r@, spans@.len(), s@.len()),
{
    let ghost sp = span_view(spans@);
    let mut r: Vec<LineItem> = Vec::new();
    let mut depth: usize = 0;
    let mut inb = false;
    let mut k: usize = 0;
    while k < spans.len()
        invariant
            sp == span_view(spans@),
            spans_within(spans@, s@.len()),
            cls@.len() == spans@.len(),
            k <= spans@.len(),
            depth as int == depth_at(s@, sp, cls@, k as int, ad.comments),
            inb == block_state(s@, sp, k as int, ad.comments),
            r@ == items_upto(s@, sp, cls@, k as int, *ad),
            items_ok(r@, k as nat, s@.len()),
        decreases spans@.len() - k,
    {
        let (a, b) = spans[k];
        assert(spans_within(spans@, s@.len()) ==> spans@[k as int].0 <= spans@[k as int].1 <= s@.len());
        if cls[k] == LineClass::Code {
            let level = match ad.blocks {
                BlockStyle::Braces => depth,
                BlockStyle::Indentation => skip_ws_exec(s, a, b) - a,
            };
            let it = item_exec(s, a, b, k, level, ad);
            r.push(it);
            depth = next_depth_exec(s, a, b, depth, inb, &ad.comments);
        }
        inb = classify_exec(s, a, b, inb, &ad.comments).1;
        k += 1;
        assert forall|i: int, j: int| 0 <= i < j < r@.len() implies (#[trigger] r@[i]).line < (#[trigger] r@[j]).line by {
        }
    }
    r
}

/// A syntax node. Lines and columns are 0-based; the end is exclusive. A node owns its
/// children, which are ordered by position and do not overlap.
pub struct SyntaxNode {
    pub kind: NodeKind,
    pub text: String,
    pub start_line: usize,
    pub start_col: usize,
    pub end_line: usize,
    pub end_col: usize,
    pub children: Vec<SyntaxNode>,
}

/// The mathematical value of a syntax node.
pub struct NodeV {
    pub kind: NodeKind,
    pub text: Seq<char>,
    pub start_line: int,
    pub start_col: int,
    pub end_line: int,
    pub end_col: int,
    pub children: Seq<NodeV>,
}

pub open spec fn node_view(n: SyntaxNode) -> NodeV
    decreases n,
{
    NodeV {
        kind: n.kind,
        text: n.text@,
        start_line: n.start_line as int,
        start_col: n.start_col as int,
        end_line: n.end_line as int,
        end_col: n.end_col as int,
        children: nodes_view(n.children@),
    }
}

pub open spec fn nodes_view(ns: Seq<SyntaxNode>) -> Seq<NodeV>
    decreases ns,
{
    if ns.len() == 0 {
        Seq::empty()
    } else {
        nodes_view(ns.drop_last()).push(node_view(ns.last()))
    }
}

/// First index in `[j, hi)` whose level is at most `lvl`, or `hi`.
pub open spec fn scan_end(items: Seq<LineItem>, lvl: usize, j: int, hi: int) -> int
    decreases hi - j,
{
    if j < 0 || j >= hi || j >= items.len() {
        hi
    } else if items[j].level <= lvl {
        j
    } else {
        scan_end(items, lvl, j + 1, hi)
    }
}

/// The item after the last one nested under item `i`, within `[i, hi)`.
pub open spec fn block_end(items: Seq<LineItem>, i: int, hi: int) -> int {
    scan_end(items, items[i].level, i + 1, hi)
}

pub proof fn lemma_scan_end_bounds(items: Seq<LineItem>, lvl: usize, j: int, hi: int)
    requires
        0 <= j <= hi,
    ensures
        j <= scan_end(items, lvl, j, hi) <= hi,
    decreases hi - j,
{
    if j < hi && j < items.len() && items[j].level > lvl {
        lemma_scan_end_bounds(items, lvl, j + 1, hi);
    }
}

/// The trees rooted at the items of `[lo, hi)` that nothing in that range nests under: each
/// covers its own line through the line of its last nested item.
pub open spec fn forest(s: Seq<char>, items: Seq<LineItem>, lo: int, hi: int) -> Seq<NodeV>
    decreases hi - lo,
    via forest_decreases
{
    if lo < 0 || lo >= hi || hi > items.len() {
        Seq::empty()
    } else {
        let e = block_end(items, lo, hi);
        seq![
            NodeV {
                kind: items[lo].kind,
                text: s.subrange(items[lo].start as int, items[lo].end as int),
                start_line: items[lo].line as int,
                start_col: items[lo].col as int,
                end_line: items[e - 1].line + 1,
                end_col: 0,
                children: forest(s, items, lo + 1, e),
            },
        ] + forest(s, items, e, hi)
    }
}

#[via_fn]
proof fn forest_decreases(s: Seq<char>, items: Seq<LineItem>, lo: int, hi: int) {
    if !(lo < 0 || lo >= hi || hi > items.len()) {
        lemma_scan_end_bounds(items, items[lo].level, lo + 1, hi);
    }
}

/// The root of the tree of a file with `total_lines` lines and the given items.
pub open spec fn program_tree(s: Seq<char>, items: Seq<LineItem>, total_lines: int) -> NodeV {
    NodeV {
        kind: NodeKind::Program,
        text: Seq::empty(),
        start_line: 0,
        start_col: 0,
        end_line: total_lines,
        end_col: 0,
        children: forest(s, items, 0, items.len() as int),
    }
}

pub fn block_end_exec(items: &Vec<LineItem>, i: usize, hi: usize) -> (r: usize)
    requires
        i < hi <= items@.len(),
    ensures
        r as int == block_end(items@, i as int, hi as int),
        i < r <= hi,
{
    let lvl = items[i].level;
    let mut j = i + 1;
    while j < hi && items[j].level > lvl
        invariant
            i < j <= hi <= items@.len(),
            lvl == items@[i as int].level,
            scan_end(items@, lvl, j as int, hi as int) == block_end(items@, i as int, hi as int),
        decreases hi - j,
    {
        j += 1;
    }
    j
}

proof fn lemma_nodes_view_push(ns: Seq<SyntaxNode>, n: SyntaxNode)
    ensures
        nodes_view(ns.push(n)) == nodes_view(ns).push(node_view(n)),
{
    assert(ns.push(n).drop_last() =~= ns);
}

/// Builds the trees of `forest(s, items, lo, hi)`.
pub fn build_forest(s: &Vec<char>, items: &Vec<LineItem>, lo: usize, hi: usize, nlines: usize) -> (r: Vec<SyntaxNode>)
    requires
        lo <= hi <= items@.len(),
        items_ok(items@, nlines as nat, s@.len()),
    ensures
        nodes_view(r@) == forest(s@, items@, lo as int, hi as int),
    decreases hi - lo,
{
    let mut r: Vec<SyntaxNode> = Vec::new();
    let mut cur = lo;
    while cur < hi
        invariant
            lo <= cur <= hi <= items@.len(),
            items_ok(items@, nlines as nat, s@.len()),
            nodes_view(r@) + forest(s@, items@, cur as int, hi as int) == forest(
                s@,
                items@,
                lo as int,
                hi as int,
            ),
        decreases hi - cur,
    {
        let e = block_end_exec(items, cur, hi);
        let children = build_forest(s, items, cur + 1, e, nlines);
        let it = items[cur];
        let last = items[e - 1].line;
        assert(items@[e - 1].line < nlines);
        let node = SyntaxNode {
            kind: it.kind,
            text: crate::text::substring(s, it.start, it.end),
            start_line: it.line,
            start_col: it.col,
            end_line: last + 1,
            end_col: 0,
            children,
        };
        let ghost old_r = r@;
        r.push(node);
        proof {
            lemma_nodes_view_push(old_r, node);
            assert(node_view(node) == forest(s@, items@, cur as int, hi as int)[0]);
            assert(forest(s@, items@, cur as int, hi as int) =~= seq![node_view(node)] + forest(
                s@,
                items@,
                e as int,
                hi as int,
            ));
            assert(nodes_view(r@) + forest(s@, items@, e as int, hi as int) =~= nodes_view(old_r)
                + forest(s@, items@, cur as int, hi as int));
        }
        cur = e;
    }
    assert(nodes_view(r@) =~= nodes_view(r@) + forest(s@, items@, cur as int, hi as int));
    r
}

/// Builds the whole tree of a file with `nlines` lines.
pub fn build_tree(s: &Vec<char>, items: &Vec<LineItem>, nlines: usize) -> (r: SyntaxNode)
    requires
        items_ok(items@, nlines as nat, s@.len()),
    ensures
        node_view(r) == program_tree(s@, items@, nlines as int),
{
    let children = build_forest(s, items, 0, items.len(), nlines);
    SyntaxNode {
        kind: NodeKind::Program,
        text: String::new(),
        start_line: 0,
        start_col: 0,
        end_line: nlines,
        end_col: 0,
        children,
    }
}

/// The trees `ns` end no earlier than they start, lie within lines `[a, b)`, and follow one
/// another without overlap.
pub open spec fn forest_ok(ns: Seq<NodeV>, a: int, b: int) -> bool {
    &&& forall|k: int|
        0 <= k < ns.len() ==> a <= (#[trigger] ns[k]).start_line <= ns[k].end_line <= b
    &&& forall|i: int, j: int|
        0 <= i < j < ns.len() ==> (#[trigger] ns[i]).end_line <= (#[trigger] ns[j]).start_line
}

/// A well-formed tree: every node ends no earlier than it starts, and its children lie within
/// it, ordered by position, without overlap.
#[verifier::opaque]
pub open spec fn node_wf(n: NodeV) -> bool
    decreases n,
{
    &&& n.start_line <= n.end_line
    &&& forest_ok(n.children, n.start_line, n.end_line)
    &&& forall|k: int| 0 <= k < n.children.len() ==> node_wf(#[trigger] n.children[k])
}

proof fn lemma_lines_le(items: Seq<LineItem>, nlines: nat, len: nat, i: int, j: int)
    requires
        items_ok(items, nlines, len),
        0 <= i <= j < items.len(),
    ensures
        items[i].line <= items[j].line,
        i < j ==> items[i].line < items[j].line,
{
    if i < j {
        assert(items[i].line < items[j].line);
    }
}

proof fn lemma_forest_ok_cons(node: NodeV, rest: Seq<NodeV>, a: int, m: int, b: int)
    requires
        a <= node.start_line <= node.end_line <= m <= b,
        rest.len() > 0 ==> node.end_line <= rest[0].start_line,
        forest_ok(rest, m, b),
        node_wf(node),
        forall|k: int| 0 <= k < rest.len() ==> node_wf(#[trigger] rest[k]),
    ensures
        forest_ok(seq![node] + rest, a, b),
        forall|k: int| 0 <= k < (seq![node] + rest).len() ==> node_wf(#[trigger] (seq![node] + rest)[k]),
{
    let ns = seq![node] + rest;
    assert forall|k: int| 0 <= k < ns.len() implies node_wf(#[trigger] ns[k]) by {
        if k > 0 {
            assert(ns[k] == rest[k - 1]);
        }
    }
    assert forall|k: int| 0 <= k < ns.len() implies a <= (#[trigger] ns[k]).start_line
        <= ns[k].end_line <= b by {
        if k > 0 {
            assert(ns[k] == rest[k - 1]);
        }
    }
    assert forall|i: int, j: int| 0 <= i < j < ns.len() implies (#[trigger] ns[i]).end_line
        <= (#[trigger] ns[j]).start_line by {
        assert(ns[j] == rest[j - 1]);
        if i > 0 {
            assert(ns[i] == rest[i - 1]);
        } else {
            assert(rest[0].start_line <= rest[0].end_line);
            if j > 1 {
                assert(rest[0].end_line <= rest[j - 1].start_line);
            }
        }
    }
}

/// The trees of `forest(s, items, lo, hi)` are well formed and lie, in order and without
/// overlap, between the first and the last line of the range.
pub proof fn lemma_forest_wf(s: Seq<char>, items: Seq<LineItem>, nlines: nat, lo: int, hi: int)
    requires
        0 <= lo < hi <= items.len(),
        items_ok(items, nlines, s.len()),
    ensures
        forest_ok(forest(s, items, lo, hi), items[lo].line as int, items[hi - 1].line + 1),
        forall|k: int|
            0 <= k < forest(s, items, lo, hi).len() ==> node_wf(#[trigger] forest(s, items, lo, hi)[k]),
    decreases hi - lo,
{
    let e = block_end(items, lo, hi);
    lemma_scan_end_bounds(items, items[lo].level, lo + 1, hi);
    let ns = forest(s, items, lo, hi);
    let cs = forest(s, items, lo + 1, e);
    let rest = forest(s, items, e, hi);
    let node = ns[0];
    assert(ns == seq![node] + rest);
    assert(node.children == cs);
    lemma_lines_le(items, nlines, s.len(), lo, e - 1);
    lemma_lines_le(items, nlines, s.len(), e - 1, hi - 1);
    if lo + 1 < e {
        lemma_forest_wf(s, items, nlines, lo + 1, e);
        lemma_lines_le(items, nlines, s.len(), lo, lo + 1);
    }
    assert(forest_ok(cs, node.start_line, node.end_line));
    assert(node_wf(node)) by {
        reveal(node_wf);
    }
    if e < hi {
        lemma_forest_wf(s, items, nlines, e, hi);
        lemma_lines_le(items, nlines, s.len(), e - 1, e);
        lemma_forest_ok_cons(node, rest, items[lo].line as int, items[e].line as int, items[hi - 1].line + 1);
    } else {
        assert(rest =~= Seq::<NodeV>::empty());
        lemma_forest_ok_cons(node, rest, items[lo].line as int, node.end_line, items[hi - 1].line + 1);
    }
}

/// Every tree the builder makes is well formed, whatever the content: the root spans the
/// file, and every node's children lie within it, in order, without overlap.
pub proof fn lemma_program_tree_wf(s: Seq<char>, items: Seq<LineItem>, nlines: nat)
    requires
        items_ok(items, nlines, s.len()),
    ensures
        node_wf(program_tree(s, items, nlines as int)),
{
    let t = program_tree(s, items, nlines as int);
    if items.len() > 0 {
        lemma_forest_wf(s, items, nlines, 0, items.len() as int);
        assert(items[items.len() - 1].line < nlines);
    }
    assert(forest_ok(t.children, 0, nlines as int));
    reveal(node_wf);
}

} // verus!
