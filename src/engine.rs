//! One file's transformation: language lookup, line metrics, syntax tree and derived facts.
use vstd::prelude::*;
use vstd::string::StringExecFns;
use crate::lines::{
    classify_lines, count_buckets, count_class, line_classes, line_spans,
    line_spans_exec, LineClass,
};
use crate::registry::{index_of_name, GrammarAdapter, Registry};
use crate::syntax::{
    block_end, brace_diagnostic, build_tree, diagnose, items_ok, items_upto, lemma_scan_end_bounds, line_items,
    lemma_program_tree_wf, node_view, node_wf, program_tree, Diagnostic, LineItem, NodeKind, NodeV, SyntaxNode,
};
use crate::text::{chars_of, matches_at, matches_at_exec, substring};

verus! {

/// One file to parse. `file_id` correlates the request with its response.
pub struct ParseRequest {
    pub file_id: String,
    pub file_path: String,
    pub language: String,
    pub content: String,
}

/// A reference from the file to another module, unresolved.
pub struct Dependency {
    /// The word that introduced it, such as `import` or `use`.
    pub kind: String,
    /// What follows that word, without a final `;`.
    pub specifier: String,
    pub line: usize,
}

/// A public top-level declaration.
pub struct ExportedSymbol {
    pub name: String,
    pub kind: NodeKind,
    pub start_line: usize,
    pub end_line: usize,
}

/// Size and complexity of a file.
pub struct ParseMetrics {
    pub total_lines: usize,
    pub code_lines: usize,
    pub comment_lines: usize,
    pub blank_lines: usize,
    pub complexity: usize,
    /// Wall-clock time of the parse, filled in by whoever measures it.
    pub parse_time_ms: u64,
}

/// The answer for one request: either a tree with its facts, or an error; never both.
pub struct ParseResponse {
    pub file_id: String,
    pub file_path: String,
    pub language: String,
    pub root: Option<SyntaxNode>,
    pub dependencies: Vec<Dependency>,
    pub exports: Vec<ExportedSymbol>,
    pub metrics: Option<ParseMetrics>,
    /// A problem in the input that did not stop the parse; only beside a tree.
    pub diagnostic: Option<Diagnostic>,
    pub error: String,
}

/// The items of the code lines of `s` under adapter `ad`.
pub open spec fn file_items(s: Seq<char>, ad: GrammarAdapter) -> Seq<LineItem> {
    items_upto(s, line_spans(s), line_classes(s, ad.comments), line_spans(s).len() as int, ad)
}

/// `x`, or the largest `usize` if `x` exceeds it.
pub open spec fn sat(x: nat) -> nat {
    if x > usize::MAX {
        usize::MAX as nat
    } else {
        x
    }
}

/// Length of the first of `ops[j..]` that occurs at `i`, or 0.
pub open spec fn op_len_at(s: Seq<char>, i: int, b: int, ops: Seq<Vec<char>>, j: int) -> int
    decreases ops.len() - j,
{
    if j < 0 || j >= ops.len() {
        0
    } else if ops[j]@.len() > 0 && matches_at(s, i, b, ops[j]@) {
        ops[j]@.len() as int
    } else {
        op_len_at(s, i, b, ops, j + 1)
    }
}

/// Operators of `ops` in `[i, b)` outside double-quoted strings, scanning from the left and
/// taking the first operator that matches (saturating); `in_str` tells whether `i` lies
/// inside a string. A backslash in a string escapes the next character.
pub open spec fn ops_in(s: Seq<char>, i: int, b: int, ops: Seq<Vec<char>>, in_str: bool) -> nat
    decreases b - i,
{
    if i < 0 || i >= b || b > s.len() {
        0
    } else if in_str {
        if s[i] == '\\' {
            if i + 2 <= b {
                ops_in(s, i + 2, b, ops, true)
            } else {
                0
            }
        } else if s[i] == '"' {
            ops_in(s, i + 1, b, ops, false)
        } else {
            ops_in(s, i + 1, b, ops, true)
        }
    } else if s[i] == '"' {
        ops_in(s, i + 1, b, ops, true)
    } else if op_len_at(s, i, b, ops, 0) > 0 && i + op_len_at(s, i, b, ops, 0) <= b {
        sat(1 + ops_in(s, i + op_len_at(s, i, b, ops, 0), b, ops, false))
    } else {
        ops_in(s, i + 1, b, ops, false)
    }
}

/// Branching constructs on one code line: the line's own branch keyword, and each
/// short-circuit operator on it (saturating).
pub open spec fn item_weight(s: Seq<char>, it: LineItem, ad: GrammarAdapter) -> nat {
    sat(
        (if it.kind == NodeKind::Branch {
            1nat
        } else {
            0nat
        }) + ops_in(s, it.start as int, it.end as int, ad.branch_operators@, false),
    )
}

/// Branching constructs over all items (saturating).
pub open spec fn branch_count(s: Seq<char>, items: Seq<LineItem>, ad: GrammarAdapter) -> nat
    decreases items.len(),
{
    if items.len() == 0 {
        0
    } else {
        sat(branch_count(s, items.drop_last(), ad) + item_weight(s, items.last(), ad))
    }
}

/// One for the single path through a file, plus one per branching construct (saturating).
pub open spec fn complexity_of(s: Seq<char>, items: Seq<LineItem>, ad: GrammarAdapter) -> nat {
    sat(1 + branch_count(s, items, ad))
}

fn sat_add(x: usize, y: usize) -> (r: usize)
    ensures
        r == sat((x + y) as nat),
{
    if x > usize::MAX - y {
        usize::MAX
    } else {
        x + y
    }
}

fn op_len_exec(s: &Vec<char>, i: usize, b: usize, ops: &Vec<Vec<char>>) -> (r: usize)
    requires
        b <= s@.len(),
    ensures
        r as int == op_len_at(s@, i as int, b as int, ops@, 0),
        r > 0 ==> i + r <= b,
{
    let mut j: usize = 0;
    while j < ops.len()
        invariant
            b <= s@.len(),
            j <= ops@.len(),
            op_len_at(s@, i as int, b as int, ops@, j as int) == op_len_at(s@, i as int, b as int, ops@, 0),
        decreases ops@.len() - j,
    {
        if ops[j].len() > 0 && matches_at_exec(s, i, b, &ops[j]) {
            return ops[j].len();
        }
        j += 1;
    }
    0
}

proof fn lemma_ops_in_bounded(s: Seq<char>, i: int, b: int, ops: Seq<Vec<char>>, in_str: bool)
    ensures
        ops_in(s, i, b, ops, in_str) <= usize::MAX,
    decreases b - i,
{
    if i < 0 || i >= b || b > s.len() {
    } else if in_str {
        if s[i] == '\\' {
            if i + 2 <= b {
                lemma_ops_in_bounded(s, i + 2, b, ops, true);
            }
        } else if s[i] == '"' {
            lemma_ops_in_bounded(s, i + 1, b, ops, false);
        } else {
            lemma_ops_in_bounded(s, i + 1, b, ops, true);
        }
    } else if s[i] == '"' {
        lemma_ops_in_bounded(s, i + 1, b, ops, true);
    } else if op_len_at(s, i, b, ops, 0) > 0 && i + op_len_at(s, i, b, ops, 0) <= b {
    } else {
        lemma_ops_in_bounded(s, i + 1, b, ops, false);
    }
}

proof fn lemma_sat_shift(n: nat, y: nat)
    ensures
        sat(n + sat(1 + y)) == sat(n + 1 + y),
{
}

fn ops_in_exec(s: &Vec<char>, a: usize, b: usize, ops: &Vec<Vec<char>>) -> (r: usize)
    requires
        a <= b <= s@.len(),
    ensures
        r == ops_in(s@, a as int, b as int, ops@, false),
{
    let mut i = a;
    let mut in_str = false;
    let mut n: usize = 0;
    proof {
        lemma_ops_in_bounded(s@, a as int, b as int, ops@, false);
    }
    while i < b
        invariant
            a <= i,
            b <= s@.len(),
            sat((n + ops_in(s@, i as int, b as int, ops@, in_str)) as nat) == ops_in(s@, a as int, b as int, ops@, false),
        decreases b - i,
    {
        if in_str {
            if s[i] == '\\' {
                i = if b - i >= 2 { i + 2 } else { b };
            } else {
                if s[i] == '"' {
                    in_str = false;
                }
                i += 1;
            }
        } else if s[i] == '"' {
            in_str = true;
            i += 1;
        } else {
            let m = op_len_exec(s, i, b, ops);
            if m > 0 {
                proof {
                    lemma_sat_shift(n as nat, ops_in(s@, (i + m) as int, b as int, ops@, false));
                }
                n = sat_add(n, 1);
                i += m;
            } else {
                i += 1;
            }
        }
    }
    n
}

/// End of an import's specifier: the item's text without a final `;`.
pub open spec fn specifier_end(s: Seq<char>, it: LineItem) -> int {
    if it.end > it.name_start && s[it.end - 1] == ';' {
        it.end - 1
    } else {
        it.end as int
    }
}

/// A dependency as (introducing word, specifier, line).
pub open spec fn dep_of(s: Seq<char>, it: LineItem) -> (Seq<char>, Seq<char>, int) {
    (
        s.subrange(it.key_start as int, it.key_end as int),
        s.subrange(it.name_start as int, specifier_end(s, it)),
        it.line as int,
    )
}

/// The dependencies of the import items, in order.
pub open spec fn deps_of(s: Seq<char>, items: Seq<LineItem>) -> Seq<(Seq<char>, Seq<char>, int)>
    decreases items.len(),
{
    if items.len() == 0 {
        Seq::empty()
    } else if items.last().kind == NodeKind::Import {
        deps_of(s, items.drop_last()).push(dep_of(s, items.last()))
    } else {
        deps_of(s, items.drop_last())
    }
}

pub open spec fn dep_view(d: Dependency) -> (Seq<char>, Seq<char>, int) {
    (d.kind@, d.specifier@, d.line as int)
}

/// A declaration that can be exported.
pub open spec fn is_declaration(k: NodeKind) -> bool {
    k == NodeKind::Function || k == NodeKind::Type
}

/// The exports among the top-level items of `[lo, hi)`: public declarations, as
/// (name, kind, first line, line after the last).
pub open spec fn exports_from(s: Seq<char>, items: Seq<LineItem>, lo: int, hi: int) -> Seq<
    (Seq<char>, NodeKind, int, int),
>
    decreases hi - lo,
    via exports_decreases
{
    if lo < 0 || lo >= hi || hi > items.len() {
        Seq::empty()
    } else {
        let e = block_end(items, lo, hi);
        let it = items[lo];
        if is_declaration(it.kind) && it.public {
            seq![
                (
                    s.subrange(it.name_start as int, it.name_end as int),
                    it.kind,
                    it.line as int,
                    items[e - 1].line + 1,
                ),
            ] + exports_from(s, items, e, hi)
        } else {
            exports_from(s, items, e, hi)
        }
    }
}

#[via_fn]
proof fn exports_decreases(s: Seq<char>, items: Seq<LineItem>, lo: int, hi: int) {
    if !(lo < 0 || lo >= hi || hi > items.len()) {
        lemma_scan_end_bounds(items, items[lo].level, lo + 1, hi);
    }
}

pub open spec fn export_view(x: ExportedSymbol) -> (Seq<char>, NodeKind, int, int) {
    (x.name@, x.kind, x.start_line as int, x.end_line as int)
}

/// What a successful parse of `s` under `ad` holds.
pub struct Parsed {
    pub root: NodeV,
    pub dependencies: Seq<(Seq<char>, Seq<char>, int)>,
    pub exports: Seq<(Seq<char>, NodeKind, int, int)>,
    /// (total, code, comment, blank, complexity)
    pub counts: (nat, nat, nat, nat, nat),
    /// (line, column, message) of the non-fatal diagnostic, if any.
    pub diagnostic: Option<(int, int, Seq<char>)>,
}

/// The parse of content `s` under adapter `ad`.
pub open spec fn parsed(s: Seq<char>, ad: GrammarAdapter) -> Parsed {
    let items = file_items(s, ad);
    let cls = line_classes(s, ad.comments);
    Parsed {
        root: program_tree(s, items, line_spans(s).len() as int),
        dependencies: deps_of(s, items),
        exports: exports_from(s, items, 0, items.len() as int),
        counts: (
            cls.len(),
            count_class(cls, LineClass::Code),
            count_class(cls, LineClass::Comment),
            count_class(cls, LineClass::Blank),
            complexity_of(s, items, ad),
        ),
        diagnostic: brace_diagnostic(s, line_spans(s), cls, ad),
    }
}

/// What a response holds, but for the measured time.
pub struct ResponseV {
    pub file_id: Seq<char>,
    pub file_path: Seq<char>,
    pub language: Seq<char>,
    pub result: Option<Parsed>,
    /// No tree, metrics, dependency, export or diagnostic at all.
    pub bare: bool,
    pub error: Seq<char>,
}

/// The message of an unsupported language.
pub open spec fn unsupported_message(language: Seq<char>) -> Seq<char> {
    "unsupported language: "@ + language
}

/// The response owed to a request for `language` on content `s` from the adapters `ads`.
pub open spec fn expected_response(
    ads: Seq<GrammarAdapter>,
    file_id: Seq<char>,
    file_path: Seq<char>,
    language: Seq<char>,
    s: Seq<char>,
) -> ResponseV {
    let i = index_of_name(ads, language, 0);
    ResponseV {
        file_id,
        file_path,
        language,
        result: if i == -1 {
            None
        } else {
            Some(parsed(s, ads[i]))
        },
        bare: i == -1,
        error: if i == -1 {
            unsupported_message(language)
        } else {
            Seq::empty()
        },
    }
}

pub open spec fn request_response(ads: Seq<GrammarAdapter>, q: ParseRequest) -> ResponseV {
    expected_response(ads, q.file_id@, q.file_path@, q.language@, q.content@)
}

/// The value of a response. It carries a result when it has both a tree and metrics, and is
/// bare when it has none of tree, metrics, dependencies, exports and diagnostic.
pub open spec fn response_view(r: ParseResponse) -> ResponseV {
    ResponseV {
        file_id: r.file_id@,
        file_path: r.file_path@,
        language: r.language@,
        result: match (r.root, r.metrics) {
            (Some(n), Some(m)) => Some(
                Parsed {
                    root: node_view(n),
                    dependencies: r.dependencies@.map_values(|d: Dependency| dep_view(d)),
                    exports: r.exports@.map_values(|x: ExportedSymbol| export_view(x)),
                    counts: (
                        m.total_lines as nat,
                        m.code_lines as nat,
                        m.comment_lines as nat,
                        m.blank_lines as nat,
                        m.complexity as nat,
                    ),
                    diagnostic: match r.diagnostic {
                        Some(d) => Some((d.line as int, d.col as int, d.message@)),
                        None => None,
                    },
                },
            ),
            _ => None,
        },
        bare: r.root.is_none() && r.metrics.is_none() && r.dependencies@.len() == 0
            && r.exports@.len() == 0 && r.diagnostic.is_none(),
        error: r.error@,
    }
}

fn count_branches(s: &Vec<char>, items: &Vec<LineItem>, ad: &GrammarAdapter, nlines: usize) -> (r: usize)
    requires
        items_ok(items@, nlines as nat, s@.len()),
    ensures
        r == branch_count(s@, items@, *ad),
{
    let mut n: usize = 0;
    let mut k: usize = 0;
    while k < items.len()
        invariant
            k <= items@.len(),
            items_ok(items@, nlines as nat, s@.len()),
            n == branch_count(s@, items@.subrange(0, k as int), *ad),
        decreases items@.len() - k,
    {
        assert(items@.subrange(0, k + 1).drop_last() =~= items@.subrange(0, k as int));
        let it = items[k];
        let own: usize = if it.kind == NodeKind::Branch {
            1
        } else {
            0
        };
        let ops = ops_in_exec(s, it.start, it.end, &ad.branch_operators);
        let w = sat_add(own, ops);
        n = sat_add(n, w);
        k += 1;
    }
    assert(items@.subrange(0, k as int) =~= items@);
    n
}

fn collect_dependencies(s: &Vec<char>, items: &Vec<LineItem>, nlines: usize) -> (r: Vec<Dependency>)
    requires
        items_ok(items@, nlines as nat, s@.len()),
    ensures
        r@.map_values(|d: Dependency| dep_view(d)) == deps_of(s@, items@),
{
    let mut r: Vec<Dependency> = Vec::new();
    let mut k: usize = 0;
    while k < items.len()
        invariant
            k <= items@.len(),
            items_ok(items@, nlines as nat, s@.len()),
            r@.map_values(|d: Dependency| dep_view(d)) == deps_of(s@, items@.subrange(0, k as int)),
        decreases items@.len() - k,
    {
        assert(items@.subrange(0, k + 1).drop_last() =~= items@.subrange(0, k as int));
        let it = items[k];
        if it.kind == NodeKind::Import {
            let e = if it.end > it.name_start && s[it.end - 1] == ';' {
                it.end - 1
            } else {
                it.end
            };
            let d = Dependency {
                kind: substring(s, it.key_start, it.key_end),
                specifier: substring(s, it.name_start, e),
                line: it.line,
            };
            let ghost old_r = r@;
            r.push(d);
            assert(r@.map_values(|d: Dependency| dep_view(d)) =~= old_r.map_values(
                |d: Dependency| dep_view(d),
            ).push(dep_view(d)));
        }
        k += 1;
    }
    assert(items@.subrange(0, k as int) =~= items@);
    r
}

fn collect_exports(s: &Vec<char>, items: &Vec<LineItem>, nlines: usize) -> (r: Vec<ExportedSymbol>)
    requires
        items_ok(items@, nlines as nat, s@.len()),
    ensures
        r@.map_values(|x: ExportedSymbol| export_view(x)) == exports_from(
            s@,
            items@,
            0,
            items@.len() as int,
        ),
{
    let hi = items.len();
    let mut r: Vec<ExportedSymbol> = Vec::new();
    let mut cur: usize = 0;
    while cur < hi
        invariant
            cur <= hi == items@.len(),
            items_ok(items@, nlines as nat, s@.len()),
            r@.map_values(|x: ExportedSymbol| export_view(x)) + exports_from(
                s@,
                items@,
                cur as int,
                hi as int,
            ) == exports_from(s@, items@, 0, hi as int),
        decreases hi - cur,
    {
        let lvl = items[cur].level;
        let mut e = cur + 1;
        while e < hi && items[e].level > lvl
            invariant
                cur < e <= hi == items@.len(),
                lvl == items@[cur as int].level,
                crate::syntax::scan_end(items@, lvl, e as int, hi as int) == block_end(
                    items@,
                    cur as int,
                    hi as int,
                ),
            decreases hi - e,
        {
            e += 1;
        }
        let it = items[cur];
        let ghost old_r = r@;
        if (it.kind == NodeKind::Function || it.kind == NodeKind::Type) && it.public {
            assert(items@[e - 1].line < nlines);
            let x = ExportedSymbol {
                name: substring(s, it.name_start, it.name_end),
                kind: it.kind,
                start_line: it.line,
                end_line: items[e - 1].line + 1,
            };
            r.push(x);
            assert(r@.map_values(|x: ExportedSymbol| export_view(x)) =~= old_r.map_values(
                |x: ExportedSymbol| export_view(x),
            ).push(export_view(x)));
            assert(r@.map_values(|x: ExportedSymbol| export_view(x)) + exports_from(
                s@,
                items@,
                e as int,
                hi as int,
            ) =~= old_r.map_values(|x: ExportedSymbol| export_view(x)) + exports_from(
                s@,
                items@,
                cur as int,
                hi as int,
            ));
        }
        cur = e;
    }
    assert(r@.map_values(|x: ExportedSymbol| export_view(x)) =~= r@.map_values(
        |x: ExportedSymbol| export_view(x),
    ) + exports_from(s@, items@, cur as int, hi as int));
    r
}

/// Parses `content` with the grammar adapter `ad`.
pub fn parse_with(ad: &GrammarAdapter, content: &String) -> (r: (
    SyntaxNode,
    Vec<Dependency>,
    Vec<ExportedSymbol>,
    ParseMetrics,
    Option<Diagnostic>,
))
    ensures
        node_view(r.0) == parsed(content@, *ad).root,
        r.1@.map_values(|d: Dependency| dep_view(d)) == parsed(content@, *ad).dependencies,
        r.2@.map_values(|x: ExportedSymbol| export_view(x)) == parsed(content@, *ad).exports,
        (r.3.total_lines as nat, r.3.code_lines as nat, r.3.comment_lines as nat, r.3.blank_lines as nat, r.3.complexity as nat)
            == parsed(content@, *ad).counts,
        r.3.parse_time_ms == 0,
        node_wf(node_view(r.0)),
        match (r.4, parsed(content@, *ad).diagnostic) {
            (None, None) => true,
            (Some(d), Some(x)) => d.line as int == x.0 && d.col as int == x.1 && d.message@ == x.2,
            _ => false,
        },
{
    let s = chars_of(content.as_str());
    let spans = line_spans_exec(&s);
    let cls = classify_lines(&s, &spans, &ad.comments);
    let counts = count_buckets(&cls);
    let items = line_items(&s, &spans, &cls, ad);
    let branches = count_branches(&s, &items, ad, spans.len());
    let root = build_tree(&s, &items, spans.len());
    proof {
        lemma_program_tree_wf(s@, items@, spans@.len() as nat);
    }
    let deps = collect_dependencies(&s, &items, spans.len());
    let exports = collect_exports(&s, &items, spans.len());
    let metrics = ParseMetrics {
        total_lines: counts.total_lines,
        code_lines: counts.code_lines,
        comment_lines: counts.comment_lines,
        blank_lines: counts.blank_lines,
        complexity: sat_add(1, branches),
        parse_time_ms: 0,
    };
    let diagnostic = diagnose(&s, &spans, &cls, ad);
    (root, deps, exports, metrics, diagnostic)
}

/// Parses a request whose language has the adapter `ad`: steps that the measured parse time
/// covers. The response has a tree, facts and metrics, and no error.
pub fn parse_supported(ad: &GrammarAdapter, req: &ParseRequest) -> (r: ParseResponse)
    ensures
        response_view(r) == (ResponseV {
            file_id: req.file_id@,
            file_path: req.file_path@,
            language: req.language@,
            result: Some(parsed(req.content@, *ad)),
            bare: false,
            error: Seq::empty(),
        }),
        r.root.is_some() && r.metrics.is_some(),
        r.metrics.unwrap().parse_time_ms == 0,
        node_wf(node_view(r.root.unwrap())),
{
    let (root, dependencies, exports, metrics, diagnostic) = parse_with(ad, &req.content);
    ParseResponse {
        file_id: req.file_id.clone(),
        file_path: req.file_path.clone(),
        language: req.language.clone(),
        root: Some(root),
        dependencies,
        exports,
        metrics: Some(metrics),
        diagnostic,
        error: String::new(),
    }
}

/// Parses one request with the adapters of `reg`. An unknown language gives a response
/// with only an error; a known one a response with a tree, facts and metrics and no error.
/// The measured time is left at zero.
pub fn parse_one(reg: &Registry, req: &ParseRequest) -> (r: ParseResponse)
    ensures
        response_view(r) == request_response(reg.adapters(), *req),
        r.root.is_some() == r.metrics.is_some(),
        r.root.is_none() ==> r.dependencies@.len() == 0 && r.exports@.len() == 0
            && r.diagnostic.is_none(),
        r.metrics.is_some() ==> r.metrics.unwrap().parse_time_ms == 0,
        r.root.is_some() ==> node_wf(node_view(r.root.unwrap())),
{
    match reg.resolve(req.language.as_str()) {
        None => {
            let error = String::from_str("unsupported language: ").concat(req.language.as_str());
            ParseResponse {
                file_id: req.file_id.clone(),
                file_path: req.file_path.clone(),
                language: req.language.clone(),
                root: None,
                dependencies: Vec::new(),
                exports: Vec::new(),
                metrics: None,
                diagnostic: None,
                error,
            }
        },
        Some(ad) => parse_supported(ad, req),
    }
}

/// For every content and language, the line buckets add up to the number of lines.
pub proof fn lemma_metrics_buckets_sum(s: Seq<char>, ad: GrammarAdapter)
    ensures
        parsed(s, ad).counts.1 + parsed(s, ad).counts.2 + parsed(s, ad).counts.3 == parsed(
            s,
            ad,
        ).counts.0,
{
    crate::lines::lemma_buckets_sum(line_classes(s, ad.comments));
}

/// Parsing the same content under the same declared language gives the same tree, facts
/// and metrics, whatever the request's id or path.
pub proof fn lemma_deterministic(ads: Seq<GrammarAdapter>, q1: ParseRequest, q2: ParseRequest)
    requires
        q1.content@ == q2.content@,
        q1.language@ == q2.language@,
    ensures
        request_response(ads, q1).result == request_response(ads, q2).result,
        request_response(ads, q1).error == request_response(ads, q2).error,
{
}

} // verus!
