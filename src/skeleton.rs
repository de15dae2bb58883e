//! The declarations-only view of a file: signatures with their bodies elided.
use vstd::prelude::*;
use crate::engine::{file_items, is_declaration, unsupported_message, ParseRequest};
use vstd::string::StringExecFns;
use crate::lines::{classify_lines, line_spans_exec};
use crate::registry::{BlockStyle, GrammarAdapter, Registry, index_of_name};
use crate::syntax::{block_end, block_end_exec, items_ok, lemma_scan_end_bounds, line_items, LineItem, NodeKind};
use crate::text::{
    chars_of, string_of, trim_end, trim_end_exec,
};

verus! {

/// The skeleton of one file.
pub struct SkeletonResponse {
    pub file_id: String,
    pub file_path: String,
    /// One line per retained declaration, members of types indented.
    pub skeleton: String,
    /// The signatures of the public top-level declarations, in order.
    pub public_api: Vec<String>,
    /// Empty, or why no skeleton could be made (an unsupported language).
    pub error: String,
}

pub open spec fn item_text(s: Seq<char>, it: LineItem) -> Seq<char> {
    s.subrange(it.start as int, it.end as int)
}

/// The character that opens a declaration's body: `{`, or `:` in an indentation language.
pub open spec fn body_opener(ad: GrammarAdapter) -> char {
    match ad.blocks {
        BlockStyle::Braces => '{',
        BlockStyle::Indentation => ':',
    }
}

/// First `opener` in `t` from `i` on that stands outside double-quoted strings and outside
/// parentheses and brackets, or -1. `depth` counts the brackets open at `i`; a backslash in a
/// string escapes the next character.
pub open spec fn opener_at(t: Seq<char>, i: int, depth: nat, in_str: bool, opener: char) -> int
    decreases t.len() - i,
{
    if i < 0 || i >= t.len() {
        -1
    } else if in_str {
        if t[i] == '\\' {
            if i + 2 <= t.len() {
                opener_at(t, i + 2, depth, true, opener)
            } else {
                -1
            }
        } else if t[i] == '"' {
            opener_at(t, i + 1, depth, false, opener)
        } else {
            opener_at(t, i + 1, depth, true, opener)
        }
    } else if t[i] == '"' {
        opener_at(t, i + 1, depth, true, opener)
    } else if t[i] == opener && depth == 0 {
        i
    } else if t[i] == '(' || t[i] == '[' {
        opener_at(t, i + 1, depth + 1, false, opener)
    } else if t[i] == ')' || t[i] == ']' {
        opener_at(t, i + 1, if depth > 0 { (depth - 1) as nat } else { 0 }, false, opener)
    } else {
        opener_at(t, i + 1, depth, false, opener)
    }
}

/// Where the text of a declaration line opens its body, or -1.
pub open spec fn body_start(t: Seq<char>, opener: char) -> int {
    opener_at(t, 0, 0, false, opener)
}

/// A declaration line with its body elided: what stands before the body's opener, followed by
/// `{ ... }` or `: ...`. A line that opens no body stays as it is.
pub open spec fn render(t: Seq<char>, opener: char) -> Seq<char> {
    if body_start(t, opener) >= 0 {
        t.subrange(0, trim_end(t, 0, body_start(t, opener))) + if opener == '{' {
            " { ... }"@
        } else {
            ": ..."@
        }
    } else {
        t
    }
}

/// A declaration line without its body and without the opener of the body.
pub open spec fn signature(t: Seq<char>, opener: char) -> Seq<char> {
    if body_start(t, opener) >= 0 {
        t.subrange(0, trim_end(t, 0, body_start(t, opener)))
    } else {
        t
    }
}

/// Skeleton lines of the top-level items of `[lo, hi)`, each prefixed with `indent`: every
/// declaration rendered, and under a type declaration, one level deeper, the skeleton of what
/// it holds. Function bodies are not entered.
pub open spec fn decl_lines(
    s: Seq<char>,
    items: Seq<LineItem>,
    lo: int,
    hi: int,
    indent: Seq<char>,
    opener: char,
) -> Seq<Seq<char>>
    decreases hi - lo,
    via decl_lines_decreases
{
    if lo < 0 || lo >= hi || hi > items.len() {
        Seq::empty()
    } else {
        let e = block_end(items, lo, hi);
        if is_declaration(items[lo].kind) {
            seq![indent + render(item_text(s, items[lo]), opener)] + (if items[lo].kind == NodeKind::Type {
                decl_lines(s, items, lo + 1, e, indent + "    "@, opener)
            } else {
                Seq::empty()
            }) + decl_lines(s, items, e, hi, indent, opener)
        } else {
            decl_lines(s, items, e, hi, indent, opener)
        }
    }
}

#[via_fn]
proof fn decl_lines_decreases(
    s: Seq<char>,
    items: Seq<LineItem>,
    lo: int,
    hi: int,
    indent: Seq<char>,
    opener: char,
) {
    if !(lo < 0 || lo >= hi || hi > items.len()) {
        lemma_scan_end_bounds(items, items[lo].level, lo + 1, hi);
    }
}

/// Signatures of the public declarations among the top-level items of `[lo, hi)`.
pub open spec fn api_from(s: Seq<char>, items: Seq<LineItem>, lo: int, hi: int, opener: char) -> Seq<Seq<char>>
    decreases hi - lo,
    via api_decreases
{
    if lo < 0 || lo >= hi || hi > items.len() {
        Seq::empty()
    } else {
        let e = block_end(items, lo, hi);
        if is_declaration(items[lo].kind) && items[lo].public {
            seq![signature(item_text(s, items[lo]), opener)] + api_from(s, items, e, hi, opener)
        } else {
            api_from(s, items, e, hi, opener)
        }
    }
}

#[via_fn]
proof fn api_decreases(s: Seq<char>, items: Seq<LineItem>, lo: int, hi: int, opener: char) {
    if !(lo < 0 || lo >= hi || hi > items.len()) {
        lemma_scan_end_bounds(items, items[lo].level, lo + 1, hi);
    }
}

/// The lines joined with newlines between them.
pub open spec fn join_lines(ls: Seq<Seq<char>>) -> Seq<char>
    decreases ls.len(),
{
    if ls.len() == 0 {
        Seq::empty()
    } else if ls.len() == 1 {
        ls[0]
    } else {
        join_lines(ls.drop_last()) + seq!['\n'] + ls.last()
    }
}

fn extend(v: &mut Vec<char>, w: &Vec<char>)
    ensures
        final(v)@ == old(v)@ + w@,
{
    let ghost v0 = v@;
    let mut k: usize = 0;
    while k < w.len()
        invariant
            k <= w@.len(),
            v@ == v0 + w@.subrange(0, k as int),
        decreases w@.len() - k,
    {
        v.push(w[k]);
        k += 1;
        assert(v@ =~= v0 + w@.subrange(0, k as int));
    }
    assert(w@.subrange(0, k as int) =~= w@);
}

fn text_exec(s: &Vec<char>, it: LineItem) -> (r: Vec<char>)
    requires
        it.start <= it.end <= s@.len(),
    ensures
        r@ == item_text(s@, it),
{
    let mut r: Vec<char> = Vec::new();
    let mut k = it.start;
    while k < it.end
        invariant
            it.start <= k <= it.end <= s@.len(),
            r@ == s@.subrange(it.start as int, k as int),
        decreases it.end - k,
    {
        r.push(s[k]);
        k += 1;
        assert(r@ =~= s@.subrange(it.start as int, k as int));
    }
    r
}

fn prefix(t: &Vec<char>, e: usize) -> (r: Vec<char>)
    requires
        e <= t@.len(),
    ensures
        r@ == t@.subrange(0, e as int),
{
    let mut r: Vec<char> = Vec::new();
    let mut k: usize = 0;
    while k < e
        invariant
            e <= t@.len(),
            k <= e,
            r@ == t@.subrange(0, k as int),
        decreases e - k,
    {
        r.push(t[k]);
        k += 1;
        assert(r@ =~= t@.subrange(0, k as int));
    }
    r
}

fn body_start_exec(t: &Vec<char>, opener: char) -> (r: Option<usize>)
    ensures
        match r {
            Some(p) => p as int == body_start(t@, opener) && p < t@.len(),
            None => body_start(t@, opener) == -1,
        },
{
    let mut i: usize = 0;
    let mut depth: usize = 0;
    let mut ins = false;
    while i < t.len()
        invariant
            depth <= i <= t@.len(),
            opener_at(t@, i as int, depth as nat, ins, opener) == body_start(t@, opener),
        decreases t@.len() - i,
    {
        if ins {
            if t[i] == '\\' {
                if t.len() - i >= 2 {
                    i += 2;
                } else {
                    return None;
                }
            } else {
                if t[i] == '"' {
                    ins = false;
                }
                i += 1;
            }
        } else if t[i] == '"' {
            ins = true;
            i += 1;
        } else if t[i] == opener && depth == 0 {
            return Some(i);
        } else if t[i] == '(' || t[i] == '[' {
            depth += 1;
            i += 1;
        } else if t[i] == ')' || t[i] == ']' {
            if depth > 0 {
                depth -= 1;
            }
            i += 1;
        } else {
            i += 1;
        }
    }
    None
}

fn render_exec(t: &Vec<char>, opener: char) -> (r: Vec<char>)
    ensures
        r@ == render(t@, opener),
{
    match body_start_exec(t, opener) {
        Some(p) => {
            let mut r = prefix(t, trim_end_exec(t, 0, p));
            if opener == '{' {
                extend(&mut r, &chars_of(" { ... }"));
            } else {
                extend(&mut r, &chars_of(": ..."));
            }
            r
        },
        None => {
            let r = t.clone();
            assert(r@ =~= t@);
            r
        },
    }
}

fn signature_exec(t: &Vec<char>, opener: char) -> (r: Vec<char>)
    ensures
        r@ == signature(t@, opener),
{
    match body_start_exec(t, opener) {
        Some(p) => prefix(t, trim_end_exec(t, 0, p)),
        None => {
            let r = t.clone();
            assert(r@ =~= t@);
            r
        },
    }
}

fn decl_lines_exec(
    s: &Vec<char>,
    items: &Vec<LineItem>,
    lo: usize,
    hi: usize,
    indent: &Vec<char>,
    opener: char,
    nlines: usize,
    out: &mut Vec<Vec<char>>,
)
    requires
        lo <= hi <= items@.len(),
        items_ok(items@, nlines as nat, s@.len()),
    ensures
        final(out)@.map_values(|v: Vec<char>| v@) == old(out)@.map_values(|v: Vec<char>| v@)
            + decl_lines(s@, items@, lo as int, hi as int, indent@, opener),
    decreases hi - lo,
{
    let ghost out0 = out@.map_values(|v: Vec<char>| v@);
    let mut cur = lo;
    while cur < hi
        invariant
            lo <= cur <= hi <= items@.len(),
            items_ok(items@, nlines as nat, s@.len()),
            out@.map_values(|v: Vec<char>| v@) + decl_lines(s@, items@, cur as int, hi as int, indent@, opener)
                == out0 + decl_lines(s@, items@, lo as int, hi as int, indent@, opener),
        decreases hi - cur,
    {
        let e = block_end_exec(items, cur, hi);
        let it = items[cur];
        let ghost before = out@.map_values(|v: Vec<char>| v@);
        if it.kind == NodeKind::Function || it.kind == NodeKind::Type {
            let mut line = indent.clone();
            assert(line@ =~= indent@);
            extend(&mut line, &render_exec(&text_exec(s, it), opener));
            out.push(line);
            assert(out@.map_values(|v: Vec<char>| v@) =~= before.push(line@));
            let ghost mid = out@.map_values(|v: Vec<char>| v@);
            if it.kind == NodeKind::Type {
                let mut deeper = indent.clone();
                assert(deeper@ =~= indent@);
                extend(&mut deeper, &chars_of("    "));
                decl_lines_exec(s, items, cur + 1, e, &deeper, opener, nlines, out);
            } else {
                assert(out@.map_values(|v: Vec<char>| v@) =~= mid + Seq::<Seq<char>>::empty());
            }
        }
        assert(out@.map_values(|v: Vec<char>| v@) + decl_lines(s@, items@, e as int, hi as int, indent@, opener)
            =~= before + decl_lines(s@, items@, cur as int, hi as int, indent@, opener));
        cur = e;
    }
    assert(out@.map_values(|v: Vec<char>| v@) =~= out@.map_values(|v: Vec<char>| v@)
        + decl_lines(s@, items@, cur as int, hi as int, indent@, opener));
}

fn api_exec(s: &Vec<char>, items: &Vec<LineItem>, opener: char, nlines: usize) -> (r: Vec<String>)
    requires
        items_ok(items@, nlines as nat, s@.len()),
    ensures
        r@.map_values(|x: String| x@) == api_from(s@, items@, 0, items@.len() as int, opener),
{
    let hi = items.len();
    let mut api: Vec<String> = Vec::new();
    let mut cur: usize = 0;
    while cur < hi
        invariant
            cur <= hi == items@.len(),
            items_ok(items@, nlines as nat, s@.len()),
            api@.map_values(|x: String| x@) + api_from(s@, items@, cur as int, hi as int, opener)
                == api_from(s@, items@, 0, hi as int, opener),
        decreases hi - cur,
    {
        let e = block_end_exec(items, cur, hi);
        let it = items[cur];
        let ghost api_before = api@.map_values(|x: String| x@);
        if (it.kind == NodeKind::Function || it.kind == NodeKind::Type) && it.public {
            let sig = string_of(&signature_exec(&text_exec(s, it), opener));
            api.push(sig);
            assert(api@.map_values(|x: String| x@) =~= api_before.push(sig@));
        }
        assert(api@.map_values(|x: String| x@) + api_from(s@, items@, e as int, hi as int, opener)
            =~= api_before + api_from(s@, items@, cur as int, hi as int, opener));
        cur = e;
    }
    assert(api@.map_values(|x: String| x@) =~= api@.map_values(|x: String| x@)
        + api_from(s@, items@, cur as int, hi as int, opener));
    api
}

fn join_exec(ls: &Vec<Vec<char>>) -> (r: Vec<char>)
    ensures
        r@ == join_lines(ls@.map_values(|v: Vec<char>| v@)),
{
    let ghost lv = ls@.map_values(|v: Vec<char>| v@);
    let mut r: Vec<char> = Vec::new();
    let mut k: usize = 0;
    while k < ls.len()
        invariant
            lv == ls@.map_values(|v: Vec<char>| v@),
            k <= ls@.len(),
            r@ == join_lines(lv.subrange(0, k as int)),
        decreases ls@.len() - k,
    {
        assert(lv.subrange(0, k + 1).drop_last() =~= lv.subrange(0, k as int));
        if k > 0 {
            r.push('\n');
        }
        extend(&mut r, &ls[k]);
        k += 1;
        assert(r@ =~= join_lines(lv.subrange(0, k as int)));
    }
    assert(lv.subrange(0, k as int) =~= lv);
    r
}

/// The skeleton owed to content `s` under adapter `ad`: its lines and public signatures.
pub open spec fn skeleton_of(s: Seq<char>, ad: GrammarAdapter) -> (Seq<char>, Seq<Seq<char>>) {
    let items = file_items(s, ad);
    (
        join_lines(decl_lines(s, items, 0, items.len() as int, Seq::empty(), body_opener(ad))),
        api_from(s, items, 0, items.len() as int, body_opener(ad)),
    )
}

/// The skeleton of a request's content. An unsupported language gives an empty skeleton and
/// no signatures.
pub fn extract_skeleton(reg: &Registry, req: &ParseRequest) -> (r: SkeletonResponse)
    ensures
        r.file_id@ == req.file_id@,
        r.file_path@ == req.file_path@,
        index_of_name(reg.adapters(), req.language@, 0) == -1 ==> r.skeleton@.len() == 0
            && r.public_api@.len() == 0 && r.error@ == unsupported_message(req.language@),
        index_of_name(reg.adapters(), req.language@, 0) != -1 ==> r.error@.len() == 0,
        index_of_name(reg.adapters(), req.language@, 0) != -1 ==> (r.skeleton@, r.public_api@.map_values(|x: String| x@))
            == skeleton_of(req.content@, reg.adapters()[index_of_name(reg.adapters(), req.language@, 0)]),
{
    match reg.resolve(req.language.as_str()) {
        None => SkeletonResponse {
            file_id: req.file_id.clone(),
            file_path: req.file_path.clone(),
            skeleton: String::new(),
            public_api: Vec::new(),
            error: String::from_str("unsupported language: ").concat(req.language.as_str()),
        },
        Some(ad) => {
            let s = chars_of(req.content.as_str());
            let spans = line_spans_exec(&s);
            let cls = classify_lines(&s, &spans, &ad.comments);
            let items = line_items(&s, &spans, &cls, ad);
            let mut lines: Vec<Vec<char>> = Vec::new();
            let indent: Vec<char> = Vec::new();
            assert(indent@ =~= Seq::<char>::empty());
            let opener = match ad.blocks {
                BlockStyle::Braces => '{',
                BlockStyle::Indentation => ':',
            };
            decl_lines_exec(&s, &items, 0, items.len(), &indent, opener, spans.len(), &mut lines);
            assert(lines@.map_values(|v: Vec<char>| v@) =~= decl_lines(s@, items@, 0, items@.len() as int, Seq::empty(), opener));
            let api = api_exec(&s, &items, opener, spans.len());
            let text = join_exec(&lines);
            SkeletonResponse {
                file_id: req.file_id.clone(),
                file_path: req.file_path.clone(),
                skeleton: string_of(&text),
                public_api: api,
                error: String::new(),
            }
        },
    }
}

} // verus!
