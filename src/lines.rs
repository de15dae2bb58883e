//! Splitting content into physical lines and classifying each line as blank, comment or code.
use vstd::prelude::*;
use crate::text::{is_ws, is_ws_exec, matches_at, matches_at_exec, skip_ws, skip_ws_exec};

verus! {

/// The bucket a physical line falls into.
#[derive(Clone, Copy, Debug, PartialEq, Eq, Structural)]
pub enum LineClass {
    Blank,
    Comment,
    Code,
}

/// Comment delimiters of a language; an empty delimiter means the form does not exist.
pub struct CommentSyntax {
    pub line: Vec<char>,
    pub block_open: Vec<char>,
    pub block_close: Vec<char>,
}

/// End of a line's text: a carriage return before the newline is not part of the line.
pub open spec fn cr_trim(s: Seq<char>, a: int, e: int) -> int {
    if a < e && 0 < e <= s.len() && s[e - 1] == '\r' {
        e - 1
    } else {
        e
    }
}

/// Character ranges of the lines of `s` from position `i` on, the current line having begun
/// at `start`. Lines end at a newline; the last line needs none; no line follows a final newline.
pub open spec fn spans_from(s: Seq<char>, start: int, i: int) -> Seq<(int, int)>
    decreases s.len() - i,
{
    if i < 0 || i >= s.len() {
        if 0 <= start < s.len() {
            seq![(start, s.len() as int)]
        } else {
            Seq::empty()
        }
    } else if s[i] == '\n' {
        seq![(start, cr_trim(s, start, i))] + spans_from(s, i + 1, i + 1)
    } else {
        spans_from(s, start, i + 1)
    }
}

/// The character ranges of the physical lines of `s`.
pub open spec fn line_spans(s: Seq<char>) -> Seq<(int, int)> {
    spans_from(s, 0, 0)
}

/// Every range lies within a text of length `n`.
pub open spec fn spans_within(v: Seq<(usize, usize)>, n: nat) -> bool {
    forall|k: int| 0 <= k < v.len() ==> (#[trigger] v[k]).0 <= v[k].1 <= n
}

pub open spec fn span_view(v: Seq<(usize, usize)>) -> Seq<(int, int)> {
    v.map_values(|p: (usize, usize)| (p.0 as int, p.1 as int))
}

/// The ranges of the physical lines of `s`, each within `s`.
pub fn line_spans_exec(s: &Vec<char>) -> (r: Vec<(usize, usize)>)
    ensures
        span_view(r@) == line_spans(s@),
        spans_within(r@, s@.len()),
{
    let mut r: Vec<(usize, usize)> = Vec::new();
    let mut start: usize = 0;
    let mut i: usize = 0;
    while i < s.len()
        invariant
            start <= i <= s@.len(),
            span_view(r@) + spans_from(s@, start as int, i as int) == line_spans(s@),
            spans_within(r@, s@.len()),
        decreases s@.len() - i,
    {
        if s[i] == '\n' {
            let e: usize = if start < i && s[i - 1] == '\r' {
                i - 1
            } else {
                i
            };
            let ghost old_r = r@;
            r.push((start, e));
            assert(span_view(r@) =~= span_view(old_r) + seq![(start as int, e as int)]);
            assert(span_view(r@) + spans_from(s@, (i + 1) as int, (i + 1) as int) =~= span_view(
                old_r,
            ) + spans_from(s@, start as int, i as int));
            start = i + 1;
        }
        i += 1;
    }
    if start < s.len() {
        let ghost old_r = r@;
        r.push((start, s.len()));
        assert(span_view(r@) =~= span_view(old_r) + spans_from(s@, start as int, i as int));
    } else {
        assert(span_view(r@) =~= span_view(r@) + spans_from(s@, start as int, i as int));
    }
    r
}

/// Scans `[i, b)` of a line, given whether a block comment is open at `i`, whether `i` lies
/// in a double-quoted string, and whether code was seen before `i`; gives whether the line
/// holds code outside comments, and whether a block comment is open at its end. A line comment
/// ends the scan. Strings are code: delimiters inside them are not delimiters, and a backslash
/// in a string escapes the next character.
pub open spec fn scan_line(
    s: Seq<char>,
    i: int,
    b: int,
    in_block: bool,
    in_str: bool,
    seen: bool,
    c: CommentSyntax,
) -> (bool, bool)
    decreases b - i,
{
    if i < 0 || i >= b || b > s.len() {
        (seen, in_block)
    } else if in_str {
        if s[i] == '\\' {
            if i + 2 <= b {
                scan_line(s, i + 2, b, false, true, seen, c)
            } else {
                (seen, false)
            }
        } else if s[i] == '"' {
            scan_line(s, i + 1, b, false, false, seen, c)
        } else {
            scan_line(s, i + 1, b, false, true, seen, c)
        }
    } else if in_block {
        if c.block_close@.len() > 0 && matches_at(s, i, b, c.block_close@) {
            scan_line(s, i + c.block_close@.len(), b, false, false, seen, c)
        } else {
            scan_line(s, i + 1, b, true, false, seen, c)
        }
    } else if c.line@.len() > 0 && matches_at(s, i, b, c.line@) {
        (seen, false)
    } else if c.block_open@.len() > 0 && matches_at(s, i, b, c.block_open@) {
        scan_line(s, i + c.block_open@.len(), b, true, false, seen, c)
    } else if s[i] == '"' {
        scan_line(s, i + 1, b, false, true, true, c)
    } else if is_ws(s[i]) {
        scan_line(s, i + 1, b, false, false, seen, c)
    } else {
        scan_line(s, i + 1, b, false, false, true, c)
    }
}

/// Occurrences of `ch` in `[i, b)` that stand in code: outside comments and strings, scanning
/// as `scan_line` does.
pub open spec fn code_count(
    s: Seq<char>,
    i: int,
    b: int,
    ch: char,
    in_block: bool,
    in_str: bool,
    c: CommentSyntax,
) -> nat
    decreases b - i,
{
    if i < 0 || i >= b || b > s.len() {
        0
    } else if in_str {
        if s[i] == '\\' {
            if i + 2 <= b {
                code_count(s, i + 2, b, ch, false, true, c)
            } else {
                0
            }
        } else if s[i] == '"' {
            code_count(s, i + 1, b, ch, false, false, c)
        } else {
            code_count(s, i + 1, b, ch, false, true, c)
        }
    } else if in_block {
        if c.block_close@.len() > 0 && matches_at(s, i, b, c.block_close@) {
            code_count(s, i + c.block_close@.len(), b, ch, false, false, c)
        } else {
            code_count(s, i + 1, b, ch, true, false, c)
        }
    } else if c.line@.len() > 0 && matches_at(s, i, b, c.line@) {
        0
    } else if c.block_open@.len() > 0 && matches_at(s, i, b, c.block_open@) {
        code_count(s, i + c.block_open@.len(), b, ch, true, false, c)
    } else if s[i] == '"' {
        code_count(s, i + 1, b, ch, false, true, c)
    } else {
        code_count(s, i + 1, b, ch, false, false, c) + if s[i] == ch {
            1nat
        } else {
            0nat
        }
    }
}

/// Occurrences of `ch` in code on the line `[a, b)`, a block comment being open at `a` when
/// `in_block` holds.
pub fn code_count_exec(s: &Vec<char>, a: usize, b: usize, ch: char, in_block: bool, c: &CommentSyntax) -> (r: usize)
    requires
        a <= b <= s@.len(),
    ensures
        r == code_count(s@, a as int, b as int, ch, in_block, false, *c),
        r <= b - a,
{
    let mut i = a;
    let mut inb = in_block;
    let mut ins = false;
    let mut n: usize = 0;
    let mut done = false;
    while i < b && !done
        invariant
            a <= i <= b <= s@.len(),
            n <= i - a,
            done ==> code_count(s@, i as int, b as int, ch, inb, ins, *c) == 0,
            n + code_count(s@, i as int, b as int, ch, inb, ins, *c) == code_count(
                s@,
                a as int,
                b as int,
                ch,
                in_block,
                false,
                *c,
            ),
        decreases b - i + if done { 0int } else { 1int },
    {
        if ins {
            if s[i] == '\\' {
                if b - i >= 2 {
                    i += 2;
                    inb = false;
                } else {
                    done = true;
                }
            } else {
                if s[i] == '"' {
                    ins = false;
                }
                inb = false;
                i += 1;
            }
        } else if inb {
            if c.block_close.len() > 0 && matches_at_exec(s, i, b, &c.block_close) {
                i += c.block_close.len();
                inb = false;
            } else {
                i += 1;
            }
        } else if c.line.len() > 0 && matches_at_exec(s, i, b, &c.line) {
            done = true;
        } else if c.block_open.len() > 0 && matches_at_exec(s, i, b, &c.block_open) {
            i += c.block_open.len();
            inb = true;
        } else if s[i] == '"' {
            i += 1;
            ins = true;
        } else {
            if s[i] == ch {
                n += 1;
            }
            i += 1;
        }
    }
    n
}

/// Class of the line `[a, b)` of `s` and whether a block comment is open after it, given
/// whether one was open before it. A line is blank when it holds only whitespace, a comment
/// when all else on it lies inside comments, and code otherwise.
pub open spec fn classify(s: Seq<char>, a: int, b: int, in_block: bool, c: CommentSyntax) -> (
    LineClass,
    bool,
) {
    let r = scan_line(s, a, b, in_block, false, false, c);
    (
        if skip_ws(s, a, b) >= b {
            LineClass::Blank
        } else if r.0 {
            LineClass::Code
        } else {
            LineClass::Comment
        },
        r.1,
    )
}

/// Class of one line, with the block-comment state after it.
pub fn classify_exec(s: &Vec<char>, a: usize, b: usize, in_block: bool, c: &CommentSyntax) -> (r: (
    LineClass,
    bool,
))
    requires
        a <= b <= s@.len(),
    ensures
        r == classify(s@, a as int, b as int, in_block, *c),
{
    let mut i = a;
    let mut inb = in_block;
    let mut ins = false;
    let mut seen = false;
    let mut done = false;
    while i < b && !done
        invariant
            a <= i <= b <= s@.len(),
            !(inb && ins),
            done ==> scan_line(s@, i as int, b as int, inb, ins, seen, *c) == (seen, inb),
            scan_line(s@, i as int, b as int, inb, ins, seen, *c) == scan_line(
                s@,
                a as int,
                b as int,
                in_block,
                false,
                false,
                *c,
            ),
        decreases b - i + if done { 0int } else { 1int },
    {
        if ins {
            if s[i] == '\\' {
                if b - i >= 2 {
                    i += 2;
                } else {
                    done = true;
                }
            } else {
                if s[i] == '"' {
                    ins = false;
                }
                i += 1;
            }
        } else if inb {
            if c.block_close.len() > 0 && matches_at_exec(s, i, b, &c.block_close) {
                i += c.block_close.len();
                inb = false;
            } else {
                i += 1;
            }
        } else if c.line.len() > 0 && matches_at_exec(s, i, b, &c.line) {
            done = true;
        } else if c.block_open.len() > 0 && matches_at_exec(s, i, b, &c.block_open) {
            i += c.block_open.len();
            inb = true;
        } else if s[i] == '"' {
            i += 1;
            ins = true;
            seen = true;
        } else if is_ws_exec(s[i]) {
            i += 1;
        } else {
            i += 1;
            seen = true;
        }
    }
    let f = skip_ws_exec(s, a, b);
    let cls = if f >= b {
        LineClass::Blank
    } else if seen {
        LineClass::Code
    } else {
        LineClass::Comment
    };
    (cls, inb)
}

/// Whether a block comment is open before line `k`, the lines being `spans`.
pub open spec fn block_state(s: Seq<char>, spans: Seq<(int, int)>, k: int, c: CommentSyntax) -> bool
    decreases k,
{
    if k <= 0 {
        false
    } else {
        classify(s, spans[k - 1].0, spans[k - 1].1, block_state(s, spans, k - 1, c), c).1
    }
}

/// Class of line `k`, the lines being `spans`.
pub open spec fn class_at(s: Seq<char>, spans: Seq<(int, int)>, k: int, c: CommentSyntax) -> LineClass {
    classify(s, spans[k].0, spans[k].1, block_state(s, spans, k, c), c).0
}

/// The class of each line in `spans`, in order.
pub open spec fn classes_of(s: Seq<char>, spans: Seq<(int, int)>, c: CommentSyntax) -> Seq<LineClass> {
    Seq::new(spans.len(), |k: int| class_at(s, spans, k, c))
}

/// The class of each physical line of `s`.
pub open spec fn line_classes(s: Seq<char>, c: CommentSyntax) -> Seq<LineClass> {
    classes_of(s, line_spans(s), c)
}

/// Number of entries of `cs` equal to `x`.
pub open spec fn count_class(cs: Seq<LineClass>, x: LineClass) -> nat
    decreases cs.len(),
{
    if cs.len() == 0 {
        0
    } else {
        count_class(cs.drop_last(), x) + if cs.last() == x {
            1nat
        } else {
            0nat
        }
    }
}

/// Every line falls in exactly one bucket: the three counts add up to the number of lines.
pub proof fn lemma_buckets_sum(cs: Seq<LineClass>)
    ensures
        count_class(cs, LineClass::Blank) + count_class(cs, LineClass::Comment) + count_class(
            cs,
            LineClass::Code,
        ) == cs.len(),
    decreases cs.len(),
{
    if cs.len() > 0 {
        lemma_buckets_sum(cs.drop_last());
    }
}

/// Classifies each line of `spans` with the delimiters `c`.
pub fn classify_lines(s: &Vec<char>, spans: &Vec<(usize, usize)>, c: &CommentSyntax) -> (r: Vec<
    LineClass,
>)
    requires
        spans_within(spans@, s@.len()),
    ensures
        r@ == classes_of(s@, span_view(spans@), *c),
{
    let ghost sp = span_view(spans@);
    let mut r: Vec<LineClass> = Vec::new();
    let mut in_block = false;
    let mut k: usize = 0;
    while k < spans.len()
        invariant
            sp == span_view(spans@),
            spans_within(spans@, s@.len()),
            k <= spans@.len(),
            in_block == block_state(s@, sp, k as int, *c),
            r@ =~= Seq::new(k as nat, |j: int| class_at(s@, sp, j, *c)),
        decreases spans@.len() - k,
    {
        let (a, b) = spans[k];
        assert(spans_within(spans@, s@.len()) ==> spans@[k as int].0 <= spans@[k as int].1 <= s@.len());
        let (cls, next) = classify_exec(s, a, b, in_block, c);
        r.push(cls);
        in_block = next;
        k += 1;
        assert(r@ =~= Seq::new(k as nat, |j: int| class_at(s@, sp, j, *c)));
    }
    r
}

/// Line counts of a file.
pub struct LineCounts {
    pub total_lines: usize,
    pub code_lines: usize,
    pub comment_lines: usize,
    pub blank_lines: usize,
}

/// The counts of each bucket in `cs`.
pub fn count_buckets(cs: &Vec<LineClass>) -> (r: LineCounts)
    ensures
        r.total_lines == cs@.len(),
        r.code_lines == count_class(cs@, LineClass::Code),
        r.comment_lines == count_class(cs@, LineClass::Comment),
        r.blank_lines == count_class(cs@, LineClass::Blank),
        r.code_lines + r.comment_lines + r.blank_lines == r.total_lines,
{
    let mut code: usize = 0;
    let mut comment: usize = 0;
    let mut blank: usize = 0;
    let mut k: usize = 0;
    while k < cs.len()
        invariant
            k <= cs@.len(),
            code == count_class(cs@.subrange(0, k as int), LineClass::Code),
            comment == count_class(cs@.subrange(0, k as int), LineClass::Comment),
            blank == count_class(cs@.subrange(0, k as int), LineClass::Blank),
            code + comment + blank == k,
        decreases cs@.len() - k,
    {
        proof {
            assert(cs@.subrange(0, k + 1).drop_last() =~= cs@.subrange(0, k as int));
            lemma_buckets_sum(cs@.subrange(0, k + 1));
        }
        match cs[k] {
            LineClass::Code => code += 1,
            LineClass::Comment => comment += 1,
            LineClass::Blank => blank += 1,
        }
        k += 1;
    }
    assert(cs@.subrange(0, k as int) =~= cs@);
    LineCounts { total_lines: cs.len(), code_lines: code, comment_lines: comment, blank_lines: blank }
}

} // verus!
