//! The table of supported languages and the grammar adapter registered for each.
use vstd::prelude::*;
use crate::lines::CommentSyntax;
use crate::text::{chars_of, string_of};

verus! {

/// How a language nests blocks.
#[derive(Clone, Copy, Debug, PartialEq, Eq, Structural)]
pub enum BlockStyle {
    /// Curly braces open and close blocks.
    Braces,
    /// A line's indentation decides what it belongs to.
    Indentation,
}

/// How a language marks a top-level declaration as part of its public API.
#[derive(Clone, Copy, Debug, PartialEq, Eq, Structural)]
pub enum Visibility {
    /// A marker word (`pub`, `export`, `public`) opens the line.
    Marker,
    /// The declared name starts with an upper-case letter.
    Capitalized,
    /// The declared name does not start with an underscore.
    NoUnderscore,
}

/// Everything the engine needs to know of one language.
pub struct GrammarAdapter {
    pub name: Vec<char>,
    pub extensions: Vec<Vec<char>>,
    pub version: Vec<char>,
    pub comments: CommentSyntax,
    pub blocks: BlockStyle,
    /// Words that open an import of another module.
    pub import_words: Vec<Vec<char>>,
    /// Words that open a function declaration.
    pub function_words: Vec<Vec<char>>,
    /// Words that open a type, class or module declaration.
    pub type_words: Vec<Vec<char>>,
    /// Words that open a branching construct (conditionals, loops, handlers).
    pub branch_words: Vec<Vec<char>>,
    /// Short-circuit operators, each a branching construct.
    pub branch_operators: Vec<Vec<char>>,
    /// Words skipped before the word that decides a line's kind (modifiers, `else`).
    pub prefix_words: Vec<Vec<char>>,
    /// Marker words for public declarations, under `Visibility::Marker`.
    pub public_words: Vec<Vec<char>>,
    pub visibility: Visibility,
}

/// What a client learns of a supported language.
pub struct LanguageInfo {
    pub name: String,
    pub extensions: Vec<String>,
    pub parser_version: String,
}

/// Index of the first adapter from `i` on named `name`, or -1.
pub open spec fn index_of_name(ads: Seq<GrammarAdapter>, name: Seq<char>, i: int) -> int
    decreases ads.len() - i,
{
    if i < 0 || i >= ads.len() {
        -1
    } else if ads[i].name@ == name {
        i
    } else {
        index_of_name(ads, name, i + 1)
    }
}

/// `ext` is one of the adapter's extensions.
pub open spec fn has_extension(a: GrammarAdapter, ext: Seq<char>) -> bool {
    exists|j: int| 0 <= j < a.extensions@.len() && (#[trigger] a.extensions@[j])@ == ext
}

/// Index of the first adapter from `i` on with extension `ext`, or -1.
pub open spec fn index_of_extension(ads: Seq<GrammarAdapter>, ext: Seq<char>, i: int) -> int
    decreases ads.len() - i,
{
    if i < 0 || i >= ads.len() {
        -1
    } else if has_extension(ads[i], ext) {
        i
    } else {
        index_of_extension(ads, ext, i + 1)
    }
}

/// The standard languages, in the order they are listed.
pub open spec fn standard_names() -> Seq<Seq<char>> {
    seq!["TypeScript"@, "JavaScript"@, "Python"@, "Rust"@, "Go"@, "Java"@]
}

/// The value of an adapter: every field by its view.
#[verifier::ext_equal]
pub struct AdapterV {
    pub name: Seq<char>,
    pub extensions: Seq<Seq<char>>,
    pub version: Seq<char>,
    pub line_comment: Seq<char>,
    pub block_open: Seq<char>,
    pub block_close: Seq<char>,
    pub blocks: BlockStyle,
    pub import_words: Seq<Seq<char>>,
    pub function_words: Seq<Seq<char>>,
    pub type_words: Seq<Seq<char>>,
    pub branch_words: Seq<Seq<char>>,
    pub branch_operators: Seq<Seq<char>>,
    pub prefix_words: Seq<Seq<char>>,
    pub public_words: Seq<Seq<char>>,
    pub visibility: Visibility,
}

pub open spec fn words_view(v: Seq<Vec<char>>) -> Seq<Seq<char>> {
    v.map_values(|w: Vec<char>| w@)
}

pub open spec fn strs_view(v: Seq<&str>) -> Seq<Seq<char>> {
    v.map_values(|w: &str| w@)
}

pub open spec fn adapter_view(a: GrammarAdapter) -> AdapterV {
    AdapterV {
        name: a.name@,
        extensions: words_view(a.extensions@),
        version: a.version@,
        line_comment: a.comments.line@,
        block_open: a.comments.block_open@,
        block_close: a.comments.block_close@,
        blocks: a.blocks,
        import_words: words_view(a.import_words@),
        function_words: words_view(a.function_words@),
        type_words: words_view(a.type_words@),
        branch_words: words_view(a.branch_words@),
        branch_operators: words_view(a.branch_operators@),
        prefix_words: words_view(a.prefix_words@),
        public_words: words_view(a.public_words@),
        visibility: a.visibility,
    }
}

/// The adapter of a brace language with `//` and `/* */` comments, `&&` and `||` as
/// short-circuit operators, and version `0.20.0`.
pub open spec fn c_like(
    name: Seq<char>,
    extensions: Seq<Seq<char>>,
    imports: Seq<Seq<char>>,
    functions: Seq<Seq<char>>,
    types: Seq<Seq<char>>,
    branches: Seq<Seq<char>>,
    prefixes: Seq<Seq<char>>,
    publics: Seq<Seq<char>>,
    visibility: Visibility,
) -> AdapterV {
    AdapterV {
        name,
        extensions,
        version: "0.20.0"@,
        line_comment: "//"@,
        block_open: "/*"@,
        block_close: "*/"@,
        blocks: BlockStyle::Braces,
        import_words: imports,
        function_words: functions,
        type_words: types,
        branch_words: branches,
        branch_operators: seq!["&&"@, "||"@],
        prefix_words: prefixes,
        public_words: publics,
        visibility,
    }
}

/// The standard adapters, in the order they are listed.
pub open spec fn standard_adapters() -> Seq<AdapterV> {
    seq![
        c_like("TypeScript"@, seq![".ts"@, ".tsx"@], seq!["import"@], seq!["function"@],
            seq!["class"@, "interface"@, "type"@, "enum"@, "namespace"@],
            seq!["if"@, "for"@, "while"@, "case"@, "catch"@],
            seq!["export"@, "default"@, "async"@, "abstract"@, "declare"@, "else"@],
            seq!["export"@], Visibility::Marker),
        c_like("JavaScript"@, seq![".js"@, ".jsx"@, ".mjs"@], seq!["import"@], seq!["function"@],
            seq!["class"@], seq!["if"@, "for"@, "while"@, "case"@, "catch"@],
            seq!["export"@, "default"@, "async"@, "else"@], seq!["export"@], Visibility::Marker),
        AdapterV {
            name: "Python"@,
            extensions: seq![".py"@, ".pyi"@],
            version: "0.20.0"@,
            line_comment: "#"@,
            block_open: Seq::empty(),
            block_close: Seq::empty(),
            blocks: BlockStyle::Indentation,
            import_words: seq!["import"@, "from"@],
            function_words: seq!["def"@],
            type_words: seq!["class"@],
            branch_words: seq!["if"@, "elif"@, "for"@, "while"@, "except"@, "case"@],
            branch_operators: seq![" and "@, " or "@],
            prefix_words: seq!["async"@],
            public_words: Seq::empty(),
            visibility: Visibility::NoUnderscore,
        },
        c_like("Rust"@, seq![".rs"@], seq!["use"@], seq!["fn"@],
            seq!["struct"@, "enum"@, "trait"@, "impl"@, "mod"@, "type"@],
            seq!["if"@, "match"@, "for"@, "while"@, "loop"@], seq!["pub"@, "async"@, "unsafe"@, "else"@],
            seq!["pub"@], Visibility::Marker),
        c_like("Go"@, seq![".go"@], seq!["import"@], seq!["func"@], seq!["type"@],
            seq!["if"@, "for"@, "case"@, "select"@], seq!["else"@], Seq::empty(),
            Visibility::Capitalized),
        c_like("Java"@, seq![".java"@], seq!["import"@],
            seq!["void"@, "int"@, "long"@, "short"@, "byte"@, "char"@, "boolean"@, "float"@,
                "double"@, "String"@],
            seq!["class"@, "interface"@, "enum"@, "record"@],
            seq!["if"@, "for"@, "while"@, "case"@, "catch"@],
            seq!["public"@, "private"@, "protected"@, "static"@, "final"@, "abstract"@,
                "synchronized"@, "else"@],
            seq!["public"@], Visibility::Marker),
    ]
}

/// A language entry as (name, extensions, version).
pub open spec fn info_view(l: LanguageInfo) -> (Seq<char>, Seq<Seq<char>>, Seq<char>) {
    (l.name@, l.extensions@.map_values(|e: String| e@), l.parser_version@)
}

/// The entry listed for an adapter.
pub open spec fn listing(a: AdapterV) -> (Seq<char>, Seq<Seq<char>>, Seq<char>) {
    (a.name, a.extensions, a.version)
}

/// A table of grammar adapters keyed by language name.
pub struct Registry {
    adapters: Vec<GrammarAdapter>,
}

pub fn chars_eq(a: &Vec<char>, b: &Vec<char>) -> (r: bool)
    ensures
        r == (a@ == b@),
{
    if a.len() != b.len() {
        return false;
    }
    let mut k: usize = 0;
    while k < a.len()
        invariant
            a@.len() == b@.len(),
            k <= a@.len(),
            forall|j: int| 0 <= j < k ==> a@[j] == b@[j],
        decreases a@.len() - k,
    {
        if a[k] != b[k] {
            return false;
        }
        k += 1;
    }
    assert(a@ =~= b@);
    true
}

fn words(v: Vec<&str>) -> (r: Vec<Vec<char>>)
    ensures
        words_view(r@) == strs_view(v@),
        r@.len() == v@.len(),
        forall|j: int| 0 <= j < v@.len() ==> (#[trigger] r@[j])@ == v@[j]@,
{
    let mut r: Vec<Vec<char>> = Vec::new();
    let mut k: usize = 0;
    while k < v.len()
        invariant
            k <= v@.len(),
            r@.len() == k,
            forall|j: int| 0 <= j < k ==> (#[trigger] r@[j])@ == v@[j]@,
        decreases v@.len() - k,
    {
        r.push(chars_of(v[k]));
        k += 1;
    }
    assert(words_view(r@) =~= strs_view(v@));
    r
}

fn c_like_comments() -> (r: CommentSyntax)
    ensures
        r.line@ == "//"@,
        r.block_open@ == "/*"@,
        r.block_close@ == "*/"@,
{
    CommentSyntax { line: chars_of("//"), block_open: chars_of("/*"), block_close: chars_of("*/") }
}

fn build(
    name: &str,
    extensions: Vec<&str>,
    comments: CommentSyntax,
    blocks: BlockStyle,
    imports: Vec<&str>,
    functions: Vec<&str>,
    types: Vec<&str>,
    branches: Vec<&str>,
    operators: Vec<&str>,
    prefixes: Vec<&str>,
    publics: Vec<&str>,
    visibility: Visibility,
) -> (r: GrammarAdapter)
    ensures
        adapter_view(r) == (AdapterV {
            name: name@,
            extensions: strs_view(extensions@),
            version: "0.20.0"@,
            line_comment: comments.line@,
            block_open: comments.block_open@,
            block_close: comments.block_close@,
            blocks,
            import_words: strs_view(imports@),
            function_words: strs_view(functions@),
            type_words: strs_view(types@),
            branch_words: strs_view(branches@),
            branch_operators: strs_view(operators@),
            prefix_words: strs_view(prefixes@),
            public_words: strs_view(publics@),
            visibility,
        }),
        r.name@ == name@,
{
    GrammarAdapter {
        name: chars_of(name),
        extensions: words(extensions),
        version: chars_of("0.20.0"),
        comments,
        blocks,
        import_words: words(imports),
        function_words: words(functions),
        type_words: words(types),
        branch_words: words(branches),
        branch_operators: words(operators),
        prefix_words: words(prefixes),
        public_words: words(publics),
        visibility,
    }
}

impl Registry {
    pub closed spec fn adapters(&self) -> Seq<GrammarAdapter> {
        self.adapters@
    }

    /// No two adapters share a name.
    pub open spec fn wf(&self) -> bool {
        forall|i: int, j: int|
            0 <= i < j < self.adapters().len() ==> (#[trigger] self.adapters()[i]).name@
                != (#[trigger] self.adapters()[j]).name@
    }

    pub open spec fn names(&self) -> Seq<Seq<char>> {
        self.adapters().map_values(|a: GrammarAdapter| a.name@)
    }

    /// The standard languages: TypeScript, JavaScript, Python, Rust, Go and Java, each with
    /// the adapter `standard_adapters()` describes.
    pub fn standard() -> (r: Registry)
        ensures
            r.wf(),
            r.names() == standard_names(),
            r.adapters().map_values(|a: GrammarAdapter| adapter_view(a)) == standard_adapters(),
    {
        let ts = build(
            "TypeScript", vec![".ts", ".tsx"], c_like_comments(), BlockStyle::Braces,
            vec!["import"], vec!["function"], vec!["class", "interface", "type", "enum", "namespace"],
            vec!["if", "for", "while", "case", "catch"], vec!["&&", "||"],
            vec!["export", "default", "async", "abstract", "declare", "else"], vec!["export"],
            Visibility::Marker,
        );
        let js = build(
            "JavaScript", vec![".js", ".jsx", ".mjs"], c_like_comments(), BlockStyle::Braces,
            vec!["import"], vec!["function"], vec!["class"],
            vec!["if", "for", "while", "case", "catch"], vec!["&&", "||"],
            vec!["export", "default", "async", "else"], vec!["export"],
            Visibility::Marker,
        );
        let py = build(
            "Python", vec![".py", ".pyi"],
            CommentSyntax { line: chars_of("#"), block_open: Vec::new(), block_close: Vec::new() },
            BlockStyle::Indentation,
            vec!["import", "from"], vec!["def"], vec!["class"],
            vec!["if", "elif", "for", "while", "except", "case"], vec![" and ", " or "],
            vec!["async"], vec![],
            Visibility::NoUnderscore,
        );
        let rs = build(
            "Rust", vec![".rs"], c_like_comments(), BlockStyle::Braces,
            vec!["use"], vec!["fn"], vec!["struct", "enum", "trait", "impl", "mod", "type"],
            vec!["if", "match", "for", "while", "loop"], vec!["&&", "||"],
            vec!["pub", "async", "unsafe", "else"], vec!["pub"],
            Visibility::Marker,
        );
        let go = build(
            "Go", vec![".go"], c_like_comments(), BlockStyle::Braces,
            vec!["import"], vec!["func"], vec!["type"],
            vec!["if", "for", "case", "select"], vec!["&&", "||"],
            vec!["else"], vec![],
            Visibility::Capitalized,
        );
        let java = build(
            "Java", vec![".java"], c_like_comments(), BlockStyle::Braces,
            vec!["import"],
            vec!["void", "int", "long", "short", "byte", "char", "boolean", "float", "double", "String"],
            vec!["class", "interface", "enum", "record"],
            vec!["if", "for", "while", "case", "catch"], vec!["&&", "||"],
            vec!["public", "private", "protected", "static", "final", "abstract", "synchronized", "else"],
            vec!["public"],
            Visibility::Marker,
        );

        let mut adapters: Vec<GrammarAdapter> = Vec::new();
        adapters.push(ts);
        adapters.push(js);
        adapters.push(py);
        adapters.push(rs);
        adapters.push(go);
        adapters.push(java);
        let r = Registry { adapters };
        proof {
            reveal_strlit("TypeScript");
            reveal_strlit("JavaScript");
            reveal_strlit("Python");
            reveal_strlit("Rust");
            reveal_strlit("Go");
            reveal_strlit("Java");
            assert(r.names() =~= standard_names());
            assert(r.adapters().map_values(|a: GrammarAdapter| adapter_view(a)) =~~= standard_adapters());
            assert(r.names()[0][0] == 'T' && r.names()[1][0] == 'J' && r.names()[2][0] == 'P');
            assert(r.names()[3][0] == 'R' && r.names()[4][0] == 'G' && r.names()[5][0] == 'J');
            assert(r.names()[1][1] == 'a' && r.names()[5][1] == 'a');
            assert(r.names()[1].len() != r.names()[5].len());
            assert forall|i: int, j: int|
                0 <= i < j < r.adapters().len() implies (#[trigger] r.adapters()[i]).name@
                != (#[trigger] r.adapters()[j]).name@ by {
                assert(r.names()[i] == r.adapters()[i].name@);
                assert(r.names()[j] == r.adapters()[j].name@);
            }
        }
        r
    }

    /// A registry with no languages.
    pub fn empty() -> (r: Registry)
        ensures
            r.wf(),
            r.adapters().len() == 0,
    {
        Registry { adapters: Vec::new() }
    }

    /// Adds `a` unless a language of that name is registered already; tells whether it did.
    pub fn register(&mut self, a: GrammarAdapter) -> (added: bool)
        requires
            old(self).wf(),
        ensures
            final(self).wf(),
            added == (index_of_name(old(self).adapters(), a.name@, 0) == -1),
            added ==> final(self).adapters() == old(self).adapters().push(a),
            !added ==> final(self).adapters() == old(self).adapters(),
    {
        let found = self.resolve_chars(&a.name);
        if found.is_some() {
            return false;
        }
        proof {
            lemma_index_of_name_none(self.adapters(), a.name@, 0);
        }
        self.adapters.push(a);
        true
    }

    fn resolve_chars(&self, name: &Vec<char>) -> (r: Option<usize>)
        ensures
            match r {
                Some(i) => i as int == index_of_name(self.adapters(), name@, 0) && i
                    < self.adapters().len(),
                None => index_of_name(self.adapters(), name@, 0) == -1,
            },
    {
        let mut i: usize = 0;
        while i < self.adapters.len()
            invariant
                i <= self.adapters@.len(),
                index_of_name(self.adapters(), name@, i as int) == index_of_name(
                    self.adapters(),
                    name@,
                    0,
                ),
            decreases self.adapters@.len() - i,
        {
            if chars_eq(&self.adapters[i].name, name) {
                return Some(i);
            }
            i += 1;
        }
        None
    }

    /// The adapter registered for the language `name`, if any.
    pub fn resolve(&self, name: &str) -> (r: Option<&GrammarAdapter>)
        ensures
            index_of_name(self.adapters(), name@, 0) == -1 ==> r.is_none(),
            index_of_name(self.adapters(), name@, 0) != -1 ==> r == Some(
                &self.adapters()[index_of_name(self.adapters(), name@, 0)],
            ),
    {
        let v = chars_of(name);
        match self.resolve_chars(&v) {
            Some(i) => Some(&self.adapters[i]),
            None => None,
        }
    }

    /// The adapter of the first language that claims the file extension `ext` (with its dot).
    pub fn resolve_extension(&self, ext: &str) -> (r: Option<&GrammarAdapter>)
        ensures
            index_of_extension(self.adapters(), ext@, 0) == -1 ==> r.is_none(),
            index_of_extension(self.adapters(), ext@, 0) != -1 ==> r == Some(
                &self.adapters()[index_of_extension(self.adapters(), ext@, 0)],
            ),
    {
        let e = chars_of(ext);
        let mut i: usize = 0;
        while i < self.adapters.len()
            invariant
                e@ == ext@,
                i <= self.adapters@.len(),
                index_of_extension(self.adapters(), ext@, i as int) == index_of_extension(
                    self.adapters(),
                    ext@,
                    0,
                ),
            decreases self.adapters@.len() - i,
        {
            let a = &self.adapters[i];
            let mut j: usize = 0;
            while j < a.extensions.len()
                invariant
                    e@ == ext@,
                    i < self.adapters@.len(),
                    *a == self.adapters@[i as int],
                    index_of_extension(self.adapters(), ext@, i as int) == index_of_extension(
                        self.adapters(),
                        ext@,
                        0,
                    ),
                    j <= a.extensions@.len(),
                    forall|k: int| 0 <= k < j ==> (#[trigger] a.extensions@[k])@ != ext@,
                decreases a.extensions@.len() - j,
            {
                if chars_eq(&a.extensions[j], &e) {
                    assert(has_extension(self.adapters()[i as int], ext@)) by {
                        assert(a.extensions@[j as int]@ == ext@);
                    }
                    assert(index_of_extension(self.adapters(), ext@, i as int) == i as int);
                    return Some(a);
                }
                j += 1;
            }
            assert(!has_extension(self.adapters()[i as int], ext@));
            i += 1;
        }
        None
    }

    /// The registered languages, in registration order.
    pub fn list_languages(&self) -> (r: Vec<LanguageInfo>)
        ensures
            r@.map_values(|l: LanguageInfo| info_view(l)) == self.adapters().map_values(
                |a: GrammarAdapter| listing(adapter_view(a)),
            ),
            r@.len() == self.adapters().len(),
            forall|i: int|
                0 <= i < r@.len() ==> {
                    &&& (#[trigger] r@[i]).name@ == self.adapters()[i].name@
                    &&& r@[i].parser_version@ == self.adapters()[i].version@
                    &&& r@[i].extensions@.len() == self.adapters()[i].extensions@.len()
                    &&& forall|j: int|
                        0 <= j < r@[i].extensions@.len() ==> (#[trigger] r@[i].extensions@[j])@
                            == self.adapters()[i].extensions@[j]@
                },
    {
        let mut r: Vec<LanguageInfo> = Vec::new();
        let mut i: usize = 0;
        while i < self.adapters.len()
            invariant
                i <= self.adapters@.len(),
                r@.len() == i,
                forall|k: int|
                    0 <= k < i ==> {
                        &&& (#[trigger] r@[k]).name@ == self.adapters()[k].name@
                        &&& r@[k].parser_version@ == self.adapters()[k].version@
                        &&& r@[k].extensions@.len() == self.adapters()[k].extensions@.len()
                        &&& forall|j: int|
                            0 <= j < r@[k].extensions@.len() ==> (#[trigger] r@[k].extensions@[j])@
                                == self.adapters()[k].extensions@[j]@
                    },
            decreases self.adapters@.len() - i,
        {
            let a = &self.adapters[i];
            let mut exts: Vec<String> = Vec::new();
            let mut j: usize = 0;
            while j < a.extensions.len()
                invariant
                    j <= a.extensions@.len(),
                    exts@.len() == j,
                    forall|k: int| 0 <= k < j ==> (#[trigger] exts@[k])@ == a.extensions@[k]@,
                decreases a.extensions@.len() - j,
            {
                exts.push(string_of(&a.extensions[j]));
                j += 1;
            }
            assert(exts@.map_values(|e: String| e@) =~= words_view(a.extensions@));
            r.push(
                LanguageInfo {
                    name: string_of(&a.name),
                    extensions: exts,
                    parser_version: string_of(&a.version),
                },
            );
            i += 1;
        }
        assert(r@.map_values(|l: LanguageInfo| info_view(l)) =~~= self.adapters().map_values(
            |a: GrammarAdapter| listing(adapter_view(a)),
        ));
        r
    }
}

pub proof fn lemma_index_of_name_none(ads: Seq<GrammarAdapter>, name: Seq<char>, i: int)
    requires
        0 <= i,
        index_of_name(ads, name, i) == -1,
    ensures
        forall|j: int| i <= j < ads.len() ==> (#[trigger] ads[j]).name@ != name,
    decreases ads.len() - i,
{
    if i < ads.len() {
        lemma_index_of_name_none(ads, name, i + 1);
    }
}

} // verus!
