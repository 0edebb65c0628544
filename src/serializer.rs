//! Locating the export root, extracting rows from it and rendering them.
use vstd::prelude::*;
use vstd::string::StringExecFns;

use crate::cli::Export;
use crate::pattern::{
    capture_name,
    compiles,
    escape_literal,
    escaped,
    named_capture,
    regex_compiles,
};
use crate::text::{chars_of, ends_with, has_suffix, string_of, trim, trimmed};
use crate::workflowy::{has_kids, kids, Point, Tree};

verus! {

/// The three ways an export can fail.
#[derive(Debug, Clone, Copy, PartialEq, Eq, Structural)]
pub enum ErrorKind {
    /// The reference holds no identifier.
    InvalidReference,
    /// No node's identifier ends with the one asked for.
    NotFound,
    /// A prefix rule could not be compiled to a pattern.
    RuleCompilation,
}

/// A failed export, with a message for the user.
#[derive(Debug)]
pub struct SerializerError {
    pub kind: ErrorKind,
    pub msg: String,
}

// ---------------------------------------------------------------------------
// Reference to identifier

/// End of the text of `s[..j]` once trailing `/` are dropped.
pub open spec fn segment_end(s: Seq<char>, j: int) -> int
    decreases j,
{
    if 0 < j <= s.len() && s[j - 1] == '/' {
        segment_end(s, j - 1)
    } else {
        j
    }
}

/// Start of the run of non-`/` characters that ends at `i`.
pub open spec fn segment_start(s: Seq<char>, i: int) -> int
    decreases i,
{
    if 0 < i <= s.len() && s[i - 1] != '/' {
        segment_start(s, i - 1)
    } else {
        i
    }
}

/// The last non-empty `/`-separated segment of `s`, if there is one.
pub open spec fn root_id_of(s: Seq<char>) -> Option<Seq<char>> {
    let j = segment_end(s, s.len() as int);
    if j == 0 {
        None
    } else {
        Some(s.subrange(segment_start(s, j), j))
    }
}

/// The identifier that a permalink or a bare identifier names.
pub fn extract_root_id(raw_root_id: &String) -> (r: Option<String>)
    ensures
        r is None <==> root_id_of(raw_root_id@) is None,
        r matches Some(id) ==> root_id_of(raw_root_id@) == Some(id@),
{
    let cs = chars_of(raw_root_id.as_str());
    let mut hi: usize = cs.len();
    while hi > 0 && cs[hi - 1] == '/'
        invariant
            cs@ == raw_root_id@,
            hi <= cs@.len(),
            segment_end(cs@, hi as int) == segment_end(cs@, cs@.len() as int),
        decreases hi,
    {
        hi = hi - 1;
    }
    if hi == 0 {
        return None;
    }
    let mut lo: usize = hi;
    while lo > 0 && cs[lo - 1] != '/'
        invariant
            cs@ == raw_root_id@,
            lo <= hi <= cs@.len(),
            hi == segment_end(cs@, cs@.len() as int),
            segment_start(cs@, lo as int) == segment_start(cs@, hi as int),
        decreases lo,
    {
        lo = lo - 1;
    }
    Some(string_of(&cs.as_slice()[lo..hi]))
}

// ---------------------------------------------------------------------------
// Locating a node

/// The first node, in depth-first order with siblings in order, of the tree
/// rooted at `p` whose identifier ends with `id`.
pub open spec fn find_in_point(p: Point, id: Seq<char>) -> Option<Point>
    decreases p, 0int,
{
    if has_suffix(p.id@, id) {
        Some(p)
    } else {
        match p.children {
            Some(v) => find_from(v@, 0, id),
            None => None,
        }
    }
}

/// The first match in the trees `s[i..]`, taken in order.
pub open spec fn find_from(s: Seq<Point>, i: int, id: Seq<char>) -> Option<Point>
    decreases s, s.len() - i,
{
    if 0 <= i < s.len() {
        match find_in_point(s[i], id) {
            Some(q) => Some(q),
            None => find_from(s, i + 1, id),
        }
    } else {
        None
    }
}

fn traverse_tree<'a>(tree: &'a Point, point_id: &String) -> (r: Option<&'a Point>)
    ensures
        r matches Some(q) ==> find_in_point(*tree, point_id@) == Some(*q),
        r is None ==> find_in_point(*tree, point_id@) is None,
    decreases *tree, 0int,
{
    if ends_with(tree.id.as_str(), point_id.as_str()) {
        Some(tree)
    } else {
        match &tree.children {
            Some(v) => traverse_trees(v, point_id),
            None => None,
        }
    }
}

/// The first node of the forest `trees`, depth-first with siblings in
/// order, whose identifier ends with `point_id`.
pub fn traverse_trees<'a>(trees: &'a Vec<Point>, point_id: &String) -> (r: Option<&'a Point>)
    ensures
        r matches Some(q) ==> find_from(trees@, 0, point_id@) == Some(*q),
        r is None ==> find_from(trees@, 0, point_id@) is None,
    decreases trees@, 1int,
{
    let mut i: usize = 0;
    while i < trees.len()
        invariant
            i <= trees@.len(),
            find_from(trees@, i as int, point_id@) == find_from(trees@, 0, point_id@),
        decreases trees.len() - i,
    {
        let found = traverse_tree(&trees[i], point_id);
        if found.is_some() {
            return found;
        }
        i = i + 1;
    }
    None
}

// ---------------------------------------------------------------------------
// Prefix rules

/// The view of each string of a sequence.
pub open spec fn seq_views(v: Seq<String>) -> Seq<Seq<char>> {
    v.map_values(|s: String| s@)
}

/// The view of an optional string.
pub open spec fn opt_view(o: Option<String>) -> Option<Seq<char>> {
    match o {
        Some(s) => Some(s@),
        None => None,
    }
}

/// The pattern of a prefix rule: case-insensitive, any number of markup
/// tags, the literal prefix, and the rest of the line captured as `name`.
pub open spec fn prefix_pattern(prefix: Seq<char>) -> Seq<char> {
    "(?i)(<.*?>)*"@ + escaped(prefix) + "(?P<name>.*)"@
}

/// The pattern that skips white space, colons and closing tags.
pub open spec fn strip_pattern() -> Seq<char> {
    "(\\s|:|(</.*?>))*(?P<name>.*)"@
}

/// Whether the pattern of a prefix rule compiles.
pub open spec fn rule_compiles(prefix: Seq<char>) -> bool {
    regex_compiles(prefix_pattern(prefix))
}

/// Whether the patterns of all prefix rules compile.
pub open spec fn rules_compile(prefixes: Seq<Seq<char>>) -> bool {
    forall|i: int| 0 <= i < prefixes.len() ==> #[trigger] rule_compiles(prefixes[i])
}

/// `c` without its leading white space, colons and closing tags; unchanged
/// where the strip pattern does not apply.
pub open spec fn stripped(c: Seq<char>) -> Seq<char> {
    if regex_compiles(strip_pattern()) {
        match named_capture(strip_pattern(), c) {
            Some(r) => r,
            None => c,
        }
    } else {
        c
    }
}

/// The definition that one prefix rule finds in an attribute's content.
pub open spec fn candidate(content: Seq<char>, prefix: Seq<char>) -> Option<Seq<char>> {
    match named_capture(prefix_pattern(prefix), content) {
        Some(c) => Some(trimmed(stripped(c))),
        None => None,
    }
}

/// The definitions found in one attribute's content, in rule order.
pub open spec fn attr_defs(content: Seq<char>, prefixes: Seq<Seq<char>>) -> Seq<Seq<char>>
    decreases prefixes.len(),
{
    if prefixes.len() == 0 {
        Seq::empty()
    } else {
        attr_defs(content, prefixes.drop_last()) + match candidate(content, prefixes.last()) {
            Some(d) => seq![d],
            None => Seq::empty(),
        }
    }
}

/// The definitions of a word: those of each attribute node, in order.
pub open spec fn word_defs(attrs: Seq<Point>, prefixes: Seq<Seq<char>>) -> Seq<Seq<char>>
    decreases attrs.len(),
{
    if attrs.len() == 0 {
        Seq::empty()
    } else {
        word_defs(attrs.drop_last(), prefixes) + attr_defs(attrs.last().content@, prefixes)
    }
}

/// Builds the pattern of a prefix rule.
fn prefix_regex(prefix: &str) -> (r: String)
    ensures
        r@ == prefix_pattern(prefix@),
{
    let mut p = String::from_str("(?i)(<.*?>)*");
    let e = escape_literal(prefix);
    p.append(e.as_str());
    p.append("(?P<name>.*)");
    p
}

/// What follows the prefix in `content`, when the prefix rule matches it.
pub fn find_remove_prefix(content: String, prefix: &String) -> (r: Result<
    Option<String>,
    SerializerError,
>)
    ensures
        r is Err <==> !rule_compiles(prefix@),
        r matches Err(e) ==> e.kind == ErrorKind::RuleCompilation,
        r matches Ok(o) ==> opt_view(o) == named_capture(prefix_pattern(prefix@), content@),
{
    let p = prefix_regex(prefix.as_str());
    if !compiles(p.as_str()) {
        let mut msg = String::from_str("Cannot compile the prefix rule \"");
        msg.append(prefix.as_str());
        msg.append("\"");
        return Err(SerializerError { kind: ErrorKind::RuleCompilation, msg });
    }
    Ok(capture_name(p.as_str(), content.as_str()))
}

/// `content` without its leading white space, colons and closing tags.
pub fn strip_prefix(content: String) -> (r: String)
    ensures
        r@ == stripped(content@),
{
    let p = "(\\s|:|(</.*?>))*(?P<name>.*)";
    if compiles(p) {
        match capture_name(p, content.as_str()) {
            Some(c) => c,
            None => content,
        }
    } else {
        content
    }
}

/// Whether every prefix rule compiles.
fn check_rules(prefixes: &Vec<String>) -> (r: bool)
    ensures
        r == rules_compile(seq_views(prefixes@)),
{
    let mut i: usize = 0;
    while i < prefixes.len()
        invariant
            i <= prefixes@.len(),
            forall|k: int| 0 <= k < i ==> #[trigger] rule_compiles(prefixes@[k]@),
        decreases prefixes.len() - i,
    {
        let p = prefix_regex(prefixes[i].as_str());
        if !compiles(p.as_str()) {
            assert(seq_views(prefixes@)[i as int] == prefixes@[i as int]@);
            assert(!rule_compiles(seq_views(prefixes@)[i as int]));
            return false;
        }
        i = i + 1;
    }
    assert forall|k: int| 0 <= k < seq_views(prefixes@).len() implies #[trigger] rule_compiles(
        seq_views(prefixes@)[k],
    ) by {
        assert(seq_views(prefixes@)[k] == prefixes@[k]@);
    }
    true
}

/// The definitions of a word with attribute nodes `attrs`.
fn definitions_of(attrs: &Vec<Point>, prefixes: &Vec<String>) -> (r: Vec<String>)
    requires
        rules_compile(seq_views(prefixes@)),
    ensures
        seq_views(r@) == word_defs(attrs@, seq_views(prefixes@)),
{
    let ghost ps = seq_views(prefixes@);
    let mut defs: Vec<String> = Vec::new();
    let mut i: usize = 0;
    while i < attrs.len()
        invariant
            ps == seq_views(prefixes@),
            rules_compile(ps),
            i <= attrs@.len(),
            seq_views(defs@) == word_defs(attrs@.subrange(0, i as int), ps),
        decreases attrs.len() - i,
    {
        let ghost before = seq_views(defs@);
        let content = &attrs[i].content;
        let mut j: usize = 0;
        while j < prefixes.len()
            invariant
                ps == seq_views(prefixes@),
                rules_compile(ps),
                i < attrs@.len(),
                *content == attrs@[i as int].content,
                j <= prefixes@.len(),
                seq_views(defs@) == before + attr_defs(content@, ps.subrange(0, j as int)),
            decreases prefixes.len() - j,
        {
            assert(ps[j as int] == prefixes@[j as int]@);
            assert(rule_compiles(ps[j as int]));
            let ghost old_defs = defs@;
            assert(ps.subrange(0, j as int + 1).drop_last() =~= ps.subrange(0, j as int));
            match find_remove_prefix(content.clone(), &prefixes[j]) {
                Ok(Some(c)) => {
                    let d = trim(strip_prefix(c));
                    defs.push(d);
                    assert(seq_views(defs@) =~= seq_views(old_defs).push(d@));
                },
                _ => {},
            }
            assert(seq_views(defs@) =~= before + attr_defs(content@, ps.subrange(0, j as int + 1)));
            j = j + 1;
        }
        assert(ps.subrange(0, prefixes@.len() as int) =~= ps);
        assert(attrs@.subrange(0, i as int + 1).drop_last() =~= attrs@.subrange(0, i as int));
        i = i + 1;
    }
    assert(attrs@.subrange(0, attrs@.len() as int) =~= attrs@);
    defs
}

// ---------------------------------------------------------------------------
// Rows

/// One exported line: a headword and its definitions.
pub struct Row {
    pub headword: String,
    pub definitions: Vec<String>,
}

impl View for Row {
    type V = (Seq<char>, Seq<Seq<char>>);

    open spec fn view(&self) -> (Seq<char>, Seq<Seq<char>>) {
        (self.headword@, seq_views(self.definitions@))
    }
}

/// The view of each row of a sequence.
pub open spec fn rows_view(rows: Seq<Row>) -> Seq<(Seq<char>, Seq<Seq<char>>)> {
    rows.map_values(|r: Row| r@)
}

/// The row of a word node: none where it has no attribute node.
pub open spec fn word_row(word: Point, prefixes: Seq<Seq<char>>) -> Seq<(Seq<char>, Seq<Seq<char>>)> {
    if has_kids(word) {
        seq![(trimmed(word.content@), word_defs(kids(word), prefixes))]
    } else {
        Seq::empty()
    }
}

/// The rows of the word nodes `words`, in order.
pub open spec fn rows_of(words: Seq<Point>, prefixes: Seq<Seq<char>>) -> Seq<
    (Seq<char>, Seq<Seq<char>>),
>
    decreases words.len(),
{
    if words.len() == 0 {
        Seq::empty()
    } else {
        rows_of(words.drop_last(), prefixes) + word_row(words.last(), prefixes)
    }
}

/// The rows of the subtree at `root`: one per child of `root` that has
/// children itself.
pub fn extract(root: &Point, prefixes: &Vec<String>) -> (r: Result<Vec<Row>, SerializerError>)
    ensures
        r is Err <==> !rules_compile(seq_views(prefixes@)),
        r matches Err(e) ==> e.kind == ErrorKind::RuleCompilation,
        r matches Ok(rows) ==> rows_view(rows@) == rows_of(kids(*root), seq_views(prefixes@)),
{
    if !check_rules(prefixes) {
        let msg = String::from_str("Cannot compile a prefix rule");
        return Err(SerializerError { kind: ErrorKind::RuleCompilation, msg });
    }
    let ghost ps = seq_views(prefixes@);
    let mut rows: Vec<Row> = Vec::new();
    match &root.children {
        Some(words) => {
            let mut i: usize = 0;
            while i < words.len()
                invariant
                    ps == seq_views(prefixes@),
                    rules_compile(ps),
                    kids(*root) == words@,
                    i <= words@.len(),
                    rows_view(rows@) == rows_of(words@.subrange(0, i as int), ps),
                decreases words.len() - i,
            {
                let word = &words[i];
                let ghost old_rows = rows@;
                assert(words@.subrange(0, i as int + 1).drop_last() =~= words@.subrange(0, i as int));
                match &word.children {
                    Some(attrs) => {
                        if attrs.len() > 0 {
                            let headword = trim(word.content.clone());
                            let definitions = definitions_of(attrs, prefixes);
                            let row = Row { headword, definitions };
                            rows.push(row);
                            assert(rows_view(rows@) =~= rows_view(old_rows).push(row@));
                        }
                    },
                    None => {},
                }
                assert(rows_view(rows@) =~= rows_of(words@.subrange(0, i as int + 1), ps));
                i = i + 1;
            }
            assert(words@.subrange(0, words@.len() as int) =~= words@);
        },
        None => {
            assert(rows_view(rows@) =~= Seq::empty());
        },
    }
    Ok(rows)
}

// ---------------------------------------------------------------------------
// Rendering

/// Each of `xs` preceded by a tab.
pub open spec fn tabbed(xs: Seq<Seq<char>>) -> Seq<char>
    decreases xs.len(),
{
    if xs.len() == 0 {
        Seq::empty()
    } else {
        tabbed(xs.drop_last()) + seq!['\t'] + xs.last()
    }
}

/// The line of a row: headword, definitions and appended values separated
/// by tabs, ended by a newline.
pub open spec fn line_of(row: (Seq<char>, Seq<Seq<char>>), appends: Seq<Seq<char>>) -> Seq<char> {
    row.0 + tabbed(row.1) + tabbed(appends) + seq!['\n']
}

/// The lines of all rows, in order.
pub open spec fn csv_of(rows: Seq<(Seq<char>, Seq<Seq<char>>)>, appends: Seq<Seq<char>>) -> Seq<
    char,
>
    decreases rows.len(),
{
    if rows.len() == 0 {
        Seq::empty()
    } else {
        csv_of(rows.drop_last(), appends) + line_of(rows.last(), appends)
    }
}

fn push_tabbed(out: &mut String, xs: &Vec<String>)
    ensures
        final(out)@ == old(out)@ + tabbed(seq_views(xs@)),
{
    proof {
        reveal_strlit("\t");
    }
    let ghost start = out@;
    let mut i: usize = 0;
    while i < xs.len()
        invariant
            "\t"@ == seq!['\t'],
            i <= xs@.len(),
            out@ == start + tabbed(seq_views(xs@.subrange(0, i as int))),
        decreases xs.len() - i,
    {
        out.append("\t");
        out.append(xs[i].as_str());
        assert(seq_views(xs@.subrange(0, i as int + 1)).drop_last() =~= seq_views(
            xs@.subrange(0, i as int),
        ));
        let ghost done = seq_views(xs@.subrange(0, i as int + 1));
        assert(done.last() == xs@[i as int]@);
        assert(tabbed(done) == tabbed(done.drop_last()) + seq!['\t'] + done.last());
        assert(out@ =~= start + tabbed(done));
        i = i + 1;
    }
    assert(xs@.subrange(0, xs@.len() as int) =~= xs@);
}

/// The rows as tab-separated lines, each followed by the appended values.
pub fn serialize(rows: &Vec<Row>, appends: &Vec<String>) -> (r: String)
    ensures
        r@ == csv_of(rows_view(rows@), seq_views(appends@)),
{
    proof {
        reveal_strlit("\n");
    }
    assert("\n"@ == seq!['\n']);
    let mut out = String::new();
    let mut i: usize = 0;
    while i < rows.len()
        invariant
            "\n"@ == seq!['\n'],
            i <= rows@.len(),
            out@ == csv_of(rows_view(rows@.subrange(0, i as int)), seq_views(appends@)),
        decreases rows.len() - i,
    {
        let row = &rows[i];
        out.append(row.headword.as_str());
        push_tabbed(&mut out, &row.definitions);
        push_tabbed(&mut out, appends);
        out.append("\n");
        assert(rows_view(rows@.subrange(0, i as int + 1)).drop_last() =~= rows_view(
            rows@.subrange(0, i as int),
        ));
        let ghost done = rows_view(rows@.subrange(0, i as int + 1));
        assert(done.last() == rows@[i as int]@);
        assert(csv_of(done, seq_views(appends@)) == csv_of(done.drop_last(), seq_views(appends@))
            + line_of(done.last(), seq_views(appends@)));
        assert(out@ =~= csv_of(done, seq_views(appends@)));
        i = i + 1;
    }
    assert(rows@.subrange(0, rows@.len() as int) =~= rows@);
    out
}

// ---------------------------------------------------------------------------
// The whole export

/// The text exported from the subtree at `root`.
pub open spec fn export_of(root: Point, prefixes: Seq<Seq<char>>, appends: Seq<Seq<char>>) -> Seq<
    char,
> {
    csv_of(rows_of(kids(root), prefixes), appends)
}

/// The outcome of exporting the node that `reference` names in `forest`:
/// the text, or the kind of failure.
pub open spec fn export_result(
    forest: Seq<Point>,
    reference: Seq<char>,
    prefixes: Seq<Seq<char>>,
    appends: Seq<Seq<char>>,
) -> Result<Seq<char>, ErrorKind> {
    match root_id_of(reference) {
        None => Err(ErrorKind::InvalidReference),
        Some(id) => match find_from(forest, 0, id) {
            None => Err(ErrorKind::NotFound),
            Some(p) => if rules_compile(prefixes) {
                Ok(export_of(p, prefixes, appends))
            } else {
                Err(ErrorKind::RuleCompilation)
            },
        },
    }
}

/// The view of an export's outcome: the text, or the kind of failure.
pub open spec fn result_view(r: Result<String, SerializerError>) -> Result<Seq<char>, ErrorKind> {
    match r {
        Ok(s) => Ok(s@),
        Err(e) => Err(e.kind),
    }
}

/// The subtree at `dictionary` as tab-separated text.
pub fn export_to_csv(export: &Export, dictionary: &Point) -> (r: Result<String, SerializerError>)
    ensures
        r is Err <==> !rules_compile(seq_views(export.prefix@)),
        r matches Err(e) ==> e.kind == ErrorKind::RuleCompilation,
        r matches Ok(s) ==> s@ == export_of(
            *dictionary,
            seq_views(export.prefix@),
            seq_views(export.append@),
        ),
{
    match extract(dictionary, &export.prefix) {
        Ok(rows) => Ok(serialize(&rows, &export.append)),
        Err(e) => Err(e),
    }
}

/// Exports the node of `dictionary` that `export.root` names.
pub fn print(export: &Export, dictionary: &Tree) -> (r: Result<String, SerializerError>)
    ensures
        result_view(r) == export_result(
            dictionary.project_tree_data.main_project_tree_info.root_project_children@,
            export.root@,
            seq_views(export.prefix@),
            seq_views(export.append@),
        ),
{
    let point_id = match extract_root_id(&export.root) {
        Some(id) => id,
        None => {
            let mut msg = String::from_str("Cannot extract root id from \"");
            msg.append(export.root.as_str());
            msg.append("\"");
            return Err(SerializerError { kind: ErrorKind::InvalidReference, msg });
        },
    };
    let root = match traverse_trees(
        &dictionary.project_tree_data.main_project_tree_info.root_project_children,
        &point_id,
    ) {
        Some(p) => p,
        None => {
            let mut msg = String::from_str("Cannot find root from id \"");
            msg.append(point_id.as_str());
            msg.append("\"");
            return Err(SerializerError { kind: ErrorKind::NotFound, msg });
        },
    };
    export_to_csv(export, root)
}

// ---------------------------------------------------------------------------
// Properties of the export

/// A bare identifier and a permalink ending in it name the same identifier,
/// so they export the same node with the same outcome.
pub proof fn lemma_permalink_same_as_id(
    forest: Seq<Point>,
    host: Seq<char>,
    id: Seq<char>,
    prefixes: Seq<Seq<char>>,
    appends: Seq<Seq<char>>,
)
    requires
        id.len() > 0,
        forall|k: int| 0 <= k < id.len() ==> id[k] != '/',
    ensures
        root_id_of(id) == Some(id),
        root_id_of(host + seq!['/'] + id) == Some(id),
        export_result(forest, host + seq!['/'] + id, prefixes, appends) == export_result(
            forest,
            id,
            prefixes,
            appends,
        ),
{
    let url = host + seq!['/'] + id;
    lemma_segment_of_tail(id, Seq::empty(), id);
    lemma_segment_of_tail(url, host + seq!['/'], id);
}

proof fn lemma_segment_of_tail(s: Seq<char>, head: Seq<char>, id: Seq<char>)
    requires
        s == head + id,
        id.len() > 0,
        forall|k: int| 0 <= k < id.len() ==> id[k] != '/',
        head.len() == 0 || head.last() == '/',
    ensures
        root_id_of(s) == Some(id),
{
    assert(s[s.len() - 1] == id[id.len() - 1]);
    assert(segment_end(s, s.len() as int) == s.len());
    lemma_segment_start(s, head.len() as int, s.len() as int);
    assert(s.subrange(head.len() as int, s.len() as int) =~= id);
}

proof fn lemma_segment_start(s: Seq<char>, lo: int, i: int)
    requires
        0 <= lo <= i <= s.len(),
        lo == 0 || s[lo - 1] == '/',
        forall|k: int| lo <= k < i ==> s[k] != '/',
    ensures
        segment_start(s, i) == lo,
    decreases i,
{
    if i > lo {
        lemma_segment_start(s, lo, i - 1);
    }
}

/// Where several trees hold a match, the first match of the earliest tree
/// that holds one is the node found.
pub proof fn lemma_first_match_wins(s: Seq<Point>, i: int, id: Seq<char>, q: Point)
    requires
        0 <= i < s.len(),
        find_in_point(s[i], id) == Some(q),
        forall|j: int| 0 <= j < i ==> (#[trigger] find_in_point(s[j], id)) is None,
    ensures
        find_from(s, 0, id) == Some(q),
{
    lemma_find_from_skips(s, 0, i, id);
}

proof fn lemma_find_from_skips(s: Seq<Point>, k: int, i: int, id: Seq<char>)
    requires
        0 <= k <= i < s.len(),
        forall|j: int| 0 <= j < i ==> (#[trigger] find_in_point(s[j], id)) is None,
    ensures
        find_from(s, k, id) == find_from(s, i, id),
    decreases i - k,
{
    if k < i {
        assert(find_in_point(s[k], id) is None);
        lemma_find_from_skips(s, k + 1, i, id);
    }
}

/// A word node without attribute nodes adds no row, whatever its content.
pub proof fn lemma_bare_word_skipped(words: Seq<Point>, word: Point, prefixes: Seq<Seq<char>>)
    requires
        !has_kids(word),
    ensures
        rows_of(words.push(word), prefixes) == rows_of(words, prefixes),
{
    assert(words.push(word).drop_last() =~= words);
    assert(rows_of(words, prefixes) + Seq::<(Seq<char>, Seq<Seq<char>>)>::empty() =~= rows_of(
        words,
        prefixes,
    ));
}

/// Content that two rules both match gives two definitions, in the order
/// of the rules.
pub proof fn lemma_two_rules_two_definitions(
    content: Seq<char>,
    first: Seq<char>,
    second: Seq<char>,
    d1: Seq<char>,
    d2: Seq<char>,
)
    requires
        candidate(content, first) == Some(d1),
        candidate(content, second) == Some(d2),
    ensures
        attr_defs(content, seq![first, second]) == seq![d1, d2],
{
    let rules = seq![first, second];
    assert(rules.drop_last() =~= seq![first]);
    assert(seq![first].drop_last() =~= Seq::<Seq<char>>::empty());
    assert(attr_defs(content, Seq::<Seq<char>>::empty()) == Seq::<Seq<char>>::empty());
    assert(seq![first].last() == first);
    assert(attr_defs(content, seq![first]) =~= seq![d1]);
    assert(rules.last() == second);
    assert(attr_defs(content, rules) =~= seq![d1, d2]);
}

/// A word whose only attribute node matches no rule still gives a row,
/// with no definition, rendered as the headword and the appended values.
pub proof fn lemma_unmatched_word_keeps_row(
    word: Point,
    prefixes: Seq<Seq<char>>,
    appends: Seq<Seq<char>>,
)
    requires
        kids(word).len() == 1,
        forall|i: int|
            0 <= i < prefixes.len() ==> (#[trigger] candidate(kids(word)[0].content@, prefixes[i]))
                is None,
    ensures
        word_row(word, prefixes) == seq![(trimmed(word.content@), Seq::<Seq<char>>::empty())],
        line_of((trimmed(word.content@), Seq::<Seq<char>>::empty()), appends) == trimmed(
            word.content@,
        ) + tabbed(appends) + seq!['\n'],
{
    let attrs = kids(word);
    lemma_no_candidate_no_defs(attrs[0].content@, prefixes);
    assert(attrs.drop_last() =~= Seq::<Point>::empty());
    assert(word_defs(Seq::<Point>::empty(), prefixes) == Seq::<Seq<char>>::empty());
    assert(attrs.last() == attrs[0]);
    assert(word_defs(attrs, prefixes) =~= Seq::<Seq<char>>::empty());
    assert(tabbed(Seq::<Seq<char>>::empty()) =~= Seq::<char>::empty());
    assert(trimmed(word.content@) + Seq::<char>::empty() =~= trimmed(word.content@));
}

proof fn lemma_no_candidate_no_defs(content: Seq<char>, prefixes: Seq<Seq<char>>)
    requires
        forall|i: int| 0 <= i < prefixes.len() ==> (#[trigger] candidate(content, prefixes[i])) is None,
    ensures
        attr_defs(content, prefixes) == Seq::<Seq<char>>::empty(),
    decreases prefixes.len(),
{
    if prefixes.len() > 0 {
        let rest = prefixes.drop_last();
        assert forall|i: int| 0 <= i < rest.len() implies (#[trigger] candidate(content, rest[i]))
            is None by {
            assert(rest[i] == prefixes[i]);
        }
        lemma_no_candidate_no_defs(content, rest);
        assert(candidate(content, prefixes[prefixes.len() - 1]) is None);
        assert(attr_defs(content, prefixes) =~= Seq::<Seq<char>>::empty());
    }
}

/// A reference that no node matches fails with `NotFound`, while a node
/// that is found but has no children exports as empty text.
pub proof fn lemma_not_found_differs_from_empty(
    forest: Seq<Point>,
    reference: Seq<char>,
    prefixes: Seq<Seq<char>>,
    appends: Seq<Seq<char>>,
)
    requires
        root_id_of(reference) is Some,
    ensures
        find_from(forest, 0, root_id_of(reference)->Some_0) is None ==> export_result(
            forest,
            reference,
            prefixes,
            appends,
        ) == Err::<Seq<char>, ErrorKind>(ErrorKind::NotFound),
        (find_from(forest, 0, root_id_of(reference)->Some_0) matches Some(p) && kids(p).len() == 0
            && rules_compile(prefixes)) ==> export_result(forest, reference, prefixes, appends)
            == Ok::<Seq<char>, ErrorKind>(Seq::empty()),
{
}

} // verus!
